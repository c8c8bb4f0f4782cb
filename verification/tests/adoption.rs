use whatsapp_lite::adoption::{
    adopt_pending, legacy_dir, needs_move, pending_adoption, AdoptionStep, MAX_ATTEMPTS,
    RETRY_PAUSE_MS,
};
use whatsapp_lite::profiles::{self, create_first_in, data_dir, Store};

fn waiting_store() -> Store {
    let mut store = Store::default();
    profiles::add(&mut store, Some("Ana".to_string()), "Levi".to_string()).unwrap();
    store
}

#[test]
fn hand_over_waits_for_a_known_directory() {
    let store = waiting_store();
    assert!(pending_adoption(&store, false).is_none());
    assert!(pending_adoption(&Store::default(), true).is_none());
    let adoption = pending_adoption(&store, true).unwrap();
    assert_eq!(adoption.slug, "ana");
    assert_eq!(adoption.failures, 0);
}

#[test]
fn hand_over_goes_into_the_directory_of_its_profile() {
    let adoption = pending_adoption(&waiting_store(), true).unwrap();
    assert_eq!(legacy_dir(), vec!["EBWebView"]);
    assert_eq!(adoption.destination_parent(), vec!["profiles", "ana"]);
    assert_eq!(adoption.destination(), vec!["profiles", "ana", "EBWebView"]);
}

#[test]
fn only_a_session_that_is_still_there_is_moved() {
    assert!(needs_move(false, true));
    assert!(!needs_move(true, true));
    assert!(!needs_move(false, false));
    assert!(!needs_move(true, false));
}

#[test]
fn hand_over_gives_up_after_five_tries() {
    let mut adoption = pending_adoption(&waiting_store(), true).unwrap();
    for _ in 0..4 {
        assert_eq!(adoption.attempted(false), AdoptionStep::Retry);
    }
    assert_eq!(adoption.attempted(false), AdoptionStep::GiveUp);
    assert_eq!(MAX_ATTEMPTS, 5);
    assert_eq!(RETRY_PAUSE_MS, 250);
}

#[test]
fn hand_over_ends_with_the_first_success() {
    let mut adoption = pending_adoption(&waiting_store(), true).unwrap();
    assert_eq!(adoption.attempted(false), AdoptionStep::Retry);
    assert_eq!(adoption.attempted(true), AdoptionStep::Done);
}

#[test]
fn success_keeps_the_profiles_and_clears_the_wait() {
    let mut store = waiting_store();
    adopt_pending(&mut store, Ok(())).unwrap();
    assert_eq!(store.pending_adopt, None);
    assert_eq!(store.active.as_deref(), Some("levi"));
    assert_eq!(store.profiles.len(), 2);
    assert!(pending_adoption(&store, true).is_none());
}

#[test]
fn failure_goes_back_to_the_legacy_mode() {
    let mut store = waiting_store();
    store.onboarding_done = true;
    let message = adopt_pending(&mut store, Err("acesso negado".to_string())).unwrap_err();
    assert_eq!(
        message,
        "Não foi possível separar a sessão atual em um perfil (acesso negado). Nada foi perdido: o app abriu como antes. Tente de novo."
    );
    assert!(store.profiles.is_empty());
    assert_eq!(store.active, None);
    assert_eq!(store.pending_adopt, None);
    assert!(!store.onboarding_done);
}

#[test]
fn nothing_ends_where_nothing_waited() {
    let mut store = waiting_store();
    adopt_pending(&mut store, Ok(())).unwrap();
    adopt_pending(&mut store, Err("tarde demais".to_string())).unwrap();
    assert_eq!(store.profiles.len(), 2);
    assert_eq!(store.active.as_deref(), Some("levi"));
}

#[test]
fn first_profile_opens_where_the_session_went() {
    let mut store = Store::default();
    create_first_in(&mut store, "Levi").unwrap();
    let adoption = pending_adoption(&store, true).unwrap();
    adopt_pending(&mut store, Ok(())).unwrap();
    let mut opened = data_dir(&store).unwrap();
    opened.extend(legacy_dir());
    assert_eq!(adoption.destination(), opened);
}

#[test]
fn second_profile_opens_elsewhere() {
    let mut store = waiting_store();
    let adoption = pending_adoption(&store, true).unwrap();
    adopt_pending(&mut store, Ok(())).unwrap();
    let mut opened = data_dir(&store).unwrap();
    opened.extend(legacy_dir());
    assert_ne!(adoption.destination(), opened);
}
