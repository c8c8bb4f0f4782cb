use whatsapp_lite::profiles::{
    self, create_first_in, data_dir, load, mark_onboarding_done, needs_current_name, profile_dir,
    set_active, validate_name, Profile, Store, MAX_NAME_LEN,
};
use whatsapp_lite::slug::{is_taken, slugify, slugify_lowered};

fn profile(name: &str, slug: &str) -> Profile {
    Profile {
        name: name.to_string(),
        slug: slug.to_string(),
    }
}

#[test]
fn slug_normaliza_e_desambigua() {
    assert_eq!(slugify("Levi Raniere", &[]), "levi-raniere");
    assert_eq!(slugify("  Dra. Ana  ", &[]), "dra-ana");
    assert_eq!(slugify("!!!", &[]), "perfil");
    let taken = vec![profile("Ana", "ana")];
    assert_eq!(slugify("ana", &taken), "ana-2");
}

#[test]
fn nome_invalido_e_recusado() {
    assert!(validate_name("  ").is_err());
    assert!(validate_name(&"a".repeat(MAX_NAME_LEN + 1)).is_err());
    assert_eq!(validate_name("  Levi  ").unwrap(), "Levi");
}

#[test]
fn primeiro_perfil_adota_a_sessao_atual() {
    let mut store = Store::default();
    create_first_in(&mut store, "  Levi  ").unwrap();

    assert_eq!(store.profiles.len(), 1);
    assert_eq!(store.profiles[0].name, "Levi");
    assert_eq!(store.active.as_deref(), Some("levi"));
    // The profile must take over the session that is open, which would
    // otherwise be orphaned in the default directory.
    assert_eq!(store.pending_adopt.as_deref(), Some("levi"));
    assert!(store.onboarding_done);
}

#[test]
fn primeiro_perfil_recusa_quando_ja_existe_algum() {
    let mut store = Store {
        profiles: vec![profile("Ana", "ana")],
        ..Store::default()
    };
    assert!(create_first_in(&mut store, "Levi").is_err());
    assert_eq!(store.profiles.len(), 1);
}

fn two_profiles() -> Store {
    let mut store = Store::default();
    profiles::add(&mut store, Some("Ana".to_string()), "Levi".to_string()).unwrap();
    store
}

fn slugs(store: &Store) -> Vec<String> {
    store.profiles.iter().map(|p| p.slug.clone()).collect()
}

#[test]
fn slug_counts_up_to_the_first_free_number() {
    let taken = vec![
        profile("a", "ana"),
        profile("b", "ana-2"),
        profile("c", "ana-4"),
    ];
    assert_eq!(slugify("Ana", &taken), "ana-3");
    let many: Vec<Profile> = (1..12)
        .map(|n| {
            if n == 1 {
                profile("x", "x")
            } else {
                profile("x", &format!("x-{n}"))
            }
        })
        .collect();
    assert_eq!(slugify("x", &many), "x-12");
}

#[test]
fn slug_of_names_beyond_ascii() {
    assert_eq!(slugify("João Ávila", &[]), "jo-o-vila");
    assert_eq!(slugify("日本語", &[]), "perfil");
    assert_eq!(slugify("--a--b--", &[]), "a-b");
    // The Kelvin sign has the ASCII letter for its lower case.
    assert_eq!(slugify("\u{212a}", &[]), "k");
    let taken = vec![profile("?", "perfil")];
    assert_eq!(slugify("???", &taken), "perfil-2");
}

#[test]
fn slug_is_safe_for_every_character() {
    for c in (0..=0x10ffffu32).filter_map(char::from_u32) {
        let name: String = [c].iter().collect();
        let mut expected = String::new();
        let mut gap = false;
        for l in c.to_lowercase() {
            if l.is_ascii_lowercase() || l.is_ascii_digit() {
                if gap && !expected.is_empty() {
                    expected.push('-');
                }
                gap = false;
                expected.push(l);
            } else {
                assert!(!l.is_ascii_uppercase());
                gap = true;
            }
        }
        if expected.is_empty() {
            expected.push_str("perfil");
        }
        assert_eq!(slugify(&name, &[]), expected);
    }
}

#[test]
fn slug_of_lower_case_characters() {
    let lower: Vec<char> = "dra. ana".chars().collect();
    assert_eq!(slugify_lowered(&lower, &[]), "dra-ana");
    assert!(is_taken("ana", &[profile("Ana", "ana")]));
    assert!(!is_taken("an", &[profile("Ana", "ana")]));
}

#[test]
fn names_are_refused_with_their_reasons() {
    assert_eq!(
        validate_name(" \t\u{3000} ").unwrap_err(),
        "O nome não pode ficar em branco."
    );
    assert_eq!(
        validate_name(&"é".repeat(25)).unwrap_err(),
        "Use até 24 caracteres."
    );
    assert_eq!(validate_name(&"é".repeat(24)).unwrap(), "é".repeat(24));
    assert_eq!(
        validate_name("a\u{7}b").unwrap_err(),
        "O nome tem caracteres inválidos."
    );
    // An accepted name is accepted again.
    assert_eq!(validate_name("Levi R").unwrap(), "Levi R");
}

#[test]
fn first_addition_names_the_open_session_too() {
    let store = two_profiles();
    assert_eq!(slugs(&store), vec!["ana", "levi"]);
    assert_eq!(store.profiles[0].name, "Ana");
    assert_eq!(store.pending_adopt.as_deref(), Some("ana"));
    assert_eq!(store.active.as_deref(), Some("levi"));
    assert_eq!(store.active_name(), Some("Levi"));
    assert!(!store.onboarding_done);
}

#[test]
fn first_addition_is_refused_without_two_names() {
    let mut store = Store::default();
    assert_eq!(
        profiles::add(&mut store, None, "Levi".to_string()).unwrap_err(),
        "Falta o nome do perfil atual."
    );
    assert_eq!(
        profiles::add(&mut store, Some(" ".to_string()), "Levi".to_string()).unwrap_err(),
        "O nome não pode ficar em branco."
    );
    assert_eq!(
        profiles::add(&mut store, Some("Ana".to_string()), "\u{1}x".to_string()).unwrap_err(),
        "O nome tem caracteres inválidos."
    );
    assert_eq!(
        profiles::add(&mut store, Some("ana".to_string()), " ANA ".to_string()).unwrap_err(),
        "Os dois perfis não podem ter o mesmo nome."
    );
    assert!(store.profiles.is_empty());
    assert_eq!(store.active, None);
    assert_eq!(store.pending_adopt, None);
}

#[test]
fn names_that_slug_alike_get_their_own_directories() {
    let mut store = Store::default();
    profiles::add(&mut store, Some("A b".to_string()), "a-b".to_string()).unwrap();
    assert_eq!(slugs(&store), vec!["a-b", "a-b-2"]);
    profiles::add(&mut store, None, "A.B".to_string()).unwrap();
    assert_eq!(slugs(&store), vec!["a-b", "a-b-2", "a-b-3"]);
    assert_eq!(store.active.as_deref(), Some("a-b-3"));
    // What waits for the open session is not touched by later additions.
    assert_eq!(store.pending_adopt.as_deref(), Some("a-b"));
}

#[test]
fn later_addition_refuses_a_name_that_is_taken() {
    let mut store = two_profiles();
    assert_eq!(
        profiles::add(&mut store, Some("x".to_string()), "ANA".to_string()).unwrap_err(),
        "Já existe um perfil com esse nome."
    );
    assert_eq!(slugs(&store), vec!["ana", "levi"]);
    assert_eq!(store.active.as_deref(), Some("levi"));
    profiles::add(&mut store, None, "Bia".to_string()).unwrap();
    assert_eq!(store.active_name(), Some("Bia"));
}

#[test]
fn welcome_screen_refusals() {
    let mut store = Store::default();
    assert_eq!(
        create_first_in(&mut store, "").unwrap_err(),
        "O nome não pode ficar em branco."
    );
    assert!(!store.onboarding_done);
    create_first_in(&mut store, "Ana").unwrap();
    assert_eq!(
        create_first_in(&mut store, "Levi").unwrap_err(),
        "Já existem perfis criados."
    );
    assert_eq!(store.active_name(), Some("Ana"));
}

#[test]
fn switching_needs_an_existing_profile() {
    let mut store = two_profiles();
    set_active(&mut store, "ana").unwrap();
    assert_eq!(store.active_profile().unwrap().name, "Ana");
    assert_eq!(
        set_active(&mut store, "bia").unwrap_err(),
        "Perfil inexistente."
    );
    assert_eq!(store.active.as_deref(), Some("ana"));
}

#[test]
fn answered_welcome_screen_creates_nothing() {
    let mut store = Store::default();
    mark_onboarding_done(&mut store);
    assert!(store.onboarding_done);
    assert!(store.profiles.is_empty());
    assert!(needs_current_name(&store));
    assert!(!needs_current_name(&two_profiles()));
}

#[test]
fn unreadable_file_means_legacy_mode() {
    let store = load(None);
    assert!(store.profiles.is_empty());
    assert_eq!(store.active, None);
    assert_eq!(store.pending_adopt, None);
    assert!(!store.onboarding_done);
    assert_eq!(load(Some(two_profiles())).active.as_deref(), Some("levi"));
}

#[test]
fn every_profile_has_its_own_directory() {
    let mut store = two_profiles();
    assert_eq!(data_dir(&store).unwrap(), vec!["profiles", "levi"]);
    set_active(&mut store, "ana").unwrap();
    assert_eq!(data_dir(&store).unwrap(), vec!["profiles", "ana"]);
    assert_eq!(data_dir(&Store::default()), None);
    assert_eq!(profile_dir("x-2"), vec!["profiles", "x-2"]);
}

#[test]
fn stale_active_slug_has_no_profile() {
    let mut store = two_profiles();
    store.active = Some("gone".to_string());
    assert!(store.active_profile().is_none());
    assert_eq!(store.active_name(), None);
}

#[test]
fn copies_say_the_same() {
    let store = two_profiles();
    let copy = store.clone();
    assert_eq!(slugs(&copy), slugs(&store));
    assert_eq!(copy.active, store.active);
    assert_eq!(copy.pending_adopt, store.pending_adopt);
    assert_eq!(store.profiles[1].clone().name, "Levi");
}

#[test]
fn legacy_mode_keeps_the_default_directory() {
    let mut store = Store::default();
    store.active = Some("ana".to_string());
    assert_eq!(data_dir(&store), None);
}

#[test]
fn slug_joins_the_runs_of_a_name_by_one_dash() {
    for name in ["a  --  b", "--a", "a--", "é", "a.b.c", "1 _ 2"] {
        let slug = slugify(name, &[]);
        assert!(!slug.contains("--"));
        assert!(!slug.starts_with('-') && !slug.ends_with('-'));
        let letters: String = name.chars().filter(|c| c.is_ascii_alphanumeric()).collect();
        let kept: String = slug.chars().filter(|c| *c != '-').collect();
        assert!(kept == letters || (letters.is_empty() && slug == "perfil"));
    }
}
