use whatsapp_lite::profiles::{self, set_active, Store};
use whatsapp_lite::tray::{
    autostart_after_toggle, menu_action, tray_menu, tray_tooltip, window_title, MenuAction,
    MenuEntry,
};

fn two_profiles() -> Store {
    let mut store = Store::default();
    profiles::add(&mut store, Some("Ana".to_string()), "Levi".to_string()).unwrap();
    store
}

fn shown(entry: &MenuEntry) -> String {
    match entry {
        MenuEntry::Item { id, label } => format!("{id}|{label}"),
        MenuEntry::Check { id, label, checked } => format!("{id}|{label}|{checked}"),
        MenuEntry::Separator => "-".to_string(),
    }
}

#[test]
fn menu_without_profiles_only_offers_to_add_one() {
    let menu: Vec<String> = tray_menu(&Store::default(), None).iter().map(shown).collect();
    assert_eq!(
        menu,
        vec![
            "show|Abrir",
            "-",
            "add_profile|Adicionar perfil…",
            "-",
            "autostart|Iniciar com o sistema|false",
            "quit|Sair",
        ]
    );
}

#[test]
fn menu_checks_the_active_profile() {
    let menu: Vec<String> = tray_menu(&two_profiles(), Some(true)).iter().map(shown).collect();
    assert_eq!(
        menu,
        vec![
            "show|Abrir",
            "-",
            "profile:ana|Ana|false",
            "profile:levi|Levi|true",
            "add_profile|Adicionar perfil…",
            "-",
            "autostart|Iniciar com o sistema|true",
            "quit|Sair",
        ]
    );
}

#[test]
fn profile_entries_lead_to_their_profiles() {
    let mut store = two_profiles();
    match menu_action("profile:levi", store.active.as_deref()) {
        MenuAction::KeepProfile(slug) => assert_eq!(slug, "levi"),
        other => panic!("{other:?}"),
    }
    match menu_action("profile:ana", store.active.as_deref()) {
        MenuAction::SwitchProfile(slug) => set_active(&mut store, &slug).unwrap(),
        other => panic!("{other:?}"),
    }
    assert_eq!(store.active_name(), Some("Ana"));
    assert!(matches!(
        menu_action("profile:ana", None),
        MenuAction::SwitchProfile(_)
    ));
}

#[test]
fn fixed_entries_keep_their_meaning() {
    assert!(matches!(menu_action("show", None), MenuAction::Show));
    assert!(matches!(menu_action("quit", Some("quit")), MenuAction::Quit));
    assert!(matches!(menu_action("add_profile", None), MenuAction::AddProfile));
    assert!(matches!(menu_action("autostart", None), MenuAction::ToggleAutostart));
    assert!(matches!(menu_action("profile", None), MenuAction::Nothing));
}

#[test]
fn autostart_toggles() {
    assert!(!autostart_after_toggle(Some(true)));
    assert!(autostart_after_toggle(Some(false)));
    assert!(autostart_after_toggle(None));
}

#[test]
fn texts_name_the_active_profile() {
    assert_eq!(window_title(Some("Ana")), "WhatsAppLite — Ana");
    assert_eq!(window_title(None), "WhatsAppLite");
    assert_eq!(tray_tooltip(&two_profiles()), "WhatsApp Lite — Levi");
    assert_eq!(tray_tooltip(&Store::default()), "WhatsApp Lite");
}
