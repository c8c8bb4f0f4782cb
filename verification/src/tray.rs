//! The tray: its menu, what a click in it does, and the texts that name the
//! active profile.

use crate::profiles::{slugs_of, ProfileView, Store, StoreView};
use crate::text::{law_prefix_comes_off, str_eq, str_text, strip_prefix, stripped_prefix, text_of};
use vstd::prelude::*;

verus! {

/// What the identity of the entry of a profile begins with.
pub const PROFILE_PREFIX: &'static str = "profile:";

#[derive(Debug)]
pub enum MenuEntry {
    Item { id: String, label: String },
    Check { id: String, label: String, checked: bool },
    Separator,
}

/// What an entry of the menu says.
pub enum MenuEntryView {
    Item { id: Seq<char>, label: Seq<char> },
    Check { id: Seq<char>, label: Seq<char>, checked: bool },
    Separator,
}

impl View for MenuEntry {
    type V = MenuEntryView;

    open spec fn view(&self) -> MenuEntryView {
        match self {
            MenuEntry::Item { id, label } => MenuEntryView::Item { id: id@, label: label@ },
            MenuEntry::Check { id, label, checked } => MenuEntryView::Check {
                id: id@,
                label: label@,
                checked: *checked,
            },
            MenuEntry::Separator => MenuEntryView::Separator,
        }
    }
}

pub open spec fn entry_views(entries: Seq<MenuEntry>) -> Seq<MenuEntryView> {
    entries.map_values(|e: MenuEntry| e@)
}

// ---------------------------------------------------------------------------
// The menu
// ---------------------------------------------------------------------------

/// The entry of a profile, checked where the profile is the active one.
pub open spec fn profile_entry(p: ProfileView, active: Option<Seq<char>>) -> MenuEntryView {
    MenuEntryView::Check {
        id: PROFILE_PREFIX@ + p.slug,
        label: p.name,
        checked: active == Some(p.slug),
    }
}

pub open spec fn profile_entries(s: StoreView) -> Seq<MenuEntryView> {
    s.profiles.map_values(|p: ProfileView| profile_entry(p, s.active))
}

/// The menu: one entry for each profile, between the entry that opens the window
/// and the one that adds a profile. Who has no profiles sees only the latter.
pub open spec fn menu_for(s: StoreView, autostart: bool) -> Seq<MenuEntryView> {
    seq![
        MenuEntryView::Item { id: "show"@, label: "Abrir"@ },
        MenuEntryView::Separator,
    ] + profile_entries(s) + seq![
        MenuEntryView::Item { id: "add_profile"@, label: "Adicionar perfil…"@ },
        MenuEntryView::Separator,
        MenuEntryView::Check {
            id: "autostart"@,
            label: "Iniciar com o sistema"@,
            checked: autostart,
        },
        MenuEntryView::Item { id: "quit"@, label: "Sair"@ },
    ]
}

fn item(id: &str, label: &str) -> (r: MenuEntry)
    ensures
        r@ == (MenuEntryView::Item { id: id@, label: label@ }),
{
    MenuEntry::Item { id: id.to_string(), label: label.to_string() }
}

fn is_active(active: &Option<String>, slug: &String) -> (r: bool)
    ensures
        r == (text_of(*active) == Some(slug@)),
{
    match active {
        Some(a) => *a == *slug,
        None => false,
    }
}

fn push_entry(menu: &mut Vec<MenuEntry>, entry: MenuEntry)
    ensures
        entry_views(final(menu)@) == entry_views(old(menu)@).push(entry@),
{
    let ghost before = menu@;
    menu.push(entry);
    assert(entry_views(before.push(entry)) =~= entry_views(before).push(entry@));
}

/// The menu of the tray. A missing answer about the start with the system counts
/// as no.
pub fn tray_menu(store: &Store, autostart: Option<bool>) -> (r: Vec<MenuEntry>)
    ensures
        entry_views(r@) == menu_for(store@, autostart == Some(true)),
{
    let mut menu: Vec<MenuEntry> = Vec::new();
    assert(entry_views(menu@) =~= Seq::<MenuEntryView>::empty());
    push_entry(&mut menu, item("show", "Abrir"));
    push_entry(&mut menu, MenuEntry::Separator);
    let ghost head = seq![
        MenuEntryView::Item { id: "show"@, label: "Abrir"@ },
        MenuEntryView::Separator,
    ];
    let ghost all = profile_entries(store@);
    assert(entry_views(menu@) =~= head + all.take(0));
    for i in 0..store.profiles.len()
        invariant
            all == profile_entries(store@),
            entry_views(menu@) == head + all.take(i as int),
    {
        let profile = &store.profiles[i];
        let mut id = PROFILE_PREFIX.to_string();
        id.append(profile.slug.as_str());
        let checked = is_active(&store.active, &profile.slug);
        assert(store@.profiles[i as int] == profile@);
        push_entry(&mut menu, MenuEntry::Check { id, label: profile.name.clone(), checked });
        assert(entry_views(menu@) =~= head + all.take(i + 1));
    }
    assert(all.take(all.len() as int) =~= all);
    push_entry(&mut menu, item("add_profile", "Adicionar perfil…"));
    push_entry(&mut menu, MenuEntry::Separator);
    push_entry(
        &mut menu,
        MenuEntry::Check {
            id: "autostart".to_string(),
            label: "Iniciar com o sistema".to_string(),
            checked: autostart.unwrap_or(false),
        },
    );
    push_entry(&mut menu, item("quit", "Sair"));
    assert(entry_views(menu@) =~= menu_for(store@, autostart == Some(true)));
    menu
}

// ---------------------------------------------------------------------------
// Clicks
// ---------------------------------------------------------------------------

/// What a click in the menu asks for.
#[derive(Debug)]
pub enum MenuAction {
    /// The profile is active already: check its entry again and do nothing else.
    KeepProfile(String),
    /// Make the profile with this slug the active one and start again.
    SwitchProfile(String),
    AddProfile,
    Show,
    Quit,
    ToggleAutostart,
    Nothing,
}

/// What an action says.
pub enum MenuActionView {
    KeepProfile(Seq<char>),
    SwitchProfile(Seq<char>),
    AddProfile,
    Show,
    Quit,
    ToggleAutostart,
    Nothing,
}

impl View for MenuAction {
    type V = MenuActionView;

    open spec fn view(&self) -> MenuActionView {
        match self {
            MenuAction::KeepProfile(slug) => MenuActionView::KeepProfile(slug@),
            MenuAction::SwitchProfile(slug) => MenuActionView::SwitchProfile(slug@),
            MenuAction::AddProfile => MenuActionView::AddProfile,
            MenuAction::Show => MenuActionView::Show,
            MenuAction::Quit => MenuActionView::Quit,
            MenuAction::ToggleAutostart => MenuActionView::ToggleAutostart,
            MenuAction::Nothing => MenuActionView::Nothing,
        }
    }
}

/// What a click on the entry with the given identity asks for.
pub open spec fn action_of(id: Seq<char>, active: Option<Seq<char>>) -> MenuActionView {
    match stripped_prefix(id, PROFILE_PREFIX@) {
        Some(slug) => if active == Some(slug) {
            MenuActionView::KeepProfile(slug)
        } else {
            MenuActionView::SwitchProfile(slug)
        },
        None => if id == "add_profile"@ {
            MenuActionView::AddProfile
        } else if id == "show"@ {
            MenuActionView::Show
        } else if id == "quit"@ {
            MenuActionView::Quit
        } else if id == "autostart"@ {
            MenuActionView::ToggleAutostart
        } else {
            MenuActionView::Nothing
        },
    }
}

pub fn menu_action(id: &str, active: Option<&str>) -> (r: MenuAction)
    ensures
        r@ == action_of(id@, str_text(active)),
{
    match strip_prefix(id, PROFILE_PREFIX) {
        Some(slug) => {
            let keeps = match active {
                Some(a) => str_eq(a, slug.as_str()),
                None => false,
            };
            if keeps {
                MenuAction::KeepProfile(slug)
            } else {
                MenuAction::SwitchProfile(slug)
            }
        },
        None => if str_eq(id, "add_profile") {
            MenuAction::AddProfile
        } else if str_eq(id, "show") {
            MenuAction::Show
        } else if str_eq(id, "quit") {
            MenuAction::Quit
        } else if str_eq(id, "autostart") {
            MenuAction::ToggleAutostart
        } else {
            MenuAction::Nothing
        },
    }
}

/// Whether a click on the entry turns the start with the system on. A missing
/// answer about it counts as off.
pub fn autostart_after_toggle(enabled: Option<bool>) -> (r: bool)
    ensures
        r == (enabled != Some(true)),
{
    !enabled.unwrap_or(false)
}

// ---------------------------------------------------------------------------
// Texts
// ---------------------------------------------------------------------------

/// The name of the app, with that of the active profile behind it where there is
/// one: it is too easy to type into the wrong window.
pub open spec fn titled(app: Seq<char>, profile: Option<Seq<char>>) -> Seq<char> {
    match profile {
        Some(name) => app + " — "@ + name,
        None => app,
    }
}

fn title_with(app: &str, profile: Option<&str>) -> (r: String)
    ensures
        r@ == titled(app@, str_text(profile)),
{
    let mut title = app.to_string();
    match profile {
        Some(name) => {
            title.append(" — ");
            title.append(name);
        },
        None => {},
    }
    title
}

/// The title of the main window.
pub fn window_title(profile: Option<&str>) -> (r: String)
    ensures
        r@ == titled("WhatsAppLite"@, str_text(profile)),
{
    title_with("WhatsAppLite", profile)
}

/// The text that the tray shows under the pointer.
pub fn tray_tooltip(store: &Store) -> (r: String)
    ensures
        r@ == titled("WhatsApp Lite"@, store@.active_name()),
{
    title_with("WhatsApp Lite", store.active_name())
}

// ---------------------------------------------------------------------------
// Laws of the menu
// ---------------------------------------------------------------------------

/// The entry of a profile leads to that profile: it keeps the profile where the
/// entry is checked, and switches to it where it is not.
pub proof fn law_profile_entry_leads_to_its_profile(p: ProfileView, active: Option<Seq<char>>)
    ensures
        action_of(profile_entry(p, active)->Check_id, active) == if profile_entry(
            p,
            active,
        )->checked {
            MenuActionView::KeepProfile(p.slug)
        } else {
            MenuActionView::SwitchProfile(p.slug)
        },
{
    let id = PROFILE_PREFIX@ + p.slug;
    assert(id.take(PROFILE_PREFIX@.len() as int) =~= PROFILE_PREFIX@);
    assert(id.skip(PROFILE_PREFIX@.len() as int) =~= p.slug);
}

/// The entries that are always there keep their meaning, whatever profile is
/// active.
pub proof fn law_fixed_entries_keep_their_meaning(active: Option<Seq<char>>)
    ensures
        action_of("show"@, active) == MenuActionView::Show,
        action_of("add_profile"@, active) == MenuActionView::AddProfile,
        action_of("autostart"@, active) == MenuActionView::ToggleAutostart,
        action_of("quit"@, active) == MenuActionView::Quit,
{
    reveal_strlit("profile:");
    reveal_strlit("show");
    reveal_strlit("add_profile");
    reveal_strlit("autostart");
    reveal_strlit("quit");
    assert("show"@[0] != "profile:"@[0]);
    assert("add_profile"@[0] != "profile:"@[0]);
    assert("autostart"@[0] != "profile:"@[0]);
    assert("quit"@[0] != "profile:"@[0]);
    assert("show"@.len() != "add_profile"@.len());
    assert("autostart"@.len() != "add_profile"@.len());
    assert("autostart"@.len() != "show"@.len());
    assert("autostart"@.len() != "quit"@.len());
    assert("quit"@.len() != "add_profile"@.len());
    assert("quit"@[0] != "show"@[0]);
}

/// In a valid store with profiles one entry is checked, and only one.
pub proof fn law_one_profile_is_checked(s: StoreView)
    requires
        s.valid(),
        s.profiles.len() > 0,
    ensures
        exists|i: int|
            0 <= i < s.profiles.len() && (#[trigger] profile_entries(s)[i])->checked,
        forall|i: int, j: int|
            0 <= i < s.profiles.len() && 0 <= j < s.profiles.len() && (
            #[trigger] profile_entries(s)[i])->checked && (#[trigger] profile_entries(
                s,
            )[j])->checked ==> i == j,
{
    let slugs = slugs_of(s.profiles);
    let i = choose|i: int| 0 <= i < slugs.len() && slugs[i] == s.active->0;
    assert(profile_entries(s)[i] == profile_entry(s.profiles[i], s.active));
    assert(profile_entries(s)[i]->checked);
    assert forall|a: int, b: int|
        0 <= a < s.profiles.len() && 0 <= b < s.profiles.len() && (
        #[trigger] profile_entries(s)[a])->checked && (#[trigger] profile_entries(
            s,
        )[b])->checked implies a == b by {
        assert(s.profiles[a].slug == s.profiles[b].slug);
    }
}

/// The menu by its places: the window first, then the profiles in their order, then
/// the entry that adds one, and at the end the start with the system and the exit.
pub proof fn law_menu_by_its_places(s: StoreView, autostart: bool, i: int)
    requires
        0 <= i < s.profiles.len(),
    ensures
        ({
            let menu = menu_for(s, autostart);
            let n = s.profiles.len() as int;
            &&& menu.len() == n + 6
            &&& menu[0] == (MenuEntryView::Item { id: "show"@, label: "Abrir"@ })
            &&& menu[1] is Separator
            &&& menu[2 + i] == (MenuEntryView::Check {
                id: "profile:"@ + s.profiles[i].slug,
                label: s.profiles[i].name,
                checked: s.active == Some(s.profiles[i].slug),
            })
            &&& menu[n + 2] == (MenuEntryView::Item {
                id: "add_profile"@,
                label: "Adicionar perfil…"@,
            })
            &&& menu[n + 3] is Separator
            &&& menu[n + 4] == (MenuEntryView::Check {
                id: "autostart"@,
                label: "Iniciar com o sistema"@,
                checked: autostart,
            })
            &&& menu[n + 5] == (MenuEntryView::Item { id: "quit"@, label: "Sair"@ })
        }),
{
}

/// Without profiles the menu has the six entries that are always there.
pub proof fn law_menu_without_profiles(s: StoreView, autostart: bool)
    requires
        s.profiles.len() == 0,
    ensures
        menu_for(s, autostart) == seq![
            MenuEntryView::Item { id: "show"@, label: "Abrir"@ },
            MenuEntryView::Separator,
            MenuEntryView::Item { id: "add_profile"@, label: "Adicionar perfil…"@ },
            MenuEntryView::Separator,
            MenuEntryView::Check {
                id: "autostart"@,
                label: "Iniciar com o sistema"@,
                checked: autostart,
            },
            MenuEntryView::Item { id: "quit"@, label: "Sair"@ },
        ],
{
    assert(profile_entries(s).len() == 0);
}

/// A click on the entry of a profile switches to that profile, whatever it is called,
/// unless it is the active one, which stays.
pub proof fn law_click_on_a_profile(slug: Seq<char>, active: Option<Seq<char>>)
    ensures
        active == Some(slug) ==> action_of("profile:"@ + slug, active)
            == MenuActionView::KeepProfile(slug),
        active != Some(slug) ==> action_of("profile:"@ + slug, active)
            == MenuActionView::SwitchProfile(slug),
{
    law_prefix_comes_off("profile:"@ + slug, "profile:"@, slug);
}

/// An entry that is none of the menu's does nothing.
pub proof fn law_unknown_entry_does_nothing(id: Seq<char>, active: Option<Seq<char>>)
    requires
        forall|slug: Seq<char>| id != #[trigger] ("profile:"@ + slug),
        id != "show"@,
        id != "add_profile"@,
        id != "autostart"@,
        id != "quit"@,
    ensures
        action_of(id, active) is Nothing,
{
    law_prefix_comes_off(id, "profile:"@, Seq::empty());
    if stripped_prefix(id, "profile:"@) is Some {
        assert(id == "profile:"@ + stripped_prefix(id, "profile:"@)->0);
    }
}

/// A title is the name of the app, and with a profile the dash and its whole name
/// behind it.
pub proof fn law_title_names_the_profile(app: Seq<char>, name: Seq<char>)
    ensures
        titled(app, None) == app,
        titled(app, Some(name)) == app + " — "@ + name,
        PROFILE_PREFIX@ == "profile:"@,
{
}

/// A view of an entry, of a menu and of an action leaves nothing out.
pub proof fn law_menu_tells_everything(entries: Seq<MenuEntry>, i: int, action: MenuAction)
    requires
        0 <= i < entries.len(),
    ensures
        entry_views(entries).len() == entries.len(),
        entries[i] matches MenuEntry::Item { id, label } ==> entry_views(entries)[i] == (
        MenuEntryView::Item { id: id@, label: label@ }),
        entries[i] matches MenuEntry::Check { id, label, checked } ==> entry_views(entries)[i] == (
        MenuEntryView::Check { id: id@, label: label@, checked }),
        entries[i] is Separator ==> entry_views(entries)[i] is Separator,
        action matches MenuAction::KeepProfile(slug) ==> action@ == MenuActionView::KeepProfile(
            slug@,
        ),
        action matches MenuAction::SwitchProfile(slug) ==> action@ == MenuActionView::SwitchProfile(
            slug@,
        ),
        action is AddProfile <==> action@ is AddProfile,
        action is Show <==> action@ is Show,
        action is Quit <==> action@ is Quit,
        action is ToggleAutostart <==> action@ is ToggleAutostart,
        action is Nothing <==> action@ is Nothing,
{
}

} // verus!
