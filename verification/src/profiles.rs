//! Profiles: each one is a data directory of its own for the web view, so its
//! session, its cookies and its databases are its own. One profile runs at a
//! time.
//!
//! Without profiles the store is empty, the web view stays in its default
//! directory, and nobody sees that profiles exist.

use crate::slug::{
    is_slug, is_taken, law_slug_is_free, lowered, lowers_as_ascii, slug_of, slugify,
};
use crate::text::{
    chars_of, control, eq_ignore_ascii_case, is_control, is_whitespace, law_trim_is_idempotent,
    law_trimming_takes_white_space_off, outcome, same_ignoring_ascii_case, text_of, texts, trim,
    trimmed,
};
use vstd::prelude::*;

verus! {

pub const MAX_NAME_LEN: usize = 24;

// ---------------------------------------------------------------------------
// The types
// ---------------------------------------------------------------------------

#[derive(Debug)]
pub struct Profile {
    pub name: String,
    pub slug: String,
}

impl Clone for Profile {
    fn clone(&self) -> (r: Self)
        ensures
            r == *self,
    {
        Profile { name: self.name.clone(), slug: self.slug.clone() }
    }
}

/// What `profiles.json` keeps.
///
/// Without `profiles` the app is in its legacy mode: no profiles, the default
/// directory, and a tray menu that only offers to add a profile.
#[derive(Debug)]
pub struct Store {
    pub profiles: Vec<Profile>,
    /// The slug of the active profile.
    pub active: Option<String>,
    /// The slug of the profile that takes over the default directory at the next
    /// start.
    pub pending_adopt: Option<String>,
    /// The welcome screen was answered and does not come back.
    pub onboarding_done: bool,
}

impl Default for Store {
    fn default() -> (r: Self)
        ensures
            r@ == legacy_store(),
    {
        let r = Store {
            profiles: Vec::new(),
            active: None,
            pending_adopt: None,
            onboarding_done: false,
        };
        assert(r@.profiles =~= Seq::<ProfileView>::empty());
        r
    }
}

/// What a profile says.
pub struct ProfileView {
    pub name: Seq<char>,
    pub slug: Seq<char>,
}

/// What a store says.
pub struct StoreView {
    pub profiles: Seq<ProfileView>,
    pub active: Option<Seq<char>>,
    pub pending_adopt: Option<Seq<char>>,
    pub onboarding_done: bool,
}

impl View for Profile {
    type V = ProfileView;

    open spec fn view(&self) -> ProfileView {
        ProfileView { name: self.name@, slug: self.slug@ }
    }
}

impl View for Store {
    type V = StoreView;

    open spec fn view(&self) -> StoreView {
        StoreView {
            profiles: profile_views(self.profiles@),
            active: text_of(self.active),
            pending_adopt: text_of(self.pending_adopt),
            onboarding_done: self.onboarding_done,
        }
    }
}

pub open spec fn profile_views(profiles: Seq<Profile>) -> Seq<ProfileView> {
    profiles.map_values(|p: Profile| p@)
}

/// The store of an app that has no profiles.
pub open spec fn legacy_store() -> StoreView {
    StoreView {
        profiles: Seq::empty(),
        active: None,
        pending_adopt: None,
        onboarding_done: false,
    }
}

/// The slugs of a list of profiles.
pub open spec fn slugs_of(profiles: Seq<ProfileView>) -> Seq<Seq<char>> {
    profiles.map_values(|p: ProfileView| p.slug)
}

/// The first profile with the given slug.
pub open spec fn with_slug(profiles: Seq<ProfileView>, slug: Seq<char>) -> Option<ProfileView>
    decreases profiles.len(),
{
    if profiles.len() == 0 {
        None
    } else if profiles.first().slug == slug {
        Some(profiles.first())
    } else {
        with_slug(profiles.drop_first(), slug)
    }
}

impl StoreView {
    pub open spec fn active_profile(self) -> Option<ProfileView> {
        match self.active {
            Some(slug) => with_slug(self.profiles, slug),
            None => None,
        }
    }

    pub open spec fn active_name(self) -> Option<Seq<char>> {
        match self.active_profile() {
            Some(p) => Some(p.name),
            None => None,
        }
    }
}

impl Clone for Store {
    fn clone(&self) -> (r: Self)
        ensures
            r@ == self@,
    {
        let mut profiles: Vec<Profile> = Vec::new();
        for i in 0..self.profiles.len()
            invariant
                profiles@ == self.profiles@.take(i as int),
        {
            profiles.push(self.profiles[i].clone());
            assert(self.profiles@.take(i + 1) =~= self.profiles@.take(i as int).push(
                self.profiles@[i as int],
            ));
        }
        assert(self.profiles@.take(self.profiles@.len() as int) =~= self.profiles@);
        Store {
            profiles,
            active: clone_text(&self.active),
            pending_adopt: clone_text(&self.pending_adopt),
            onboarding_done: self.onboarding_done,
        }
    }
}

fn clone_text(s: &Option<String>) -> (r: Option<String>)
    ensures
        r == *s,
{
    match s {
        Some(t) => Some(t.clone()),
        None => None,
    }
}

impl Store {
    pub fn active_profile(&self) -> (r: Option<&Profile>)
        ensures
            match r {
                Some(p) => self@.active_profile() == Some(p@),
                None => self@.active_profile() is None,
            },
    {
        match &self.active {
            Some(slug) => {
                let ghost all = self@.profiles;
                assert(all.skip(0) =~= all);
                for i in 0..self.profiles.len()
                    invariant
                        all == profile_views(self.profiles@),
                        text_of(self.active) == Some(slug@),
                        with_slug(all, slug@) == self@.active_profile(),
                        with_slug(all, slug@) == with_slug(all.skip(i as int), slug@),
                {
                    assert(all.skip(i as int).first() == self.profiles@[i as int]@);
                    assert(all.skip(i as int).drop_first() =~= all.skip(i + 1));
                    if self.profiles[i].slug == *slug {
                        return Some(&self.profiles[i]);
                    }
                }
                None
            },
            None => None,
        }
    }

    pub fn active_name(&self) -> (r: Option<&str>)
        ensures
            match r {
                Some(name) => self@.active_name() == Some(name@),
                None => self@.active_name() is None,
            },
    {
        match self.active_profile() {
            Some(p) => Some(p.name.as_str()),
            None => None,
        }
    }
}

// ---------------------------------------------------------------------------
// Names
// ---------------------------------------------------------------------------

pub open spec fn has_control(s: Seq<char>) -> bool {
    exists|i: int| 0 <= i < s.len() && is_control(#[trigger] s[i])
}

/// The name that an input gives, or the message that refuses it.
pub open spec fn validated(raw: Seq<char>) -> Result<Seq<char>, Seq<char>> {
    let name = trimmed(raw);
    if name.len() == 0 {
        Err("O nome não pode ficar em branco."@)
    } else if name.len() > MAX_NAME_LEN {
        Err("Use até 24 caracteres."@)
    } else if has_control(name) {
        Err("O nome tem caracteres inválidos."@)
    } else {
        Ok(name)
    }
}

/// Trims a name and refuses it where it is blank, too long or holds a control
/// character.
pub fn validate_name(raw: &str) -> (r: Result<String, String>)
    ensures
        outcome(r) == validated(raw@),
{
    let name = trim(raw);
    let chars = chars_of(name.as_str());
    if chars.len() == 0 {
        return Err("O nome não pode ficar em branco.".to_string());
    }
    if chars.len() > MAX_NAME_LEN {
        return Err("Use até 24 caracteres.".to_string());
    }
    for i in 0..chars.len()
        invariant
            chars@ == name@,
            name@ == trimmed(raw@),
            0 < name@.len() <= MAX_NAME_LEN,
            forall|j: int| 0 <= j < i ==> !is_control(#[trigger] name@[j]),
    {
        if control(chars[i]) {
            return Err("O nome tem caracteres inválidos.".to_string());
        }
    }
    Ok(name)
}

/// A name that was accepted once is accepted again, unchanged.
pub proof fn law_accepted_name_is_accepted_again(raw: Seq<char>)
    requires
        validated(raw) is Ok,
    ensures
        validated(validated(raw)->Ok_0) == validated(raw),
{
    law_trim_is_idempotent(raw);
}

// ---------------------------------------------------------------------------
// What every store that the library made satisfies
// ---------------------------------------------------------------------------

/// Profiles that can live beside each other: every slug has the form of a directory
/// name and no two are the same, and every name is one that validation accepts and
/// stands apart from the others.
pub open spec fn valid_profiles(profiles: Seq<ProfileView>) -> bool {
    &&& forall|i: int|
        0 <= i < profiles.len() ==> is_slug((#[trigger] profiles[i]).slug) && validated(
            profiles[i].name,
        ) == Ok::<Seq<char>, Seq<char>>(profiles[i].name)
    &&& forall|i: int, j: int|
        0 <= i < profiles.len() && 0 <= j < profiles.len() && i != j ==> (
        #[trigger] profiles[i]).slug != (#[trigger] profiles[j]).slug && !same_ignoring_ascii_case(
            profiles[i].name,
            profiles[j].name,
        )
}

impl StoreView {
    /// The profiles can live beside each other, one of them is active unless
    /// there is none, and what waits for the default directory is one of them.
    pub open spec fn valid(self) -> bool {
        &&& valid_profiles(self.profiles)
        &&& match self.active {
            Some(slug) => slugs_of(self.profiles).contains(slug),
            None => self.profiles.len() == 0,
        }
        &&& match self.pending_adopt {
            Some(slug) => slugs_of(self.profiles).contains(slug),
            None => true,
        }
    }
}

/// The store with one more profile, which becomes the active one.
pub open spec fn with_profile(s: StoreView, name: Seq<char>) -> StoreView {
    let slug = slug_of(name, slugs_of(s.profiles));
    StoreView {
        profiles: s.profiles.push(ProfileView { name, slug }),
        active: Some(slug),
        ..s
    }
}

/// Whether a profile has the given name, in whatever ASCII case.
pub open spec fn has_name(profiles: Seq<ProfileView>, name: Seq<char>) -> bool {
    exists|i: int|
        0 <= i < profiles.len() && same_ignoring_ascii_case((#[trigger] profiles[i]).name, name)
}

proof fn lemma_slugs_of_push(profiles: Seq<ProfileView>, p: ProfileView)
    ensures
        slugs_of(profiles.push(p)) == slugs_of(profiles).push(p.slug),
        slugs_of(profiles.push(p)).contains(p.slug),
        forall|s: Seq<char>|
            slugs_of(profiles).contains(s) ==> #[trigger] slugs_of(profiles.push(p)).contains(s),
{
    let before = slugs_of(profiles);
    let after = slugs_of(profiles.push(p));
    assert(after =~= before.push(p.slug));
    assert(after[after.len() - 1] == p.slug);
    assert forall|s: Seq<char>| before.contains(s) implies #[trigger] after.contains(s) by {
        let i = choose|i: int| 0 <= i < before.len() && before[i] == s;
        assert(after[i] == s);
    }
}

proof fn lemma_with_profile_is_valid(s: StoreView, name: Seq<char>)
    requires
        valid_profiles(s.profiles),
        validated(name) == Ok::<Seq<char>, Seq<char>>(name),
        !has_name(s.profiles, name),
        is_slug(slug_of(name, slugs_of(s.profiles))),
        !slugs_of(s.profiles).contains(slug_of(name, slugs_of(s.profiles))),
    ensures
        valid_profiles(with_profile(s, name).profiles),
        slugs_of(with_profile(s, name).profiles).contains(with_profile(s, name).active->0),
        forall|t: Seq<char>|
            slugs_of(s.profiles).contains(t) ==> #[trigger] slugs_of(
                with_profile(s, name).profiles,
            ).contains(t),
{
    let slug = slug_of(name, slugs_of(s.profiles));
    let p = ProfileView { name, slug };
    lemma_slugs_of_push(s.profiles, p);
    let all = s.profiles.push(p);
    assert forall|i: int, j: int| 0 <= i < all.len() && 0 <= j < all.len() && i != j implies (
    #[trigger] all[i]).slug != (#[trigger] all[j]).slug && !same_ignoring_ascii_case(
        all[i].name,
        all[j].name,
    ) by {
        if i == s.profiles.len() {
            assert(slugs_of(s.profiles)[j] == s.profiles[j].slug);
            assert(!same_ignoring_ascii_case(s.profiles[j].name, name));
        } else if j == s.profiles.len() {
            assert(slugs_of(s.profiles)[i] == s.profiles[i].slug);
            assert(!same_ignoring_ascii_case(s.profiles[i].name, name));
        }
    }
}

/// Adds a profile with a validated name, makes it the active one and gives back
/// its slug.
fn push_profile(store: &mut Store, name: String) -> (slug: String)
    ensures
        final(store)@ == with_profile(old(store)@, name@),
        final(store)@.active == Some(slug@),
        is_slug(slug@),
        !slugs_of(old(store)@.profiles).contains(slug@),
        lowers_as_ascii(name@),
{
    let slug = slugify(name.as_str(), store.profiles.as_slice());
    let ghost before = store.profiles@;
    let profile = Profile { name, slug: slug.clone() };
    store.profiles.push(profile);
    assert(profile_views(before.push(profile)) =~= profile_views(before).push(profile@));
    store.active = Some(slug.clone());
    slug
}

fn name_taken(profiles: &[Profile], name: &str) -> (r: bool)
    ensures
        r == has_name(profile_views(profiles@), name@),
{
    let ghost all = profile_views(profiles@);
    for i in 0..profiles.len()
        invariant
            all == profile_views(profiles@),
            forall|j: int|
                0 <= j < i ==> !same_ignoring_ascii_case((#[trigger] all[j]).name, name@),
    {
        assert(all[i as int] == profiles@[i as int]@);
        if eq_ignore_ascii_case(profiles[i].name.as_str(), name) {
            return true;
        }
    }
    false
}

// ---------------------------------------------------------------------------
// Adding, choosing and marking
// ---------------------------------------------------------------------------

/// The store after a request to add a profile, or the message that refuses it.
///
/// The first time the request also names the session that is already open: that
/// profile comes first, takes over the default directory, and leaves the new one
/// active.
pub open spec fn added(
    s: StoreView,
    current_name: Option<Seq<char>>,
    new_name: Seq<char>,
) -> Result<StoreView, Seq<char>> {
    if s.profiles.len() == 0 {
        match current_name {
            None => Err("Falta o nome do perfil atual."@),
            Some(raw) => match validated(raw) {
                Err(e) => Err(e),
                Ok(current) => match validated(new_name) {
                    Err(e) => Err(e),
                    Ok(new) => if same_ignoring_ascii_case(current, new) {
                        Err("Os dois perfis não podem ter o mesmo nome."@)
                    } else {
                        let first = with_profile(s, current);
                        let second = with_profile(first, new);
                        Ok(StoreView { pending_adopt: first.active, ..second })
                    },
                },
            },
        }
    } else {
        match validated(new_name) {
            Err(e) => Err(e),
            Ok(new) => if has_name(s.profiles, new) {
                Err("Já existe um perfil com esse nome."@)
            } else {
                Ok(with_profile(s, new))
            },
        }
    }
}

/// Adds a profile to the store. The directories are moved at the next start,
/// because the web view holds the one that is open now.
pub fn add(store: &mut Store, current_name: Option<String>, new_name: String) -> (r: Result<
    (),
    String,
>)
    ensures
        match added(old(store)@, text_of(current_name), new_name@) {
            Ok(s) => r is Ok && final(store)@ == s,
            Err(e) => r is Err && r->Err_0@ == e && final(store)@ == old(store)@,
        },
        old(store)@.valid() ==> final(store)@.valid(),
        r is Ok ==> lowers_as_ascii(validated(new_name@)->Ok_0),
        r is Ok && old(store)@.profiles.len() == 0 ==> lowers_as_ascii(
            validated(current_name->0@)->Ok_0,
        ),
{
    let ghost start = store@;
    if store.profiles.len() == 0 {
        let raw = match current_name {
            Some(raw) => raw,
            None => {
                return Err("Falta o nome do perfil atual.".to_string());
            },
        };
        let current = match validate_name(raw.as_str()) {
            Ok(name) => name,
            Err(e) => {
                return Err(e);
            },
        };
        let new = match validate_name(new_name.as_str()) {
            Ok(name) => name,
            Err(e) => {
                return Err(e);
            },
        };
        if eq_ignore_ascii_case(current.as_str(), new.as_str()) {
            return Err("Os dois perfis não podem ter o mesmo nome.".to_string());
        }
        proof {
            law_accepted_name_is_accepted_again(raw@);
            law_accepted_name_is_accepted_again(new_name@);
        }
        let ghost current_text = current@;
        let ghost new_text = new@;
        let current_slug = push_profile(store, current);
        let ghost first = store@;
        proof {
            lemma_with_profile_is_valid(start, current_text);
        }
        push_profile(store, new);
        proof {
            assert(first.profiles[0].name == current_text);
            assert(!has_name(first.profiles, new_text));
            lemma_with_profile_is_valid(first, new_text);
        }
        // The session of today belongs to the first profile from now on.
        store.pending_adopt = Some(current_slug);
        Ok(())
    } else {
        let new = match validate_name(new_name.as_str()) {
            Ok(name) => name,
            Err(e) => {
                return Err(e);
            },
        };
        if name_taken(store.profiles.as_slice(), new.as_str()) {
            return Err("Já existe um perfil com esse nome.".to_string());
        }
        proof {
            law_accepted_name_is_accepted_again(new_name@);
        }
        let ghost new_text = new@;
        push_profile(store, new);
        proof {
            if start.valid() {
                lemma_with_profile_is_valid(start, new_text);
            }
        }
        Ok(())
    }
}

/// The store after a request for the first profile, or the message that refuses
/// it. That profile owns the session that is open, so it is the active one and
/// the one that takes over the default directory.
pub open spec fn first_created(s: StoreView, name: Seq<char>) -> Result<StoreView, Seq<char>> {
    if s.profiles.len() > 0 {
        Err("Já existem perfis criados."@)
    } else {
        match validated(name) {
            Err(e) => Err(e),
            Ok(valid_name) => {
                let t = with_profile(s, valid_name);
                Ok(StoreView { pending_adopt: t.active, onboarding_done: true, ..t })
            },
        }
    }
}

/// Creates the first profile from the welcome screen.
pub fn create_first_in(store: &mut Store, name: &str) -> (r: Result<(), String>)
    ensures
        match first_created(old(store)@, name@) {
            Ok(s) => r is Ok && final(store)@ == s,
            Err(e) => r is Err && r->Err_0@ == e && final(store)@ == old(store)@,
        },
        old(store)@.valid() ==> final(store)@.valid(),
        r is Ok ==> lowers_as_ascii(validated(name@)->Ok_0),
{
    if store.profiles.len() > 0 {
        return Err("Já existem perfis criados.".to_string());
    }
    let ghost start = store@;
    let valid_name = match validate_name(name) {
        Ok(valid_name) => valid_name,
        Err(e) => {
            return Err(e);
        },
    };
    proof {
        law_accepted_name_is_accepted_again(name@);
    }
    let ghost text = valid_name@;
    let slug = push_profile(store, valid_name);
    proof {
        lemma_with_profile_is_valid(start, text);
    }
    store.pending_adopt = Some(slug);
    store.onboarding_done = true;
    Ok(())
}

/// Records that the welcome screen was answered, and creates nothing.
pub fn mark_onboarding_done(store: &mut Store)
    ensures
        final(store)@ == (StoreView { onboarding_done: true, ..old(store)@ }),
        old(store)@.valid() ==> final(store)@.valid(),
{
    store.onboarding_done = true;
}

/// Makes the profile with the given slug the active one.
pub fn set_active(store: &mut Store, slug: &str) -> (r: Result<(), String>)
    ensures
        slugs_of(old(store)@.profiles).contains(slug@) ==> r is Ok && final(store)@ == (StoreView {
            active: Some(slug@),
            ..old(store)@
        }),
        !slugs_of(old(store)@.profiles).contains(slug@) ==> r is Err && r->Err_0@
            == "Perfil inexistente."@ && final(store)@ == old(store)@,
        old(store)@.valid() ==> final(store)@.valid(),
{
    if !is_taken(slug, store.profiles.as_slice()) {
        return Err("Perfil inexistente.".to_string());
    }
    store.active = Some(slug.to_string());
    Ok(())
}

/// Whether the dialog that adds a profile must also ask for the name of the
/// session that is open: only the first time, when there is no profile yet.
pub fn needs_current_name(store: &Store) -> (r: bool)
    ensures
        r == (store@.profiles.len() == 0),
{
    store.profiles.len() == 0
}

/// The store to start with: what the file says, and the legacy mode where it
/// could not be read.
pub fn load(contents: Option<Store>) -> (r: Store)
    ensures
        match contents {
            Some(store) => r == store,
            None => r@ == legacy_store(),
        },
{
    match contents {
        Some(store) => store,
        None => Store::default(),
    }
}

// ---------------------------------------------------------------------------
// Where the sessions live
// ---------------------------------------------------------------------------

/// The directory of a profile, as the names of the directories that lead to it
/// from the data directory of the app.
pub open spec fn profile_path(slug: Seq<char>) -> Seq<Seq<char>> {
    seq!["profiles"@, slug]
}

pub fn profile_dir(slug: &str) -> (r: Vec<String>)
    ensures
        texts(r@) == profile_path(slug@),
{
    let mut path: Vec<String> = Vec::new();
    path.push("profiles".to_string());
    path.push(slug.to_string());
    assert(texts(path@) =~= profile_path(slug@));
    path
}

/// The directory of the web view for the active profile, below the data directory
/// of the app. In the legacy mode there is none, and the web view keeps its
/// default.
pub open spec fn data_path(s: StoreView) -> Option<Seq<Seq<char>>> {
    if s.profiles.len() == 0 {
        None
    } else {
        match s.active {
            Some(slug) => Some(profile_path(slug)),
            None => None,
        }
    }
}

/// The directory of the web view for the active profile.
pub fn data_dir(store: &Store) -> (r: Option<Vec<String>>)
    ensures
        match r {
            Some(path) => data_path(store@) == Some(texts(path@)),
            None => data_path(store@) is None,
        },
{
    if store.profiles.len() == 0 {
        return None;
    }
    match &store.active {
        Some(slug) => Some(profile_dir(slug.as_str())),
        None => None,
    }
}

/// A name that stays where it is put: it is not empty, holds no separator of any
/// system, and does not lead to another directory.
pub open spec fn stays_put(name: Seq<char>) -> bool {
    &&& name.len() > 0
    &&& !name.contains('/')
    &&& !name.contains('\\')
    &&& !name.contains(':')
    &&& !name.contains('.')
}

/// Two profiles never share a directory.
pub proof fn law_profiles_have_separate_directories(s: StoreView, i: int, j: int)
    requires
        s.valid(),
        0 <= i < s.profiles.len(),
        0 <= j < s.profiles.len(),
        i != j,
    ensures
        profile_path(s.profiles[i].slug) != profile_path(s.profiles[j].slug),
{
    let a = profile_path(s.profiles[i].slug);
    let b = profile_path(s.profiles[j].slug);
    assert(s.profiles[i].slug != s.profiles[j].slug);
    assert(a[1] != b[1]);
}

/// The directory of a profile lies two levels below the data directory of the
/// app, whatever the profile is called.
pub proof fn law_directories_stay_inside(s: StoreView, i: int, k: int)
    requires
        s.valid(),
        0 <= i < s.profiles.len(),
        0 <= k < profile_path(s.profiles[i].slug).len(),
    ensures
        profile_path(s.profiles[i].slug).len() == 2,
        stays_put(profile_path(s.profiles[i].slug)[k]),
{
    let slug = s.profiles[i].slug;
    assert(is_slug(slug));
    reveal_strlit("profiles");
    let name = profile_path(slug)[k];
    assert forall|c: char| c == '/' || c == '\\' || c == ':' || c == '.' implies !name.contains(
        c,
    ) by {
        if name.contains(c) {
            let n = choose|n: int| 0 <= n < name.len() && name[n] == c;
            assert(name[n] == c);
        }
    }
}

// ---------------------------------------------------------------------------
// Laws of the store
// ---------------------------------------------------------------------------

/// The store that an app starts with is valid.
pub proof fn law_legacy_store_is_valid()
    ensures
        legacy_store().valid(),
{
}

proof fn lemma_with_slug_of_push(profiles: Seq<ProfileView>, p: ProfileView)
    requires
        !slugs_of(profiles).contains(p.slug),
    ensures
        with_slug(profiles.push(p), p.slug) == Some(p),
    decreases profiles.len(),
{
    if profiles.len() > 0 {
        assert(slugs_of(profiles)[0] == profiles[0].slug);
        let rest = profiles.drop_first();
        assert forall|s: Seq<char>| slugs_of(rest).contains(s) implies slugs_of(profiles).contains(
            s,
        ) by {
            let i = choose|i: int| 0 <= i < slugs_of(rest).len() && slugs_of(rest)[i] == s;
            assert(slugs_of(profiles)[i + 1] == s);
        }
        lemma_with_slug_of_push(rest, p);
        assert(profiles.push(p).drop_first() =~= rest.push(p));
    } else {
        assert(profiles.push(p).first() == p);
    }
}

/// A profile that was just added is the active one, under the name that was asked
/// for, and the profiles that were there before are still there, in their places.
pub proof fn law_added_profile_is_active(
    s: StoreView,
    current_name: Option<Seq<char>>,
    new_name: Seq<char>,
)
    requires
        added(s, current_name, new_name) is Ok,
    ensures
        added(s, current_name, new_name)->Ok_0.active_name() == Some(validated(new_name)->Ok_0),
        s.profiles.is_prefix_of(added(s, current_name, new_name)->Ok_0.profiles),
{
    let t = added(s, current_name, new_name)->Ok_0;
    let new = validated(new_name)->Ok_0;
    let before = if s.profiles.len() == 0 {
        with_profile(s, validated(current_name->0)->Ok_0)
    } else {
        s
    };
    let taken = slugs_of(before.profiles);
    law_slug_is_free(lowered(new), taken);
    lemma_with_slug_of_push(before.profiles, ProfileView { name: new, slug: slug_of(new, taken) });
    assert(s.profiles =~= t.profiles.take(s.profiles.len() as int));
}

/// The first time, the session that is open goes to a profile of its own, which
/// is not the one that opens next.
pub proof fn law_first_addition_keeps_the_open_session(
    s: StoreView,
    current_name: Option<Seq<char>>,
    new_name: Seq<char>,
)
    requires
        s.profiles.len() == 0,
        added(s, current_name, new_name) is Ok,
    ensures
        ({
            let t = added(s, current_name, new_name)->Ok_0;
            &&& t.profiles.len() == 2
            &&& current_name is Some
            &&& validated(current_name->0) == Ok::<Seq<char>, Seq<char>>(t.profiles[0].name)
            &&& validated(new_name) == Ok::<Seq<char>, Seq<char>>(t.profiles[1].name)
            &&& t.pending_adopt == Some(t.profiles[0].slug)
            &&& t.active == Some(t.profiles[1].slug)
            &&& t.profiles[0].slug != t.profiles[1].slug
        }),
{
    let current = validated(current_name->0)->Ok_0;
    let new = validated(new_name)->Ok_0;
    let first = with_profile(s, current);
    let taken = slugs_of(first.profiles);
    law_slug_is_free(lowered(new), taken);
    assert(taken[0] == first.profiles[0].slug);
}

/// The profile of the welcome screen is active and takes over the session that
/// is open.
pub proof fn law_first_profile_owns_the_open_session(s: StoreView, name: Seq<char>)
    requires
        first_created(s, name) is Ok,
    ensures
        ({
            let t = first_created(s, name)->Ok_0;
            &&& t.profiles.len() == 1
            &&& t.active == Some(t.profiles[0].slug)
            &&& t.pending_adopt == t.active
            &&& t.active_name() == Some(validated(name)->Ok_0)
            &&& t.onboarding_done
        }),
{
}

/// What was added can be chosen: every profile of a valid store is found by its
/// slug, and is the one found.
pub proof fn law_every_profile_can_be_chosen(s: StoreView, i: int)
    requires
        s.valid(),
        0 <= i < s.profiles.len(),
    ensures
        slugs_of(s.profiles).contains(s.profiles[i].slug),
        (StoreView { active: Some(s.profiles[i].slug), ..s }).active_profile() == Some(
            s.profiles[i],
        ),
{
    assert(slugs_of(s.profiles)[i] == s.profiles[i].slug);
    lemma_with_slug_finds(s.profiles, i);
}

proof fn lemma_with_slug_finds(profiles: Seq<ProfileView>, i: int)
    requires
        valid_profiles(profiles),
        0 <= i < profiles.len(),
    ensures
        with_slug(profiles, profiles[i].slug) == Some(profiles[i]),
    decreases i,
{
    if i > 0 {
        let rest = profiles.drop_first();
        assert forall|a: int, b: int| 0 <= a < rest.len() && 0 <= b < rest.len() && a != b implies (
        #[trigger] rest[a]).slug != (#[trigger] rest[b]).slug && !same_ignoring_ascii_case(
            rest[a].name,
            rest[b].name,
        ) by {
            assert(profiles[a + 1].slug != profiles[b + 1].slug);
        }
        assert(rest[i - 1] == profiles[i]);
        assert(profiles[0].slug != profiles[i].slug);
        lemma_with_slug_finds(rest, i - 1);
    }
}

// ---------------------------------------------------------------------------
// Laws of what is accepted, and of what changes
// ---------------------------------------------------------------------------

/// A view of a profile, of a list of them and of a store leaves nothing out.
pub proof fn law_store_tells_everything(store: Store, i: int)
    ensures
        store@.profiles.len() == store.profiles@.len(),
        0 <= i < store.profiles@.len() ==> store@.profiles[i].name == store.profiles@[i].name@
            && store@.profiles[i].slug == store.profiles@[i].slug@,
        store@.active is Some <==> store.active is Some,
        store.active is Some ==> store@.active->0 == store.active->0@,
        store@.pending_adopt is Some <==> store.pending_adopt is Some,
        store.pending_adopt is Some ==> store@.pending_adopt->0 == store.pending_adopt->0@,
        store@.onboarding_done == store.onboarding_done,
        profile_views(store.profiles@) == store@.profiles,
{
}

/// The slugs of a list are those of its profiles, each in its place, and the legacy
/// store is empty throughout.
pub proof fn law_slugs_stand_in_their_places(profiles: Seq<ProfileView>, i: int)
    ensures
        slugs_of(profiles).len() == profiles.len(),
        0 <= i < profiles.len() ==> slugs_of(profiles)[i] == profiles[i].slug,
        legacy_store().profiles.len() == 0,
        legacy_store().active is None,
        legacy_store().pending_adopt is None,
        !legacy_store().onboarding_done,
        MAX_NAME_LEN == 24,
{
}

/// The active profile is the first one with the active slug, and there is none where
/// no profile has it; its name is the active name.
pub proof fn law_active_profile_is_the_first_with_its_slug(s: StoreView, i: int)
    ensures
        s.active is None ==> s.active_profile() is None && s.active_name() is None,
        s.active is Some && 0 <= i < s.profiles.len() && s.profiles[i].slug == s.active->0 && (
        forall|j: int| 0 <= j < i ==> (#[trigger] s.profiles[j]).slug != s.active->0)
            ==> s.active_profile() == Some(s.profiles[i]) && s.active_name() == Some(
            s.profiles[i].name,
        ),
        s.active is Some && (forall|j: int|
            0 <= j < s.profiles.len() ==> (#[trigger] s.profiles[j]).slug != s.active->0)
            ==> s.active_profile() is None && s.active_name() is None,
{
    if s.active is Some {
        lemma_first_with_slug(s.profiles, s.active->0, i);
    }
}

proof fn lemma_first_with_slug(profiles: Seq<ProfileView>, slug: Seq<char>, i: int)
    ensures
        0 <= i < profiles.len() && profiles[i].slug == slug && (forall|j: int|
            0 <= j < i ==> (#[trigger] profiles[j]).slug != slug) ==> with_slug(profiles, slug)
            == Some(profiles[i]),
        (forall|j: int| 0 <= j < profiles.len() ==> (#[trigger] profiles[j]).slug != slug)
            ==> with_slug(profiles, slug) is None,
    decreases profiles.len(),
{
    if profiles.len() > 0 {
        let rest = profiles.drop_first();
        lemma_first_with_slug(rest, slug, i - 1);
        assert(profiles.first() == profiles[0]);
        if 0 < i < profiles.len() && forall|j: int|
            0 <= j < i ==> (#[trigger] profiles[j]).slug != slug {
            assert(profiles[0].slug != slug);
            assert forall|j: int| 0 <= j < i - 1 implies (#[trigger] rest[j]).slug != slug by {
                assert(profiles[j + 1].slug != slug);
            }
        }
        if forall|j: int| 0 <= j < profiles.len() ==> (#[trigger] profiles[j]).slug != slug {
            assert(profiles[0].slug != slug);
            assert forall|j: int| 0 <= j < rest.len() implies (#[trigger] rest[j]).slug != slug by {
                assert(profiles[j + 1].slug != slug);
            }
        }
    }
}

/// Every name of 1 to 24 characters is accepted, whatever white space stands around
/// it, unless a control character stands in it.
pub proof fn law_names_that_are_accepted(before: Seq<char>, name: Seq<char>, after: Seq<char>)
    requires
        forall|i: int| 0 <= i < before.len() ==> is_whitespace(#[trigger] before[i]),
        forall|i: int| 0 <= i < after.len() ==> is_whitespace(#[trigger] after[i]),
        1 <= name.len() <= 24,
        !is_whitespace(name[0]) && !is_whitespace(name[name.len() - 1]),
        forall|i: int|
            0 <= i < name.len() ==> #[trigger] name[i] > '\u{1f}' && (name[i] < '\u{7f}' || name[i]
                > '\u{9f}'),
    ensures
        validated(before + name + after) == Ok::<Seq<char>, Seq<char>>(name),
{
    law_trimming_takes_white_space_off(before, name, after);
    if has_control(name) {
        let i = choose|i: int| 0 <= i < name.len() && is_control(#[trigger] name[i]);
        assert(name[i] > '\u{1f}');
    }
}

/// A name is refused where nothing but white space is left of it, where it is longer
/// than 24 characters, and where a control character stands in it, in this order; each
/// refusal says why.
pub proof fn law_names_that_are_refused(raw: Seq<char>, i: int)
    ensures
        ({
            let name = trimmed(raw);
            &&& name.len() == 0 ==> validated(raw) == Err::<Seq<char>, Seq<char>>(
                "O nome não pode ficar em branco."@,
            )
            &&& name.len() > 24 ==> validated(raw) == Err::<Seq<char>, Seq<char>>(
                "Use até 24 caracteres."@,
            )
            &&& 0 <= i < name.len() <= 24 && (name[i] <= '\u{1f}' || '\u{7f}' <= name[i]
                <= '\u{9f}') ==> validated(raw) == Err::<Seq<char>, Seq<char>>(
                "O nome tem caracteres inválidos."@,
            )
        }),
{
    let name = trimmed(raw);
    if 0 <= i < name.len() && (name[i] <= '\u{1f}' || '\u{7f}' <= name[i] <= '\u{9f}') {
        assert(is_control(name[i]));
    }
}

/// With profiles there, a valid name that none of them has is added behind them under
/// a slug of its own and becomes the active one; nothing else changes. The name of the
/// open session is not asked for.
pub proof fn law_later_addition(
    s: StoreView,
    current_name: Option<Seq<char>>,
    new_name: Seq<char>,
)
    requires
        s.profiles.len() > 0,
        validated(new_name) is Ok,
        forall|i: int|
            0 <= i < s.profiles.len() ==> !same_ignoring_ascii_case(
                (#[trigger] s.profiles[i]).name,
                validated(new_name)->Ok_0,
            ),
    ensures
        ({
            let name = validated(new_name)->Ok_0;
            let slug = slug_of(name, slugs_of(s.profiles));
            let r = added(s, current_name, new_name);
            &&& r is Ok
            &&& r->Ok_0.profiles == s.profiles.push(ProfileView { name, slug })
            &&& r->Ok_0.active == Some(slug)
            &&& r->Ok_0.pending_adopt == s.pending_adopt
            &&& r->Ok_0.onboarding_done == s.onboarding_done
        }),
{
}

/// Without profiles, two valid names that differ are added, that of the open session
/// first; the first waits for the session and the second becomes active.
pub proof fn law_first_addition(s: StoreView, current_name: Seq<char>, new_name: Seq<char>)
    requires
        s.profiles.len() == 0,
        validated(current_name) is Ok,
        validated(new_name) is Ok,
        !same_ignoring_ascii_case(validated(current_name)->Ok_0, validated(new_name)->Ok_0),
    ensures
        ({
            let first = validated(current_name)->Ok_0;
            let second = validated(new_name)->Ok_0;
            let first_slug = slug_of(first, Seq::empty());
            let second_slug = slug_of(second, seq![first_slug]);
            let r = added(s, Some(current_name), new_name);
            &&& r is Ok
            &&& r->Ok_0.profiles == seq![
                ProfileView { name: first, slug: first_slug },
                ProfileView { name: second, slug: second_slug },
            ]
            &&& r->Ok_0.active == Some(second_slug)
            &&& r->Ok_0.pending_adopt == Some(first_slug)
            &&& r->Ok_0.onboarding_done == s.onboarding_done
        }),
{
    let first = validated(current_name)->Ok_0;
    let t = with_profile(s, first);
    assert(slugs_of(s.profiles) =~= Seq::<Seq<char>>::empty());
    assert(slugs_of(t.profiles) =~= seq![slug_of(first, Seq::empty())]);
    let r = added(s, Some(current_name), new_name)->Ok_0;
    assert(r.profiles =~= seq![r.profiles[0], r.profiles[1]]);
}

/// An addition is refused for what is wrong with it, and each refusal says what.
pub proof fn law_refused_additions(
    s: StoreView,
    current_name: Seq<char>,
    new_name: Seq<char>,
    i: int,
)
    ensures
        s.profiles.len() == 0 ==> {
            &&& added(s, None, new_name) == Err::<StoreView, Seq<char>>(
                "Falta o nome do perfil atual."@,
            )
            &&& validated(current_name) is Err ==> added(s, Some(current_name), new_name) == Err::<
                StoreView,
                Seq<char>,
            >(validated(current_name)->Err_0)
            &&& validated(current_name) is Ok && validated(new_name) is Err ==> added(
                s,
                Some(current_name),
                new_name,
            ) == Err::<StoreView, Seq<char>>(validated(new_name)->Err_0)
            &&& validated(current_name) is Ok && validated(new_name) is Ok
                && same_ignoring_ascii_case(
                validated(current_name)->Ok_0,
                validated(new_name)->Ok_0,
            ) ==> added(s, Some(current_name), new_name) == Err::<StoreView, Seq<char>>(
                "Os dois perfis não podem ter o mesmo nome."@,
            )
        },
        s.profiles.len() > 0 ==> {
            &&& validated(new_name) is Err ==> added(s, Some(current_name), new_name) == Err::<
                StoreView,
                Seq<char>,
            >(validated(new_name)->Err_0) && added(s, None, new_name) == Err::<
                StoreView,
                Seq<char>,
            >(validated(new_name)->Err_0)
            &&& validated(new_name) is Ok && 0 <= i < s.profiles.len() && same_ignoring_ascii_case(
                s.profiles[i].name,
                validated(new_name)->Ok_0,
            ) ==> added(s, Some(current_name), new_name) == Err::<StoreView, Seq<char>>(
                "Já existe um perfil com esse nome."@,
            ) && added(s, None, new_name) == Err::<StoreView, Seq<char>>(
                "Já existe um perfil com esse nome."@,
            )
        },
{
}

/// The welcome screen creates one profile from a valid name where there is none, and
/// refuses to where there is one or the name is not valid.
pub proof fn law_welcome_screen(s: StoreView, name: Seq<char>)
    ensures
        s.profiles.len() > 0 ==> first_created(s, name) == Err::<StoreView, Seq<char>>(
            "Já existem perfis criados."@,
        ),
        s.profiles.len() == 0 && validated(name) is Err ==> first_created(s, name) == Err::<
            StoreView,
            Seq<char>,
        >(validated(name)->Err_0),
        s.profiles.len() == 0 && validated(name) is Ok ==> {
            let slug = slug_of(validated(name)->Ok_0, Seq::empty());
            let r = first_created(s, name);
            &&& r is Ok
            &&& r->Ok_0.profiles == seq![ProfileView { name: validated(name)->Ok_0, slug }]
            &&& r->Ok_0.active == Some(slug)
            &&& r->Ok_0.pending_adopt == Some(slug)
            &&& r->Ok_0.onboarding_done
        },
{
    if s.profiles.len() == 0 && validated(name) is Ok {
        assert(slugs_of(s.profiles) =~= Seq::<Seq<char>>::empty());
        let r = first_created(s, name)->Ok_0;
        assert(r.profiles =~= seq![r.profiles[0]]);
    }
}

/// With profiles, the web view keeps the session of the active one in the directory of
/// its slug; without any, or without an active one, it keeps its default.
pub proof fn law_session_of_the_active_profile(s: StoreView, slug: Seq<char>)
    ensures
        profile_path(slug) == seq!["profiles"@, slug],
        s.profiles.len() > 0 && s.active == Some(slug) ==> data_path(s) == Some(
            seq!["profiles"@, slug],
        ),
        s.profiles.len() == 0 || s.active is None ==> data_path(s) is None,
{
}

} // verus!
