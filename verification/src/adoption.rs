//! Handing the session of the default directory over to the first profile. It
//! happens at a start, before any window exists, since the web view locks its
//! directory while it is open.

use crate::profiles::{
    added, data_path, first_created, law_first_addition_keeps_the_open_session, legacy_store,
    profile_dir, profile_path, Store, StoreView,
};
use crate::text::texts;
use vstd::prelude::*;

verus! {

/// How often the move is tried. A scanner can hold the directory for a moment
/// after the process before has ended.
pub const MAX_ATTEMPTS: u32 = 5;

/// The pause between two tries, in milliseconds.
pub const RETRY_PAUSE_MS: u64 = 250;

/// The directory that the web view keeps its session in, below its data
/// directory.
pub const SESSION_DIR: &'static str = "EBWebView";

/// A hand-over that is in progress.
#[derive(Debug)]
pub struct Adoption {
    /// The slug of the profile that takes the session over.
    pub slug: String,
    /// How many tries have failed.
    pub failures: u32,
}

#[derive(Clone, Copy, Debug, PartialEq, Eq, Structural)]
pub enum AdoptionStep {
    Done,
    /// Pause and try again.
    Retry,
    GiveUp,
}

/// The session in its old place, below the data directory of the app.
pub open spec fn legacy_path() -> Seq<Seq<char>> {
    seq![SESSION_DIR@]
}

/// The session in its new place, below the data directory of the app.
pub open spec fn session_path(slug: Seq<char>) -> Seq<Seq<char>> {
    profile_path(slug).push(SESSION_DIR@)
}

/// What follows a try, after so many failures before it.
pub open spec fn step_after(failures: u32, moved: bool) -> AdoptionStep {
    if moved {
        AdoptionStep::Done
    } else if failures + 1 < MAX_ATTEMPTS {
        AdoptionStep::Retry
    } else {
        AdoptionStep::GiveUp
    }
}

/// The failures after a try.
pub open spec fn failures_after(failures: u32, moved: bool) -> u32 {
    if step_after(failures, moved) == AdoptionStep::Retry {
        (failures + 1) as u32
    } else {
        failures
    }
}

/// The hand-over that waits, where one does and the data directory is known.
pub fn pending_adoption(store: &Store, base_known: bool) -> (r: Option<Adoption>)
    ensures
        r is Some == (base_known && store@.pending_adopt is Some),
        r matches Some(a) ==> store@.pending_adopt == Some(a.slug@) && a.failures == 0,
{
    match &store.pending_adopt {
        Some(slug) => if base_known {
            Some(Adoption { slug: slug.clone(), failures: 0 })
        } else {
            None
        },
        None => None,
    }
}

impl Adoption {
    /// Takes in how a try went and says what follows.
    pub fn attempted(&mut self, moved: bool) -> (r: AdoptionStep)
        ensures
            r == step_after(old(self).failures, moved),
            final(self).failures == failures_after(old(self).failures, moved),
            final(self).slug == old(self).slug,
    {
        if moved {
            AdoptionStep::Done
        } else if self.failures < MAX_ATTEMPTS - 1 {
            self.failures = self.failures + 1;
            AdoptionStep::Retry
        } else {
            AdoptionStep::GiveUp
        }
    }

    /// The directory that takes the session in.
    pub fn destination_parent(&self) -> (r: Vec<String>)
        ensures
            texts(r@) == profile_path(self.slug@),
    {
        profile_dir(self.slug.as_str())
    }

    /// The session in its new place.
    pub fn destination(&self) -> (r: Vec<String>)
        ensures
            texts(r@) == session_path(self.slug@),
    {
        let mut path = profile_dir(self.slug.as_str());
        let ghost parent = path@;
        let last = SESSION_DIR.to_string();
        path.push(last);
        assert(texts(path@) =~= texts(parent).push(last@));
        path
    }
}

/// The session in its old place.
pub fn legacy_dir() -> (r: Vec<String>)
    ensures
        texts(r@) == legacy_path(),
{
    let mut path: Vec<String> = Vec::new();
    path.push(SESSION_DIR.to_string());
    assert(texts(path@) =~= legacy_path());
    path
}

/// Whether a try has anything to move: not where the session is in its new place
/// already, and not where there is none, as in a new installation.
pub fn needs_move(destination_exists: bool, legacy_exists: bool) -> (r: bool)
    ensures
        r == (legacy_exists && !destination_exists),
{
    !destination_exists && legacy_exists
}

/// The message for a hand-over that failed for the given reason.
pub open spec fn failure_message(reason: Seq<char>) -> Seq<char> {
    "Não foi possível separar a sessão atual em um perfil ("@ + reason
        + "). Nada foi perdido: o app abriu como antes. Tente de novo."@
}

/// The store after a hand-over that was tried to its end: nothing waits any more,
/// or, after a failure, no profile is left. Where nothing waited, nothing changes.
pub open spec fn adopted(s: StoreView, moved: Result<(), Seq<char>>) -> StoreView {
    if s.pending_adopt is None {
        s
    } else {
        match moved {
            Ok(_) => StoreView { pending_adopt: None, ..s },
            Err(_) => legacy_store(),
        }
    }
}

/// A result with its message as text.
pub open spec fn reason_of(moved: Result<(), String>) -> Result<(), Seq<char>> {
    match moved {
        Ok(_) => Ok(()),
        Err(reason) => Err(reason@),
    }
}

/// Ends a hand-over. A failure takes everything back to the legacy mode, where
/// the app opens as it did before, with its session: a new profile beside an
/// orphaned session would be worse. Without a profile that waits there is nothing
/// to end.
pub fn adopt_pending(store: &mut Store, moved: Result<(), String>) -> (r: Result<(), String>)
    ensures
        final(store)@ == adopted(old(store)@, reason_of(moved)),
        match moved {
            Err(reason) if old(store)@.pending_adopt is Some => r is Err && r->Err_0@
                == failure_message(reason@),
            _ => r is Ok,
        },
        old(store)@.valid() ==> final(store)@.valid(),
{
    if store.pending_adopt.is_none() {
        return Ok(());
    }
    match moved {
        Ok(_) => {
            store.pending_adopt = None;
            Ok(())
        },
        Err(reason) => {
            *store = Store::default();
            let mut message = "Não foi possível separar a sessão atual em um perfil (".to_string();
            message.append(reason.as_str());
            message.append("). Nada foi perdido: o app abriu como antes. Tente de novo.");
            Err(message)
        },
    }
}

// ---------------------------------------------------------------------------
// Laws of the hand-over
// ---------------------------------------------------------------------------

/// The failures that a hand-over has counted after the given tries, the first of
/// which comes first.
pub open spec fn failures_counted(tries: Seq<bool>) -> u32
    decreases tries.len(),
{
    if tries.len() == 0 {
        0
    } else {
        failures_after(failures_counted(tries.drop_last()), tries.last())
    }
}

/// The hand-over goes on after each of the given tries.
pub open spec fn goes_on(tries: Seq<bool>) -> bool
    decreases tries.len(),
{
    tries.len() == 0 || (goes_on(tries.drop_last()) && step_after(
        failures_counted(tries.drop_last()),
        tries.last(),
    ) == AdoptionStep::Retry)
}

proof fn lemma_going_on(tries: Seq<bool>)
    requires
        goes_on(tries),
    ensures
        failures_counted(tries) == tries.len(),
        tries.len() < MAX_ATTEMPTS,
        !tries.contains(true),
    decreases tries.len(),
{
    if tries.len() > 0 {
        lemma_going_on(tries.drop_last());
        assert forall|i: int| 0 <= i < tries.len() implies !tries[i] by {
            if i < tries.len() - 1 {
                assert(tries.drop_last()[i] == tries[i]);
                assert(!tries.drop_last().contains(true));
            }
        }
    }
}

/// A hand-over ends with the first try that succeeds, and with the fifth that
/// fails: it never tries again after a success, and never more than five times.
pub proof fn law_hand_over_ends(tries: Seq<bool>, moved: bool)
    requires
        goes_on(tries),
    ensures
        tries.len() < MAX_ATTEMPTS,
        !tries.contains(true),
        step_after(failures_counted(tries), moved) == AdoptionStep::Done <==> moved,
        step_after(failures_counted(tries), moved) == AdoptionStep::GiveUp <==> !moved
            && tries.len() + 1 == MAX_ATTEMPTS,
{
    lemma_going_on(tries);
}

/// A hand-over that was tried to its end is not tried at the next start, and the
/// store stays valid.
pub proof fn law_hand_over_happens_once(s: StoreView, moved: Result<(), Seq<char>>)
    requires
        s.valid(),
    ensures
        adopted(s, moved).pending_adopt is None,
        adopted(s, moved).valid(),
        moved is Ok ==> adopted(s, moved).active == s.active && adopted(s, moved).profiles
            == s.profiles,
        moved is Err && s.pending_adopt is Some ==> adopted(s, moved) == legacy_store(),
        s.pending_adopt is None ==> adopted(s, moved) == s,
{
}

/// The profile of the welcome screen opens with the session that was there before
/// it: the hand-over puts the session where the web view of the active profile
/// looks for it.
pub proof fn law_first_profile_opens_the_old_session(s: StoreView, name: Seq<char>)
    requires
        first_created(s, name) is Ok,
    ensures
        ({
            let t = first_created(s, name)->Ok_0;
            &&& t.pending_adopt is Some
            &&& data_path(adopted(t, Ok(()))) is Some
            &&& session_path(t.pending_adopt->0) == data_path(adopted(t, Ok(())))->0 + legacy_path()
        }),
{
    let t = first_created(s, name)->Ok_0;
    let slug = t.pending_adopt->0;
    assert(session_path(slug) =~= profile_path(slug) + legacy_path());
}

/// The first time, a new profile opens without the session that was there before
/// it: the hand-over puts that session elsewhere.
pub proof fn law_second_profile_opens_afresh(
    s: StoreView,
    current_name: Option<Seq<char>>,
    new_name: Seq<char>,
)
    requires
        s.profiles.len() == 0,
        added(s, current_name, new_name) is Ok,
    ensures
        ({
            let t = added(s, current_name, new_name)->Ok_0;
            &&& t.pending_adopt is Some
            &&& data_path(adopted(t, Ok(()))) is Some
            &&& session_path(t.pending_adopt->0) != data_path(adopted(t, Ok(())))->0 + legacy_path()
        }),
{
    law_first_addition_keeps_the_open_session(s, current_name, new_name);
    let t = added(s, current_name, new_name)->Ok_0;
    let there = session_path(t.pending_adopt->0);
    let here = data_path(t)->0 + legacy_path();
    assert(there[1] == t.pending_adopt->0);
    assert(here[1] == t.active->0);
}

/// Five tries are made, a quarter of a second apart: a success ends them, each of the
/// first four failures is followed by another try, and the fifth ends them.
pub proof fn law_five_tries(failures: u32)
    ensures
        step_after(failures, true) == AdoptionStep::Done,
        failures < 4 ==> step_after(failures, false) == AdoptionStep::Retry
            && failures_after(failures, false) == failures + 1,
        failures >= 4 ==> step_after(failures, false) == AdoptionStep::GiveUp,
        failures_after(failures, true) == failures,
        MAX_ATTEMPTS == 5,
        RETRY_PAUSE_MS == 250,
{
}

/// A hand-over that succeeded changes nothing of the store but what waits; one that
/// failed leaves none of it.
pub proof fn law_store_after_the_hand_over(s: StoreView, reason: Seq<char>)
    requires
        s.pending_adopt is Some,
    ensures
        ({
            let t = adopted(s, Ok(()));
            &&& t.pending_adopt is None
            &&& t.profiles == s.profiles
            &&& t.active == s.active
            &&& t.onboarding_done == s.onboarding_done
        }),
        ({
            let t = adopted(s, Err(reason));
            &&& t.profiles.len() == 0
            &&& t.active is None
            &&& t.pending_adopt is None
            &&& !t.onboarding_done
        }),
{
}

/// The message for a failure holds the whole reason.
pub proof fn law_failure_tells_its_reason(reason: Seq<char>, moved: Result<(), String>)
    ensures
        failure_message(reason) == "Não foi possível separar a sessão atual em um perfil ("@
            + reason + "). Nada foi perdido: o app abriu como antes. Tente de novo."@,
        reason_of(moved) is Ok <==> moved is Ok,
        moved is Err ==> reason_of(moved)->Err_0 == moved->Err_0@,
{
}

/// The session moves from the directory of the web view to one of the same name in
/// the directory of its profile.
pub proof fn law_session_keeps_its_name(slug: Seq<char>)
    ensures
        legacy_path() == seq!["EBWebView"@],
        session_path(slug) == seq!["profiles"@, slug, "EBWebView"@],
{
    assert(session_path(slug) =~= seq!["profiles"@, slug, "EBWebView"@]);
}

} // verus!
