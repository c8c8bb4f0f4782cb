//! Keeping a page that leaks memory usable: when to reload it, and when to let
//! the web view run on low power.
//!
//! A moment is a count of nanoseconds on one monotonic clock.

use vstd::prelude::*;

verus! {

/// Two reloads are at least this far apart, even where memory runs up at once.
pub const RELOAD_MIN_INTERVAL: u128 = 30 * 60 * 1_000_000_000;

/// From here on the page is reloaded without any sign of memory pressure, since
/// not every engine reports its heap.
pub const RELOAD_MAX_INTERVAL: u128 = 6 * 60 * 60 * 1_000_000_000;

/// A heap of this size counts as memory pressure.
pub const HEAP_RELOAD_THRESHOLD_MB: u64 = 500;

/// How long a hidden window must have been hidden.
pub const MAINTENANCE_IDLE_HIDDEN_FOR: u128 = 3 * 60 * 1_000_000_000;

/// How long a visible window must have been without the focus: its user may be
/// reading on a second screen.
pub const MAINTENANCE_IDLE_UNFOCUSED_FOR: u128 = 20 * 60 * 1_000_000_000;

/// How often the window is looked at.
pub const MAINTENANCE_POLL_EVERY: u128 = 10 * 1_000_000_000;

// ---------------------------------------------------------------------------
// The decision
// ---------------------------------------------------------------------------

/// The time from one moment to another, and none where the order is the other
/// way round.
pub open spec fn elapsed(now: u128, since: u128) -> int {
    if now >= since {
        now - since
    } else {
        0
    }
}

/// Whether a state that began at `since` has lasted for `span`.
pub open spec fn lasted(now: u128, since: Option<u128>, span: u128) -> bool {
    since matches Some(t) && elapsed(now, t) >= span
}

/// A reload is due outside of calls, long enough after the last one, for memory
/// pressure or for age, and while nobody is looking.
pub open spec fn reload_is_due(
    now: u128,
    last_reload: u128,
    heap_mb: u64,
    hidden_since: Option<u128>,
    unfocused_since: Option<u128>,
    call_active: bool,
) -> bool {
    &&& !call_active
    &&& elapsed(now, last_reload) >= RELOAD_MIN_INTERVAL
    &&& heap_mb >= HEAP_RELOAD_THRESHOLD_MB || elapsed(now, last_reload) >= RELOAD_MAX_INTERVAL
    &&& lasted(now, hidden_since, MAINTENANCE_IDLE_HIDDEN_FOR) || lasted(
        now,
        unfocused_since,
        MAINTENANCE_IDLE_UNFOCUSED_FOR,
    )
}

fn has_lasted(now: u128, since: Option<u128>, span: u128) -> (r: bool)
    ensures
        r == lasted(now, since, span),
{
    match since {
        Some(t) => now.saturating_sub(t) >= span,
        None => false,
    }
}

pub fn due_reload(
    now: u128,
    last_reload: u128,
    heap_mb: u64,
    hidden_since: Option<u128>,
    unfocused_since: Option<u128>,
    call_active: bool,
) -> (r: bool)
    ensures
        r == reload_is_due(
            now,
            last_reload,
            heap_mb,
            hidden_since,
            unfocused_since,
            call_active,
        ),
{
    if call_active {
        return false;
    }
    let since_reload: u128 = now.saturating_sub(last_reload);
    if since_reload < RELOAD_MIN_INTERVAL {
        return false;
    }
    let memory_pressure = heap_mb >= HEAP_RELOAD_THRESHOLD_MB;
    let ceiling_hit = since_reload >= RELOAD_MAX_INTERVAL;
    if !memory_pressure && !ceiling_hit {
        return false;
    }
    has_lasted(now, hidden_since, MAINTENANCE_IDLE_HIDDEN_FOR) || has_lasted(
        now,
        unfocused_since,
        MAINTENANCE_IDLE_UNFOCUSED_FOR,
    )
}

// ---------------------------------------------------------------------------
// What the page reports
// ---------------------------------------------------------------------------

/// What the page last reported about itself.
#[derive(Clone, Copy, Debug, PartialEq, Eq, Structural)]
pub struct RuntimeState {
    /// A voice or video call is in progress. A reload would end it.
    pub call_active: bool,
    /// The size of the script heap, and 0 where the engine reports none.
    pub heap_mb: u64,
}

impl RuntimeState {
    pub fn new() -> (r: Self)
        ensures
            r == (RuntimeState { call_active: false, heap_mb: 0 }),
    {
        RuntimeState { call_active: false, heap_mb: 0 }
    }

    pub fn set_call_active(&mut self, active: bool)
        ensures
            *final(self) == (RuntimeState { call_active: active, ..*old(self) }),
    {
        self.call_active = active;
    }

    pub fn report_heap_mb(&mut self, mb: u64)
        ensures
            *final(self) == (RuntimeState { heap_mb: mb, ..*old(self) }),
    {
        self.heap_mb = mb;
    }
}

// ---------------------------------------------------------------------------
// The watch over the window
// ---------------------------------------------------------------------------

/// What one look at the window found. An answer can be missing.
#[derive(Clone, Copy, Debug, PartialEq, Eq, Structural)]
pub struct WindowReport {
    pub visible: Option<bool>,
    pub minimized: Option<bool>,
    pub focused: Option<bool>,
}

impl WindowReport {
    /// Nobody can see the window. A missing answer counts for a window in use.
    pub open spec fn is_hidden(self) -> bool {
        self.visible == Some(false) || self.minimized == Some(true)
    }

    pub open spec fn is_unfocused(self) -> bool {
        self.focused == Some(false)
    }
}

/// The state of the watch.
#[derive(Clone, Copy, Debug, PartialEq, Eq, Structural)]
pub struct Maintenance {
    pub last_reload: u128,
    /// Since when every look has found the window hidden.
    pub hidden_since: Option<u128>,
    /// Since when every look has found the window without the focus.
    pub unfocused_since: Option<u128>,
    /// The power mode that was applied last, where one was.
    pub low_power: Option<bool>,
}

/// The moment at which a state began that holds or does not hold now.
pub open spec fn since_when(before: Option<u128>, holds: bool, now: u128) -> Option<u128> {
    if !holds {
        None
    } else if before is Some {
        before
    } else {
        Some(now)
    }
}

/// The watch when it begins.
pub open spec fn fresh(now: u128) -> Maintenance {
    Maintenance { last_reload: now, hidden_since: None, unfocused_since: None, low_power: None }
}

/// The watch after a look at the window.
pub open spec fn observed(m: Maintenance, now: u128, report: WindowReport) -> Maintenance {
    Maintenance {
        last_reload: m.last_reload,
        hidden_since: since_when(m.hidden_since, report.is_hidden(), now),
        unfocused_since: since_when(m.unfocused_since, report.is_unfocused(), now),
        low_power: Some(report.is_hidden()),
    }
}

/// The watch after a reload.
pub open spec fn after_reload(m: Maintenance, now: u128) -> Maintenance {
    Maintenance { last_reload: now, ..m }
}

fn begin_or_keep(before: Option<u128>, holds: bool, now: u128) -> (r: Option<u128>)
    ensures
        r == since_when(before, holds, now),
{
    if !holds {
        None
    } else {
        match before {
            Some(t) => Some(t),
            None => Some(now),
        }
    }
}

impl Maintenance {
    pub fn new(now: u128) -> (r: Self)
        ensures
            r == fresh(now),
    {
        Maintenance { last_reload: now, hidden_since: None, unfocused_since: None, low_power: None }
    }

    /// The window is gone, which only a crash of the web view brings about, and a
    /// hidden one is made in its place: the watch begins anew.
    pub fn window_lost(&mut self, now: u128)
        ensures
            *final(self) == fresh(now),
    {
        self.hidden_since = None;
        self.unfocused_since = None;
        self.low_power = None;
        self.last_reload = now;
    }

    /// Takes in a look at the window, and gives the power mode to apply where it
    /// is not the one that was applied last: low while the window is hidden.
    pub fn observe(&mut self, now: u128, report: WindowReport) -> (r: Option<bool>)
        ensures
            *final(self) == observed(*old(self), now, report),
            r == if old(self).low_power == Some(report.is_hidden()) {
                None
            } else {
                Some(report.is_hidden())
            },
    {
        let visible = report.visible.unwrap_or(true);
        let minimized = report.minimized.unwrap_or(false);
        let focused = report.focused.unwrap_or(true);
        let hidden = !visible || minimized;
        self.hidden_since = begin_or_keep(self.hidden_since, hidden, now);
        self.unfocused_since = begin_or_keep(self.unfocused_since, !focused, now);
        let unchanged = match self.low_power {
            Some(low) => low == hidden,
            None => false,
        };
        if unchanged {
            None
        } else {
            self.low_power = Some(hidden);
            Some(hidden)
        }
    }

    /// Whether the page is due for a reload.
    pub fn is_due(&self, now: u128, page: &RuntimeState) -> (r: bool)
        ensures
            r == reload_is_due(
                now,
                self.last_reload,
                page.heap_mb,
                self.hidden_since,
                self.unfocused_since,
                page.call_active,
            ),
    {
        due_reload(
            now,
            self.last_reload,
            page.heap_mb,
            self.hidden_since,
            self.unfocused_since,
            page.call_active,
        )
    }

    /// The page was reloaded. The heap of the old page must not bring about
    /// another reload before the new page reports its own.
    pub fn reloaded(&mut self, now: u128, page: &mut RuntimeState)
        ensures
            *final(self) == after_reload(*old(self), now),
            *final(page) == (RuntimeState { heap_mb: 0, ..*old(page) }),
    {
        self.last_reload = now;
        page.heap_mb = 0;
    }
}

// ---------------------------------------------------------------------------
// Laws of the watch
// ---------------------------------------------------------------------------

/// A call in progress is never cut off.
pub proof fn law_no_reload_during_a_call(
    now: u128,
    last_reload: u128,
    heap_mb: u64,
    hidden_since: Option<u128>,
    unfocused_since: Option<u128>,
)
    ensures
        !reload_is_due(now, last_reload, heap_mb, hidden_since, unfocused_since, true),
{
}

/// A window that is neither hidden nor without the focus is never reloaded,
/// whatever its heap and its age.
pub proof fn law_no_reload_under_the_eyes_of_the_user(
    now: u128,
    last_reload: u128,
    heap_mb: u64,
    call_active: bool,
)
    ensures
        !reload_is_due(now, last_reload, heap_mb, None, None, call_active),
{
}

/// While nothing else changes, a reload that is due stays due.
pub proof fn law_due_reload_stays_due(
    now: u128,
    later: u128,
    last_reload: u128,
    heap_mb: u64,
    hidden_since: Option<u128>,
    unfocused_since: Option<u128>,
    call_active: bool,
)
    requires
        now <= later,
        reload_is_due(now, last_reload, heap_mb, hidden_since, unfocused_since, call_active),
    ensures
        reload_is_due(later, last_reload, heap_mb, hidden_since, unfocused_since, call_active),
{
}

/// Until the page reports again, the reload after a reload is one for age.
pub proof fn law_reload_settles_memory_pressure(
    m: Maintenance,
    reload: u128,
    now: u128,
    hidden_since: Option<u128>,
    unfocused_since: Option<u128>,
    call_active: bool,
)
    requires
        reload_is_due(
            now,
            after_reload(m, reload).last_reload,
            0,
            hidden_since,
            unfocused_since,
            call_active,
        ),
    ensures
        elapsed(now, reload) >= RELOAD_MAX_INTERVAL,
{
}

/// What can happen to the watch.
pub enum Event {
    Look { now: u128, report: WindowReport },
    Lost { now: u128 },
    Reload { now: u128 },
}

impl Event {
    pub open spec fn at(self) -> u128 {
        match self {
            Event::Look { now, .. } => now,
            Event::Lost { now } => now,
            Event::Reload { now } => now,
        }
    }

    /// The event leaves a hidden window hidden.
    pub open spec fn keeps_hidden(self) -> bool {
        match self {
            Event::Look { report, .. } => report.is_hidden(),
            Event::Lost { .. } => false,
            Event::Reload { .. } => true,
        }
    }

    /// The event leaves a window without the focus without it.
    pub open spec fn keeps_unfocused(self) -> bool {
        match self {
            Event::Look { report, .. } => report.is_unfocused(),
            Event::Lost { .. } => false,
            Event::Reload { .. } => true,
        }
    }
}

/// The watch that began at `start`, after the given events.
pub open spec fn history(start: u128, events: Seq<Event>) -> Maintenance
    decreases events.len(),
{
    if events.len() == 0 {
        fresh(start)
    } else {
        let before = history(start, events.drop_last());
        match events.last() {
            Event::Look { now, report } => observed(before, now, report),
            Event::Lost { now } => fresh(now),
            Event::Reload { now } => after_reload(before, now),
        }
    }
}

/// The two states that the watch dates.
pub enum Absence {
    Hidden,
    Unfocused,
}

impl Absence {
    /// Since when the watch has found the window so.
    pub open spec fn since(self, m: Maintenance) -> Option<u128> {
        match self {
            Absence::Hidden => m.hidden_since,
            Absence::Unfocused => m.unfocused_since,
        }
    }

    /// The event leaves a window so that is so.
    pub open spec fn is_kept_by(self, event: Event) -> bool {
        match self {
            Absence::Hidden => event.keeps_hidden(),
            Absence::Unfocused => event.keeps_unfocused(),
        }
    }

    /// A look found the window so at the moment that the watch gives, and every
    /// event since then left it so.
    pub open spec fn lasts_from(self, start: u128, events: Seq<Event>, k: int) -> bool {
        &&& 0 <= k < events.len()
        &&& events[k] is Look
        &&& self.since(history(start, events)) == Some(events[k].at())
        &&& forall|j: int| k <= j < events.len() ==> self.is_kept_by(#[trigger] events[j])
    }
}

/// A window counts as hidden, or as without the focus, since a look that found it
/// so, and every look since then found it so.
pub proof fn law_absence_lasts_from_a_look(absence: Absence, start: u128, events: Seq<Event>)
    requires
        absence.since(history(start, events)) is Some,
    ensures
        exists|k: int| absence.lasts_from(start, events, k),
    decreases events.len(),
{
    let n = events.len() - 1;
    let earlier = events.drop_last();
    assert(events[n] == events.last());
    if absence.since(history(start, earlier)) is Some && !(events.last() is Lost) {
        law_absence_lasts_from_a_look(absence, start, earlier);
        let k = choose|k: int| absence.lasts_from(start, earlier, k);
        assert(events[k] == earlier[k]);
        assert forall|j: int| k <= j < events.len() implies absence.is_kept_by(
            #[trigger] events[j],
        ) by {
            if j < n {
                assert(absence.is_kept_by(earlier[j]));
            }
        }
        assert(absence.lasts_from(start, events, k));
    } else {
        assert(absence.lasts_from(start, events, n));
    }
}

/// The clock of the events never runs backwards.
pub open spec fn in_order(start: u128, events: Seq<Event>) -> bool {
    &&& forall|i: int| 0 <= i < events.len() ==> start <= (#[trigger] events[i]).at()
    &&& forall|i: int, j: int|
        0 <= i <= j < events.len() ==> (#[trigger] events[i]).at() <= (#[trigger] events[j]).at()
}

proof fn lemma_last_reload_bounds(start: u128, events: Seq<Event>)
    requires
        in_order(start, events),
    ensures
        start <= history(start, events).last_reload,
        forall|i: int|
            0 <= i < events.len() && !((#[trigger] events[i]) is Look) ==> events[i].at()
                <= history(start, events).last_reload,
        events.len() > 0 ==> history(start, events).last_reload <= events.last().at(),
        events.len() == 0 ==> history(start, events).last_reload == start,
    decreases events.len(),
{
    if events.len() > 0 {
        let earlier = events.drop_last();
        assert forall|i: int, j: int| 0 <= i <= j < earlier.len() implies (
        #[trigger] earlier[i]).at() <= (#[trigger] earlier[j]).at() by {
            assert(events[i].at() <= events[j].at());
        }
        assert forall|i: int| 0 <= i < earlier.len() implies start <= (
        #[trigger] earlier[i]).at() by {
            assert(start <= events[i].at());
        }
        lemma_last_reload_bounds(start, earlier);
        let n = events.len() - 1;
        assert(events[n] == events.last());
        if earlier.len() > 0 {
            assert(earlier.last() == events[n - 1]);
            assert(events[n - 1].at() <= events[n].at());
        }
        assert forall|i: int| 0 <= i < events.len() && !((#[trigger] events[i]) is Look) implies
            events[i].at() <= history(start, events).last_reload by {
            if i < n {
                assert(earlier[i] == events[i]);
                assert(events[i].at() <= events[n].at());
            }
        }
    }
}

/// However often and with whatever heap the page reports, a reload keeps its
/// distance from the start of the watch and from every reload before it.
pub proof fn law_reloads_keep_their_distance(
    start: u128,
    events: Seq<Event>,
    now: u128,
    page: RuntimeState,
)
    requires
        in_order(start, events),
        reload_is_due(
            now,
            history(start, events).last_reload,
            page.heap_mb,
            history(start, events).hidden_since,
            history(start, events).unfocused_since,
            page.call_active,
        ),
    ensures
        elapsed(now, start) >= RELOAD_MIN_INTERVAL,
        forall|i: int|
            0 <= i < events.len() && (#[trigger] events[i]) is Reload ==> elapsed(
                now,
                events[i].at(),
            ) >= RELOAD_MIN_INTERVAL,
{
    lemma_last_reload_bounds(start, events);
}

/// A power mode that was applied is not applied again at the next look.
pub proof fn law_power_mode_changes_only_with_the_window(
    m: Maintenance,
    first: u128,
    second: u128,
    a: WindowReport,
    b: WindowReport,
)
    requires
        a.is_hidden() == b.is_hidden(),
    ensures
        observed(m, first, a).low_power == Some(b.is_hidden()),
        observed(observed(m, first, a), second, b).low_power == observed(m, first, a).low_power,
{
}

// ---------------------------------------------------------------------------
// Laws of what a reload needs and what is enough for one
// ---------------------------------------------------------------------------

/// The spans, in nanoseconds: half an hour, six hours, three minutes, twenty minutes
/// and ten seconds.
pub proof fn law_spans_of_the_watch()
    ensures
        RELOAD_MIN_INTERVAL == 1_800_000_000_000,
        RELOAD_MAX_INTERVAL == 21_600_000_000_000,
        MAINTENANCE_IDLE_HIDDEN_FOR == 180_000_000_000,
        MAINTENANCE_IDLE_UNFOCUSED_FOR == 1_200_000_000_000,
        MAINTENANCE_POLL_EVERY == 10_000_000_000,
        HEAP_RELOAD_THRESHOLD_MB == 500,
{
}

/// Age alone brings a reload about, whatever the heap: outside a call, six hours
/// after the last one, once the window has been hidden for three minutes or without
/// the focus for twenty.
pub proof fn law_age_brings_a_reload(
    now: u128,
    last_reload: u128,
    heap_mb: u64,
    hidden_since: Option<u128>,
    unfocused_since: Option<u128>,
)
    requires
        now - last_reload >= 21_600_000_000_000,
        (hidden_since is Some && now - hidden_since->0 >= 180_000_000_000) || (unfocused_since
            is Some && now - unfocused_since->0 >= 1_200_000_000_000),
    ensures
        reload_is_due(now, last_reload, heap_mb, hidden_since, unfocused_since, false),
{
}

/// Memory pressure brings a reload about: outside a call, half an hour after the last
/// one, from 500 MB on, once the window has been hidden for three minutes or without
/// the focus for twenty.
pub proof fn law_memory_pressure_brings_a_reload(
    now: u128,
    last_reload: u128,
    heap_mb: u64,
    hidden_since: Option<u128>,
    unfocused_since: Option<u128>,
)
    requires
        now - last_reload >= 1_800_000_000_000,
        heap_mb >= 500,
        (hidden_since is Some && now - hidden_since->0 >= 180_000_000_000) || (unfocused_since
            is Some && now - unfocused_since->0 >= 1_200_000_000_000),
    ensures
        reload_is_due(now, last_reload, heap_mb, hidden_since, unfocused_since, false),
{
}

/// No reload comes without its reasons: outside a call, half an hour after the last
/// one, with 500 MB or after six hours, and after three minutes hidden or twenty
/// without the focus.
pub proof fn law_a_reload_has_its_reasons(
    now: u128,
    last_reload: u128,
    heap_mb: u64,
    hidden_since: Option<u128>,
    unfocused_since: Option<u128>,
    call_active: bool,
)
    requires
        reload_is_due(now, last_reload, heap_mb, hidden_since, unfocused_since, call_active),
    ensures
        !call_active,
        now - last_reload >= 1_800_000_000_000,
        heap_mb < 500 ==> now - last_reload >= 21_600_000_000_000,
        hidden_since is None || now - hidden_since->0 < 180_000_000_000 ==> unfocused_since is Some
            && now - unfocused_since->0 >= 1_200_000_000_000,
{
}

/// A look dates each absence by its first look and ends it with the first look that
/// does not find it. A window counts as hidden where it is said to be invisible or
/// minimised, and as without the focus where it is said to be: a missing answer says
/// nothing. The last reload stays, and the power is low while the window is hidden.
pub proof fn law_a_look_dates_absences(m: Maintenance, now: u128, report: WindowReport)
    ensures
        ({
            let after = observed(m, now, report);
            let hidden = report.visible == Some(false) || report.minimized == Some(true);
            let unfocused = report.focused == Some(false);
            &&& report.is_hidden() <==> hidden
            &&& report.is_unfocused() <==> unfocused
            &&& after.hidden_since is Some <==> hidden
            &&& hidden && m.hidden_since is Some ==> after.hidden_since == m.hidden_since
            &&& hidden && m.hidden_since is None ==> after.hidden_since == Some(now)
            &&& after.unfocused_since is Some <==> unfocused
            &&& unfocused && m.unfocused_since is Some ==> after.unfocused_since
                == m.unfocused_since
            &&& unfocused && m.unfocused_since is None ==> after.unfocused_since == Some(now)
            &&& after.last_reload == m.last_reload
            &&& after.low_power == Some(hidden)
        }),
{
}

/// A watch that begins knows no absence and counts from its beginning; a reload
/// changes nothing but the moment to count from.
pub proof fn law_a_reload_moves_the_count(m: Maintenance, now: u128)
    ensures
        fresh(now).last_reload == now,
        fresh(now).hidden_since is None,
        fresh(now).unfocused_since is None,
        fresh(now).low_power is None,
        after_reload(m, now).last_reload == now,
        after_reload(m, now).hidden_since == m.hidden_since,
        after_reload(m, now).unfocused_since == m.unfocused_since,
        after_reload(m, now).low_power == m.low_power,
{
}

/// A window that stays hidden and is looked at every ten seconds is reloaded in the
/// end, whatever its page reports, unless a call goes on: the look that comes three
/// minutes after the first and six hours after the last reload finds it due.
pub proof fn law_a_hidden_window_is_reloaded_in_the_end(
    m: Maintenance,
    first: u128,
    second: u128,
    a: WindowReport,
    b: WindowReport,
    heap_mb: u64,
)
    requires
        a.visible == Some(false) || a.minimized == Some(true),
        b.visible == Some(false) || b.minimized == Some(true),
        m.hidden_since is None,
        second - first >= 180_000_000_000,
        second - m.last_reload >= 21_600_000_000_000,
    ensures
        ({
            let watch = observed(observed(m, first, a), second, b);
            reload_is_due(
                second,
                watch.last_reload,
                heap_mb,
                watch.hidden_since,
                watch.unfocused_since,
                false,
            )
        }),
{
}

} // verus!
