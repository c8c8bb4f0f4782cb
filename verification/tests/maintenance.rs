use whatsapp_lite::maintenance::{
    due_reload, Maintenance, RuntimeState, WindowReport, HEAP_RELOAD_THRESHOLD_MB,
    MAINTENANCE_IDLE_HIDDEN_FOR, MAINTENANCE_IDLE_UNFOCUSED_FOR, MAINTENANCE_POLL_EVERY,
    RELOAD_MAX_INTERVAL, RELOAD_MIN_INTERVAL,
};

const SECOND: u128 = 1_000_000_000;
const NOW: u128 = 100 * 60 * 60 * SECOND;

// Past the minimum interval since the last reload.
fn past_min(now: u128) -> u128 {
    now - RELOAD_MIN_INTERVAL
}

#[test]
fn reload_waits_for_hidden_grace() {
    let now = NOW;
    let last = past_min(now);
    let high_heap = HEAP_RELOAD_THRESHOLD_MB;
    assert!(!due_reload(
        now,
        last,
        high_heap,
        Some(now - 179 * SECOND),
        None,
        false,
    ));
    assert!(due_reload(
        now,
        last,
        high_heap,
        Some(now - MAINTENANCE_IDLE_HIDDEN_FOR),
        None,
        false,
    ));
}

#[test]
fn reload_needs_longer_grace_when_visible_but_unfocused() {
    let now = NOW;
    let last = past_min(now);
    let high_heap = HEAP_RELOAD_THRESHOLD_MB;
    assert!(!due_reload(
        now,
        last,
        high_heap,
        None,
        Some(now - MAINTENANCE_IDLE_HIDDEN_FOR),
        false,
    ));
    assert!(due_reload(
        now,
        last,
        high_heap,
        None,
        Some(now - MAINTENANCE_IDLE_UNFOCUSED_FOR),
        false,
    ));
}

#[test]
fn reload_never_runs_during_call() {
    let now = NOW;
    assert!(!due_reload(
        now,
        now - RELOAD_MAX_INTERVAL,
        HEAP_RELOAD_THRESHOLD_MB,
        Some(now - MAINTENANCE_IDLE_HIDDEN_FOR),
        Some(now - MAINTENANCE_IDLE_UNFOCUSED_FOR),
        true,
    ));
}

#[test]
fn reload_respects_min_interval() {
    let now = NOW;
    assert!(!due_reload(
        now,
        now - 60 * SECOND,
        HEAP_RELOAD_THRESHOLD_MB + 1000,
        Some(now - MAINTENANCE_IDLE_HIDDEN_FOR),
        None,
        false,
    ));
}

#[test]
fn reload_skips_when_memory_ok_before_ceiling() {
    let now = NOW;
    assert!(!due_reload(
        now,
        past_min(now),
        HEAP_RELOAD_THRESHOLD_MB - 1,
        Some(now - MAINTENANCE_IDLE_HIDDEN_FOR),
        None,
        false,
    ));
}

#[test]
fn reload_ceiling_fires_without_memory_signal() {
    let now = NOW;
    assert!(due_reload(
        now,
        now - RELOAD_MAX_INTERVAL,
        0,
        Some(now - MAINTENANCE_IDLE_HIDDEN_FOR),
        None,
        false,
    ));
}

#[test]
fn reload_needs_idle_even_under_memory_pressure() {
    let now = NOW;
    assert!(!due_reload(
        now,
        past_min(now),
        HEAP_RELOAD_THRESHOLD_MB + 2000,
        None,
        None,
        false,
    ));
}

#[test]
fn intervals_have_their_documented_lengths() {
    assert_eq!(RELOAD_MIN_INTERVAL, 1800 * SECOND);
    assert_eq!(RELOAD_MAX_INTERVAL, 21600 * SECOND);
    assert_eq!(MAINTENANCE_IDLE_HIDDEN_FOR, 180 * SECOND);
    assert_eq!(MAINTENANCE_IDLE_UNFOCUSED_FOR, 1200 * SECOND);
    assert_eq!(MAINTENANCE_POLL_EVERY, 10 * SECOND);
    assert_eq!(HEAP_RELOAD_THRESHOLD_MB, 500);
}

#[test]
fn a_moment_in_the_future_counts_as_now() {
    assert!(!due_reload(5, 10, 9999, Some(20), Some(20), false));
}

fn look(visible: bool, minimized: bool, focused: bool) -> WindowReport {
    WindowReport {
        visible: Some(visible),
        minimized: Some(minimized),
        focused: Some(focused),
    }
}

#[test]
fn page_state_starts_idle_and_takes_reports() {
    let mut page = RuntimeState::new();
    assert!(!page.call_active);
    assert_eq!(page.heap_mb, 0);
    page.set_call_active(true);
    page.report_heap_mb(321);
    assert!(page.call_active);
    assert_eq!(page.heap_mb, 321);
    page.set_call_active(false);
    assert!(!page.call_active);
    assert_eq!(page.heap_mb, 321);
}

#[test]
fn power_mode_changes_only_with_the_window() {
    let mut watch = Maintenance::new(0);
    assert_eq!(watch.observe(10, look(true, false, true)), Some(false));
    assert_eq!(watch.observe(20, look(true, false, false)), None);
    assert_eq!(watch.observe(30, look(false, false, false)), Some(true));
    assert_eq!(watch.observe(40, look(true, true, false)), None);
    assert_eq!(watch.observe(50, look(true, false, true)), Some(false));
}

#[test]
fn missing_answers_count_for_a_window_in_use() {
    let mut watch = Maintenance::new(0);
    let nothing = WindowReport {
        visible: None,
        minimized: None,
        focused: None,
    };
    assert_eq!(watch.observe(10, nothing), Some(false));
    assert_eq!(watch.hidden_since, None);
    assert_eq!(watch.unfocused_since, None);
}

#[test]
fn idle_times_start_at_the_first_look_and_end_with_the_state() {
    let mut watch = Maintenance::new(0);
    watch.observe(10, look(false, false, false));
    watch.observe(20, look(false, false, false));
    assert_eq!(watch.hidden_since, Some(10));
    assert_eq!(watch.unfocused_since, Some(10));
    watch.observe(30, look(true, false, false));
    assert_eq!(watch.hidden_since, None);
    assert_eq!(watch.unfocused_since, Some(10));
    watch.observe(40, look(true, true, true));
    assert_eq!(watch.hidden_since, Some(40));
    assert_eq!(watch.unfocused_since, None);
}

#[test]
fn a_reload_settles_memory_pressure_and_keeps_its_distance() {
    let mut page = RuntimeState::new();
    let mut watch = Maintenance::new(0);
    page.report_heap_mb(900);
    watch.observe(0, look(false, false, false));
    assert!(!watch.is_due(RELOAD_MIN_INTERVAL - 1, &page));
    assert!(watch.is_due(RELOAD_MIN_INTERVAL, &page));
    watch.reloaded(RELOAD_MIN_INTERVAL, &mut page);
    assert_eq!(page.heap_mb, 0);
    assert_eq!(watch.hidden_since, Some(0));
    // Without a new report only age brings about the next one.
    assert!(!watch.is_due(2 * RELOAD_MIN_INTERVAL, &page));
    assert!(watch.is_due(RELOAD_MIN_INTERVAL + RELOAD_MAX_INTERVAL, &page));
    // With one, the minimum interval does.
    page.report_heap_mb(501);
    assert!(!watch.is_due(2 * RELOAD_MIN_INTERVAL - 1, &page));
    assert!(watch.is_due(2 * RELOAD_MIN_INTERVAL, &page));
}

#[test]
fn a_lost_window_starts_the_watch_anew() {
    let mut watch = Maintenance::new(0);
    watch.observe(10, look(false, false, false));
    watch.window_lost(77);
    assert_eq!(watch, Maintenance::new(77));
    // The power mode is applied again to the new window.
    assert_eq!(watch.observe(80, look(false, false, false)), Some(true));
}
