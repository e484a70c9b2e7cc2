use ipwatch::addr::parse;
use ipwatch::app::tray::{
    format_tooltip, menu_action, push, IconKind, MenuAction, SessionBaseline, TrayLiveState,
};
use ipwatch::poller::Snapshot;
use ipwatch::providers::GeoInfo;

fn snapshot(ip: &str, country_code: Option<&str>) -> Snapshot {
    Snapshot {
        ip: parse(ip).unwrap(),
        geo: GeoInfo {
            country_code: country_code.map(String::from),
            ..Default::default()
        },
        observed_at: 0,
    }
}

// --- IconKind::select ---

#[test]
fn offline_wins_even_when_warn_is_latched() {
    assert_eq!(IconKind::select(true, false, true), IconKind::Offline);
}

#[test]
fn offline_wins_when_not_latched() {
    assert_eq!(IconKind::select(true, false, false), IconKind::Offline);
}

#[test]
fn online_and_latched_is_warn() {
    assert_eq!(IconKind::select(true, true, true), IconKind::Warn);
}

#[test]
fn online_and_not_latched_is_ok() {
    assert_eq!(IconKind::select(true, true, false), IconKind::Okay);
}

#[test]
fn no_snapshot_is_unknown_even_when_online_and_not_latched() {
    assert_eq!(IconKind::select(false, true, false), IconKind::Unknown);
}

#[test]
fn no_snapshot_is_unknown_even_when_warn_would_otherwise_be_latched() {
    assert_eq!(IconKind::select(false, true, true), IconKind::Unknown);
}

#[test]
fn no_snapshot_is_unknown_even_when_reported_offline() {
    assert_eq!(IconKind::select(false, false, false), IconKind::Unknown);
    assert_eq!(IconKind::select(false, false, true), IconKind::Unknown);
}

// --- SessionBaseline::observe without an expected country ---

#[test]
fn first_country_seen_becomes_baseline_without_latching() {
    let mut baseline = SessionBaseline::new(None);
    assert!(!baseline.observe(Some("US")));
}

#[test]
fn matching_baseline_does_not_latch() {
    let mut baseline = SessionBaseline::new(None);
    baseline.observe(Some("US"));
    assert!(!baseline.observe(Some("US")));
}

#[test]
fn diverging_country_latches_warn() {
    let mut baseline = SessionBaseline::new(None);
    baseline.observe(Some("US"));
    assert!(baseline.observe(Some("FR")));
}

#[test]
fn warn_stays_latched_even_if_country_reverts() {
    let mut baseline = SessionBaseline::new(None);
    baseline.observe(Some("US"));
    assert!(baseline.observe(Some("FR")));
    assert!(baseline.observe(Some("US")));
}

#[test]
fn missing_country_code_neither_sets_baseline_nor_latches() {
    let mut baseline = SessionBaseline::new(None);
    assert!(!baseline.observe(None));
    // Still unset, so the next real observation becomes the baseline rather
    // than being compared against nothing.
    assert!(!baseline.observe(Some("US")));
    assert!(!baseline.observe(Some("US")));
}

// --- SessionBaseline::observe with an expected country ---

#[test]
fn matching_expected_country_does_not_latch() {
    let mut baseline = SessionBaseline::new(Some("US".to_string()));
    assert!(!baseline.observe(Some("US")));
}

#[test]
fn diverging_from_expected_country_latches_immediately() {
    let mut baseline = SessionBaseline::new(Some("US".to_string()));
    assert!(baseline.observe(Some("FR")));
}

#[test]
fn expected_country_warn_stays_latched_even_if_it_reverts() {
    let mut baseline = SessionBaseline::new(Some("US".to_string()));
    assert!(baseline.observe(Some("FR")));
    assert!(baseline.observe(Some("US")));
}

#[test]
fn missing_country_code_does_not_latch_against_an_expected_baseline() {
    let mut baseline = SessionBaseline::new(Some("US".to_string()));
    assert!(!baseline.observe(None));
}

// --- SessionBaseline::re_baseline ---

#[test]
fn re_baseline_to_the_country_already_observed_clears_a_latched_warn() {
    let mut baseline = SessionBaseline::new(Some("US".to_string()));
    assert!(baseline.observe(Some("FR")));

    assert!(!baseline.re_baseline(Some("FR".to_string()), Some("FR")));
}

#[test]
fn re_baseline_to_a_still_different_country_stays_latched() {
    let mut baseline = SessionBaseline::new(Some("US".to_string()));
    assert!(baseline.observe(Some("FR")));

    assert!(baseline.re_baseline(Some("NL".to_string()), Some("FR")));
}

#[test]
fn re_baseline_to_none_restores_session_first_country_fallback() {
    let mut baseline = SessionBaseline::new(Some("US".to_string()));
    assert!(baseline.observe(Some("FR")));

    assert!(!baseline.re_baseline(None, Some("FR")));
    // FR is now the fallback baseline, so observing FR again does not latch...
    assert!(!baseline.observe(Some("FR")));
    // ...but a genuine divergence still does.
    assert!(baseline.observe(Some("DE")));
}

#[test]
fn re_baseline_with_no_current_country_code_does_not_latch() {
    let mut baseline = SessionBaseline::new(None);
    assert!(!baseline.re_baseline(Some("US".to_string()), None));
}

#[test]
fn re_baseline_from_none_to_expected_latches_on_mismatch() {
    let mut baseline = SessionBaseline::new(None);
    baseline.observe(Some("US")); // sets fallback baseline to US, unlatched

    assert!(baseline.re_baseline(Some("FR".to_string()), Some("US")));
}

// --- format_tooltip ---

#[test]
fn no_snapshot_yet_shows_starting_placeholder() {
    assert_eq!(format_tooltip(None, false), "ipwatch — starting…");
}

#[test]
fn online_with_country_code_formats_country_and_ip() {
    let s = snapshot("173.73.46.80", Some("US"));
    assert_eq!(format_tooltip(Some(&s), true), "US · 173.73.46.80");
}

#[test]
fn online_without_country_code_falls_back_to_ip_only() {
    let s = snapshot("173.73.46.80", None);
    assert_eq!(format_tooltip(Some(&s), true), "173.73.46.80");
}

#[test]
fn offline_appends_staleness_marker() {
    let s = snapshot("173.73.46.80", Some("US"));
    assert_eq!(format_tooltip(Some(&s), false), "US · 173.73.46.80 (offline)");
}

#[test]
fn offline_without_country_code_still_marks_staleness() {
    let s = snapshot("173.73.46.80", None);
    assert_eq!(format_tooltip(Some(&s), false), "173.73.46.80 (offline)");
}

#[test]
fn the_longest_address_leaves_the_tooltip_short() {
    let s = snapshot("1111:2222:3333:4444:5555:6666:7777:8888", Some("US"));
    let tooltip = format_tooltip(Some(&s), false);
    assert_eq!(tooltip, "US · 1111:2222:3333:4444:5555:6666:7777:8888 (offline)");
    assert!(tooltip.chars().count() < 127);
}

#[test]
fn an_overlong_country_code_is_left_out() {
    let long = "X".repeat(200);
    let s = snapshot("173.73.46.80", Some(&long));
    assert_eq!(format_tooltip(Some(&s), true), "173.73.46.80");
    assert_eq!(format_tooltip(Some(&s), false), "173.73.46.80 (offline)");
}

#[test]
fn every_country_code_that_fits_is_shown() {
    let nine = snapshot("173.73.46.80", Some("ABCDEFGHI"));
    assert_eq!(format_tooltip(Some(&nine), true), "ABCDEFGHI · 173.73.46.80");

    // With the longest address and the marker there is room for 74 characters,
    // which are counted as characters, not bytes.
    let ip = "1111:2222:3333:4444:5555:6666:7777:8888";
    let most = "é".repeat(74);
    let s = snapshot(ip, Some(&most));
    let tooltip = format_tooltip(Some(&s), false);
    assert_eq!(tooltip, format!("{most} · {ip} (offline)"));
    assert_eq!(tooltip.chars().count(), 126);

    let over = "é".repeat(75);
    let s = snapshot(ip, Some(&over));
    assert_eq!(format_tooltip(Some(&s), false), format!("{ip} (offline)"));
    assert_eq!(format_tooltip(Some(&s), true), format!("{over} · {ip}"));
}

// --- the running tray ---

#[test]
fn the_tray_starts_unknown() {
    let (state, face) = TrayLiveState::init(Some("US".to_string()));
    assert_eq!(state.baseline.expected.as_deref(), Some("US"));
    assert!(!state.baseline.warn_latched);
    assert_eq!(face.icon, IconKind::Unknown);
    assert_eq!(face.tooltip, "ipwatch — starting…");
}

#[test]
fn the_tray_warns_and_clears_live() {
    let (mut state, _) = TrayLiveState::init(Some("US".to_string()));
    let s = snapshot("198.51.100.1", Some("FR"));

    let face = state.apply(Some(&s), true);
    assert_eq!(face.icon, IconKind::Warn);
    assert_eq!(face.tooltip, "FR · 198.51.100.1");

    let face = state.apply(Some(&s), false);
    assert_eq!(face.icon, IconKind::Offline);

    let face = state.set_expected_country(Some("FR".to_string()), Some(&s), true);
    assert_eq!(face.icon, IconKind::Okay);
    assert!(!state.baseline.warn_latched);
}

#[test]
fn pushing_combines_icon_and_tooltip() {
    let face = push(true, None, true);
    assert_eq!(face.icon, IconKind::Unknown);
    assert_eq!(face.tooltip, "ipwatch — starting…");
}

#[test]
fn menu_items_map_to_their_actions() {
    assert_eq!(menu_action("refresh"), MenuAction::Refresh);
    assert_eq!(menu_action("details"), MenuAction::ShowDetails);
    assert_eq!(menu_action("settings"), MenuAction::ShowDetails);
    assert_eq!(menu_action("quit"), MenuAction::Quit);
    assert_eq!(menu_action("Quit"), MenuAction::Nothing);
    assert_eq!(menu_action(""), MenuAction::Nothing);
}
