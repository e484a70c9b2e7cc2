use ipwatch::addr::parse;
use ipwatch::app::{
    apply_autostart, bridge_change, follow, get_details, get_history, last_snapshot,
    persist_if_warranted, start_poller, AutostartAction,
    StreamItem, StreamStep,
};
use ipwatch::app::window::{
    show_details_window, show_main_window_unless_minimised, WindowCall,
};
use ipwatch::db::{ChangeReason, DbError, EventRow, IpEvent};
use ipwatch::netinfo::{NetInfo, NetInfoError};
use ipwatch::poller::{classify, Change, Snapshot};
use ipwatch::providers::GeoInfo;
use ipwatch::settings::Settings;

fn stored_event() -> IpEvent {
    IpEvent {
        id: None,
        ts: 1_700_000_000,
        external_ip: "203.0.113.7".to_string(),
        country: Some("United States".to_string()),
        country_code: Some("US".to_string()),
        isp: Some("Example ISP".to_string()),
        change_reason: ChangeReason::Initial,
    }
}

/// Stores an event as a row under `id` and reads it back.
fn reload(event: &IpEvent, id: i64) -> IpEvent {
    let new = event.to_row();
    IpEvent::from_row(EventRow {
        id,
        ts: new.ts,
        external_ip: new.external_ip,
        country: new.country,
        country_code: new.country_code,
        isp: new.isp,
        change_reason: new.change_reason.to_string(),
    })
}

fn reading() -> Snapshot {
    Snapshot {
        ip: parse("2001:db8::7").unwrap(),
        geo: GeoInfo {
            country: Some("France".to_string()),
            country_code: Some("FR".to_string()),
            city: Some("Paris".to_string()),
            isp: Some("Orange".to_string()),
            ..Default::default()
        },
        observed_at: 1_700_000_500,
    }
}

#[test]
fn a_second_initial_for_an_unchanged_ip_is_suppressed_after_reload() {
    let stored = reload(&stored_event(), 1);
    let baseline = last_snapshot(Some(Ok(Some(stored))))
        .expect("a baseline is rebuilt from the stored row");

    // What the poller would observe on the very next tick if nothing about
    // the connection has actually changed.
    let fresh = Snapshot { observed_at: 1_700_000_999, ..baseline.clone() };

    assert_eq!(
        classify(Some(&baseline), &fresh),
        None,
        "an unchanged ip/country/isp must not classify as a change, or a second \
         process (or restart) would double-write ip_events"
    );
}

#[test]
fn a_recorded_change_carries_detection_across_a_restart() {
    let change = Change {
        previous: None,
        current: Some(reading()),
        reason: ChangeReason::CountryChanged,
    };
    let event = persist_if_warranted(&change).expect("a reading is recorded");
    let seed = last_snapshot(Some(Ok(Some(reload(&event, 9)))));
    let mut poller = start_poller(&Settings::default(), seed);
    assert_eq!(poller.interval(), 60);

    let same = Snapshot { observed_at: 1_700_009_999, ..reading() };
    assert!(poller.refresh_once(Ok(same)).is_none());

    let mut moved = reading();
    moved.geo.country_code = Some("DE".to_string());
    let published = poller.refresh_once(Ok(moved)).unwrap();
    assert_eq!(published.reason, ChangeReason::CountryChanged);
}

#[test]
fn a_restored_reading_holds_what_the_log_keeps() {
    let baseline = last_snapshot(Some(Ok(Some(stored_event())))).unwrap();
    let ip = parse("203.0.113.7").unwrap();
    assert_eq!(
        baseline,
        Snapshot {
            ip,
            geo: GeoInfo {
                ip: Some(ip),
                country: Some("United States".to_string()),
                country_code: Some("US".to_string()),
                isp: Some("Example ISP".to_string()),
                ..Default::default()
            },
            observed_at: 1_700_000_000,
        }
    );
}

#[test]
fn without_usable_history_there_is_no_baseline() {
    assert_eq!(last_snapshot(None), None);
    assert_eq!(last_snapshot(Some(Ok(None))), None);
    assert_eq!(last_snapshot(Some(Err(DbError::Sqlite("locked".to_string())))), None);
    let garbled = IpEvent { external_ip: "somewhere".to_string(), ..stored_event() };
    assert_eq!(last_snapshot(Some(Ok(Some(garbled)))), None);
    let poller = start_poller(&Settings { poll_interval_secs: 90, ..Settings::default() }, None);
    assert_eq!(poller.interval(), 90);
    assert_eq!(poller.current(), None);
}

#[test]
fn an_outage_is_never_recorded() {
    let offline = Change {
        previous: Some(reading()),
        current: Some(reading()),
        reason: ChangeReason::Offline,
    };
    assert_eq!(persist_if_warranted(&offline), None);
    assert_eq!(bridge_change(&offline, true).persist, None);
    let empty = Change { previous: None, current: None, reason: ChangeReason::Initial };
    assert_eq!(persist_if_warranted(&empty), None);
}

#[test]
fn a_recorded_event_holds_the_reading() {
    let change =
        Change { previous: None, current: Some(reading()), reason: ChangeReason::Initial };
    let expected = IpEvent {
        id: None,
        ts: 1_700_000_500,
        external_ip: "2001:db8::7".to_string(),
        country: Some("France".to_string()),
        country_code: Some("FR".to_string()),
        isp: Some("Orange".to_string()),
        change_reason: ChangeReason::Initial,
    };
    assert_eq!(persist_if_warranted(&change), Some(expected.clone()));
    assert_eq!(bridge_change(&change, true).persist, Some(expected));
}

#[test]
fn following_survives_lag_and_ends_with_the_stream() {
    let change =
        Change { previous: None, current: Some(reading()), reason: ChangeReason::Initial };
    assert_eq!(
        follow(StreamItem::Published(change.clone())),
        StreamStep::Handle(change)
    );
    assert_eq!(follow(StreamItem::Lagged(5)), StreamStep::Continue);
    assert_eq!(follow(StreamItem::Closed), StreamStep::Stop);
}

#[test]
fn autostart_acts_only_on_a_difference() {
    assert_eq!(apply_autostart(Some(true), true), AutostartAction::Leave);
    assert_eq!(apply_autostart(Some(false), false), AutostartAction::Leave);
    assert_eq!(apply_autostart(Some(false), true), AutostartAction::Enable);
    assert_eq!(apply_autostart(Some(true), false), AutostartAction::Disable);
    assert_eq!(apply_autostart(None, true), AutostartAction::Enable);
    assert_eq!(apply_autostart(None, false), AutostartAction::Disable);
}

/// The calls made from `first` on, where showing the window ends as told.
fn calls(first: Option<WindowCall>, show_succeeds: bool) -> Vec<WindowCall> {
    let mut made = Vec::new();
    let mut next = first;
    while let Some(call) = next {
        made.push(call);
        next = call.next(call != WindowCall::Unminimize && (call != WindowCall::Show || show_succeeds));
    }
    made
}

#[test]
fn the_window_shows_unless_minimised() {
    let startup = show_main_window_unless_minimised;
    assert_eq!(calls(startup(false, true), true), vec![WindowCall::Show, WindowCall::Focus]);
    assert_eq!(calls(startup(false, true), false), vec![WindowCall::Show]);
    assert!(calls(startup(false, false), true).is_empty());
    assert!(calls(startup(true, true), true).is_empty());
    assert!(calls(startup(true, false), true).is_empty());
}

#[test]
fn the_details_window_is_brought_to_the_front() {
    assert_eq!(
        calls(show_details_window(true), true),
        vec![WindowCall::Unminimize, WindowCall::Show, WindowCall::Focus]
    );
    assert_eq!(
        calls(show_details_window(true), false),
        vec![WindowCall::Unminimize, WindowCall::Show]
    );
    assert!(calls(show_details_window(false), true).is_empty());
}

#[test]
fn details_hold_reading_network_and_reachability() {
    let info = || NetInfo {
        internal_ips: vec![parse("192.168.1.5").unwrap()],
        dns_servers: Vec::new(),
        hostname: Some("laptop".to_string()),
    };
    let details = get_details(Some(reading()), Ok(info()), false).unwrap();
    assert_eq!(details.snapshot, Some(reading()));
    assert_eq!(details.netinfo, info());
    assert!(!details.online);

    let err = get_details(None, Err(NetInfoError::Interfaces("none".to_string())), true);
    assert_eq!(err, Err("could not enumerate local interfaces: none".to_string()));
}

#[test]
fn history_is_empty_without_a_database() {
    assert_eq!(get_history(None), Ok(Vec::new()));
    assert_eq!(get_history(Some(Ok(vec![stored_event()]))), Ok(vec![stored_event()]));
    assert_eq!(
        get_history(Some(Err(DbError::Sqlite("locked".to_string())))),
        Err("sqlite error: locked".to_string())
    );
}
