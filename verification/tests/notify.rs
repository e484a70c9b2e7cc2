use ipwatch::addr::parse;
use ipwatch::app::bridge_change;
use ipwatch::app::notify::{build_message, notify_change, should_notify};
use ipwatch::db::ChangeReason;
use ipwatch::poller::{Change, Snapshot};
use ipwatch::providers::GeoInfo;

fn snapshot(
    ip: &str,
    country: Option<&str>,
    country_code: Option<&str>,
    isp: Option<&str>,
) -> Snapshot {
    Snapshot {
        ip: parse(ip).unwrap(),
        geo: GeoInfo {
            country: country.map(String::from),
            country_code: country_code.map(String::from),
            isp: isp.map(String::from),
            ..Default::default()
        },
        observed_at: 0,
    }
}

#[test]
fn should_notify_country_changed() {
    assert!(should_notify(ChangeReason::CountryChanged));
}

#[test]
fn should_notify_isp_changed() {
    assert!(should_notify(ChangeReason::IspChanged));
}

#[test]
fn should_notify_offline() {
    assert!(should_notify(ChangeReason::Offline));
}

#[test]
fn should_not_notify_ip_changed() {
    assert!(!should_notify(ChangeReason::IpChanged));
}

#[test]
fn should_not_notify_initial() {
    assert!(!should_notify(ChangeReason::Initial));
}

#[test]
fn offline_message_is_worded_as_connectivity_not_leak() {
    let msg = build_message(ChangeReason::Offline, None, None);
    assert_eq!(msg.title, "ipwatch lost connectivity");
    assert!(!msg.body.to_lowercase().contains("vpn may have dropped"));
    assert_eq!(msg.body, "Could not reach the network to verify your VPN status.");
}

#[test]
fn country_changed_message_includes_previous_and_current() {
    let previous = snapshot("198.51.100.1", Some("Netherlands"), Some("NL"), Some("NordVPN"));
    let current = snapshot("203.0.113.7", Some("United States"), Some("US"), Some("NordVPN"));

    let msg = build_message(ChangeReason::CountryChanged, Some(&previous), Some(&current));

    assert_eq!(msg.title, "VPN may have dropped");
    assert_eq!(
        msg.body,
        "Country changed: Netherlands \u{2192} United States (203.0.113.7)"
    );
}

#[test]
fn isp_changed_message_includes_country_and_isps() {
    let previous = snapshot("198.51.100.1", Some("United States"), Some("US"), Some("NordVPN"));
    let current = snapshot("203.0.113.7", Some("United States"), Some("US"), Some("Comcast"));

    let msg = build_message(ChangeReason::IspChanged, Some(&previous), Some(&current));

    assert_eq!(msg.title, "VPN may have dropped");
    assert_eq!(
        msg.body,
        "ISP changed in United States: NordVPN \u{2192} Comcast (203.0.113.7)"
    );
}

#[test]
fn all_none_geo_never_renders_none_or_null() {
    let previous = snapshot("198.51.100.1", None, None, None);
    let current = snapshot("203.0.113.7", None, None, None);

    let msg = build_message(ChangeReason::CountryChanged, Some(&previous), Some(&current));

    assert_eq!(
        msg.body,
        "Country changed: an unknown country \u{2192} an unknown country (203.0.113.7)"
    );
    assert!(!msg.body.to_lowercase().contains("none"));
    assert!(!msg.body.to_lowercase().contains("null"));

    let isp_msg = build_message(ChangeReason::IspChanged, Some(&previous), Some(&current));
    assert!(!isp_msg.body.to_lowercase().contains("none"));
    assert!(!isp_msg.body.to_lowercase().contains("null"));
}

#[test]
fn country_changed_falls_back_to_country_code_when_name_missing() {
    let previous = snapshot("198.51.100.1", None, Some("NL"), None);
    let current = snapshot("203.0.113.7", None, Some("US"), None);

    let msg = build_message(ChangeReason::CountryChanged, Some(&previous), Some(&current));

    assert_eq!(msg.body, "Country changed: NL \u{2192} US (203.0.113.7)");
}

#[test]
fn country_changed_with_no_previous_snapshot() {
    let current = snapshot("203.0.113.7", Some("United States"), Some("US"), None);

    let msg = build_message(ChangeReason::CountryChanged, None, Some(&current));

    assert_eq!(
        msg.body,
        "Country changed: an unknown country \u{2192} United States (203.0.113.7)"
    );
}

#[test]
fn no_current_reading_leaves_the_address_out() {
    let msg = build_message(ChangeReason::IspChanged, None, None);
    assert_eq!(
        msg.body,
        "ISP changed in an unknown country: an unknown ISP \u{2192} an unknown ISP"
    );
}

#[test]
fn the_remaining_reasons_have_a_neutral_message() {
    for reason in [ChangeReason::Initial, ChangeReason::IpChanged] {
        let msg = build_message(reason, None, None);
        assert_eq!(msg.title, "ipwatch");
        assert_eq!(msg.body, "IP address changed.");
    }
}

#[test]
fn a_toast_is_made_exactly_for_the_worthwhile_changes() {
    for (reason, expected) in [
        (ChangeReason::Initial, false),
        (ChangeReason::IpChanged, false),
        (ChangeReason::CountryChanged, true),
        (ChangeReason::IspChanged, true),
        (ChangeReason::Offline, true),
    ] {
        let change = Change { previous: None, current: None, reason };
        assert_eq!(notify_change(&change).is_some(), expected);
        assert_eq!(bridge_change(&change, true).toast.is_some(), expected);
        assert!(bridge_change(&change, false).toast.is_none());
    }
}
