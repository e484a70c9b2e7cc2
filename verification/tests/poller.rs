use ipwatch::addr::parse;
use ipwatch::db::ChangeReason;
use ipwatch::poller::{
    classify, geo_question, now_unix, resolve_snapshot, Poller, Snapshot, DEFAULT_INTERVAL_SECS,
};
use ipwatch::providers::{GeoInfo, ProviderError};

fn snapshot(ip: &str, country_code: Option<&str>, isp: Option<&str>) -> Snapshot {
    Snapshot {
        ip: parse(ip).unwrap(),
        geo: GeoInfo {
            country_code: country_code.map(String::from),
            isp: isp.map(String::from),
            ..Default::default()
        },
        observed_at: 0,
    }
}

fn failure() -> ProviderError {
    ProviderError::Http("simulated offline".into())
}

#[test]
fn first_observation_is_initial() {
    let current = snapshot("1.1.1.1", Some("US"), Some("Cloudflare"));
    assert_eq!(classify(None, &current), Some(ChangeReason::Initial));
}

#[test]
fn identical_snapshot_is_no_change() {
    let s = snapshot("1.1.1.1", Some("US"), Some("Cloudflare"));
    assert_eq!(classify(Some(&s), &s.clone()), None);
}

#[test]
fn ip_changed_same_country_and_isp() {
    let previous = snapshot("1.1.1.1", Some("US"), Some("Cloudflare"));
    let current = snapshot("2.2.2.2", Some("US"), Some("Cloudflare"));
    assert_eq!(classify(Some(&previous), &current), Some(ChangeReason::IpChanged));
}

#[test]
fn country_change_outranks_simultaneous_ip_change() {
    let previous = snapshot("1.1.1.1", Some("US"), Some("Cloudflare"));
    let current = snapshot("2.2.2.2", Some("FR"), Some("Cloudflare"));
    assert_eq!(classify(Some(&previous), &current), Some(ChangeReason::CountryChanged));
}

#[test]
fn isp_changed_same_country() {
    let previous = snapshot("1.1.1.1", Some("US"), Some("Cloudflare"));
    let current = snapshot("1.1.1.1", Some("US"), Some("Comcast"));
    assert_eq!(classify(Some(&previous), &current), Some(ChangeReason::IspChanged));
}

#[test]
fn unknown_previous_country_code_is_not_treated_as_a_change() {
    let previous = snapshot("1.1.1.1", None, Some("Cloudflare"));
    let current = snapshot("1.1.1.1", Some("US"), Some("Cloudflare"));
    assert_eq!(classify(Some(&previous), &current), None);
}

#[test]
fn both_country_codes_unknown_is_not_a_country_change() {
    let previous = snapshot("1.1.1.1", None, Some("Cloudflare"));
    let current = snapshot("1.1.1.1", None, Some("Cloudflare"));
    assert_eq!(classify(Some(&previous), &current), None);
}

#[test]
fn country_outranks_isp_and_isp_outranks_ip() {
    let previous = snapshot("1.1.1.1", Some("US"), Some("Cloudflare"));
    let all = snapshot("2.2.2.2", Some("FR"), Some("Orange"));
    assert_eq!(classify(Some(&previous), &all), Some(ChangeReason::CountryChanged));
    let isp_and_ip = snapshot("2.2.2.2", Some("US"), Some("Comcast"));
    assert_eq!(classify(Some(&previous), &isp_and_ip), Some(ChangeReason::IspChanged));
}

#[test]
fn offline_is_published_only_on_transition() {
    let mut poller = Poller::with_interval(60);

    let change = poller.refresh_once(Err(failure())).expect("expected exactly one Offline change");
    assert_eq!(change.reason, ChangeReason::Offline);
    assert!(
        poller.refresh_once(Err(failure())).is_none()
            && poller.refresh_once(Err(failure())).is_none(),
        "must not republish Offline on repeated failing ticks"
    );
}

#[test]
fn seed_installs_a_baseline_without_publishing() {
    let mut poller = Poller::with_interval(60);

    poller.seed(snapshot("1.1.1.1", Some("US"), Some("Cloudflare")));

    assert_eq!(poller.current().map(|s| s.ip.to_text()).as_deref(), Some("1.1.1.1"));
    assert!(poller.is_online());
}

#[test]
fn seed_never_clobbers_a_live_reading() {
    let mut poller = Poller::with_interval(60);

    poller.seed(snapshot("1.1.1.1", Some("US"), None));
    poller.seed(snapshot("2.2.2.2", Some("DE"), None));

    assert_eq!(
        poller.current().map(|s| s.ip.to_text()).as_deref(),
        Some("1.1.1.1"),
        "a second seed must not overwrite what is already there"
    );
}

#[test]
fn a_seeded_baseline_makes_an_unchanged_restart_silent() {
    let mut poller = Poller::with_interval(60);
    let stored = snapshot("1.1.1.1", Some("US"), Some("Cloudflare"));
    poller.seed(stored.clone());

    let fresh = Snapshot { observed_at: 12_345, ..stored.clone() };

    assert_eq!(
        classify(poller.current().as_ref(), &fresh),
        None,
        "same ip, country and isp after a restart is not a change"
    );
    assert!(poller.refresh_once(Ok(fresh)).is_none());
}

#[test]
fn an_unchanged_tick_still_advances_the_stored_snapshot() {
    let mut poller = Poller::with_interval(60);
    poller.seed(snapshot("1.1.1.1", Some("US"), Some("Cloudflare")));

    let mut fresh = snapshot("1.1.1.1", Some("US"), Some("Cloudflare"));
    fresh.observed_at = 99_999;
    fresh.geo.city = Some("Manassas".into());

    poller.handle_success(fresh);

    let stored = poller.current().expect("a snapshot is stored");
    assert_eq!(stored.observed_at, 99_999, "observed_at must advance on an unchanged tick");
    assert_eq!(
        stored.geo.city.as_deref(),
        Some("Manassas"),
        "the fuller live snapshot must replace the partial seeded one"
    );
}

#[test]
fn an_outage_keeps_the_last_reading_and_recovery_is_silent() {
    let mut poller = Poller::new();
    assert_eq!(poller.interval(), DEFAULT_INTERVAL_SECS);
    let reading = snapshot("1.1.1.1", Some("US"), Some("Cloudflare"));

    let first = poller.refresh_once(Ok(reading.clone())).unwrap();
    assert_eq!(first.reason, ChangeReason::Initial);
    assert_eq!(first.previous, None);
    assert_eq!(first.current, Some(reading.clone()));

    let offline = poller.handle_failure().unwrap();
    assert_eq!(offline.previous, Some(reading.clone()));
    assert_eq!(offline.current, Some(reading.clone()));
    assert!(!poller.is_online());
    assert_eq!(poller.current(), Some(reading.clone()));

    assert!(poller.refresh_once(Ok(reading.clone())).is_none());
    assert!(poller.is_online());
}

#[test]
fn a_change_links_the_states_around_it() {
    let mut poller = Poller::with_interval(60);
    let before = snapshot("1.1.1.1", Some("US"), Some("Cloudflare"));
    let after = snapshot("2.2.2.2", Some("FR"), Some("Orange"));
    poller.seed(before.clone());
    let change = poller.refresh_once(Ok(after.clone())).unwrap();
    assert_eq!(change.previous, Some(before));
    assert_eq!(change.current, Some(after));
    assert_eq!(change.reason, ChangeReason::CountryChanged);
}

#[test]
fn a_new_interval_leaves_the_observations_alone() {
    let mut poller = Poller::with_interval(60);
    let reading = snapshot("1.1.1.1", None, None);
    poller.seed(reading.clone());
    poller.set_interval(10);
    assert_eq!(poller.interval(), 10);
    assert_eq!(poller.current(), Some(reading));
}

#[test]
fn a_failed_geo_lookup_is_not_an_outage() {
    let ip = parse("203.0.113.7").unwrap();
    assert_eq!(geo_question(&Ok(ip)), Some(ip));
    assert_eq!(geo_question(&Err(failure())), None);

    let reading = resolve_snapshot(Ok(ip), Err(failure()), 77).unwrap();
    assert_eq!(reading, Snapshot { ip, geo: GeoInfo::default(), observed_at: 77 });

    let geo = GeoInfo { country_code: Some("US".to_string()), ..Default::default() };
    let reading = resolve_snapshot(Ok(ip), Ok(geo), 78).unwrap();
    assert_eq!(reading.geo.country_code.as_deref(), Some("US"));

    assert_eq!(resolve_snapshot(Err(failure()), Ok(GeoInfo::default()), 79), Err(failure()));
}

#[test]
fn a_clock_before_the_epoch_reads_as_zero() {
    assert_eq!(now_unix(Some(1_700_000_000)), 1_700_000_000);
    assert_eq!(now_unix(None), 0);
}
