use ipwatch::app::{get_settings, notifications_enabled, open_settings, set_settings};
use ipwatch::json::JsonReply;
use ipwatch::settings::{
    clamp_poll_interval_secs, load, read_stored, stored_settings, Settings, SettingsError,
    StoredSettings,
    DEFAULT_POLL_INTERVAL_SECS, MAX_POLL_INTERVAL_SECS, MIN_POLL_INTERVAL_SECS,
};

#[test]
fn defaults_when_file_absent() {
    assert_eq!(load(StoredSettings::Missing), Settings::default());
}

#[test]
fn unusable_files_fall_back_to_defaults() {
    assert_eq!(load(StoredSettings::Unreadable), Settings::default());
    assert_eq!(load(StoredSettings::Corrupt), Settings::default());
    assert_eq!(open_settings(None), Settings::default());
    assert_eq!(open_settings(Some(StoredSettings::Missing)), Settings::default());
}

#[test]
fn corrupt_json_falls_back_to_defaults_without_error() {
    let stored = read_stored("{ not valid json at all", None);
    assert_eq!(stored, StoredSettings::Corrupt);
    assert_eq!(load(stored), Settings::default());
}

#[test]
fn valid_but_wrong_shaped_json_falls_back_to_defaults() {
    let decoded = || Some(Settings { poll_interval_secs: 90, ..Settings::default() });
    // Even where the elements of an array could be taken for the fields.
    for contents in ["[1, 2, 3]", "[90]", "90", "null", "\"text\""] {
        let stored = read_stored(contents, decoded());
        assert_eq!(stored, StoredSettings::Corrupt, "{contents}");
        assert_eq!(load(stored), Settings::default());
    }
}

#[test]
fn an_object_that_decodes_holds_settings() {
    let settings = Settings { poll_interval_secs: 90, ..Settings::default() };
    assert_eq!(
        read_stored("{\"poll_interval_secs\": 90}", Some(settings.clone())),
        StoredSettings::Found(settings.clone())
    );
    assert_eq!(read_stored("{\"poll_interval_secs\": \"x\"}", None), StoredSettings::Corrupt);
    let object = || Some(JsonReply::Object(Vec::new()));
    assert_eq!(
        stored_settings(object(), Some(settings.clone())),
        StoredSettings::Found(settings.clone())
    );
    assert_eq!(stored_settings(object(), None), StoredSettings::Corrupt);
    assert_eq!(stored_settings(None, Some(settings)), StoredSettings::Corrupt);
}

#[test]
fn the_defaults_are_what_they_are() {
    let settings = Settings::default();
    assert_eq!(settings.poll_interval_secs, DEFAULT_POLL_INTERVAL_SECS);
    assert_eq!(DEFAULT_POLL_INTERVAL_SECS, 60);
    assert!(settings.notifications_enabled);
    assert!(!settings.launch_at_startup);
    assert!(!settings.start_minimised);
    assert_eq!(settings.expected_country_code, None);
}

#[test]
fn settings_within_the_limits_load_as_they_are() {
    let original = Settings {
        poll_interval_secs: 120,
        notifications_enabled: false,
        launch_at_startup: true,
        start_minimised: false,
        expected_country_code: Some("NL".to_string()),
    };
    assert_eq!(load(StoredSettings::Found(original.clone())), original);
    assert_eq!(open_settings(Some(StoredSettings::Found(original.clone()))), original);
}

// --- clamping ---

#[test]
fn clamp_zero_goes_to_minimum() {
    assert_eq!(clamp_poll_interval_secs(0), MIN_POLL_INTERVAL_SECS);
}

#[test]
fn clamp_five_goes_to_minimum() {
    assert_eq!(clamp_poll_interval_secs(5), MIN_POLL_INTERVAL_SECS);
}

#[test]
fn clamp_sixty_is_unchanged() {
    assert_eq!(clamp_poll_interval_secs(60), 60);
}

#[test]
fn clamp_999999_goes_to_maximum() {
    assert_eq!(clamp_poll_interval_secs(999_999), MAX_POLL_INTERVAL_SECS);
}

#[test]
fn clamp_keeps_the_limits_themselves() {
    assert_eq!(clamp_poll_interval_secs(10), 10);
    assert_eq!(clamp_poll_interval_secs(9), 10);
    assert_eq!(clamp_poll_interval_secs(3600), 3600);
    assert_eq!(clamp_poll_interval_secs(3601), 3600);
}

#[test]
fn clamp_is_applied_on_load() {
    let stored = Settings { poll_interval_secs: 0, ..Settings::default() };
    let settings = load(StoredSettings::Found(stored));
    assert_eq!(settings.poll_interval_secs, MIN_POLL_INTERVAL_SECS);
}

#[test]
fn clamp_is_applied_on_load_for_out_of_range_high_value() {
    let stored = Settings { poll_interval_secs: 999999, ..Settings::default() };
    let settings = load(StoredSettings::Found(stored));
    assert_eq!(settings.poll_interval_secs, MAX_POLL_INTERVAL_SECS);
}

#[test]
fn settings_clamp_method_clamps_in_place() {
    let mut settings = Settings { poll_interval_secs: 0, ..Settings::default() };
    settings.clamp();
    assert_eq!(settings.poll_interval_secs, MIN_POLL_INTERVAL_SECS);

    let mut settings = Settings { poll_interval_secs: 999_999, ..Settings::default() };
    settings.clamp();
    assert_eq!(settings.poll_interval_secs, MAX_POLL_INTERVAL_SECS);
}

// --- changing settings ---

#[test]
fn new_settings_are_clamped_and_made_current() {
    let mut current = Settings::default();
    let new_settings = Settings {
        poll_interval_secs: 1,
        notifications_enabled: false,
        expected_country_code: Some("NL".to_string()),
        ..Settings::default()
    };

    let effects = set_settings(new_settings, &mut current);

    assert_eq!(effects.effective.poll_interval_secs, 10);
    assert_eq!(current, effects.effective);
    assert_eq!(get_settings(&current), effects.effective);
    assert!(!notifications_enabled(&current));
    assert_eq!(effects.re_baseline, Some(Some("NL".to_string())));

    // Sending the answer back changes nothing more.
    let again = set_settings(effects.effective.clone(), &mut current);
    assert_eq!(again.effective, effects.effective);
    assert_eq!(again.re_baseline, None);

    // Dropping the expectation is a change of it.
    let dropped = Settings { expected_country_code: None, ..effects.effective };
    assert_eq!(set_settings(dropped, &mut current).re_baseline, Some(None));
}

#[test]
fn settings_errors_name_their_cause() {
    assert_eq!(SettingsError::Io("denied".to_string()).message(), "io error: denied");
    assert_eq!(SettingsError::Json("eof".to_string()).message(), "json error: eof");
}
