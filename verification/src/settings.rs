//! User settings: their defaults, their limits, and what a stored file comes
//! to.
//!
//! The file itself is the caller's part. The poll interval and the
//! notifications toggle must be known before any window exists, so loading
//! never fails: whatever is wrong with the file, the defaults take its place.
use vstd::prelude::*;

use crate::json;
use crate::json::{parse_json, JsonReply};

verus! {

/// Floor for `poll_interval_secs`, enforced on every load and every change. A
/// `0` would spin the poll loop hammering the providers with no backoff, which
/// must be impossible regardless of what ends up in the settings file.
pub const MIN_POLL_INTERVAL_SECS: u64 = 10;

/// Ceiling for `poll_interval_secs`. An hour keeps "how stale can the tray
/// get" bounded to something a user would recognize as intentional.
pub const MAX_POLL_INTERVAL_SECS: u64 = 3600;

/// Default poll interval, matching the poller's own default.
pub const DEFAULT_POLL_INTERVAL_SECS: u64 = 60;

/// User-configurable settings.
#[derive(Debug, PartialEq)]
pub struct Settings {
    pub poll_interval_secs: u64,
    pub notifications_enabled: bool,
    pub launch_at_startup: bool,
    /// Whether the window stays hidden in the tray at startup.
    pub start_minimised: bool,
    pub expected_country_code: Option<String>,
}

impl Settings {
    pub open spec fn defaults() -> Settings {
        Settings {
            poll_interval_secs: DEFAULT_POLL_INTERVAL_SECS,
            notifications_enabled: true,
            launch_at_startup: false,
            start_minimised: false,
            expected_country_code: None,
        }
    }

    /// These settings with the poll interval brought within its limits.
    pub open spec fn clamped(self) -> Settings {
        Settings { poll_interval_secs: clamped_secs(self.poll_interval_secs), ..self }
    }

    /// Whether the poll interval is within its limits.
    pub open spec fn in_range(self) -> bool {
        MIN_POLL_INTERVAL_SECS <= self.poll_interval_secs <= MAX_POLL_INTERVAL_SECS
    }
}

impl Default for Settings {
    fn default() -> (r: Self)
        ensures
            r == Settings::defaults(),
            r.poll_interval_secs == 60,
            r.notifications_enabled && !r.launch_at_startup && !r.start_minimised,
            r.expected_country_code is None,
    {
        Settings {
            poll_interval_secs: DEFAULT_POLL_INTERVAL_SECS,
            notifications_enabled: true,
            launch_at_startup: false,
            start_minimised: false,
            expected_country_code: None,
        }
    }
}

impl Clone for Settings {
    fn clone(&self) -> (r: Self)
        ensures
            r == *self,
    {
        Settings {
            poll_interval_secs: self.poll_interval_secs,
            notifications_enabled: self.notifications_enabled,
            launch_at_startup: self.launch_at_startup,
            start_minimised: self.start_minimised,
            expected_country_code: self.expected_country_code.clone(),
        }
    }
}

/// The poll interval nearest to `secs` that is within the limits.
pub open spec fn clamped_secs(secs: u64) -> u64 {
    if secs < MIN_POLL_INTERVAL_SECS {
        MIN_POLL_INTERVAL_SECS
    } else if secs > MAX_POLL_INTERVAL_SECS {
        MAX_POLL_INTERVAL_SECS
    } else {
        secs
    }
}

/// Brings a bare poll interval within its limits.
pub fn clamp_poll_interval_secs(secs: u64) -> (r: u64)
    ensures
        r == clamped_secs(secs),
        10 <= r <= 3600,
        10 <= secs <= 3600 ==> r == secs,
        secs < 10 ==> r == 10,
        secs > 3600 ==> r == 3600,
{
    if secs < MIN_POLL_INTERVAL_SECS {
        MIN_POLL_INTERVAL_SECS
    } else if secs > MAX_POLL_INTERVAL_SECS {
        MAX_POLL_INTERVAL_SECS
    } else {
        secs
    }
}

impl Settings {
    /// Brings `poll_interval_secs` within its limits in place. Happens both on
    /// load (a hand-edited file might contain anything) and on every change (a
    /// misbehaving frontend might send anything).
    pub fn clamp(&mut self)
        ensures
            *final(self) == old(self).clamped(),
            10 <= final(self).poll_interval_secs <= 3600,
            final(self).notifications_enabled == old(self).notifications_enabled,
            final(self).launch_at_startup == old(self).launch_at_startup,
            final(self).start_minimised == old(self).start_minimised,
            final(self).expected_country_code == old(self).expected_country_code,
    {
        self.poll_interval_secs = clamp_poll_interval_secs(self.poll_interval_secs);
    }
}

/// What was found where the settings are stored.
#[derive(Debug, PartialEq)]
pub enum StoredSettings {
    /// There is no file: the expected first-run case.
    Missing,
    /// The file could not be read.
    Unreadable,
    /// The file does not hold settings.
    Corrupt,
    /// The file holds these settings.
    Found(Settings),
}

/// What a file holds whose JSON has the given shape and decodes as told.
pub open spec fn held(
    shape: Option<json::ReplyShape>,
    decoded: Option<Settings>,
) -> StoredSettings {
    match (shape, decoded) {
        (Some(json::ReplyShape::Object(_)), Some(settings)) => StoredSettings::Found(settings),
        _ => StoredSettings::Corrupt,
    }
}

/// The settings that what was found comes to.
pub open spec fn loaded(stored: StoredSettings) -> Settings {
    match stored {
        StoredSettings::Found(settings) => settings.clamped(),
        _ => Settings::defaults(),
    }
}

/// What a file that could be read amounts to. `shape` is that of the JSON in
/// it, `decoded` the settings that its members give, where they can be
/// decoded. Only an object holds settings.
pub fn stored_settings(shape: Option<JsonReply>, decoded: Option<Settings>) -> (r: StoredSettings)
    ensures
        r == held(
            match shape {
                Some(shape) => Some(shape@),
                None => None,
            },
            decoded,
        ),
{
    match (shape, decoded) {
        (Some(JsonReply::Object(_)), Some(settings)) => StoredSettings::Found(settings),
        _ => StoredSettings::Corrupt,
    }
}

/// Reads a file's contents. `decoded` is as in `stored_settings`.
pub fn read_stored(contents: &str, decoded: Option<Settings>) -> (r: StoredSettings)
    ensures
        r == held(json::json_shape(vstd::utf8::encode_utf8(contents@)), decoded),
{
    stored_settings(parse_json(contents.as_bytes()), decoded)
}

/// Loads settings from what was found. A missing file, an unreadable file, or
/// one that does not hold settings all fall back to the defaults. The result
/// is always within the limits, so callers never need to clamp again.
pub fn load(stored: StoredSettings) -> (r: Settings)
    ensures
        r == loaded(stored),
        r.in_range(),
        stored matches StoredSettings::Found(found) ==> {
            &&& 10 <= found.poll_interval_secs <= 3600 ==> r == found
            &&& r.notifications_enabled == found.notifications_enabled
            &&& r.launch_at_startup == found.launch_at_startup
            &&& r.start_minimised == found.start_minimised
            &&& r.expected_country_code == found.expected_country_code
        },
        !(stored is Found) ==> r.poll_interval_secs == 60 && r.notifications_enabled
            && !r.launch_at_startup && !r.start_minimised && r.expected_country_code is None,
{
    let mut settings = match stored {
        StoredSettings::Found(settings) => settings,
        StoredSettings::Missing => Settings::default(),
        StoredSettings::Unreadable => Settings::default(),
        StoredSettings::Corrupt => Settings::default(),
    };
    settings.clamp();
    settings
}

/// Why settings could not be saved.
#[derive(Debug, PartialEq)]
pub enum SettingsError {
    Io(String),
    Json(String),
}

pub open spec fn settings_error_text(err: SettingsError) -> Seq<char> {
    match err {
        SettingsError::Io(detail) => "io error: "@ + detail@,
        SettingsError::Json(detail) => "json error: "@ + detail@,
    }
}

impl SettingsError {
    /// The message shown for this error.
    pub fn message(&self) -> (r: String)
        ensures
            r@ == settings_error_text(*self),
            *self matches SettingsError::Io(detail) ==> r@ == "io error: "@ + detail@,
            *self matches SettingsError::Json(detail) ==> r@ == "json error: "@ + detail@,
    {
        match self {
            SettingsError::Io(detail) => "io error: ".to_string().concat(detail.as_str()),
            SettingsError::Json(detail) => "json error: ".to_string().concat(detail.as_str()),
        }
    }
}

/// Clamping keeps settings that are within the limits as they are, so those
/// survive being stored and loaded; it always ends within the limits; and a
/// second time it changes nothing.
pub proof fn lemma_clamping(settings: Settings)
    ensures
        settings.clamped().in_range(),
        settings.in_range() ==> settings.clamped() == settings,
        settings.clamped().clamped() == settings.clamped(),
        settings.clamped().expected_country_code == settings.expected_country_code,
{
}

/// Saved settings load as they were saved, the interval brought within its
/// limits, so settings within the limits come back unchanged: this holds of
/// every file that is a JSON object, whatever its members, and decodes to the
/// settings, as the one that saving writes does.
pub proof fn lemma_saved_settings_load(
    settings: Settings,
    members: Seq<(Seq<char>, Option<Seq<char>>)>,
)
    ensures
        loaded(held(Some(json::ReplyShape::Object(members)), Some(settings)))
            == settings.clamped(),
        settings.in_range() ==> loaded(
            held(Some(json::ReplyShape::Object(members)), Some(settings)),
        ) == settings,
{
}

/// The defaults are within the limits.
pub proof fn lemma_defaults_in_range()
    ensures
        Settings::defaults().in_range(),
        DEFAULT_POLL_INTERVAL_SECS == crate::poller::DEFAULT_INTERVAL_SECS,
{
}

/// Clamping moves an interval no further than it must: the result is within
/// ten seconds and an hour, no interval within them is nearer, and longer
/// intervals never become shorter than shorter ones.
pub proof fn lemma_clamped_is_nearest(secs: u64, within: u64, other: u64)
    requires
        10 <= within <= 3600,
    ensures
        10 <= clamped_secs(secs) <= 3600,
        secs <= clamped_secs(secs) ==> clamped_secs(secs) - secs <= within - secs || within < secs,
        secs >= clamped_secs(secs) ==> secs - clamped_secs(secs) <= secs - within || within > secs,
        clamped_secs(within) == within,
        secs <= other ==> clamped_secs(secs) <= clamped_secs(other),
{
}

/// Clamping touches the interval alone.
pub proof fn lemma_clamping_keeps_the_rest(settings: Settings)
    ensures
        settings.clamped().notifications_enabled == settings.notifications_enabled,
        settings.clamped().launch_at_startup == settings.launch_at_startup,
        settings.clamped().start_minimised == settings.start_minimised,
        settings.clamped().expected_country_code == settings.expected_country_code,
        10 <= settings.clamped().poll_interval_secs <= 3600,
{
}

/// A file holds settings exactly if it is a JSON object that decodes to them;
/// whatever else is found loads as on a first run.
pub proof fn lemma_what_a_file_holds(
    shape: Option<json::ReplyShape>,
    decoded: Option<Settings>,
    settings: Settings,
)
    ensures
        held(shape, decoded) == StoredSettings::Found(settings) <==> (shape matches Some(
            json::ReplyShape::Object(_),
        )) && decoded == Some(settings),
        !(held(shape, decoded) is Found) ==> loaded(held(shape, decoded)) == loaded(
            StoredSettings::Missing,
        ),
        loaded(StoredSettings::Unreadable) == loaded(StoredSettings::Missing),
        loaded(StoredSettings::Missing).notifications_enabled,
        !loaded(StoredSettings::Missing).launch_at_startup,
        !loaded(StoredSettings::Missing).start_minimised,
        loaded(StoredSettings::Missing).expected_country_code is None,
{
}

} // verus!
