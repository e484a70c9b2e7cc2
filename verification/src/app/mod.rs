//! What the running application does with readings, history and settings:
//! what is carried over a restart, what is recorded, what is shown and what a
//! change of settings brings about.
//!
//! Windows, channels, files and the database are the caller's part.
use vstd::prelude::*;

use crate::addr;
use crate::addr::parse;
use crate::db;
use crate::db::{ChangeReason, DbError, IpEvent};
use crate::dnsleak;
use crate::dnsleak::{Fetched, LeakReport};
use crate::netinfo;
use crate::netinfo::{NetInfo, NetInfoError};
use crate::poller;
use crate::poller::{clone_snapshot, Change, Poller, Snapshot};
use crate::providers::GeoInfo;
use crate::settings::{Settings, StoredSettings};
use crate::text;
use crate::text::same_text;

pub mod notify;
pub mod tiles;
pub mod tray;
pub mod window;

use notify::{notify_change, ToastMessage};

verus! {

// ---------------------------------------------------------------------------
// Startup
// ---------------------------------------------------------------------------

/// The reading that a recorded event amounts to, where its address can be
/// read.
///
/// Necessarily partial: the log keeps country, country code and ISP but not
/// city, coordinates, timezone or org. That is sufficient, because those are
/// what change detection compares, and the whole reading is replaced on the
/// first live tick.
pub open spec fn restored(event: IpEvent) -> Option<Snapshot> {
    match addr::address(event.external_ip@) {
        Some(ip) => Some(
            Snapshot {
                ip,
                geo: GeoInfo {
                    ip: Some(ip),
                    country: event.country,
                    country_code: event.country_code,
                    isp: event.isp,
                    ..GeoInfo::unknown()
                },
                observed_at: event.ts,
            },
        ),
        None => None,
    }
}

/// Rebuilds a reading from the newest recorded event, for seeding change
/// detection across a restart. `latest` is what reading that event gave, or
/// nothing if there is no database.
///
/// Without history, without a database, or with an address that cannot be
/// read there is simply no baseline.
pub fn last_snapshot(latest: Option<Result<Option<IpEvent>, DbError>>) -> (r: Option<Snapshot>)
    ensures
        r == (match latest {
            Some(Ok(Some(event))) => restored(event),
            _ => None,
        }),
        latest matches Some(Ok(Some(event))) ==> (r is Some <==> addr::address(
            event.external_ip@,
        ) is Some),
        latest matches Some(Ok(Some(event))) ==> r matches Some(s) ==> {
            &&& addr::address(event.external_ip@) == Some(s.ip)
            &&& s.geo.ip == Some(s.ip)
            &&& s.geo.country == event.country
            &&& s.geo.country_code == event.country_code
            &&& s.geo.isp == event.isp
            &&& s.observed_at == event.ts
        },
{
    let event = match latest {
        Some(Ok(Some(event))) => event,
        _ => {
            return None;
        },
    };
    match parse(event.external_ip.as_str()) {
        Some(ip) => Some(
            Snapshot {
                ip,
                geo: GeoInfo {
                    ip: Some(ip),
                    country: event.country,
                    country_code: event.country_code,
                    region: None,
                    city: None,
                    lat: None,
                    lon: None,
                    timezone: None,
                    isp: event.isp,
                    org: None,
                    asn: None,
                },
                observed_at: event.ts,
            },
        ),
        None => None,
    }
}

/// The settings of this session. `stored` is what was found where they are
/// kept, or nothing if that place could not be resolved.
pub fn open_settings(stored: Option<StoredSettings>) -> (r: Settings)
    ensures
        r == (match stored {
            Some(StoredSettings::Found(settings)) => settings.clamped(),
            _ => Settings::defaults(),
        }),
        r.in_range(),
        10 <= r.poll_interval_secs <= 3600,
{
    match stored {
        Some(stored) => crate::settings::load(stored),
        None => Settings::default(),
    }
}

/// The poller that a session starts with: the configured interval, and the
/// last persisted reading as its starting point.
pub fn start_poller(settings: &Settings, seed: Option<Snapshot>) -> (r: Poller)
    ensures
        r == (Poller { interval: settings.poll_interval_secs, state: seed, offline: false }),
{
    let mut poller = Poller::with_interval(settings.poll_interval_secs);
    if let Some(snapshot) = seed {
        poller.seed(snapshot);
    }
    poller
}

/// What to do about the launch-at-startup registration.
#[derive(Clone, Copy, Debug, PartialEq, Eq, Structural)]
pub enum AutostartAction {
    Leave,
    Enable,
    Disable,
}

/// Brings the launch-at-startup registration in line with the setting.
/// `current` is whether it is registered, or nothing if that could not be
/// read.
///
/// Only acts when the two actually differ: removing an entry that was never
/// registered fails, and would be reported on every launch. An unknown state
/// is overwritten rather than left alone.
pub fn apply_autostart(current: Option<bool>, enabled: bool) -> (r: AutostartAction)
    ensures
        r == (if current == Some(enabled) {
            AutostartAction::Leave
        } else if enabled {
            AutostartAction::Enable
        } else {
            AutostartAction::Disable
        }),
{
    let settled = match current {
        Some(current) => current == enabled,
        None => false,
    };
    if settled {
        AutostartAction::Leave
    } else if enabled {
        AutostartAction::Enable
    } else {
        AutostartAction::Disable
    }
}

// ---------------------------------------------------------------------------
// Following the poller
// ---------------------------------------------------------------------------

/// Whether a change is worth a row of history.
///
/// `Offline` changes never are, even though they are always shown: their
/// current reading is the last known one, republished, and a row for it would
/// claim an observation that did not happen.
pub open spec fn worth_recording(change: Change) -> bool {
    change.reason != ChangeReason::Offline && change.current is Some
}

/// Whether `event` records `current`, observed for `reason`.
pub open spec fn records(event: IpEvent, current: Snapshot, reason: ChangeReason) -> bool {
    &&& event.id is None
    &&& event.ts == current.observed_at
    &&& event.external_ip@ == addr::address_text(current.ip)
    &&& event.country == current.geo.country
    &&& event.country_code == current.geo.country_code
    &&& event.isp == current.geo.isp
    &&& event.change_reason == reason
}

/// The event to record for a change, where it is worth one.
pub fn persist_if_warranted(change: &Change) -> (r: Option<IpEvent>)
    ensures
        match r {
            Some(event) => worth_recording(*change) && records(
                event,
                change.current->0,
                change.reason,
            ),
            None => !worth_recording(*change),
        },
        r is Some <==> change.reason != ChangeReason::Offline && change.current is Some,
        r matches Some(event) ==> {
            &&& event.change_reason == change.reason
            &&& event.id is None
            &&& event.ts == (change.current->0).observed_at
            &&& event.external_ip@ == addr::address_text((change.current->0).ip)
            &&& event.country == (change.current->0).geo.country
            &&& event.country_code == (change.current->0).geo.country_code
            &&& event.isp == (change.current->0).geo.isp
        },
{
    if change.reason == ChangeReason::Offline {
        return None;
    }
    match &change.current {
        Some(current) => Some(
            IpEvent {
                id: None,
                ts: current.observed_at,
                external_ip: current.ip.to_text(),
                country: current.geo.country.clone(),
                country_code: current.geo.country_code.clone(),
                isp: current.geo.isp.clone(),
                change_reason: change.reason,
            },
        ),
        None => None,
    }
}

/// What comes off the stream of published changes.
#[derive(Debug, PartialEq)]
pub enum StreamItem {
    Published(Change),
    /// So many changes were missed.
    Lagged(u64),
    Closed,
}

/// What a follower of the stream does next.
#[derive(Debug, PartialEq)]
pub enum StreamStep {
    Handle(Change),
    Continue,
    Stop,
}

/// Follows the stream. Lagging never ends the following: that would silently
/// stop all updates for the rest of the session, which is worse than missing
/// a few of them.
pub fn follow(item: StreamItem) -> (r: StreamStep)
    ensures
        r == (match item {
            StreamItem::Published(change) => StreamStep::Handle(change),
            StreamItem::Lagged(_) => StreamStep::Continue,
            StreamItem::Closed => StreamStep::Stop,
        }),
{
    match item {
        StreamItem::Published(change) => StreamStep::Handle(change),
        StreamItem::Lagged(_) => StreamStep::Continue,
        StreamItem::Closed => StreamStep::Stop,
    }
}

/// Whether toasts are wanted.
pub fn notifications_enabled(settings: &Settings) -> (r: bool)
    ensures
        r == settings.notifications_enabled,
{
    settings.notifications_enabled
}

/// What a published change brings about, besides being sent to the frontend.
#[derive(Debug, PartialEq)]
pub struct BridgeWork {
    pub persist: Option<IpEvent>,
    pub toast: Option<ToastMessage>,
}

/// Decides what a published change brings about. The toggle is applied here:
/// which changes are worth a toast does not depend on it.
pub fn bridge_change(change: &Change, notifications: bool) -> (r: BridgeWork)
    ensures
        match r.persist {
            Some(event) => worth_recording(*change) && records(
                event,
                change.current->0,
                change.reason,
            ),
            None => !worth_recording(*change),
        },
        r.persist is Some <==> change.reason != ChangeReason::Offline && change.current is Some,
        r.persist matches Some(event) ==> event.change_reason == change.reason,
        match r.toast {
            Some(toast) => notifications && notify::worth_a_toast(change.reason) && toast.title@
                == notify::toast_title(change.reason) && toast.body@ == notify::toast_body(
                change.reason,
                change.previous,
                change.current,
            ),
            None => !(notifications && notify::worth_a_toast(change.reason)),
        },
{
    let persist = persist_if_warranted(change);
    let toast = if notifications {
        notify_change(change)
    } else {
        None
    };
    BridgeWork { persist, toast }
}

// ---------------------------------------------------------------------------
// Commands
// ---------------------------------------------------------------------------

/// What the details window shows.
#[derive(Debug, PartialEq)]
pub struct Details {
    pub snapshot: Option<Snapshot>,
    pub netinfo: NetInfo,
    pub online: bool,
}

impl Clone for Details {
    fn clone(&self) -> (r: Self)
        ensures
            r.snapshot == self.snapshot,
            r.netinfo.internal_ips@ == self.netinfo.internal_ips@,
            r.netinfo.dns_servers@ == self.netinfo.dns_servers@,
            r.netinfo.hostname == self.netinfo.hostname,
            r.online == self.online,
    {
        Details {
            snapshot: clone_snapshot(&self.snapshot),
            netinfo: self.netinfo.clone(),
            online: self.online,
        }
    }
}

/// Puts together the current reading, the local network facts and whether the
/// network is reachable.
pub fn get_details(
    snapshot: Option<Snapshot>,
    netinfo: Result<NetInfo, NetInfoError>,
    online: bool,
) -> (r: Result<Details, String>)
    ensures
        match netinfo {
            Ok(netinfo) => r == Ok::<Details, String>(Details { snapshot, netinfo, online }),
            Err(err) => r matches Err(message) && message@ == netinfo::netinfo_error_text(err),
        },
{
    match netinfo {
        Ok(netinfo) => Ok(Details { snapshot, netinfo, online }),
        Err(err) => Err(err.message()),
    }
}

/// Answers a request for history. `read` is what the database gave, or nothing
/// if there is none: that is degraded mode, not a failure.
pub fn get_history(read: Option<Result<Vec<IpEvent>, DbError>>) -> (r: Result<
    Vec<IpEvent>,
    String,
>)
    ensures
        match read {
            Some(Ok(events)) => r == Ok::<Vec<IpEvent>, String>(events),
            Some(Err(err)) => r matches Err(message) && message@ == db::db_error_text(err),
            None => r matches Ok(events) && events@.len() == 0,
        },
{
    match read {
        Some(Ok(events)) => Ok(events),
        Some(Err(err)) => Err(err.message()),
        None => Ok(Vec::new()),
    }
}

/// Begins a DNS leak test: refused while another one runs, otherwise the ASN
/// of the current reading, which the resolvers are compared with.
///
/// A second test is refused rather than queued. Each takes several seconds,
/// and a queued one would leave its caller waiting for no benefit.
pub fn begin_dns_leak_test(running: bool, current: Option<&Snapshot>) -> (r: Result<
    Option<String>,
    String,
>)
    ensures
        match r {
            Err(message) => running && message@ == "a DNS leak test is already running"@,
            Ok(asn) => !running && asn == (match poller::by_value(current) {
                Some(snapshot) => snapshot.geo.asn,
                None => None,
            }),
        },
{
    if running {
        return Err("a DNS leak test is already running".to_string());
    }
    match current {
        Some(snapshot) => Ok(snapshot.geo.asn.clone()),
        None => Ok(None),
    }
}

/// Answers a request for a DNS leak test once it ended.
pub fn run_dns_leak_test(fetched: Fetched, expected_asn: Option<&str>) -> (r: Result<
    LeakReport,
    String,
>)
    ensures
        match fetched {
            Fetched::TimedOut => r matches Err(message) && message@ == "timed out while "@
                + "fetching dnsleak results"@,
            Fetched::Answered(Err(err)) => r matches Err(message) && message@
                == dnsleak::leak_error_text(err),
            Fetched::Answered(Ok(entries)) => {
                &&& r matches Ok(report)
                &&& report.external_ip == dnsleak::reported_ip(entries@)
                &&& report.resolvers@ == dnsleak::reported_resolvers(entries@)
                &&& dnsleak::verdict::is_verdict(
                    report.verdict,
                    text::opt_str(expected_asn),
                    dnsleak::reported_resolvers(entries@),
                )
            },
        },
{
    match dnsleak::run_test(fetched, expected_asn) {
        Ok(report) => Ok(report),
        Err(err) => Err(err.message()),
    }
}

/// The currently effective settings.
pub fn get_settings(settings: &Settings) -> (r: Settings)
    ensures
        r == *settings,
{
    settings.clone()
}

/// What new settings bring about.
#[derive(Debug, PartialEq)]
pub struct SettingsEffects {
    /// The settings as actually applied: to be stored, to be answered with,
    /// and where the new poll interval and launch-at-startup flag come from.
    pub effective: Settings,
    /// The country to judge the current reading against from now on, where
    /// the expectation changed.
    pub re_baseline: Option<Option<String>>,
}

fn same_code(a: &Option<String>, b: &Option<String>) -> (r: bool)
    ensures
        r == (text::opt_text(*a) == text::opt_text(*b)),
{
    match (a, b) {
        (Some(x), Some(y)) => same_text(x.as_str(), y.as_str()),
        (None, None) => true,
        _ => false,
    }
}

/// Brings new settings within their limits and makes them current.
///
/// The answer holds the *effective* settings: the caller may have sent an
/// interval that is out of range, and should reflect what is actually running.
pub fn set_settings(new_settings: Settings, current: &mut Settings) -> (r: SettingsEffects)
    ensures
        *final(current) == new_settings.clamped(),
        r.effective == new_settings.clamped(),
        r.effective.in_range(),
        10 <= r.effective.poll_interval_secs <= 3600,
        10 <= new_settings.poll_interval_secs <= 3600 ==> r.effective == new_settings,
        r.effective.notifications_enabled == new_settings.notifications_enabled,
        r.effective.launch_at_startup == new_settings.launch_at_startup,
        r.effective.start_minimised == new_settings.start_minimised,
        r.effective.expected_country_code == new_settings.expected_country_code,
        r.re_baseline == (if text::opt_text(new_settings.expected_country_code)
            == text::opt_text(old(current).expected_country_code) {
            None
        } else {
            Some(new_settings.expected_country_code)
        }),
{
    let mut effective = new_settings;
    effective.clamp();
    let unchanged = same_code(&effective.expected_country_code, &current.expected_country_code);
    *current = effective.clone();
    let re_baseline = if unchanged {
        None
    } else {
        Some(effective.expected_country_code.clone())
    };
    SettingsEffects { effective, re_baseline }
}

// ---------------------------------------------------------------------------
// Laws
// ---------------------------------------------------------------------------

/// Change detection carries on across a restart: once a reading was recorded,
/// stored, read back and restored, every later reading is classified as it
/// would have been without the restart.
pub proof fn lemma_restart_carries_on(
    current: Snapshot,
    reason: ChangeReason,
    event: IpEvent,
    new: db::NewRow,
    id: i64,
    row: db::EventRow,
    read: IpEvent,
    later: Snapshot,
)
    requires
        records(event, current, reason),
        db::row_of_event(event, new),
        db::stored_as(new, id, row),
        db::event_of_row(row, read),
    ensures
        restored(read) is Some,
        (restored(read)->0).ip == current.ip,
        (restored(read)->0).observed_at == current.observed_at,
        poller::classification(restored(read), later) == poller::classification(
            Some(current),
            later,
        ),
{
    db::lemma_event_round_trip(event, new, id, row, read);
    addr::lemma_address_round_trip(current.ip);
}

/// A restart is silent: a session that starts from what was recorded of a
/// reading, and then reads the same address, country and ISP, publishes
/// nothing, so it records nothing either.
pub proof fn lemma_restart_is_silent(
    current: Snapshot,
    reason: ChangeReason,
    event: IpEvent,
    new: db::NewRow,
    id: i64,
    row: db::EventRow,
    read: IpEvent,
    later: Snapshot,
    interval: u64,
)
    requires
        records(event, current, reason),
        db::row_of_event(event, new),
        db::stored_as(new, id, row),
        db::event_of_row(row, read),
        later.ip == current.ip,
        text::opt_text(later.geo.country_code) == text::opt_text(current.geo.country_code),
        text::opt_text(later.geo.isp) == text::opt_text(current.geo.isp),
    ensures
        poller::published_on_tick(
            Poller { interval, state: restored(read), offline: false },
            Some(later),
        ) is None,
{
    lemma_restart_carries_on(current, reason, event, new, id, row, read, later);
    poller::lemma_unknown_fields_are_no_change(current, later);
}

/// Exactly the changes that stem from a reading are recorded: an outage leaves
/// no row behind, and every change found by comparing readings leaves one.
pub proof fn lemma_history_holds_observations(p: Poller, reading: Option<Snapshot>)
    ensures
        poller::published_on_tick(p, reading) matches Some(change) ==> (worth_recording(change)
            <==> reading is Some),
{
    poller::lemma_change_links_states(p, reading);
    if let Some(current) = reading {
        poller::lemma_classification_is_never_offline(p.state, current);
    }
}

/// A drop of the VPN is never missed: where both readings tell the country, or
/// the ISP, and differ in it, the change is published and is worth a toast,
/// whatever else changed.
pub proof fn lemma_drop_is_announced(p: Poller, previous: Snapshot, current: Snapshot)
    requires
        p.state == Some(previous),
        poller::differs(previous.geo.country_code, current.geo.country_code) || poller::differs(
            previous.geo.isp,
            current.geo.isp,
        ),
    ensures
        poller::published_on_tick(p, Some(current)) matches Some(change)
            && notify::worth_a_toast(change.reason),
{
}

/// A published change is worth a toast only where connectivity was lost, or
/// where the country or the ISP of the last reading is known to have changed.
pub proof fn lemma_no_idle_toast(p: Poller, reading: Option<Snapshot>)
    ensures
        poller::published_on_tick(p, reading) matches Some(change) && notify::worth_a_toast(
            change.reason,
        ) ==> (match (p.state, reading) {
            (_, None) => !p.offline,
            (Some(previous), Some(current)) => poller::differs(
                previous.geo.country_code,
                current.geo.country_code,
            ) || poller::differs(previous.geo.isp, current.geo.isp),
            (None, Some(_)) => false,
        }),
{
}

/// The log says what happened: an event carries the reason of the change it
/// records, and everything the log keeps of the reading, each in its own
/// column; and all of it comes back once it was stored and read.
pub proof fn lemma_log_keeps_reading_and_reason(
    change: Change,
    event: IpEvent,
    new: db::NewRow,
    id: i64,
    row: db::EventRow,
    read: IpEvent,
)
    requires
        worth_recording(change),
        records(event, change.current->0, change.reason),
        db::row_of_event(event, new),
        db::stored_as(new, id, row),
        db::event_of_row(row, read),
    ensures
        event.change_reason == change.reason,
        read.change_reason == change.reason,
        read.id == Some(id),
        read.ts == (change.current->0).observed_at,
        addr::address(read.external_ip@) == Some((change.current->0).ip),
        text::opt_text(read.country) == text::opt_text((change.current->0).geo.country),
        text::opt_text(read.country_code) == text::opt_text((change.current->0).geo.country_code),
        text::opt_text(read.isp) == text::opt_text((change.current->0).geo.isp),
{
    db::lemma_event_round_trip(event, new, id, row, read);
    addr::lemma_address_round_trip((change.current->0).ip);
}

/// Events of changes with different reasons are different entries of the log.
pub proof fn lemma_reasons_stay_apart(
    current: Snapshot,
    a: ChangeReason,
    b: ChangeReason,
    first: IpEvent,
    second: IpEvent,
)
    requires
        records(first, current, a),
        records(second, current, b),
    ensures
        first.change_reason == second.change_reason <==> a == b,
{
}

/// A restored reading tells what the log kept, each fact in its own field, and
/// claims nothing else.
pub proof fn lemma_restored_fields(event: IpEvent, ip: addr::IpAddr)
    requires
        event.external_ip@ == addr::address_text(ip),
    ensures
        restored(event) matches Some(s) && {
            &&& s.ip == ip
            &&& s.geo.ip == Some(ip)
            &&& s.observed_at == event.ts
            &&& s.geo.country == event.country
            &&& s.geo.country_code == event.country_code
            &&& s.geo.isp == event.isp
            &&& s.geo.region is None && s.geo.city is None && s.geo.timezone is None
            &&& s.geo.lat is None && s.geo.lon is None && s.geo.org is None && s.geo.asn is None
        },
{
    addr::lemma_address_round_trip(ip);
}

/// Every change of country or ISP that a tick finds is toasted and recorded
/// under its own name, as the texts of the two readings tell.
pub proof fn lemma_drop_is_recorded_by_name(
    p: Poller,
    previous: Snapshot,
    current: Snapshot,
    event: IpEvent,
)
    requires
        p.state == Some(previous),
        previous.geo.country_code is Some,
        current.geo.country_code is Some,
        previous.geo.country_code->0@ != current.geo.country_code->0@,
        poller::published_on_tick(p, Some(current)) matches Some(change) && records(
            event,
            current,
            change.reason,
        ),
    ensures
        event.change_reason == ChangeReason::CountryChanged,
        event.country_code == current.geo.country_code,
{
    poller::lemma_classification_by_texts(previous, current);
}

} // verus!
