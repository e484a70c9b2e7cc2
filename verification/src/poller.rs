//! IP-change detection: what a tick of the refresh loop makes of a reading,
//! and when it is worth publishing.
//!
//! The loop itself, its clock and its channel belong to the caller: it makes
//! the lookups, hands the outcome to `refresh_once`, and publishes what comes
//! back.
use vstd::prelude::*;

use crate::addr::IpAddr;
use crate::db::ChangeReason;
use crate::providers::{GeoInfo, ProviderError};
use crate::text;
use crate::text::same_text;

verus! {

/// Default poll interval.
pub const DEFAULT_INTERVAL_SECS: u64 = 60;

/// The most recent successful observation.
#[derive(Debug, PartialEq)]
pub struct Snapshot {
    pub ip: IpAddr,
    pub geo: GeoInfo,
    /// Unix seconds.
    pub observed_at: i64,
}

impl Clone for Snapshot {
    fn clone(&self) -> (r: Self)
        ensures
            r == *self,
    {
        Snapshot { ip: self.ip, geo: self.geo.clone(), observed_at: self.observed_at }
    }
}

/// Published whenever the poller decides something changed.
#[derive(Debug, PartialEq)]
pub struct Change {
    pub previous: Option<Snapshot>,
    pub current: Option<Snapshot>,
    pub reason: ChangeReason,
}

impl Clone for Change {
    fn clone(&self) -> (r: Self)
        ensures
            r == *self,
    {
        Change {
            previous: clone_snapshot(&self.previous),
            current: clone_snapshot(&self.current),
            reason: self.reason,
        }
    }
}

pub fn clone_snapshot(snapshot: &Option<Snapshot>) -> (r: Option<Snapshot>)
    ensures
        r == *snapshot,
{
    match snapshot {
        Some(s) => Some(s.clone()),
        None => None,
    }
}

/// Two optional fields count as "changed" only when both sides actually
/// reported a value and those values disagree. Free-tier geo providers omit
/// fields unpredictably; reading a missing field as "changed" would fire a
/// spurious VPN-drop alert on provider flakiness rather than a real drop.
pub open spec fn differs(previous: Option<String>, current: Option<String>) -> bool {
    match (previous, current) {
        (Some(p), Some(c)) => p@ != c@,
        _ => false,
    }
}

pub fn known_and_differs(previous: &Option<String>, current: &Option<String>) -> (r: bool)
    ensures
        r == differs(*previous, *current),
        r == (*previous is Some && *current is Some && (*previous)->0@ != (*current)->0@),
{
    match (previous, current) {
        (Some(p), Some(c)) => !same_text(p.as_str(), c.as_str()),
        _ => false,
    }
}

/// The reason to record `current` after `previous`, if there is one. A
/// country change is the VPN-drop signal and outranks the rest; a bare IP
/// change happens routinely on reconnect within the same exit.
pub open spec fn classification(previous: Option<Snapshot>, current: Snapshot) -> Option<
    ChangeReason,
> {
    match previous {
        None => Some(ChangeReason::Initial),
        Some(p) => if differs(p.geo.country_code, current.geo.country_code) {
            Some(ChangeReason::CountryChanged)
        } else if differs(p.geo.isp, current.geo.isp) {
            Some(ChangeReason::IspChanged)
        } else if p.ip != current.ip {
            Some(ChangeReason::IpChanged)
        } else {
            None
        },
    }
}

/// An optional reading by value.
pub open spec fn by_value(snapshot: Option<&Snapshot>) -> Option<Snapshot> {
    match snapshot {
        Some(s) => Some(*s),
        None => None,
    }
}

/// Decides whether `current` differs from `previous` in a way worth recording.
pub fn classify(previous: Option<&Snapshot>, current: &Snapshot) -> (r: Option<ChangeReason>)
    ensures
        r == classification(by_value(previous), *current),
        previous is None ==> r == Some(ChangeReason::Initial),
        previous matches Some(p) ==> p.geo.country_code matches Some(before)
            ==> current.geo.country_code matches Some(now) ==> before@ != now@ ==> r == Some(
            ChangeReason::CountryChanged,
        ),
        previous matches Some(p) ==> p.ip != current.ip ==> r is Some,
{
    let previous = match previous {
        Some(previous) => previous,
        None => {
            return Some(ChangeReason::Initial);
        },
    };
    if known_and_differs(&previous.geo.country_code, &current.geo.country_code) {
        return Some(ChangeReason::CountryChanged);
    }
    if known_and_differs(&previous.geo.isp, &current.geo.isp) {
        return Some(ChangeReason::IspChanged);
    }
    if previous.ip != current.ip {
        return Some(ChangeReason::IpChanged);
    }
    None
}

/// The state of change detection.
#[derive(Debug, PartialEq)]
pub struct Poller {
    /// Seconds between ticks.
    pub interval: u64,
    /// The last reading that succeeded.
    pub state: Option<Snapshot>,
    /// Whether the last tick failed, so a run of failures only publishes
    /// `Offline` once, on the transition into that state.
    pub offline: bool,
}

/// What `p` is after a tick that read `current`.
pub open spec fn after_success(p: Poller, current: Snapshot) -> Poller {
    Poller { interval: p.interval, state: Some(current), offline: false }
}

/// What `p` publishes on a tick that read `current`.
pub open spec fn published_on_success(p: Poller, current: Snapshot) -> Option<Change> {
    match classification(p.state, current) {
        Some(reason) => Some(Change { previous: p.state, current: Some(current), reason }),
        None => None,
    }
}

/// What `p` is after a tick that failed. The last reading is kept.
pub open spec fn after_failure(p: Poller) -> Poller {
    Poller { interval: p.interval, state: p.state, offline: true }
}

/// What `p` publishes on a tick that failed: the last reading, unchanged, on
/// the transition into the offline state only.
pub open spec fn published_on_failure(p: Poller) -> Option<Change> {
    if p.offline {
        None
    } else {
        Some(Change { previous: p.state, current: p.state, reason: ChangeReason::Offline })
    }
}

/// What `p` is after a tick. `None` stands for a tick that failed.
pub open spec fn after_tick(p: Poller, reading: Option<Snapshot>) -> Poller {
    match reading {
        Some(current) => after_success(p, current),
        None => after_failure(p),
    }
}

/// What `p` publishes on a tick. `None` stands for a tick that failed.
pub open spec fn published_on_tick(p: Poller, reading: Option<Snapshot>) -> Option<Change> {
    match reading {
        Some(current) => published_on_success(p, current),
        None => published_on_failure(p),
    }
}

impl Poller {
    /// Builds a poller with the default interval.
    pub fn new() -> (r: Self)
        ensures
            r == (Poller { interval: DEFAULT_INTERVAL_SECS, state: None, offline: false }),
    {
        Self::with_interval(DEFAULT_INTERVAL_SECS)
    }

    /// Builds a poller with an explicit interval in seconds.
    pub fn with_interval(interval: u64) -> (r: Self)
        ensures
            r == (Poller { interval, state: None, offline: false }),
    {
        Poller { interval, state: None, offline: false }
    }

    /// The configured poll interval in seconds.
    pub fn interval(&self) -> (r: u64)
        ensures
            r == self.interval,
    {
        self.interval
    }

    /// Changes the poll interval; what was observed stays.
    pub fn set_interval(&mut self, interval: u64)
        ensures
            *final(self) == (Poller { interval, state: old(self).state, offline: old(self).offline }),
    {
        self.interval = interval;
    }

    /// The last-known snapshot.
    ///
    /// Stays populated with the last-known-good value through an offline
    /// stretch; pair this with `is_online` to know whether it is stale.
    pub fn current(&self) -> (r: Option<Snapshot>)
        ensures
            r == self.state,
    {
        clone_snapshot(&self.state)
    }

    /// Installs a starting point for change detection, without publishing.
    ///
    /// Used at startup to carry the last persisted reading across a restart.
    /// Does nothing if a snapshot is already present, so this can never
    /// clobber a live reading.
    pub fn seed(&mut self, snapshot: Snapshot)
        ensures
            *final(self) == (Poller {
                interval: old(self).interval,
                state: match old(self).state {
                    Some(present) => Some(present),
                    None => Some(snapshot),
                },
                offline: old(self).offline,
            }),
    {
        if self.state.is_none() {
            self.state = Some(snapshot);
        }
    }

    /// Whether the most recent tick succeeded.
    ///
    /// Deliberately distinct from `current().is_some()`: the last-known
    /// snapshot survives an outage on purpose, so only this reports live
    /// reachability. Recovering to the *same* reading publishes no `Change`,
    /// so this cannot be derived from what was published either.
    pub fn is_online(&self) -> (r: bool)
        ensures
            r == !self.offline,
    {
        !self.offline
    }

    /// Takes the outcome of one refresh and returns what to publish.
    pub fn refresh_once(&mut self, outcome: Result<Snapshot, ProviderError>) -> (r: Option<Change>)
        ensures
            *final(self) == after_tick(
                *old(self),
                match outcome {
                    Ok(current) => Some(current),
                    Err(_) => None,
                },
            ),
            r == published_on_tick(
                *old(self),
                match outcome {
                    Ok(current) => Some(current),
                    Err(_) => None,
                },
            ),
            final(self).interval == old(self).interval,
            final(self).offline == (outcome is Err),
            outcome matches Ok(current) ==> final(self).state == Some(current),
            outcome is Err ==> final(self).state == old(self).state,
    {
        match outcome {
            Ok(current) => self.handle_success(current),
            Err(_) => self.handle_failure(),
        }
    }

    /// Takes a reading. The fresh snapshot is stored even when nothing
    /// changed: `observed_at` must advance so the UI can say when the reading
    /// was last *verified*, and a partial seeded snapshot must be replaced by
    /// a complete one on the first live poll.
    pub fn handle_success(&mut self, current: Snapshot) -> (r: Option<Change>)
        ensures
            *final(self) == after_success(*old(self), current),
            r == published_on_success(*old(self), current),
            final(self).state == Some(current),
            !final(self).offline,
            final(self).interval == old(self).interval,
            r matches Some(change) ==> change.previous == old(self).state && change.current == Some(
                current,
            ),
            old(self).state is None ==> (r matches Some(change) && change.reason
                == ChangeReason::Initial),
            old(self).state matches Some(before) ==> before.ip != current.ip ==> r is Some,
    {
        self.offline = false;
        let previous = clone_snapshot(&self.state);
        let reason = classify(previous.as_ref(), &current);
        self.state = Some(current.clone());
        match reason {
            Some(reason) => Some(Change { previous, current: Some(current), reason }),
            None => None,
        }
    }

    /// Takes a failed refresh.
    pub fn handle_failure(&mut self) -> (r: Option<Change>)
        ensures
            *final(self) == after_failure(*old(self)),
            r == published_on_failure(*old(self)),
            final(self).state == old(self).state,
            final(self).offline,
            final(self).interval == old(self).interval,
            r is Some <==> !old(self).offline,
            r matches Some(change) ==> change.reason == ChangeReason::Offline && change.previous
                == old(self).state && change.current == old(self).state,
    {
        if self.offline {
            return None;
        }
        self.offline = true;
        let previous = clone_snapshot(&self.state);
        let current = clone_snapshot(&self.state);
        Some(Change { previous, current, reason: ChangeReason::Offline })
    }
}

/// The address to look up once the external IP lookup ended: the resolved
/// one; none where it failed.
pub fn geo_question(ip: &Result<IpAddr, ProviderError>) -> (r: Option<IpAddr>)
    ensures
        r == (match *ip {
            Ok(ip) => Some(ip),
            Err(_) => None::<IpAddr>,
        }),
{
    match ip {
        Ok(ip) => Some(*ip),
        Err(_) => None,
    }
}

/// Puts a reading together. A failed geo lookup on a resolved IP is not
/// "offline": the network is clearly up, so the geo fields are left unknown,
/// which `classify` reads as unchanged.
pub fn resolve_snapshot(
    ip: Result<IpAddr, ProviderError>,
    geo: Result<GeoInfo, ProviderError>,
    now: i64,
) -> (r: Result<Snapshot, ProviderError>)
    ensures
        match ip {
            Err(err) => r == Err::<Snapshot, ProviderError>(err),
            Ok(ip) => r == Ok::<Snapshot, ProviderError>(
                Snapshot {
                    ip,
                    geo: match geo {
                        Ok(geo) => geo,
                        Err(_) => GeoInfo::unknown(),
                    },
                    observed_at: now,
                },
            ),
        },
{
    let ip = match ip {
        Ok(ip) => ip,
        Err(err) => {
            return Err(err);
        },
    };
    let geo = match geo {
        Ok(geo) => geo,
        Err(_) => GeoInfo::default(),
    };
    Ok(Snapshot { ip, geo, observed_at: now })
}

/// Unix seconds from the whole seconds that passed since the epoch; 0 for a
/// clock that is set before it.
pub fn now_unix(since_epoch: Option<u64>) -> (r: i64)
    ensures
        r == (match since_epoch {
            Some(secs) => secs as i64,
            None => 0i64,
        }),
{
    match since_epoch {
        Some(secs) => #[verifier::truncate] (secs as i64),
        None => 0,
    }
}

// ---------------------------------------------------------------------------
// Laws
// ---------------------------------------------------------------------------

/// A missing country code or ISP, on either side, is never read as a change:
/// readings that agree on the address and on what both of them report are the
/// same.
pub proof fn lemma_unknown_fields_are_no_change(previous: Snapshot, current: Snapshot)
    requires
        previous.ip == current.ip,
        previous.geo.country_code is None || current.geo.country_code is None || text::opt_text(
            previous.geo.country_code,
        ) == text::opt_text(current.geo.country_code),
        previous.geo.isp is None || current.geo.isp is None || text::opt_text(previous.geo.isp)
            == text::opt_text(current.geo.isp),
    ensures
        classification(Some(previous), current) is None,
{
}

/// A country change outranks whatever else changed in the same tick.
pub proof fn lemma_country_outranks(previous: Snapshot, current: Snapshot)
    requires
        differs(previous.geo.country_code, current.geo.country_code),
    ensures
        classification(Some(previous), current) == Some(ChangeReason::CountryChanged),
{
}

/// A failed geo lookup never raises a country or ISP change.
pub proof fn lemma_unknown_geo_raises_no_alarm(previous: Option<Snapshot>, current: Snapshot)
    requires
        current.geo == GeoInfo::unknown(),
    ensures
        classification(previous, current) != Some(ChangeReason::CountryChanged),
        classification(previous, current) != Some(ChangeReason::IspChanged),
{
}

/// Detection never claims to be offline by comparing readings.
pub proof fn lemma_classification_is_never_offline(previous: Option<Snapshot>, current: Snapshot)
    ensures
        classification(previous, current) != Some(ChangeReason::Offline),
        classification(previous, current) == Some(ChangeReason::Initial) <==> previous is None,
{
}

/// The poller after a run of ticks.
pub open spec fn after_ticks(p: Poller, readings: Seq<Option<Snapshot>>) -> Poller
    decreases readings.len(),
{
    if readings.len() == 0 {
        p
    } else {
        after_tick(after_ticks(p, readings.drop_last()), readings.last())
    }
}

/// What a run of ticks publishes, in order.
pub open spec fn published(p: Poller, readings: Seq<Option<Snapshot>>) -> Seq<Change>
    decreases readings.len(),
{
    if readings.len() == 0 {
        seq![]
    } else {
        let before = published(p, readings.drop_last());
        match published_on_tick(after_ticks(p, readings.drop_last()), readings.last()) {
            Some(change) => before.push(change),
            None => before,
        }
    }
}

/// A run of failing ticks that begins online publishes exactly one change,
/// `Offline`, with the last reading on both sides; one that begins offline
/// publishes none.
pub proof fn lemma_offline_once(p: Poller, readings: Seq<Option<Snapshot>>)
    requires
        readings.len() > 0,
        forall|i: int| 0 <= i < readings.len() ==> #[trigger] readings[i] is None,
    ensures
        published(p, readings) == (if p.offline {
            seq![]
        } else {
            seq![Change { previous: p.state, current: p.state, reason: ChangeReason::Offline }]
        }),
        after_ticks(p, readings) == after_failure(p),
    decreases readings.len(),
{
    let front = readings.drop_last();
    assert(readings[readings.len() - 1] is None);
    if front.len() > 0 {
        assert forall|i: int| 0 <= i < front.len() implies #[trigger] front[i] is None by {
            assert(front[i] == readings[i]);
        }
        lemma_offline_once(p, front);
    } else {
        assert(published(p, front) =~= seq![]);
        assert(after_ticks(p, front) == p);
    }
}

/// The newest reading of a run of ticks, or the one the run began with where
/// every tick failed.
pub open spec fn newest(p: Poller, readings: Seq<Option<Snapshot>>) -> Option<Snapshot>
    decreases readings.len(),
{
    if readings.len() == 0 {
        p.state
    } else {
        match readings.last() {
            Some(current) => Some(current),
            None => newest(p, readings.drop_last()),
        }
    }
}

/// The last reading outlives every outage: after any run of ticks the poller
/// holds the newest reading, is online exactly if the last tick succeeded, and
/// keeps its interval.
pub proof fn lemma_state_after_ticks(p: Poller, readings: Seq<Option<Snapshot>>)
    ensures
        after_ticks(p, readings).state == newest(p, readings),
        after_ticks(p, readings).interval == p.interval,
        readings.len() > 0 ==> after_ticks(p, readings).offline == (readings.last() is None),
    decreases readings.len(),
{
    if readings.len() > 0 {
        lemma_state_after_ticks(p, readings.drop_last());
    }
}

/// Recovering to an unchanged reading is silent, yet brings the poller back
/// online and stores the fresh reading.
pub proof fn lemma_silent_recovery(p: Poller, current: Snapshot)
    requires
        p.offline,
        classification(p.state, current) is None,
    ensures
        published_on_success(p, current) is None,
        !after_success(p, current).offline,
        after_success(p, current).state == Some(current),
{
}

/// Every published change starts from what was known before the tick and ends
/// at what is known after it.
pub proof fn lemma_change_links_states(p: Poller, reading: Option<Snapshot>)
    ensures
        published_on_tick(p, reading) matches Some(change) ==> change.previous == p.state
            && change.current == after_tick(p, reading).state && (change.reason
            == ChangeReason::Offline <==> after_tick(p, reading).offline),
{
    match reading {
        Some(current) => {
            lemma_classification_is_never_offline(p.state, current);
        },
        None => {},
    }
}

/// What changed is told by the texts themselves: once both readings report a
/// country code, any difference between the two codes is a change of country;
/// otherwise, once both report an ISP, any difference between the two names is
/// a change of ISP; otherwise any difference of the address is one; and nothing
/// else is a change.
pub proof fn lemma_classification_by_texts(previous: Snapshot, current: Snapshot)
    ensures
        ({
            let country = previous.geo.country_code is Some && current.geo.country_code is Some
                && previous.geo.country_code->0@ != current.geo.country_code->0@;
            let isp = previous.geo.isp is Some && current.geo.isp is Some && previous.geo.isp->0@
                != current.geo.isp->0@;
            let found = classification(Some(previous), current);
            &&& found == Some(ChangeReason::CountryChanged) <==> country
            &&& found == Some(ChangeReason::IspChanged) <==> !country && isp
            &&& found == Some(ChangeReason::IpChanged) <==> !country && !isp && previous.ip
                != current.ip
            &&& found is None <==> !country && !isp && previous.ip == current.ip
        }),
        classification(None, current) == Some(ChangeReason::Initial),
{
}

/// Two optional texts differ exactly if both are there and hold different
/// characters somewhere, or different numbers of them.
pub proof fn lemma_differs_by_characters(previous: Option<String>, current: Option<String>)
    ensures
        differs(previous, current) <==> (previous is Some && current is Some && (
        previous->0@.len() != current->0@.len() || exists|i: int|
            0 <= i < previous->0@.len() && previous->0@[i] != #[trigger] current->0@[i])),
{
    if previous is Some && current is Some {
        let p = previous->0@;
        let c = current->0@;
        if p.len() == c.len() && forall|i: int| 0 <= i < p.len() ==> p[i] == #[trigger] c[i] {
            assert(p =~= c);
        }
    }
}

/// How two readings differ does not depend on which of them came first.
pub proof fn lemma_change_is_symmetric(a: Snapshot, b: Snapshot)
    ensures
        classification(Some(a), b) == classification(Some(b), a),
{
}

/// A change that a reading brings about is published with the reason that the
/// comparison gave, and only then.
pub proof fn lemma_reading_is_published_as_classified(p: Poller, current: Snapshot)
    ensures
        match published_on_tick(p, Some(current)) {
            Some(change) => classification(p.state, current) == Some(change.reason)
                && change.previous == p.state && change.current == Some(current),
            None => classification(p.state, current) is None,
        },
{
}

/// What a tick does: a reading becomes the state and brings the poller online,
/// a failure keeps the state and takes it offline, and is published only where
/// the poller was online before.
pub proof fn lemma_tick(p: Poller, current: Snapshot)
    ensures
        after_tick(p, Some(current)).state == Some(current),
        !after_tick(p, Some(current)).offline,
        after_tick(p, Some(current)).interval == p.interval,
        after_tick(p, None).state == p.state,
        after_tick(p, None).offline,
        after_tick(p, None).interval == p.interval,
        published_on_tick(p, None) is Some <==> !p.offline,
        published_on_tick(p, None) matches Some(change) ==> change.reason == ChangeReason::Offline
            && change.previous == p.state && change.current == p.state,
        published_on_tick(p, Some(current)) matches Some(change) ==> change.previous == p.state
            && change.current == Some(current),
{
}

/// Repeating a reading publishes nothing, whatever it holds.
pub proof fn lemma_repeated_reading_is_silent(p: Poller, current: Snapshot)
    ensures
        published_on_tick(after_tick(p, Some(current)), Some(current)) is None,
        published_on_tick(after_tick(after_tick(p, Some(current)), None), Some(current)) is None,
{
}

/// The first reading after a start without history is the initial one, and
/// every later difference of the address is published.
pub proof fn lemma_address_change_is_published(p: Poller, previous: Snapshot, current: Snapshot)
    requires
        p.state == Some(previous),
        previous.ip != current.ip,
    ensures
        published_on_tick(p, Some(current)) is Some,
        published_on_tick(Poller { state: None, ..p }, Some(current)) matches Some(change)
            && change.reason == ChangeReason::Initial,
{
}

} // verus!
