//! System tray: which icon it shows, what its tooltip says, what its menu
//! does, and when it warns.
use vstd::prelude::*;

use crate::addr;
use crate::addr::IpAddr;
use crate::poller;
use crate::poller::Snapshot;
use crate::text;
use crate::text::{chars_of, same_text};

verus! {

/// The main window's label.
pub const MAIN_WINDOW_LABEL: &'static str = "main";

/// Which of the four icons the tray should currently show.
#[derive(Clone, Copy, Debug, PartialEq, Eq, Structural)]
pub enum IconKind {
    Okay,
    Warn,
    Offline,
    /// No reading has been obtained yet this session. Distinct from
    /// `Offline`, which means a reading exists but is known stale.
    Unknown,
}

/// The icon for a state of affairs. Unknown wins over everything else: with
/// no reading at all, "online" and "warn" are not yet meaningful. Otherwise
/// offline wins over a latched warning, and a latched warning beats ok.
pub open spec fn icon_for(has_snapshot: bool, online: bool, warn_latched: bool) -> IconKind {
    if !has_snapshot {
        IconKind::Unknown
    } else if !online {
        IconKind::Offline
    } else if warn_latched {
        IconKind::Warn
    } else {
        IconKind::Okay
    }
}

impl IconKind {
    pub fn select(has_snapshot: bool, online: bool, warn_latched: bool) -> (r: Self)
        ensures
            r == icon_for(has_snapshot, online, warn_latched),
            r == IconKind::Unknown <==> !has_snapshot,
            r == IconKind::Offline <==> has_snapshot && !online,
            r == IconKind::Warn <==> has_snapshot && online && warn_latched,
    {
        if !has_snapshot {
            IconKind::Unknown
        } else if !online {
            IconKind::Offline
        } else if warn_latched {
            IconKind::Warn
        } else {
            IconKind::Okay
        }
    }
}

/// Tracks the baseline country for this run of the app and latches the warn
/// state the first time an observation disagrees with it.
///
/// With an `expected` country, that is the baseline from the very first
/// observation. Without one, the first country code observed after launch
/// becomes the baseline.
///
/// Either way, once latched, warn stays latched for the rest of the session
/// even if the country reverts: a transient drop is exactly the event this
/// exists to surface.
#[derive(Debug, PartialEq)]
pub struct SessionBaseline {
    pub expected: Option<String>,
    pub country_code: Option<String>,
    pub warn_latched: bool,
}

/// A session baseline, its codes as texts.
pub struct Baseline {
    pub expected: Option<Seq<char>>,
    pub first: Option<Seq<char>>,
    pub warn: bool,
}

impl View for SessionBaseline {
    type V = Baseline;

    open spec fn view(&self) -> Baseline {
        Baseline {
            expected: text::opt_text(self.expected),
            first: text::opt_text(self.country_code),
            warn: self.warn_latched,
        }
    }
}

/// The baseline a session starts with.
pub open spec fn fresh(expected: Option<Seq<char>>) -> Baseline {
    Baseline { expected, first: None, warn: false }
}

/// The baseline after one observation. A missing country code tells nothing.
pub open spec fn observed(b: Baseline, country_code: Option<Seq<char>>) -> Baseline {
    match country_code {
        None => b,
        Some(cc) => match b.expected {
            Some(expected) => Baseline { warn: b.warn || expected != cc, ..b },
            None => match b.first {
                None => Baseline { first: Some(cc), ..b },
                Some(first) => Baseline { warn: b.warn || first != cc, ..b },
            },
        },
    }
}

impl SessionBaseline {
    pub fn new(expected: Option<String>) -> (r: Self)
        ensures
            r@ == fresh(text::opt_text(expected)),
            r.expected == expected,
            r.country_code is None,
            !r.warn_latched,
    {
        SessionBaseline { expected, country_code: None, warn_latched: false }
    }

    /// Feeds one observed country code (`None` if the provider didn't report
    /// one this tick) and returns whether warn is latched afterward.
    pub fn observe(&mut self, country_code: Option<&str>) -> (r: bool)
        ensures
            final(self)@ == observed(old(self)@, text::opt_str(country_code)),
            r == final(self)@.warn,
            r == final(self).warn_latched,
            final(self).expected == old(self).expected,
            country_code is None ==> *final(self) == *old(self),
            country_code matches Some(cc) ==> old(self).expected matches Some(expected) ==> r == (
            old(self).warn_latched || expected@ != cc@),
            country_code matches Some(cc) ==> old(self).country_code matches Some(first) ==> old(self).expected is None ==> r == (old(self).warn_latched
                || first@ != cc@) && final(self).country_code == old(self).country_code,
            country_code matches Some(cc) ==> old(self).expected is None && old(self).country_code is None ==> r == old(self).warn_latched && (final(self).country_code matches Some(first) && first@ == cc@),
    {
        let cc = match country_code {
            Some(cc) => cc,
            None => {
                return self.warn_latched;
            },
        };
        let differs = match &self.expected {
            Some(expected) => !same_text(expected.as_str(), cc),
            None => match &self.country_code {
                Some(baseline) => !same_text(baseline.as_str(), cc),
                None => false,
            },
        };
        if self.expected.is_none() && self.country_code.is_none() {
            self.country_code = Some(cc.to_string());
        }
        if differs {
            self.warn_latched = true;
        }
        self.warn_latched
    }

    /// Re-baselines live, in response to the expected country changing
    /// mid-session. Unlike `observe`, this deliberately discards any latch
    /// earned under the *old* expectation: it behaves like a fresh baseline
    /// that immediately observes the current country code once under the new
    /// rules. Returns whether warn is latched afterward.
    pub fn re_baseline(
        &mut self,
        new_expected: Option<String>,
        current_country_code: Option<&str>,
    ) -> (r: bool)
        ensures
            final(self)@ == observed(
                fresh(text::opt_text(new_expected)),
                text::opt_str(current_country_code),
            ),
            r == final(self)@.warn,
            final(self).expected == new_expected,
            r == (new_expected is Some && current_country_code is Some && new_expected->0@
                != current_country_code->0@),
    {
        self.expected = new_expected;
        self.country_code = None;
        self.warn_latched = false;
        self.observe(current_country_code)
    }
}

/// The country code of an optional reading.
pub open spec fn code_of(snapshot: Option<Snapshot>) -> Option<Seq<char>> {
    match snapshot {
        Some(s) => text::opt_text(s.geo.country_code),
        None => None,
    }
}

/// How long a tooltip may not become: Windows cuts what is longer.
pub const TOOLTIP_LIMIT: usize = 127;

/// `"<CC> · <ip>"`, or the address alone, with a marker when it is stale.
pub open spec fn reading_text(code: Option<Seq<char>>, ip: IpAddr, online: bool) -> Seq<char> {
    let reading = match code {
        Some(cc) => cc + " \u{b7} "@ + addr::address_text(ip),
        None => addr::address_text(ip),
    };
    if online {
        reading
    } else {
        reading + " (offline)"@
    }
}

/// The tooltip: country code and address, degrading gracefully when data is
/// missing. A text in place of the code that would reach the limit is left
/// out.
pub open spec fn tooltip_text(snapshot: Option<Snapshot>, online: bool) -> Seq<char> {
    match snapshot {
        None => "ipwatch \u{2014} starting\u{2026}"@,
        Some(s) => {
            let full = reading_text(text::opt_text(s.geo.country_code), s.ip, online);
            if full.len() < TOOLTIP_LIMIT {
                full
            } else {
                reading_text(None, s.ip, online)
            }
        },
    }
}

fn reading_tooltip(code: Option<&str>, ip: &IpAddr, online: bool) -> (r: String)
    ensures
        r@ == reading_text(text::opt_str(code), *ip, online),
{
    let address = ip.to_text();
    let mut tooltip = match code {
        Some(cc) => cc.to_string().concat(" \u{b7} ").concat(address.as_str()),
        None => address,
    };
    if !online {
        tooltip.append(" (offline)");
    }
    tooltip
}

/// Builds the tooltip from a country code and an IP address, never from
/// unbounded provider text, so it always stays under the 127 characters that
/// Windows allows.
pub fn format_tooltip(snapshot: Option<&Snapshot>, online: bool) -> (r: String)
    ensures
        r@ == tooltip_text(poller::by_value(snapshot), online),
        r@.len() < TOOLTIP_LIMIT,
        r@.len() < 127,
        snapshot matches Some(s) ==> s.geo.country_code matches Some(cc) ==> cc@.len() <= 74
            ==> online ==> r@ == cc@ + " \u{b7} "@ + addr::address_text(s.ip),
        snapshot matches Some(s) ==> s.geo.country_code matches Some(cc) ==> cc@.len() <= 74
            ==> !online ==> r@ == cc@ + " \u{b7} "@ + addr::address_text(s.ip) + " (offline)"@,
        snapshot matches Some(s) ==> s.geo.country_code is None ==> r@ == (if online {
            addr::address_text(s.ip)
        } else {
            addr::address_text(s.ip) + " (offline)"@
        }),
        snapshot is None ==> r@ == "ipwatch \u{2014} starting\u{2026}"@,
{
    proof {
        lemma_tooltip_is_short(poller::by_value(snapshot), online);
    }
    match snapshot {
        Some(s) => {
            let full = reading_tooltip(country_code_of(snapshot), &s.ip, online);
            if chars_of(full.as_str()).len() < TOOLTIP_LIMIT {
                full
            } else {
                reading_tooltip(None, &s.ip, online)
            }
        },
        None => "ipwatch \u{2014} starting\u{2026}".to_string(),
    }
}

/// What the tray shows.
#[derive(Debug, PartialEq)]
pub struct TrayFace {
    pub icon: IconKind,
    pub tooltip: String,
}

/// Whether `face` shows the given reading, reachability and warning.
pub open spec fn shows(
    face: TrayFace,
    warn_latched: bool,
    snapshot: Option<Snapshot>,
    online: bool,
) -> bool {
    &&& face.icon == icon_for(snapshot is Some, online, warn_latched)
    &&& face.tooltip@ == tooltip_text(snapshot, online)
}

/// Puts together what the tray shows once `warn_latched` is decided.
pub fn push(warn_latched: bool, snapshot: Option<&Snapshot>, online: bool) -> (r: TrayFace)
    ensures
        shows(r, warn_latched, poller::by_value(snapshot), online),
        r.icon == IconKind::Unknown <==> snapshot is None,
        r.icon == IconKind::Offline <==> snapshot is Some && !online,
        r.icon == IconKind::Warn <==> snapshot is Some && online && warn_latched,
{
    TrayFace {
        icon: IconKind::select(snapshot.is_some(), online, warn_latched),
        tooltip: format_tooltip(snapshot, online),
    }
}

/// The state of the running tray.
#[derive(Debug, PartialEq)]
pub struct TrayLiveState {
    pub baseline: SessionBaseline,
}

fn country_code_of<'a>(snapshot: Option<&'a Snapshot>) -> (r: Option<&'a str>)
    ensures
        text::opt_str(r) == code_of(poller::by_value(snapshot)),
{
    match snapshot {
        Some(s) => match &s.geo.country_code {
            Some(cc) => Some(cc.as_str()),
            None => None,
        },
        None => None,
    }
}

impl TrayLiveState {
    /// The tray at startup, before anything was observed, and what it shows.
    pub fn init(expected_country_code: Option<String>) -> (r: (Self, TrayFace))
        ensures
            r.0.baseline@ == fresh(text::opt_text(expected_country_code)),
            shows(r.1, false, None, true),
            r.1.icon == IconKind::Unknown,
            !r.0.baseline.warn_latched,
    {
        (
            TrayLiveState { baseline: SessionBaseline::new(expected_country_code) },
            push(false, None, true),
        )
    }

    /// Feeds one observation into the baseline and returns what the tray then
    /// shows.
    pub fn apply(&mut self, snapshot: Option<&Snapshot>, online: bool) -> (r: TrayFace)
        ensures
            final(self).baseline@ == observed(
                old(self).baseline@,
                code_of(poller::by_value(snapshot)),
            ),
            shows(r, final(self).baseline@.warn, poller::by_value(snapshot), online),
            r.icon == IconKind::Warn <==> snapshot is Some && online && final(self).baseline.warn_latched,
            old(self).baseline.warn_latched ==> final(self).baseline.warn_latched,
    {
        let warn_latched = self.baseline.observe(country_code_of(snapshot));
        push(warn_latched, snapshot, online)
    }

    /// Applies a live change of the expected country: re-baselines against the
    /// current reading under the new expectation and returns what the tray
    /// then shows, rather than waiting for the next change to arrive.
    pub fn set_expected_country(
        &mut self,
        expected: Option<String>,
        snapshot: Option<&Snapshot>,
        online: bool,
    ) -> (r: TrayFace)
        ensures
            final(self).baseline@ == observed(
                fresh(text::opt_text(expected)),
                code_of(poller::by_value(snapshot)),
            ),
            shows(r, final(self).baseline@.warn, poller::by_value(snapshot), online),
            r.icon == IconKind::Warn <==> snapshot is Some && online && final(self).baseline.warn_latched,
            final(self).baseline.expected == expected,
    {
        let warn_latched = self.baseline.re_baseline(expected, country_code_of(snapshot));
        push(warn_latched, snapshot, online)
    }
}

/// What a menu item does.
#[derive(Clone, Copy, Debug, PartialEq, Eq, Structural)]
pub enum MenuAction {
    Refresh,
    ShowDetails,
    Quit,
    Nothing,
}

/// The action behind the menu item with the given id. The settings live in the
/// details window, so both items show it.
pub fn menu_action(id: &str) -> (r: MenuAction)
    ensures
        r == (if id@ == "refresh"@ {
            MenuAction::Refresh
        } else if id@ == "details"@ || id@ == "settings"@ {
            MenuAction::ShowDetails
        } else if id@ == "quit"@ {
            MenuAction::Quit
        } else {
            MenuAction::Nothing
        }),
{
    if same_text(id, "refresh") {
        MenuAction::Refresh
    } else if same_text(id, "details") || same_text(id, "settings") {
        MenuAction::ShowDetails
    } else if same_text(id, "quit") {
        MenuAction::Quit
    } else {
        MenuAction::Nothing
    }
}

// ---------------------------------------------------------------------------
// Laws
// ---------------------------------------------------------------------------

/// The baseline after a run of observations.
pub open spec fn observed_all(b: Baseline, codes: Seq<Option<Seq<char>>>) -> Baseline
    decreases codes.len(),
{
    if codes.len() == 0 {
        b
    } else {
        observed(observed_all(b, codes.drop_last()), codes.last())
    }
}

/// Once latched, the warning stays latched through every further observation.
pub proof fn lemma_warn_stays_latched(b: Baseline, codes: Seq<Option<Seq<char>>>)
    requires
        b.warn,
    ensures
        observed_all(b, codes).warn,
    decreases codes.len(),
{
    if codes.len() > 0 {
        lemma_warn_stays_latched(b, codes.drop_last());
    }
}

/// The country that a session's observations are compared with: the expected
/// one, otherwise the first one observed.
pub open spec fn reference(expected: Option<Seq<char>>, codes: Seq<Option<Seq<char>>>) -> Option<
    Seq<char>,
>
    decreases codes.len(),
{
    if expected is Some {
        expected
    } else if codes.len() == 0 {
        None
    } else {
        match reference(expected, codes.drop_last()) {
            Some(country) => Some(country),
            None => codes.last(),
        }
    }
}

proof fn lemma_reference(expected: Option<Seq<char>>, codes: Seq<Option<Seq<char>>>)
    ensures
        observed_all(fresh(expected), codes).expected == expected,
        expected is None ==> observed_all(fresh(expected), codes).first == reference(
            expected,
            codes,
        ),
        reference(expected, codes) is None ==> forall|i: int|
            0 <= i < codes.len() ==> #[trigger] codes[i] is None,
    decreases codes.len(),
{
    if codes.len() > 0 {
        let front = codes.drop_last();
        lemma_reference(expected, front);
        if reference(expected, codes) is None {
            assert forall|i: int| 0 <= i < codes.len() implies #[trigger] codes[i] is None by {
                if i < front.len() {
                    assert(codes[i] == front[i]);
                }
            }
        }
    }
}

/// In a session, the warning is latched exactly if some observed country
/// differed from the one the session is compared with.
pub proof fn lemma_warn_means_divergence(expected: Option<Seq<char>>, codes: Seq<Option<Seq<char>>>)
    ensures
        observed_all(fresh(expected), codes).warn <==> exists|i: int|
            0 <= i < codes.len() && (#[trigger] codes[i]) is Some && codes[i] != reference(
                expected,
                codes,
            ),
    decreases codes.len(),
{
    if codes.len() > 0 {
        let front = codes.drop_last();
        let last = codes.last();
        lemma_warn_means_divergence(expected, front);
        lemma_reference(expected, front);
        lemma_reference(expected, codes);
        let before = observed_all(fresh(expected), front);
        let old_ref = reference(expected, front);
        let new_ref = reference(expected, codes);
        if before.warn {
            let i = choose|i: int|
                0 <= i < front.len() && (#[trigger] front[i]) is Some && front[i] != old_ref;
            assert(front[i] is Some && old_ref is Some);
            assert(codes[i] == front[i]);
            assert(codes[i] != new_ref);
        } else if observed(before, last).warn {
            assert(codes[codes.len() - 1] is Some && last != new_ref);
        } else {
            assert forall|i: int| 0 <= i < codes.len() && (#[trigger] codes[i]) is Some implies codes[i]
                == new_ref by {
                if i < front.len() {
                    assert(codes[i] == front[i]);
                    assert(old_ref is Some);
                }
            }
        }
    }
}

/// Setting the expected country to the one the user is in clears the warning,
/// whatever was latched before.
pub proof fn lemma_re_baseline_to_current_clears(expected: Seq<char>)
    ensures
        !observed(fresh(Some(expected)), Some(expected)).warn,
        !observed(fresh(None), Some(expected)).warn,
        !observed(fresh(Some(expected)), None).warn,
{
}

/// The icon tells the four states apart: unknown before any reading, offline
/// when the last tick failed, a warning only when online, ok otherwise.
pub proof fn lemma_icon_precedence(has_snapshot: bool, online: bool, warn_latched: bool)
    ensures
        icon_for(has_snapshot, online, warn_latched) == IconKind::Unknown <==> !has_snapshot,
        icon_for(has_snapshot, online, warn_latched) == IconKind::Offline <==> has_snapshot
            && !online,
        icon_for(has_snapshot, online, warn_latched) == IconKind::Warn <==> has_snapshot && online
            && warn_latched,
        icon_for(has_snapshot, online, warn_latched) == IconKind::Okay <==> has_snapshot && online
            && !warn_latched,
{
}

/// The tooltip stays under the 127 characters that Windows allows, whatever
/// the provider sent; and a code of up to 74 characters, far beyond the usual
/// two letters, is always shown.
pub proof fn lemma_tooltip_is_short(snapshot: Option<Snapshot>, online: bool)
    ensures
        tooltip_text(snapshot, online).len() < 127,
        snapshot matches Some(s) ==> code_of(snapshot) matches Some(cc) ==> cc.len() <= 74
            ==> tooltip_text(snapshot, online) == reading_text(Some(cc), s.ip, online),
{
    reveal_strlit("ipwatch \u{2014} starting\u{2026}");
    reveal_strlit(" \u{b7} ");
    reveal_strlit(" (offline)");
    if let Some(s) = snapshot {
        addr::lemma_address_text_len(s.ip);
    }
}

/// What one observation does: without a code nothing; with an expected country
/// the warning latches exactly if the code is another one; without one, the
/// first code becomes what later ones are compared with.
pub proof fn lemma_observation(b: Baseline, code: Seq<char>)
    ensures
        observed(b, None) == b,
        observed(b, Some(code)).expected == b.expected,
        b.expected matches Some(expected) ==> observed(b, Some(code)).warn == (b.warn || expected
            != code),
        b.first matches Some(first) ==> b.expected is None ==> observed(b, Some(code)).warn == (
        b.warn || first != code),
        b.first matches Some(first) ==> b.expected is None ==> observed(b, Some(code)).first
            == Some(first),
        b.expected is None && b.first is None ==> observed(b, Some(code)).first == Some(code)
            && observed(b, Some(code)).warn == b.warn,
        !fresh(b.expected).warn && fresh(b.expected).first is None && fresh(b.expected).expected
            == b.expected,
{
}

/// The tooltip says the country code and the address, or the address alone
/// where no code is known, and tells when that is stale.
pub proof fn lemma_tooltip_says(s: Snapshot)
    ensures
        s.geo.country_code matches Some(cc) ==> cc@.len() <= 74 ==> tooltip_text(Some(s), true)
            == cc@ + " \u{b7} "@ + addr::address_text(s.ip),
        s.geo.country_code is None ==> tooltip_text(Some(s), true) == addr::address_text(s.ip),
        s.geo.country_code is None || s.geo.country_code->0@.len() <= 74 ==> tooltip_text(
            Some(s),
            false,
        ) == tooltip_text(Some(s), true) + " (offline)"@,
{
    lemma_tooltip_is_short(Some(s), true);
    lemma_tooltip_is_short(Some(s), false);
    addr::lemma_address_text_len(s.ip);
    reveal_strlit(" (offline)");
}

} // verus!
