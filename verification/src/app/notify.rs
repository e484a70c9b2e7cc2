//! VPN-drop toast notifications: which changes are worth one, and what it
//! says.
use vstd::prelude::*;

use crate::addr;
use crate::db::ChangeReason;
use crate::poller;
use crate::poller::{Change, Snapshot};

verus! {

/// Whether a change is worth a toast.
///
/// - `CountryChanged`: the real VPN-drop signal.
/// - `IspChanged`: the country held steady but the ISP behind it changed,
///   which usually means the tunnel dropped to the bare connection.
/// - `Offline`: connectivity was lost, so VPN status can't be verified at all.
/// - `IpChanged` is deliberately excluded. It fires routinely on ordinary VPN
///   reconnects within the same exit; toasting every one of these would train
///   the user to dismiss notifications reflexively.
/// - `Initial` is deliberately excluded. It is the first reading, not a change
///   from a previous state.
pub open spec fn worth_a_toast(reason: ChangeReason) -> bool {
    match reason {
        ChangeReason::CountryChanged => true,
        ChangeReason::IspChanged => true,
        ChangeReason::Offline => true,
        ChangeReason::IpChanged => false,
        ChangeReason::Initial => false,
    }
}

/// Decides whether a change with the given reason is worth a toast.
pub fn should_notify(reason: ChangeReason) -> (r: bool)
    ensures
        r == worth_a_toast(reason),
        r == (reason == ChangeReason::CountryChanged || reason == ChangeReason::IspChanged || reason
            == ChangeReason::Offline),
{
    match reason {
        ChangeReason::CountryChanged => true,
        ChangeReason::IspChanged => true,
        ChangeReason::Offline => true,
        ChangeReason::IpChanged => false,
        ChangeReason::Initial => false,
    }
}

/// Title + body for a toast notification.
#[derive(Debug, PartialEq, Eq)]
pub struct ToastMessage {
    pub title: String,
    pub body: String,
}

impl Clone for ToastMessage {
    fn clone(&self) -> (r: Self)
        ensures
            r == *self,
    {
        ToastMessage { title: self.title.clone(), body: self.body.clone() }
    }
}

/// How a reading's country is named: by name, by code, or as unknown.
pub open spec fn country_name(snapshot: Option<Snapshot>) -> Seq<char> {
    match snapshot {
        Some(s) => match s.geo.country {
            Some(country) => country@,
            None => match s.geo.country_code {
                Some(code) => code@,
                None => "an unknown country"@,
            },
        },
        None => "an unknown country"@,
    }
}

/// How a reading's ISP is named.
pub open spec fn isp_name(snapshot: Option<Snapshot>) -> Seq<char> {
    match snapshot {
        Some(s) => match s.geo.isp {
            Some(isp) => isp@,
            None => "an unknown ISP"@,
        },
        None => "an unknown ISP"@,
    }
}

/// `" (<ip>)"` where there is a reading, nothing otherwise.
pub open spec fn ip_note(snapshot: Option<Snapshot>) -> Seq<char> {
    match snapshot {
        Some(s) => " ("@ + addr::address_text(s.ip) + ")"@,
        None => seq![],
    }
}

pub open spec fn toast_title(reason: ChangeReason) -> Seq<char> {
    match reason {
        ChangeReason::Offline => "ipwatch lost connectivity"@,
        ChangeReason::CountryChanged => "VPN may have dropped"@,
        ChangeReason::IspChanged => "VPN may have dropped"@,
        ChangeReason::IpChanged => "ipwatch"@,
        ChangeReason::Initial => "ipwatch"@,
    }
}

pub open spec fn toast_body(
    reason: ChangeReason,
    previous: Option<Snapshot>,
    current: Option<Snapshot>,
) -> Seq<char> {
    match reason {
        ChangeReason::Offline => "Could not reach the network to verify your VPN status."@,
        ChangeReason::CountryChanged => "Country changed: "@ + country_name(previous)
            + " \u{2192} "@ + country_name(current) + ip_note(current),
        ChangeReason::IspChanged => "ISP changed in "@ + country_name(current) + ": "@ + isp_name(
            previous,
        ) + " \u{2192} "@ + isp_name(current) + ip_note(current),
        ChangeReason::IpChanged => "IP address changed."@,
        ChangeReason::Initial => "IP address changed."@,
    }
}

fn unknown_country() -> (r: String)
    ensures
        r@ == "an unknown country"@,
{
    "an unknown country".to_string()
}

fn unknown_isp() -> (r: String)
    ensures
        r@ == "an unknown ISP"@,
{
    "an unknown ISP".to_string()
}

fn describe_country(snapshot: Option<&Snapshot>) -> (r: String)
    ensures
        r@ == country_name(poller::by_value(snapshot)),
{
    match snapshot {
        Some(s) => match &s.geo.country {
            Some(country) => country.clone(),
            None => match &s.geo.country_code {
                Some(code) => code.clone(),
                None => unknown_country(),
            },
        },
        None => unknown_country(),
    }
}

fn describe_isp(snapshot: Option<&Snapshot>) -> (r: String)
    ensures
        r@ == isp_name(poller::by_value(snapshot)),
{
    match snapshot {
        Some(s) => match &s.geo.isp {
            Some(isp) => isp.clone(),
            None => unknown_isp(),
        },
        None => unknown_isp(),
    }
}

fn ip_suffix(current: Option<&Snapshot>) -> (r: String)
    ensures
        r@ == ip_note(poller::by_value(current)),
{
    match current {
        Some(s) => " (".to_string().concat(s.ip.to_text().as_str()).concat(")"),
        None => String::new(),
    }
}

/// Builds an actionable toast message.
///
/// Every geo field of a reading is optional, so every lookup falls back to
/// plain language. All five reasons are handled, though only those that
/// `should_notify` admits are ever shown.
pub fn build_message(
    reason: ChangeReason,
    previous: Option<&Snapshot>,
    current: Option<&Snapshot>,
) -> (r: ToastMessage)
    ensures
        r.title@ == toast_title(reason),
        r.body@ == toast_body(reason, poller::by_value(previous), poller::by_value(current)),
        reason == ChangeReason::CountryChanged || reason == ChangeReason::IspChanged ==> r.title@
            == "VPN may have dropped"@,
        reason == ChangeReason::Offline ==> r.title@ == "ipwatch lost connectivity"@ && r.body@
            == "Could not reach the network to verify your VPN status."@,
        previous matches Some(p) ==> current matches Some(c) ==> p.geo.country matches Some(from)
            ==> c.geo.country matches Some(to) ==> reason == ChangeReason::CountryChanged ==> r.body@
            == "Country changed: "@ + from@ + " \u{2192} "@ + to@ + (" ("@ + addr::address_text(c.ip)
            + ")"@),
        previous matches Some(p) ==> current matches Some(c) ==> p.geo.isp matches Some(from)
            ==> c.geo.isp matches Some(to) ==> c.geo.country matches Some(place) ==> reason
            == ChangeReason::IspChanged ==> r.body@ == "ISP changed in "@ + place@ + ": "@
            + from@ + " \u{2192} "@ + to@ + (" ("@ + addr::address_text(c.ip) + ")"@),
{
    match reason {
        ChangeReason::Offline => ToastMessage {
            title: "ipwatch lost connectivity".to_string(),
            body: "Could not reach the network to verify your VPN status.".to_string(),
        },
        ChangeReason::CountryChanged => ToastMessage {
            title: "VPN may have dropped".to_string(),
            body: "Country changed: ".to_string().concat(
                describe_country(previous).as_str(),
            ).concat(" \u{2192} ").concat(describe_country(current).as_str()).concat(
                ip_suffix(current).as_str(),
            ),
        },
        ChangeReason::IspChanged => ToastMessage {
            title: "VPN may have dropped".to_string(),
            body: "ISP changed in ".to_string().concat(describe_country(current).as_str()).concat(
                ": ",
            ).concat(describe_isp(previous).as_str()).concat(" \u{2192} ").concat(
                describe_isp(current).as_str(),
            ).concat(ip_suffix(current).as_str()),
        },
        ChangeReason::IpChanged => ToastMessage {
            title: "ipwatch".to_string(),
            body: "IP address changed.".to_string(),
        },
        ChangeReason::Initial => ToastMessage {
            title: "ipwatch".to_string(),
            body: "IP address changed.".to_string(),
        },
    }
}

/// The toast for `change`, where it is worth one.
pub fn notify_change(change: &Change) -> (r: Option<ToastMessage>)
    ensures
        match r {
            Some(toast) => worth_a_toast(change.reason) && toast.title@ == toast_title(
                change.reason,
            ) && toast.body@ == toast_body(change.reason, change.previous, change.current),
            None => !worth_a_toast(change.reason),
        },
        r is Some <==> change.reason == ChangeReason::CountryChanged || change.reason
            == ChangeReason::IspChanged || change.reason == ChangeReason::Offline,
{
    if !should_notify(change.reason) {
        return None;
    }
    Some(build_message(change.reason, change.previous.as_ref(), change.current.as_ref()))
}

/// A country is named as well as it is known: by its name, otherwise by its
/// code, otherwise as an unknown one; an ISP by its name or as an unknown one.
pub proof fn lemma_names_fall_back(s: Snapshot)
    ensures
        s.geo.country matches Some(name) ==> country_name(Some(s)) == name@,
        s.geo.country_code matches Some(code) ==> s.geo.country is None ==> country_name(Some(s))
            == code@,
        s.geo.country is None && s.geo.country_code is None ==> country_name(Some(s))
            == country_name(None),
        country_name(None) == "an unknown country"@,
        s.geo.isp matches Some(name) ==> isp_name(Some(s)) == name@,
        s.geo.isp is None ==> isp_name(Some(s)) == isp_name(None),
        isp_name(None) == "an unknown ISP"@,
        ip_note(Some(s)) == " ("@ + addr::address_text(s.ip) + ")"@,
        ip_note(None) == Seq::<char>::empty(),
{
}

/// A toast about a change of country names the country left, then the one
/// entered, then the new address; one about the ISP names where it happened,
/// the ISP left, the one entered, and the new address.
pub proof fn lemma_toast_says_what_changed(previous: Option<Snapshot>, current: Snapshot)
    ensures
        toast_body(ChangeReason::CountryChanged, previous, Some(current)) == "Country changed: "@
            + country_name(previous) + " \u{2192} "@ + country_name(Some(current)) + (" ("@
            + addr::address_text(current.ip) + ")"@),
        toast_body(ChangeReason::IspChanged, previous, Some(current)) == "ISP changed in "@
            + country_name(Some(current)) + ": "@ + isp_name(previous) + " \u{2192} "@ + isp_name(
            Some(current),
        ) + (" ("@ + addr::address_text(current.ip) + ")"@),
{
}

/// Toasts are for the changes that may mean a dropped VPN, and for those only:
/// a changed country, a changed ISP, a lost network.
pub proof fn lemma_what_is_worth_a_toast(reason: ChangeReason)
    ensures
        worth_a_toast(reason) <==> reason != ChangeReason::IpChanged && reason
            != ChangeReason::Initial,
        worth_a_toast(ChangeReason::CountryChanged),
        worth_a_toast(ChangeReason::IspChanged),
        worth_a_toast(ChangeReason::Offline),
{
}

} // verus!
