//! On-demand DNS leak check.
//!
//! A VPN can carry your traffic correctly while your DNS queries still exit
//! via your ISP's resolvers. The check resolves a handful of
//! `{n}.{id}.<probe domain>` names through the system resolver, asks a
//! leak-test service which resolvers it saw for that session, and compares
//! them against the current external IP's network.
//!
//! The lookups and the request are the caller's part; what is asked and what
//! is made of the answers stands here.
use vstd::prelude::*;

use crate::addr;
use crate::addr::{parse, IpAddr};
use crate::text;
use crate::text::same_text;

pub mod bashws;
pub mod verdict;

pub use bashws::BashWs;
pub use verdict::{evaluate, Verdict};

verus! {

/// Per-lookup ceiling during the DNS probe phase. Generous, since a failing
/// lookup (the expected outcome) can take a while to time out on its own.
pub const PER_LOOKUP_TIMEOUT_MILLIS: u64 = 3000;

/// Ceiling on the whole DNS probe phase, regardless of how many probe names
/// there are or how slow individual lookups are.
pub const DNS_PHASE_TIMEOUT_MILLIS: u64 = 8000;

/// How long to wait after the DNS phase before querying the service, so its
/// backend has a moment to collect the nameserver hits.
pub const RESULT_SETTLE_DELAY_MILLIS: u64 = 1500;

/// Ceiling on the HTTP call that fetches results.
pub const FETCH_RESULTS_TIMEOUT_MILLIS: u64 = 10000;

/// Even if every step uses up its budget, a test ends well within half a
/// minute, so it can never hang the UI for long.
pub proof fn lemma_test_is_bounded()
    ensures
        DNS_PHASE_TIMEOUT_MILLIS + RESULT_SETTLE_DELAY_MILLIS + FETCH_RESULTS_TIMEOUT_MILLIS
            < 30_000,
{
}

/// Resolver identified by the leak-test service as having queried for this
/// test session.
#[derive(Debug, PartialEq)]
pub struct Resolver {
    pub ip: IpAddr,
    pub country: Option<String>,
    pub asn: Option<String>,
}

/// Result of one DNS leak test.
#[derive(Debug, PartialEq)]
pub struct LeakReport {
    /// The service's own view of the caller's external IP, when it reported one.
    pub external_ip: Option<IpAddr>,
    pub resolvers: Vec<Resolver>,
    pub verdict: Verdict,
}

impl Clone for Resolver {
    fn clone(&self) -> (r: Self)
        ensures
            r == *self,
    {
        Resolver { ip: self.ip, country: self.country.clone(), asn: self.asn.clone() }
    }
}

impl Clone for LeakReport {
    fn clone(&self) -> (r: Self)
        ensures
            r.external_ip == self.external_ip,
            r.resolvers@ == self.resolvers@,
            verdict::same_verdict(r.verdict, self.verdict),
    {
        LeakReport {
            external_ip: self.external_ip,
            resolvers: self.resolvers.clone(),
            verdict: self.verdict.clone(),
        }
    }
}

#[derive(Debug, PartialEq)]
pub enum DnsLeakError {
    Http(String),
    Parse(String),
    /// The service answered but told us it couldn't run the test yet, for
    /// instance because the probe lookups have not propagated. Distinct from a
    /// transport error: the request succeeded, the *test* didn't.
    ServiceError(String),
    Timeout(&'static str),
}

pub open spec fn leak_error_text(err: DnsLeakError) -> Seq<char> {
    match err {
        DnsLeakError::Http(detail) => "http error: "@ + detail@,
        DnsLeakError::Parse(detail) => "could not parse response from the leak-test service: "@
            + detail@,
        DnsLeakError::ServiceError(detail) => "leak-test service reported an error: "@ + detail@,
        DnsLeakError::Timeout(what) => "timed out while "@ + what@,
    }
}

impl DnsLeakError {
    /// The message shown for this error.
    pub fn message(&self) -> (r: String)
        ensures
            r@ == leak_error_text(*self),
            *self matches DnsLeakError::Http(detail) ==> r@ == "http error: "@ + detail@,
            *self matches DnsLeakError::Parse(detail) ==> r@
                == "could not parse response from the leak-test service: "@ + detail@,
            *self matches DnsLeakError::ServiceError(detail) ==> r@
                == "leak-test service reported an error: "@ + detail@,
            *self matches DnsLeakError::Timeout(what) ==> r@ == "timed out while "@ + what@,
    {
        match self {
            DnsLeakError::Http(detail) => "http error: ".to_string().concat(detail.as_str()),
            DnsLeakError::Parse(
                detail,
            ) => "could not parse response from the leak-test service: ".to_string().concat(
                detail.as_str(),
            ),
            DnsLeakError::ServiceError(
                detail,
            ) => "leak-test service reported an error: ".to_string().concat(detail.as_str()),
            DnsLeakError::Timeout(what) => "timed out while ".to_string().concat(what),
        }
    }
}

/// One test session's identity: a random id plus the DNS names that must be
/// resolved through the system resolver before the service has anything
/// meaningful to report.
#[derive(Debug, PartialEq)]
pub struct LeakSession {
    pub id: String,
    pub hostnames: Vec<String>,
}

impl Clone for LeakSession {
    fn clone(&self) -> (r: Self)
        ensures
            r.id == self.id,
            text::texts(r.hostnames@) == text::texts(self.hostnames@),
    {
        LeakSession { id: self.id.clone(), hostnames: self.hostnames.clone() }
    }
}

/// One entry in the leak-test service's response.
///
/// `kind` is `"ip"` (the caller's external IP, in `ip`), `"dns"` (one entry
/// per resolver that queried), or `"conclusion"` (a human-readable sentence in
/// `ip`, which is *not* an address).
#[derive(Debug, PartialEq)]
pub struct ServiceEntry {
    pub ip: String,
    pub country_name: Option<String>,
    pub asn: Option<String>,
    pub kind: String,
}

/// The external IP that the entries report: that of the last `"ip"` entry
/// which holds an address.
pub open spec fn reported_ip(entries: Seq<ServiceEntry>) -> Option<IpAddr>
    decreases entries.len(),
{
    if entries.len() == 0 {
        None
    } else {
        let e = entries.last();
        if e.kind@ == "ip"@ && addr::address(e.ip@) is Some {
            addr::address(e.ip@)
        } else {
            reported_ip(entries.drop_last())
        }
    }
}

/// The resolvers that the entries report: one for each `"dns"` entry which
/// holds an address, in order.
pub open spec fn reported_resolvers(entries: Seq<ServiceEntry>) -> Seq<Resolver>
    decreases entries.len(),
{
    if entries.len() == 0 {
        seq![]
    } else {
        let e = entries.last();
        let before = reported_resolvers(entries.drop_last());
        match addr::address(e.ip@) {
            Some(ip) => if e.kind@ == "dns"@ {
                before.push(Resolver { ip, country: e.country_name, asn: e.asn })
            } else {
                before
            },
            None => before,
        }
    }
}

/// Splits a leak-test service's raw entries into the external IP it saw and
/// the list of resolvers that queried. Entries of another kind, and entries
/// that hold no address, are dropped: the verdict is derived independently,
/// never by trusting the service's own prose conclusion.
pub fn split_entries(entries: Vec<ServiceEntry>) -> (r: (Option<IpAddr>, Vec<Resolver>))
    ensures
        r.0 == reported_ip(entries@),
        r.1@ == reported_resolvers(entries@),
        forall|k: int|
            0 <= k < entries@.len() && (#[trigger] entries@[k]).kind@ == "dns"@ && addr::address(
                entries@[k].ip@,
            ) is Some ==> r.1@.contains(
                (Resolver {
                    ip: addr::address(entries@[k].ip@)->0,
                    country: entries@[k].country_name,
                    asn: entries@[k].asn,
                }),
            ),
        r.0 is Some <==> exists|k: int|
            0 <= k < entries@.len() && (#[trigger] entries@[k]).kind@ == "ip"@ && addr::address(
                entries@[k].ip@,
            ) is Some,
{
    let mut external_ip: Option<IpAddr> = None;
    let mut resolvers: Vec<Resolver> = Vec::new();
    assert(entries@.take(0) =~= seq![]);
    proof {
        reveal_strlit("ip");
        reveal_strlit("dns");
        assert("ip"@.len() == 2 && "dns"@.len() == 3);
    }
    for i in 0..entries.len()
        invariant
            "ip"@.len() == 2,
            "dns"@.len() == 3,
            external_ip == reported_ip(entries@.take(i as int)),
            resolvers@ == reported_resolvers(entries@.take(i as int)),
    {
        assert(entries@.take(i + 1).drop_last() == entries@.take(i as int));
        let entry = &entries[i];
        if same_text(entry.kind.as_str(), "ip") {
            if let Some(ip) = parse(entry.ip.as_str()) {
                external_ip = Some(ip);
            }
        } else if same_text(entry.kind.as_str(), "dns") {
            if let Some(ip) = parse(entry.ip.as_str()) {
                resolvers.push(
                    Resolver { ip, country: entry.country_name.clone(), asn: entry.asn.clone() },
                );
            }
        }
    }
    assert(entries@.take(entries@.len() as int) == entries@);
    proof {
        lemma_every_dns_entry_is_reported(entries@);
        lemma_last_ip_entry_counts(entries@);
    }
    (external_ip, resolvers)
}

/// The socket-address shaped target under which a probe hostname is looked
/// up. Port 0 is a placeholder; nothing ever connects to it.
pub fn probe_target(host: &str) -> (r: String)
    ensures
        r@ == host@ + ":0"@,
{
    host.to_string().concat(":0")
}

/// How fetching the results ended.
#[derive(Debug, PartialEq)]
pub enum Fetched {
    TimedOut,
    Answered(Result<Vec<ServiceEntry>, DnsLeakError>),
}

/// Draws the report of a test against `expected_asn`, the ASN of the current
/// external IP: the VPN exit, when the tunnel is actually up.
///
/// Only a failure to *fetch results* is an error, since that means the test
/// itself could not be completed; "completed and found no resolvers" is a
/// valid, reportable outcome.
pub fn run_test(fetched: Fetched, expected_asn: Option<&str>) -> (r: Result<
    LeakReport,
    DnsLeakError,
>)
    ensures
        match fetched {
            Fetched::TimedOut => r matches Err(DnsLeakError::Timeout(what)) && what@
                == "fetching dnsleak results"@,
            Fetched::Answered(Err(err)) => r == Err::<LeakReport, DnsLeakError>(err),
            Fetched::Answered(Ok(entries)) => {
                &&& r matches Ok(report)
                &&& report.external_ip == reported_ip(entries@)
                &&& report.resolvers@ == reported_resolvers(entries@)
                &&& verdict::is_verdict(
                    report.verdict,
                    text::opt_str(expected_asn),
                    reported_resolvers(entries@),
                )
            },
        },
{
    let entries = match fetched {
        Fetched::TimedOut => {
            return Err(DnsLeakError::Timeout("fetching dnsleak results"));
        },
        Fetched::Answered(Err(err)) => {
            return Err(err);
        },
        Fetched::Answered(Ok(entries)) => entries,
    };
    let (external_ip, resolvers) = split_entries(entries);
    let verdict = evaluate(expected_asn, resolvers.as_slice());
    Ok(LeakReport { external_ip, resolvers, verdict })
}

/// A sentence that is not an address never turns into a resolver: every
/// reported resolver stems from a `"dns"` entry that holds its address.
pub proof fn lemma_resolvers_stem_from_dns_entries(entries: Seq<ServiceEntry>, i: int)
    requires
        0 <= i < reported_resolvers(entries).len(),
    ensures
        exists|k: int|
            0 <= k < entries.len() && (#[trigger] entries[k]).kind@ == "dns"@ && addr::address(
                entries[k].ip@,
            ) == Some(reported_resolvers(entries)[i].ip) && reported_resolvers(entries)[i].asn
                == entries[k].asn && reported_resolvers(entries)[i].country
                == entries[k].country_name,
    decreases entries.len(),
{
    let front = entries.drop_last();
    if i < reported_resolvers(front).len() {
        lemma_resolvers_stem_from_dns_entries(front, i);
        let k = choose|k: int|
            0 <= k < front.len() && (#[trigger] front[k]).kind@ == "dns"@ && addr::address(
                front[k].ip@,
            ) == Some(reported_resolvers(front)[i].ip) && reported_resolvers(front)[i].asn
                == front[k].asn && reported_resolvers(front)[i].country == front[k].country_name;
        assert(entries[k] == front[k]);
        assert(reported_resolvers(entries)[i] == reported_resolvers(front)[i]);
    } else {
        let k = entries.len() - 1;
        assert(entries[k].kind@ == "dns"@);
    }
}

proof fn lemma_dns_entry_is_reported(entries: Seq<ServiceEntry>, k: int, resolver: Resolver) -> (i:
    int)
    requires
        0 <= k < entries.len(),
        entries[k].kind@ == "dns"@,
        addr::address(entries[k].ip@) == Some(resolver.ip),
        entries[k].country_name == resolver.country,
        entries[k].asn == resolver.asn,
    ensures
        0 <= i < reported_resolvers(entries).len(),
        reported_resolvers(entries)[i] == resolver,
    decreases entries.len(),
{
    let front = entries.drop_last();
    let all = reported_resolvers(entries);
    if k < front.len() {
        assert(front[k] == entries[k]);
        lemma_dns_entry_is_reported(front, k, resolver)
    } else {
        assert(all[all.len() - 1] == resolver);
        all.len() - 1
    }
}

/// No resolver goes missing: every `"dns"` entry that holds an address is
/// reported, with that address and with the entry's own country and AS number.
pub proof fn lemma_every_dns_entry_is_reported(entries: Seq<ServiceEntry>)
    ensures
        forall|k: int|
            0 <= k < entries.len() && (#[trigger] entries[k]).kind@ == "dns"@ && addr::address(
                entries[k].ip@,
            ) is Some ==> reported_resolvers(entries).contains(
                (Resolver {
                    ip: addr::address(entries[k].ip@)->0,
                    country: entries[k].country_name,
                    asn: entries[k].asn,
                }),
            ),
{
    assert forall|k: int|
        0 <= k < entries.len() && (#[trigger] entries[k]).kind@ == "dns"@ && addr::address(
            entries[k].ip@,
        ) is Some implies reported_resolvers(entries).contains(
        (Resolver {
            ip: addr::address(entries[k].ip@)->0,
            country: entries[k].country_name,
            asn: entries[k].asn,
        }),
    ) by {
        let resolver = Resolver {
            ip: addr::address(entries[k].ip@)->0,
            country: entries[k].country_name,
            asn: entries[k].asn,
        };
        let i = lemma_dns_entry_is_reported(entries, k, resolver);
    }
}

/// There is one resolver for each such entry, and they come in the order of
/// the entries: the list is what is left of the entries once the others are
/// dropped.
pub proof fn lemma_resolvers_are_the_dns_entries(entries: Seq<ServiceEntry>)
    ensures
        reported_resolvers(entries) == entries.filter(
            |e: ServiceEntry| e.kind@ == "dns"@ && addr::address(e.ip@) is Some,
        ).map_values(
            |e: ServiceEntry|
                (Resolver {
                    ip: addr::address(e.ip@)->0,
                    country: e.country_name,
                    asn: e.asn,
                }),
        ),
    decreases entries.len(),
{
    let named = |e: ServiceEntry| e.kind@ == "dns"@ && addr::address(e.ip@) is Some;
    let as_resolver = |e: ServiceEntry|
        (Resolver { ip: addr::address(e.ip@)->0, country: e.country_name, asn: e.asn });
    reveal(Seq::filter);
    if entries.len() > 0 {
        let front = entries.drop_last();
        lemma_resolvers_are_the_dns_entries(front);
        let kept = front.filter(named);
        if named(entries.last()) {
            assert(entries.filter(named) == kept.push(entries.last()));
            assert(kept.push(entries.last()).map_values(as_resolver) =~= kept.map_values(
                as_resolver,
            ).push(as_resolver(entries.last())));
        } else {
            assert(entries.filter(named) == kept);
        }
    }
    assert(reported_resolvers(entries) =~= entries.filter(named).map_values(as_resolver));
}

/// Entries are read one by one: what two batches report together is what the
/// first reports, followed by what the second does.
pub proof fn lemma_resolvers_of_two_batches(first: Seq<ServiceEntry>, second: Seq<ServiceEntry>)
    ensures
        reported_resolvers(first + second) == reported_resolvers(first) + reported_resolvers(
            second,
        ),
    decreases second.len(),
{
    let both = first + second;
    if second.len() == 0 {
        assert(both =~= first);
        assert(reported_resolvers(first) =~= reported_resolvers(first) + reported_resolvers(
            second,
        ));
    } else {
        assert(both.drop_last() =~= first + second.drop_last());
        lemma_resolvers_of_two_batches(first, second.drop_last());
        assert(reported_resolvers(both) =~= reported_resolvers(first) + reported_resolvers(second));
    }
}

/// A report never lists more resolvers than there are entries, and one more
/// entry adds exactly one resolver if it is a `"dns"` entry that holds an
/// address, and none otherwise.
pub proof fn lemma_one_resolver_per_dns_entry(entries: Seq<ServiceEntry>, entry: ServiceEntry)
    ensures
        reported_resolvers(entries).len() <= entries.len(),
        reported_resolvers(entries.push(entry)).len() == reported_resolvers(entries).len() + (
        if entry.kind@ == "dns"@ && addr::address(entry.ip@) is Some {
            1nat
        } else {
            0nat
        }),
    decreases entries.len(),
{
    assert(entries.push(entry).drop_last() =~= entries);
    if entries.len() > 0 {
        lemma_one_resolver_per_dns_entry(entries.drop_last(), entries.last());
        assert(entries.drop_last().push(entries.last()) =~= entries);
    }
}

proof fn lemma_ip_entry_counts(entries: Seq<ServiceEntry>, k: int)
    requires
        0 <= k < entries.len(),
        entries[k].kind@ == "ip"@,
        addr::address(entries[k].ip@) is Some,
    ensures
        reported_ip(entries) is Some,
        (forall|j: int|
            k < j < entries.len() && (#[trigger] entries[j]).kind@ == "ip"@ ==> addr::address(
                entries[j].ip@,
            ) is None) ==> reported_ip(entries) == addr::address(entries[k].ip@),
    decreases entries.len(),
{
    let front = entries.drop_last();
    let last = entries.len() - 1;
    if k < last {
        assert(front[k] == entries[k]);
        lemma_ip_entry_counts(front, k);
        if forall|j: int|
            k < j < entries.len() && (#[trigger] entries[j]).kind@ == "ip"@ ==> addr::address(
                entries[j].ip@,
            ) is None {
            assert(entries[last].kind@ == "ip"@ ==> addr::address(entries[last].ip@) is None);
            assert forall|j: int|
                k < j < front.len() && (#[trigger] front[j]).kind@ == "ip"@ implies addr::address(
                front[j].ip@,
            ) is None by {
                assert(front[j] == entries[j]);
            }
        }
    }
}

proof fn lemma_reported_ip_stems(entries: Seq<ServiceEntry>) -> (k: int)
    requires
        reported_ip(entries) is Some,
    ensures
        0 <= k < entries.len(),
        entries[k].kind@ == "ip"@,
        addr::address(entries[k].ip@) == reported_ip(entries),
    decreases entries.len(),
{
    let e = entries.last();
    if e.kind@ == "ip"@ && addr::address(e.ip@) is Some {
        entries.len() - 1
    } else {
        lemma_reported_ip_stems(entries.drop_last())
    }
}

/// The external IP is that of the last `"ip"` entry that holds an address;
/// there is none exactly if no such entry holds one.
pub proof fn lemma_last_ip_entry_counts(entries: Seq<ServiceEntry>)
    ensures
        reported_ip(entries) is Some <==> exists|k: int|
            0 <= k < entries.len() && (#[trigger] entries[k]).kind@ == "ip"@ && addr::address(
                entries[k].ip@,
            ) is Some,
        forall|k: int|
            0 <= k < entries.len() && (#[trigger] entries[k]).kind@ == "ip"@ && addr::address(
                entries[k].ip@,
            ) is Some && (forall|j: int|
                k < j < entries.len() && (#[trigger] entries[j]).kind@ == "ip"@ ==> addr::address(
                    entries[j].ip@,
                ) is None) ==> reported_ip(entries) == addr::address(entries[k].ip@),
{
    if reported_ip(entries) is Some {
        let k = lemma_reported_ip_stems(entries);
        assert(entries[k].kind@ == "ip"@);
    }
    if exists|k: int|
        0 <= k < entries.len() && (#[trigger] entries[k]).kind@ == "ip"@ && addr::address(
            entries[k].ip@,
        ) is Some {
        let k = choose|k: int|
            0 <= k < entries.len() && (#[trigger] entries[k]).kind@ == "ip"@ && addr::address(
                entries[k].ip@,
            ) is Some;
        lemma_ip_entry_counts(entries, k);
    }
    assert forall|k: int|
        0 <= k < entries.len() && (#[trigger] entries[k]).kind@ == "ip"@ && addr::address(
            entries[k].ip@,
        ) is Some && (forall|j: int|
            k < j < entries.len() && (#[trigger] entries[j]).kind@ == "ip"@ ==> addr::address(
                entries[j].ip@,
            ) is None) implies reported_ip(entries) == addr::address(entries[k].ip@) by {
        lemma_ip_entry_counts(entries, k);
    }
}

/// A leak that the service saw is never missed: where a `"dns"` entry holds an
/// address and names another network than the exit's, the verdict on the
/// entries is `Leaking`, and that address is listed.
pub proof fn lemma_foreign_entry_is_a_leak(
    found: Verdict,
    expected: Seq<char>,
    entries: Seq<ServiceEntry>,
    k: int,
)
    requires
        verdict::is_verdict(found, Some(expected), reported_resolvers(entries)),
        0 <= k < entries.len(),
        entries[k].kind@ == "dns"@,
        addr::address(entries[k].ip@) is Some,
        entries[k].asn is Some,
        verdict::asn_of(entries[k].asn->0@) is Some,
        verdict::asn_of(expected) is Some,
        verdict::asn_of(entries[k].asn->0@) != verdict::asn_of(expected),
    ensures
        found matches Verdict::Leaking { foreign } && foreign@.contains(
            addr::address(entries[k].ip@)->0,
        ),
{
    let resolvers = reported_resolvers(entries);
    let resolver = Resolver {
        ip: addr::address(entries[k].ip@)->0,
        country: entries[k].country_name,
        asn: entries[k].asn,
    };
    lemma_every_dns_entry_is_reported(entries);
    assert(resolvers.contains(resolver));
    let i = choose|i: int| 0 <= i < resolvers.len() && resolvers[i] == resolver;
    verdict::lemma_one_foreign_resolver_is_a_leak(found, Some(expected), resolvers, i);
}

} // verus!
