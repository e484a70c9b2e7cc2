//! Local network facts: internal addresses, configured DNS resolvers, hostname.
//!
//! Enumerating interfaces and reading configuration files is the caller's
//! part; what is made of them stands here.
use vstd::prelude::*;

use crate::addr;
use crate::addr::{parse_chars, IpAddr};
use crate::text;
use crate::text::{chars_of, next_word, same_chars, split_chars};

verus! {

#[derive(Debug, PartialEq)]
pub struct NetInfo {
    /// Non-loopback addresses assigned to local interfaces.
    pub internal_ips: Vec<IpAddr>,
    /// Resolvers the system is configured to query. A VPN that is working
    /// normally replaces these with its own; leftover ISP resolvers here are
    /// the first hint of a DNS leak.
    pub dns_servers: Vec<IpAddr>,
    pub hostname: Option<String>,
}

impl Clone for NetInfo {
    fn clone(&self) -> (r: Self)
        ensures
            r.internal_ips@ == self.internal_ips@,
            r.dns_servers@ == self.dns_servers@,
            r.hostname == self.hostname,
    {
        NetInfo {
            internal_ips: self.internal_ips.clone(),
            dns_servers: self.dns_servers.clone(),
            hostname: self.hostname.clone(),
        }
    }
}

impl Default for NetInfo {
    fn default() -> (r: Self)
        ensures
            r.internal_ips@.len() == 0,
            r.dns_servers@.len() == 0,
            r.hostname is None,
    {
        NetInfo { internal_ips: Vec::new(), dns_servers: Vec::new(), hostname: None }
    }
}

#[derive(Debug, PartialEq)]
pub enum NetInfoError {
    Interfaces(String),
    Dns(String),
}

pub open spec fn netinfo_error_text(err: NetInfoError) -> Seq<char> {
    match err {
        NetInfoError::Interfaces(detail) => "could not enumerate local interfaces: "@ + detail@,
        NetInfoError::Dns(detail) => "could not read DNS configuration: "@ + detail@,
    }
}

impl NetInfoError {
    /// The message shown for this error.
    pub fn message(&self) -> (r: String)
        ensures
            r@ == netinfo_error_text(*self),
            *self matches NetInfoError::Interfaces(detail) ==> r@
                == "could not enumerate local interfaces: "@ + detail@,
            *self matches NetInfoError::Dns(detail) ==> r@ == "could not read DNS configuration: "@
                + detail@,
    {
        match self {
            NetInfoError::Interfaces(
                detail,
            ) => "could not enumerate local interfaces: ".to_string().concat(detail.as_str()),
            NetInfoError::Dns(
                detail,
            ) => "could not read DNS configuration: ".to_string().concat(detail.as_str()),
        }
    }
}

/// The addresses that are not loopback addresses, in order.
pub open spec fn without_loopback(addrs: Seq<IpAddr>) -> Seq<IpAddr> {
    addrs.filter(|a: IpAddr| !a.loopback())
}

/// Keeps the non-loopback addresses assigned to local interfaces. `interfaces`
/// holds the address of every interface, or why they could not be listed.
pub fn collect_internal_ips(interfaces: Result<Vec<IpAddr>, String>) -> (r: Result<
    Vec<IpAddr>,
    NetInfoError,
>)
    ensures
        match interfaces {
            Err(detail) => r == Err::<Vec<IpAddr>, NetInfoError>(NetInfoError::Interfaces(detail)),
            Ok(all) => r matches Ok(kept) && kept@ == without_loopback(all@) && (forall|k: int|
                0 <= k < all@.len() && !(#[trigger] all@[k]).loopback() ==> kept@.contains(all@[k]))
                && (forall|i: int| 0 <= i < kept@.len() ==> !(#[trigger] kept@[i]).loopback()),
        },
{
    let all = match interfaces {
        Ok(all) => all,
        Err(detail) => {
            return Err(NetInfoError::Interfaces(detail));
        },
    };
    let mut kept: Vec<IpAddr> = Vec::new();
    let ghost outside = |a: IpAddr| !a.loopback();
    assert(all@.take(0).filter(outside) =~= seq![]) by {
        reveal(Seq::filter);
    }
    for i in 0..all.len()
        invariant
            outside == (|a: IpAddr| !a.loopback()),
            kept@ == all@.take(i as int).filter(outside),
    {
        proof {
            reveal(Seq::filter);
            assert(all@.take(i + 1).drop_last() == all@.take(i as int));
        }
        if !all[i].is_loopback() {
            kept.push(all[i]);
        }
    }
    assert(all@.take(all@.len() as int) == all@);
    proof {
        assert forall|k: int| 0 <= k < all@.len() && !(#[trigger] all@[k]).loopback() implies kept@.contains(
            all@[k],
        ) by {
            lemma_internal_addresses_are_kept(all@, k);
        }
        assert forall|i: int| 0 <= i < kept@.len() implies !(#[trigger] kept@[i]).loopback() by {
            lemma_no_loopback_reported(all@, i);
        }
    }
    Ok(kept)
}

/// A network adapter: whether it is up, and the resolvers it is given.
#[derive(Debug, PartialEq)]
pub struct Adapter {
    pub up: bool,
    pub dns_servers: Vec<IpAddr>,
}

/// `known` with the items of `more` that it does not hold yet appended, in
/// order and once each.
pub open spec fn append_new(known: Seq<IpAddr>, more: Seq<IpAddr>) -> Seq<IpAddr>
    decreases more.len(),
{
    if more.len() == 0 {
        known
    } else {
        let before = append_new(known, more.drop_last());
        if before.contains(more.last()) {
            before
        } else {
            before.push(more.last())
        }
    }
}

/// The resolvers of the adapters that are up, in order, each of them once.
pub open spec fn resolvers_of(adapters: Seq<Adapter>) -> Seq<IpAddr>
    decreases adapters.len(),
{
    if adapters.len() == 0 {
        seq![]
    } else {
        let before = resolvers_of(adapters.drop_last());
        if adapters.last().up {
            append_new(before, adapters.last().dns_servers@)
        } else {
            before
        }
    }
}

fn holds(list: &Vec<IpAddr>, ip: IpAddr) -> (r: bool)
    ensures
        r == list@.contains(ip),
{
    for i in 0..list.len()
        invariant
            forall|j: int| 0 <= j < i ==> list@[j] != ip,
    {
        if list[i] == ip {
            assert(list@[i as int] == ip);
            return true;
        }
    }
    false
}

/// Collects the resolvers configured on the adapters that are up.
pub fn adapter_dns_servers(adapters: &Vec<Adapter>) -> (r: Vec<IpAddr>)
    ensures
        r@ == resolvers_of(adapters@),
{
    let mut servers: Vec<IpAddr> = Vec::new();
    assert(adapters@.take(0) =~= seq![]);
    for i in 0..adapters.len()
        invariant
            servers@ == resolvers_of(adapters@.take(i as int)),
    {
        let ghost before = servers@;
        assert(adapters@.take(i + 1).drop_last() == adapters@.take(i as int));
        if adapters[i].up {
            let dns = &adapters[i].dns_servers;
            assert(dns@.take(0) =~= seq![]);
            for k in 0..dns.len()
                invariant
                    servers@ == append_new(before, dns@.take(k as int)),
            {
                assert(dns@.take(k + 1).drop_last() == dns@.take(k as int));
                if !holds(&servers, dns[k]) {
                    servers.push(dns[k]);
                }
            }
            assert(dns@.take(dns@.len() as int) == dns@);
        }
    }
    assert(adapters@.take(adapters@.len() as int) == adapters@);
    servers
}

/// The resolver that a line of `resolv.conf` configures: the second word of a
/// line whose first word is `nameserver`, if it is an address.
pub open spec fn line_server(line: Seq<char>) -> Option<IpAddr> {
    let w = text::words(line);
    if w.len() >= 2 && w[0] == "nameserver"@ {
        addr::address(w[1])
    } else {
        None
    }
}

/// The resolvers that the lines configure, in order.
pub open spec fn line_servers(lines: Seq<Seq<char>>) -> Seq<IpAddr>
    decreases lines.len(),
{
    if lines.len() == 0 {
        seq![]
    } else {
        match line_server(lines.last()) {
            Some(ip) => line_servers(lines.drop_last()).push(ip),
            None => line_servers(lines.drop_last()),
        }
    }
}

fn read_line(line: &[char]) -> (r: Option<IpAddr>)
    ensures
        r == line_server(line@),
{
    let ghost w = text::words(line@);
    let (directive, rest) = match next_word(line) {
        Some(pair) => pair,
        None => {
            return None;
        },
    };
    assert(w[0] == directive@);
    let keyword = chars_of("nameserver");
    if !same_chars(directive, keyword.as_slice()) {
        return None;
    }
    match next_word(rest) {
        Some((word, _)) => {
            assert(w[1] == text::words(rest@)[0]);
            assert(w[1] == word@);
            parse_chars(word)
        },
        None => {
            assert(w.len() == 1);
            None
        },
    }
}

/// Parses `nameserver <addr>` lines out of a `resolv.conf`-formatted string.
/// Blank lines, comments, other directives and malformed addresses are
/// skipped.
pub fn parse_resolv_conf(contents: &str) -> (r: Vec<IpAddr>)
    ensures
        r@ == line_servers(text::split(contents@, '\n')),
{
    let chars = chars_of(contents);
    let lines = split_chars(chars.as_slice(), '\n');
    let ghost all = text::split(contents@, '\n');
    let mut servers: Vec<IpAddr> = Vec::new();
    assert(all.take(0) =~= seq![]);
    for i in 0..lines.len()
        invariant
            text::runs(lines@) == all,
            servers@ == line_servers(all.take(i as int)),
    {
        proof {
            assert(all[i as int] == lines@[i as int]@);
            assert(all.take(i + 1).drop_last() == all.take(i as int));
            assert(all.take(i + 1).last() == all[i as int]);
        }
        if let Some(ip) = read_line(lines[i]) {
            servers.push(ip);
        }
    }
    assert(all.take(lines@.len() as int) == all);
    servers
}

/// How reading `/etc/resolv.conf` ended.
#[derive(Debug, PartialEq)]
pub enum ResolvConf {
    Contents(String),
    Missing,
    Unreadable(String),
}

/// Collects the resolvers that `/etc/resolv.conf` configures. A missing file
/// configures none.
pub fn collect_dns_servers(file: ResolvConf) -> (r: Result<Vec<IpAddr>, String>)
    ensures
        match file {
            ResolvConf::Contents(contents) => r matches Ok(servers) && servers@ == line_servers(
                text::split(contents@, '\n'),
            ),
            ResolvConf::Missing => r matches Ok(servers) && servers@.len() == 0,
            ResolvConf::Unreadable(detail) => r == Err::<Vec<IpAddr>, String>(detail),
        },
{
    match file {
        ResolvConf::Contents(contents) => Ok(parse_resolv_conf(contents.as_str())),
        ResolvConf::Missing => Ok(Vec::new()),
        ResolvConf::Unreadable(detail) => Err(detail),
    }
}

/// Collects everything the details window shows about the local machine. A
/// DNS configuration that cannot be read shows as no resolvers; only the
/// interfaces are indispensable.
pub fn collect(
    interfaces: Result<Vec<IpAddr>, String>,
    dns: Result<Vec<IpAddr>, String>,
    hostname: String,
) -> (r: Result<NetInfo, NetInfoError>)
    ensures
        match interfaces {
            Err(detail) => r == Err::<NetInfo, NetInfoError>(NetInfoError::Interfaces(detail)),
            Ok(all) => r matches Ok(info) && info.internal_ips@ == without_loopback(all@)
                && info.dns_servers@ == (match dns {
                Ok(servers) => servers@,
                Err(_) => seq![],
            }) && info.hostname == Some(hostname),
        },
{
    let internal_ips = match collect_internal_ips(interfaces) {
        Ok(ips) => ips,
        Err(err) => {
            return Err(err);
        },
    };
    let dns_servers = match dns {
        Ok(servers) => servers,
        Err(_) => Vec::new(),
    };
    Ok(NetInfo { internal_ips, dns_servers, hostname: Some(hostname) })
}

/// No loopback address is ever reported as an internal address.
pub proof fn lemma_no_loopback_reported(addrs: Seq<IpAddr>, i: int)
    requires
        0 <= i < without_loopback(addrs).len(),
    ensures
        !without_loopback(addrs)[i].loopback(),
        addrs.contains(without_loopback(addrs)[i]),
{
    let outside = |a: IpAddr| !a.loopback();
    assert(addrs.filter(outside).contains(addrs.filter(outside)[i]));
    addrs.lemma_filter_contains_rev(outside, addrs.filter(outside)[i]);
    addrs.lemma_filter_pred(outside, i);
}

proof fn lemma_append_new(known: Seq<IpAddr>, more: Seq<IpAddr>)
    requires
        known.no_duplicates(),
    ensures
        append_new(known, more).no_duplicates(),
    decreases more.len(),
{
    if more.len() > 0 {
        lemma_append_new(known, more.drop_last());
    }
}

proof fn lemma_append_new_holds(known: Seq<IpAddr>, more: Seq<IpAddr>, ip: IpAddr)
    ensures
        append_new(known, more).contains(ip) <==> known.contains(ip) || more.contains(ip),
    decreases more.len(),
{
    if more.len() > 0 {
        let front = more.drop_last();
        let before = append_new(known, front);
        lemma_append_new_holds(known, front, ip);
        assert(more.contains(ip) <==> front.contains(ip) || ip == more.last()) by {
            if more.contains(ip) {
                let k = choose|k: int| 0 <= k < more.len() && more[k] == ip;
                if k < front.len() {
                    assert(front[k] == ip);
                }
            }
            if front.contains(ip) {
                let k = choose|k: int| 0 <= k < front.len() && front[k] == ip;
                assert(more[k] == ip);
            }
            assert(more[more.len() - 1] == more.last());
        }
        if !before.contains(more.last()) {
            let after = before.push(more.last());
            if after.contains(ip) {
                let k = choose|k: int| 0 <= k < after.len() && after[k] == ip;
                if k < before.len() {
                    assert(before[k] == ip);
                }
            }
            if before.contains(ip) {
                let k = choose|k: int| 0 <= k < before.len() && before[k] == ip;
                assert(after[k] == ip);
            }
            assert(after[before.len() as int] == more.last());
        }
    }
}

/// Exactly the resolvers of adapters that are up are listed.
pub proof fn lemma_resolvers_are_those_in_use(adapters: Seq<Adapter>, ip: IpAddr)
    ensures
        resolvers_of(adapters).contains(ip) <==> exists|k: int|
            0 <= k < adapters.len() && (#[trigger] adapters[k]).up
                && adapters[k].dns_servers@.contains(ip),
    decreases adapters.len(),
{
    if adapters.len() > 0 {
        let front = adapters.drop_last();
        lemma_resolvers_are_those_in_use(front, ip);
        lemma_append_new_holds(resolvers_of(front), adapters.last().dns_servers@, ip);
        if exists|k: int|
            0 <= k < front.len() && (#[trigger] front[k]).up && front[k].dns_servers@.contains(ip) {
            let k = choose|k: int|
                0 <= k < front.len() && (#[trigger] front[k]).up && front[k].dns_servers@.contains(
                    ip,
                );
            assert(adapters[k] == front[k]);
        }
        if exists|k: int|
            0 <= k < adapters.len() && (#[trigger] adapters[k]).up
                && adapters[k].dns_servers@.contains(ip) {
            let k = choose|k: int|
                0 <= k < adapters.len() && (#[trigger] adapters[k]).up
                    && adapters[k].dns_servers@.contains(ip);
            if k < front.len() {
                assert(front[k] == adapters[k]);
            }
        }
        assert(adapters[adapters.len() - 1] == adapters.last());
    }
}

/// No resolver of the adapters is listed twice.
pub proof fn lemma_resolvers_are_distinct(adapters: Seq<Adapter>)
    ensures
        resolvers_of(adapters).no_duplicates(),
    decreases adapters.len(),
{
    if adapters.len() > 0 {
        lemma_resolvers_are_distinct(adapters.drop_last());
        lemma_append_new(resolvers_of(adapters.drop_last()), adapters.last().dns_servers@);
    }
}

/// Every address that is no loopback address is reported.
pub proof fn lemma_internal_addresses_are_kept(addrs: Seq<IpAddr>, k: int)
    requires
        0 <= k < addrs.len(),
        !addrs[k].loopback(),
    ensures
        without_loopback(addrs).contains(addrs[k]),
{
    addrs.lemma_filter_contains(|a: IpAddr| !a.loopback(), k);
}

/// Addresses are kept one by one and in order, as often as they come.
pub proof fn lemma_internal_addresses_keep_order(addrs: Seq<IpAddr>, ip: IpAddr)
    ensures
        without_loopback(addrs.push(ip)) == (if ip.loopback() {
            without_loopback(addrs)
        } else {
            without_loopback(addrs).push(ip)
        }),
        without_loopback(seq![]) == Seq::<IpAddr>::empty(),
{
    reveal(Seq::filter);
    assert(addrs.push(ip).drop_last() =~= addrs);
    assert(without_loopback(seq![]) =~= Seq::<IpAddr>::empty());
}

/// Resolvers that are new, and distinct, are appended in their own order.
pub proof fn lemma_new_resolvers_keep_order(known: Seq<IpAddr>, more: Seq<IpAddr>)
    requires
        more.no_duplicates(),
        forall|i: int| 0 <= i < more.len() ==> !known.contains(#[trigger] more[i]),
    ensures
        append_new(known, more) == known + more,
    decreases more.len(),
{
    if more.len() == 0 {
        assert(known + more =~= known);
    } else {
        let front = more.drop_last();
        assert forall|i: int| 0 <= i < front.len() implies !known.contains(#[trigger] front[i]) by {
            assert(front[i] == more[i]);
        }
        lemma_new_resolvers_keep_order(known, front);
        let before = known + front;
        assert(!before.contains(more.last())) by {
            if before.contains(more.last()) {
                let k = choose|k: int| 0 <= k < before.len() && before[k] == more.last();
                if k < known.len() {
                    assert(known[k] == more.last());
                    assert(!known.contains(more[more.len() - 1]));
                } else {
                    assert(more[k - known.len()] == more[more.len() - 1]);
                }
            }
        }
        assert(before.push(more.last()) =~= known + more);
    }
}

/// A further adapter never moves or drops the resolvers listed before it; one
/// that is down adds none, and one that is up with resolvers all its own adds
/// those behind them, in its order.
pub proof fn lemma_further_adapter(adapters: Seq<Adapter>, adapter: Adapter)
    ensures
        resolvers_of(adapters).is_prefix_of(resolvers_of(adapters.push(adapter))),
        !adapter.up ==> resolvers_of(adapters.push(adapter)) == resolvers_of(adapters),
        adapter.up && adapter.dns_servers@.no_duplicates() && (forall|i: int|
            0 <= i < adapter.dns_servers@.len() ==> !resolvers_of(adapters).contains(
                #[trigger] adapter.dns_servers@[i],
            )) ==> resolvers_of(adapters.push(adapter)) == resolvers_of(adapters)
            + adapter.dns_servers@,
{
    let before = resolvers_of(adapters);
    let more = adapter.dns_servers@;
    assert(adapters.push(adapter).drop_last() =~= adapters);
    lemma_append_keeps(before, more);
    if more.no_duplicates() && (forall|i: int|
        0 <= i < more.len() ==> !before.contains(#[trigger] more[i])) {
        lemma_new_resolvers_keep_order(before, more);
    }
}

proof fn lemma_append_keeps(known: Seq<IpAddr>, more: Seq<IpAddr>)
    ensures
        known.is_prefix_of(append_new(known, more)),
    decreases more.len(),
{
    if more.len() > 0 {
        lemma_append_keeps(known, more.drop_last());
    }
}

/// A `nameserver` line configures the address behind the keyword, whatever
/// white space stands before, between and behind, and whatever follows.
pub proof fn lemma_nameserver_line(
    before: Seq<char>,
    between: Seq<char>,
    word: Seq<char>,
    rest: Seq<char>,
)
    requires
        text::blank(before),
        between.len() > 0,
        text::blank(between),
        word.len() > 0,
        text::solid(word),
        rest.len() == 0 || text::white_space(rest[0]),
    ensures
        line_server(before + "nameserver"@ + (between + word + rest)) == addr::address(word),
{
    lemma_nameserver_keyword();
    let tail = between + word + rest;
    assert(tail[0] == between[0]);
    text::lemma_words(before, "nameserver"@, tail);
    text::lemma_words(between, word, rest);
}

proof fn lemma_nameserver_keyword()
    ensures
        "nameserver"@.len() > 0,
        text::solid("nameserver"@),
{
    reveal_strlit("nameserver");
}

/// A line that names the canonical text of an address configures that address.
pub proof fn lemma_nameserver_address(ip: IpAddr)
    ensures
        line_server("nameserver"@ + seq![' '] + addr::address_text(ip)) == Some(ip),
{
    addr::lemma_address_text_solid(ip);
    addr::lemma_address_round_trip(ip);
    let w = addr::address_text(ip);
    lemma_nameserver_line(seq![], seq![' '], w, seq![]);
    assert(Seq::<char>::empty() + "nameserver"@ + (seq![' '] + w + Seq::<char>::empty())
        =~= "nameserver"@ + seq![' '] + w);
}

/// A line configures nothing if it is blank, if its first word is another one
/// (a comment, another directive), or if nothing follows the keyword.
pub proof fn lemma_other_line(before: Seq<char>, word: Seq<char>, rest: Seq<char>)
    requires
        text::blank(before),
        word.len() > 0,
        text::solid(word),
        rest.len() == 0 || text::white_space(rest[0]),
        word != "nameserver"@ || text::blank(rest),
    ensures
        line_server(before) is None,
        line_server(before + word + rest) is None,
{
    text::lemma_no_words(before);
    text::lemma_words(before, word, rest);
    if text::blank(rest) {
        text::lemma_no_words(rest);
    }
}

/// The lines are read one by one and in order: each that configures an address
/// adds it at the end, as often as it is named.
pub proof fn lemma_lines_are_read_in_order(first: Seq<Seq<char>>, second: Seq<Seq<char>>)
    ensures
        line_servers(first + second) == line_servers(first) + line_servers(second),
    decreases second.len(),
{
    let both = first + second;
    if second.len() == 0 {
        assert(both =~= first);
        assert(line_servers(first) =~= line_servers(first) + line_servers(second));
    } else {
        assert(both.drop_last() =~= first + second.drop_last());
        lemma_lines_are_read_in_order(first, second.drop_last());
        assert(line_servers(both) =~= line_servers(first) + line_servers(second));
    }
}

/// A single line is listed exactly if it configures an address.
pub proof fn lemma_one_line(line: Seq<char>)
    ensures
        line_servers(seq![line]) == (if line_server(line) is Some {
            seq![line_server(line)->0]
        } else {
            seq![]
        }),
{
    assert(seq![line].drop_last() =~= seq![]);
    assert(line_servers(seq![]) =~= seq![]);
    assert(seq![line].last() == line);
    if line_server(line) is Some {
        assert(line_servers(seq![line]) =~= seq![line_server(line)->0]);
    } else {
        assert(line_servers(seq![line]) =~= seq![]);
    }
}

} // verus!
