//! Verdict logic: compares the resolvers a leak-test service observed against
//! the ASN of the current external IP (the VPN exit, when the tunnel is
//! actually up).
//!
//! # The comparison rule, and why it is conservative
//!
//! A false "you're safe" is far worse than a false "possible leak": the user
//! acts on the verdict. So every step is biased toward *not* reporting
//! `Consistent` unless the evidence is unambiguous:
//!
//! - No resolvers observed at all -> `NoResolvers`.
//! - No usable expected ASN -> `Inconclusive`.
//! - A resolver whose own ASN doesn't parse is skipped entirely.
//! - **Any** resolver with a parseable ASN that differs from the expected one
//!   -> `Leaking`, even if every other resolver matches.
//! - Only when every parseable resolver ASN matches, and at least one resolver
//!   was actually comparable -> `Consistent`.
//! - Resolvers exist but none of them yielded a comparable ASN ->
//!   `Inconclusive`: silence is not evidence of safety.
use vstd::prelude::*;
use vstd::slice::slice_subrange;

use super::Resolver;
use crate::addr::IpAddr;
use crate::text;
use crate::text::{chars_of, same_text, string_of, trim};

verus! {

/// Outcome of comparing observed resolvers against the current exit's ASN.
#[derive(Debug, PartialEq)]
pub enum Verdict {
    /// The service reported no resolvers at all for this session.
    NoResolvers,
    /// Every resolver we could compare shares the exit's ASN.
    Consistent,
    /// At least one resolver sits in a clearly different network than the
    /// exit. `foreign` lists the offending resolver addresses.
    Leaking { foreign: Vec<IpAddr> },
    /// Resolvers exist but there isn't enough trustworthy data to compare
    /// them against the exit (no known exit ASN, or no resolver ASN parsed).
    Inconclusive { reason: String },
}

/// Whether two verdicts say the same.
pub open spec fn same_verdict(a: Verdict, b: Verdict) -> bool {
    match (a, b) {
        (Verdict::NoResolvers, Verdict::NoResolvers) => true,
        (Verdict::Consistent, Verdict::Consistent) => true,
        (Verdict::Leaking { foreign: f }, Verdict::Leaking { foreign: g }) => f@ == g@,
        (Verdict::Inconclusive { reason: p }, Verdict::Inconclusive { reason: q }) => p@ == q@,
        _ => false,
    }
}

impl Clone for Verdict {
    fn clone(&self) -> (r: Self)
        ensures
            same_verdict(r, *self),
    {
        match self {
            Verdict::NoResolvers => Verdict::NoResolvers,
            Verdict::Consistent => Verdict::Consistent,
            Verdict::Leaking { foreign } => Verdict::Leaking { foreign: foreign.clone() },
            Verdict::Inconclusive { reason } => Verdict::Inconclusive { reason: reason.clone() },
        }
    }
}

/// How many digits the text begins with.
pub open spec fn digit_run(s: Seq<char>) -> nat
    decreases s.len(),
{
    if s.len() > 0 && text::is_digit(s[0]) {
        1 + digit_run(s.skip(1))
    } else {
        0
    }
}

/// The normalized AS number that a text begins with, white space aside: the
/// letters `AS` in either case and at least one digit. What follows the
/// digits does not matter.
pub open spec fn asn_of(raw: Seq<char>) -> Option<Seq<char>> {
    let t = text::trimmed(raw);
    if t.len() >= 2 && (t[0] == 'A' || t[0] == 'a') && (t[1] == 'S' || t[1] == 's') && digit_run(
        t.skip(2),
    ) > 0 {
        Some(seq!['A', 'S'] + t.skip(2).take(digit_run(t.skip(2)) as int))
    } else {
        None
    }
}

proof fn lemma_digit_run(s: Seq<char>)
    ensures
        digit_run(s) <= s.len(),
    decreases s.len(),
{
    if s.len() > 0 && text::is_digit(s[0]) {
        lemma_digit_run(s.skip(1));
    }
}

/// Extracts and normalizes the leading `AS<digits>` token from strings like
/// `"AS15169 Google LLC"` or `"as15169"`. Returns `None` for anything else
/// (empty, missing prefix, non-numeric) so an unrecognized format falls
/// through to "can't compare" rather than risking a false match.
pub fn as_number(raw: &str) -> (r: Option<String>)
    ensures
        text::opt_text(r) == asn_of(raw@),
{
    let chars = chars_of(raw);
    let t = trim(chars.as_slice());
    if t.len() < 2 || !(t[0] == 'A' || t[0] == 'a') || !(t[1] == 'S' || t[1] == 's') {
        return None;
    }
    let rest = slice_subrange(t, 2, t.len());
    assert(rest@ == t@.skip(2));
    let mut n: usize = 0;
    assert(rest@.skip(0) == rest@);
    while n < rest.len() && '0' <= rest[n] && rest[n] <= '9'
        invariant
            n <= rest@.len(),
            n + digit_run(rest@.skip(n as int)) == digit_run(rest@),
        decreases rest@.len() - n,
    {
        assert(rest@.skip(n as int).skip(1) == rest@.skip(n + 1));
        n = n + 1;
    }
    if n == 0 {
        return None;
    }
    let digits = slice_subrange(rest, 0, n);
    assert(digits@ == rest@.take(n as int));
    let mut out = String::new();
    out.push('A');
    out.push('S');
    let r = out.concat(string_of(digits).as_str());
    assert(r@ =~= seq!['A', 'S'] + digits@);
    Some(r)
}

/// The AS number that a resolver reports, if it reports one that can be read.
pub open spec fn resolver_asn(resolver: Resolver) -> Option<Seq<char>> {
    match resolver.asn {
        Some(asn) => asn_of(asn@),
        None => None,
    }
}

/// The AS number to compare against.
pub open spec fn exit_asn(expected: Option<Seq<char>>) -> Option<Seq<char>> {
    match expected {
        Some(asn) => asn_of(asn),
        None => None,
    }
}

/// Whether a resolver is known to sit in another network than the exit's.
pub open spec fn is_foreign(exit: Seq<char>, resolver: Resolver) -> bool {
    resolver_asn(resolver) is Some && resolver_asn(resolver) != Some(exit)
}

/// The addresses of the resolvers that are known to sit in another network
/// than the exit's, in order.
pub open spec fn foreign_ips(exit: Seq<char>, resolvers: Seq<Resolver>) -> Seq<IpAddr>
    decreases resolvers.len(),
{
    if resolvers.len() == 0 {
        seq![]
    } else {
        let before = foreign_ips(exit, resolvers.drop_last());
        if is_foreign(exit, resolvers.last()) {
            before.push(resolvers.last().ip)
        } else {
            before
        }
    }
}

/// Whether some resolver shares the exit's network.
pub open spec fn any_match(exit: Seq<char>, resolvers: Seq<Resolver>) -> bool {
    exists|i: int| 0 <= i < resolvers.len() && resolver_asn(#[trigger] resolvers[i]) == Some(exit)
}

/// Whether `verdict` is the outcome of comparing `resolvers` against
/// `expected`.
pub open spec fn is_verdict(
    verdict: Verdict,
    expected: Option<Seq<char>>,
    resolvers: Seq<Resolver>,
) -> bool {
    if resolvers.len() == 0 {
        verdict is NoResolvers
    } else {
        match exit_asn(expected) {
            None => verdict matches Verdict::Inconclusive { reason } && reason@
                == "no known ASN for the current external IP to compare against"@,
            Some(exit) => if foreign_ips(exit, resolvers).len() > 0 {
                verdict matches Verdict::Leaking { foreign } && foreign@ == foreign_ips(
                    exit,
                    resolvers,
                )
            } else if any_match(exit, resolvers) {
                verdict is Consistent
            } else {
                verdict matches Verdict::Inconclusive { reason } && reason@
                    == "no resolver reported a parseable ASN"@
            },
        }
    }
}

/// Compares `resolvers` against `expected_asn` (typically the current external
/// IP's ASN, e.g. `"AS15169 Google LLC"`) and returns a verdict.
pub fn evaluate(expected_asn: Option<&str>, resolvers: &[Resolver]) -> (r: Verdict)
    ensures
        is_verdict(r, text::opt_str(expected_asn), resolvers@),
        r is NoResolvers <==> resolvers@.len() == 0,
        resolvers@.len() > 0 && (expected_asn is None || asn_of(expected_asn->0@) is None) ==> (
        r matches Verdict::Inconclusive { reason } && reason@
            == "no known ASN for the current external IP to compare against"@),
        r matches Verdict::Inconclusive { reason } ==> expected_asn matches Some(e) ==> asn_of(
            e@,
        ) is Some ==> reason@ == "no resolver reported a parseable ASN"@,
{
    if resolvers.len() == 0 {
        return Verdict::NoResolvers;
    }
    let known = match expected_asn {
        Some(raw) => as_number(raw),
        None => None,
    };
    let expected = match known {
        Some(expected) => expected,
        None => {
            return Verdict::Inconclusive {
                reason: "no known ASN for the current external IP to compare against".to_string(),
            };
        },
    };
    let ghost exit = expected@;
    let mut foreign: Vec<IpAddr> = Vec::new();
    let mut matched_any = false;
    assert(resolvers@.take(0) =~= seq![]);
    for i in 0..resolvers.len()
        invariant
            exit == expected@,
            foreign@ == foreign_ips(exit, resolvers@.take(i as int)),
            matched_any == exists|j: int|
                0 <= j < i && resolver_asn(#[trigger] resolvers@[j]) == Some(exit),
    {
        assert(resolvers@.take(i + 1).drop_last() == resolvers@.take(i as int));
        let asn = match &resolvers[i].asn {
            Some(raw) => as_number(raw.as_str()),
            None => None,
        };
        assert(text::opt_text(asn) == resolver_asn(resolvers@[i as int]));
        if let Some(asn) = asn {
            if same_text(asn.as_str(), expected.as_str()) {
                assert(resolver_asn(resolvers@[i as int]) == Some(exit));
                matched_any = true;
            } else {
                foreign.push(resolvers[i].ip);
            }
        }
    }
    assert(resolvers@.take(resolvers@.len() as int) == resolvers@);
    if foreign.len() > 0 {
        return Verdict::Leaking { foreign };
    }
    if matched_any {
        Verdict::Consistent
    } else {
        Verdict::Inconclusive { reason: "no resolver reported a parseable ASN".to_string() }
    }
}

proof fn lemma_foreign(exit: Seq<char>, resolvers: Seq<Resolver>)
    ensures
        foreign_ips(exit, resolvers).len() == 0 <==> forall|i: int|
            0 <= i < resolvers.len() ==> !is_foreign(exit, #[trigger] resolvers[i]),
        forall|i: int|
            0 <= i < resolvers.len() && is_foreign(exit, #[trigger] resolvers[i]) ==> foreign_ips(
                exit,
                resolvers,
            ).contains(resolvers[i].ip),
    decreases resolvers.len(),
{
    if resolvers.len() > 0 {
        let front = resolvers.drop_last();
        let before = foreign_ips(exit, front);
        let all = foreign_ips(exit, resolvers);
        lemma_foreign(exit, front);
        assert forall|i: int|
            0 <= i < resolvers.len() && is_foreign(
                exit,
                #[trigger] resolvers[i],
            ) implies all.contains(resolvers[i].ip) by {
            if i < front.len() {
                assert(front[i] == resolvers[i]);
                let k = choose|k: int| 0 <= k < before.len() && before[k] == resolvers[i].ip;
                assert(all[k] == before[k]);
            } else {
                assert(all[all.len() - 1] == resolvers[i].ip);
            }
        }
        if all.len() == 0 {
            assert forall|i: int| 0 <= i < resolvers.len() implies !is_foreign(
                exit,
                #[trigger] resolvers[i],
            ) by {
                if i < front.len() {
                    assert(front[i] == resolvers[i]);
                }
            }
        } else if is_foreign(exit, resolvers.last()) {
            assert(is_foreign(exit, resolvers[resolvers.len() - 1]));
        } else {
            let i = choose|i: int| 0 <= i < front.len() && is_foreign(exit, #[trigger] front[i]);
            assert(is_foreign(exit, resolvers[i]));
        }
    }
}

/// A reassuring verdict needs unambiguous evidence: `Consistent` is reported
/// exactly if the exit's AS number is known, some resolver shares it, and no
/// resolver reports another one.
pub proof fn lemma_consistent_needs_evidence(
    verdict: Verdict,
    expected: Option<Seq<char>>,
    resolvers: Seq<Resolver>,
)
    requires
        is_verdict(verdict, expected, resolvers),
    ensures
        verdict is Consistent <==> exit_asn(expected) is Some && any_match(
            exit_asn(expected)->0,
            resolvers,
        ) && forall|i: int|
            0 <= i < resolvers.len() ==> !is_foreign(
                exit_asn(expected)->0,
                #[trigger] resolvers[i],
            ),
{
    if exit_asn(expected) is Some {
        lemma_foreign(exit_asn(expected)->0, resolvers);
    }
}

/// One leaking resolver is a leak, however many others match: once the exit's
/// AS number is known, a single resolver that reports another one makes the
/// verdict `Leaking`, and its address is listed.
pub proof fn lemma_one_foreign_resolver_is_a_leak(
    verdict: Verdict,
    expected: Option<Seq<char>>,
    resolvers: Seq<Resolver>,
    i: int,
)
    requires
        is_verdict(verdict, expected, resolvers),
        exit_asn(expected) is Some,
        0 <= i < resolvers.len(),
        is_foreign(exit_asn(expected)->0, resolvers[i]),
    ensures
        verdict matches Verdict::Leaking { foreign } && foreign@.contains(resolvers[i].ip),
{
    lemma_foreign(exit_asn(expected)->0, resolvers);
}

/// A resolver without a readable AS number neither confirms nor denies: it
/// changes nothing about the verdict on the others.
pub proof fn lemma_unreadable_resolver_is_skipped(
    verdict: Verdict,
    expected: Option<Seq<char>>,
    resolvers: Seq<Resolver>,
    extra: Resolver,
)
    requires
        resolvers.len() > 0,
        resolver_asn(extra) is None,
    ensures
        is_verdict(verdict, expected, resolvers) == is_verdict(
            verdict,
            expected,
            resolvers.push(extra),
        ),
{
    let more = resolvers.push(extra);
    assert(more.drop_last() =~= resolvers);
    if exit_asn(expected) is Some {
        let exit = exit_asn(expected)->0;
        assert(foreign_ips(exit, more) == foreign_ips(exit, resolvers));
        if any_match(exit, resolvers) {
            let i = choose|i: int|
                0 <= i < resolvers.len() && resolver_asn(#[trigger] resolvers[i]) == Some(exit);
            assert(resolver_asn(more[i]) == Some(exit));
        }
        if any_match(exit, more) {
            let i = choose|i: int|
                0 <= i < more.len() && resolver_asn(#[trigger] more[i]) == Some(exit);
            assert(i < resolvers.len());
            assert(resolver_asn(resolvers[i]) == Some(exit));
        }
    }
}

/// A leak is never cleared by a further resolver, wherever in the list it
/// comes: the verdict stays `Leaking`, and every address that was listed is
/// still listed.
pub proof fn lemma_added_resolver_never_clears_a_leak(
    before: Verdict,
    after: Verdict,
    expected: Option<Seq<char>>,
    resolvers: Seq<Resolver>,
    at: int,
    extra: Resolver,
)
    requires
        0 <= at <= resolvers.len(),
        is_verdict(before, expected, resolvers),
        is_verdict(after, expected, resolvers.insert(at, extra)),
        before is Leaking,
    ensures
        after is Leaking,
        forall|ip: IpAddr|
            before->foreign@.contains(ip) ==> #[trigger] after->foreign@.contains(ip),
{
    let exit = exit_asn(expected)->0;
    let more = resolvers.insert(at, extra);
    lemma_foreign(exit, more);
    assert forall|ip: IpAddr| foreign_ips(exit, resolvers).contains(ip) implies #[trigger] foreign_ips(
        exit,
        more,
    ).contains(ip) by {
        let i = lemma_foreign_origin(exit, resolvers, ip);
        if i < at {
            assert(more[i] == resolvers[i]);
        } else {
            assert(more[i + 1] == resolvers[i]);
        }
    }
    let first = foreign_ips(exit, resolvers)[0];
    assert(foreign_ips(exit, resolvers).contains(first));
    assert(foreign_ips(exit, more).contains(first));
}

proof fn lemma_foreign_origin(exit: Seq<char>, resolvers: Seq<Resolver>, ip: IpAddr) -> (i: int)
    requires
        foreign_ips(exit, resolvers).contains(ip),
    ensures
        0 <= i < resolvers.len(),
        is_foreign(exit, resolvers[i]),
        resolvers[i].ip == ip,
    decreases resolvers.len(),
{
    let front = resolvers.drop_last();
    let all = foreign_ips(exit, resolvers);
    let before = foreign_ips(exit, front);
    let k = choose|k: int| 0 <= k < all.len() && all[k] == ip;
    if k < before.len() {
        assert(before[k] == ip);
        lemma_foreign_origin(exit, front, ip)
    } else {
        resolvers.len() - 1
    }
}

/// Without resolvers there is nothing to judge, whatever was expected.
pub proof fn lemma_no_resolvers(
    verdict: Verdict,
    expected: Option<Seq<char>>,
    resolvers: Seq<Resolver>,
)
    requires
        is_verdict(verdict, expected, resolvers),
    ensures
        verdict is NoResolvers <==> resolvers.len() == 0,
{
}

proof fn lemma_digit_run_is(digits: Seq<char>, rest: Seq<char>)
    requires
        forall|i: int| 0 <= i < digits.len() ==> '0' <= #[trigger] digits[i] <= '9',
        rest.len() == 0 || !('0' <= rest[0] <= '9'),
    ensures
        digit_run(digits + rest) == digits.len(),
    decreases digits.len(),
{
    let s = digits + rest;
    if digits.len() == 0 {
        assert(s =~= rest);
    } else {
        let tail = digits.skip(1);
        assert(s[0] == digits[0]);
        assert(s.skip(1) =~= tail + rest);
        assert forall|i: int| 0 <= i < tail.len() implies '0' <= #[trigger] tail[i] <= '9' by {
            assert(tail[i] == digits[i + 1]);
        }
        lemma_digit_run_is(tail, rest);
    }
}

/// An AS number is read whatever the case of its letters, whatever white space
/// stands around it, and whatever follows its digits; all of the digits count.
pub proof fn lemma_as_number_is_read(
    before: Seq<char>,
    a: char,
    s: char,
    digits: Seq<char>,
    rest: Seq<char>,
    after: Seq<char>,
)
    requires
        text::blank(before),
        text::blank(after),
        a == 'A' || a == 'a',
        s == 'S' || s == 's',
        digits.len() > 0,
        forall|i: int| 0 <= i < digits.len() ==> '0' <= #[trigger] digits[i] <= '9',
        rest.len() > 0 ==> !('0' <= rest[0] <= '9') && !text::white_space(rest.last()),
    ensures
        asn_of(before + (seq![a, s] + digits + rest) + after) == Some(seq!['A', 'S'] + digits),
{
    let kept = seq![a, s] + digits + rest;
    assert(kept[0] == a);
    if rest.len() > 0 {
        assert(kept.last() == rest.last());
    } else {
        assert(kept.last() == digits[digits.len() - 1]);
    }
    text::lemma_trimmed(before, kept, after);
    assert(kept.skip(2) =~= digits + rest);
    lemma_digit_run_is(digits, rest);
    assert((digits + rest).take(digits.len() as int) =~= digits);
}

/// What is read is always the letters `AS` and digits, and a text without
/// those letters in front, or without a digit behind them, holds none.
pub proof fn lemma_as_number_shape(raw: Seq<char>)
    ensures
        asn_of(raw) matches Some(asn) ==> {
            &&& asn.len() > 2 && asn[0] == 'A' && asn[1] == 'S'
            &&& forall|i: int| 2 <= i < asn.len() ==> '0' <= #[trigger] asn[i] <= '9'
        },
        asn_of(raw) is Some <==> {
            let t = text::trimmed(raw);
            t.len() > 2 && (t[0] == 'A' || t[0] == 'a') && (t[1] == 'S' || t[1] == 's') && '0'
                <= t[2] <= '9'
        },
{
    let t = text::trimmed(raw);
    if t.len() >= 2 {
        let d = t.skip(2);
        lemma_digit_run(d);
        lemma_digit_run_digits(d);
        if d.len() > 0 {
            assert(d[0] == t[2]);
        }
        if asn_of(raw) is Some {
            let asn = asn_of(raw)->0;
            assert forall|i: int| 2 <= i < asn.len() implies '0' <= #[trigger] asn[i] <= '9' by {
                assert(asn[i] == d[i - 2]);
            }
        }
    }
}

proof fn lemma_digit_run_digits(s: Seq<char>)
    ensures
        forall|i: int| 0 <= i < digit_run(s) && i < s.len() ==> '0' <= #[trigger] s[i] <= '9',
    decreases s.len(),
{
    if s.len() > 0 && text::is_digit(s[0]) {
        let t = s.skip(1);
        lemma_digit_run_digits(t);
        assert forall|i: int| 0 <= i < digit_run(s) && i < s.len() implies '0' <= #[trigger] s[i]
            <= '9' by {
            if i > 0 {
                assert(s[i] == t[i - 1]);
            }
        }
    }
}

/// The verdict by the AS numbers themselves. Once the exit's number can be
/// read, it is `Leaking` exactly if some resolver reports a readable number
/// that is another one, and an address is listed exactly if it belongs to such
/// a resolver; otherwise it is `Consistent` exactly if some resolver reports
/// that very number. Where the exit's number cannot be read, it is
/// `Inconclusive`.
pub proof fn lemma_verdict_by_as_numbers(
    verdict: Verdict,
    expected: Option<Seq<char>>,
    resolvers: Seq<Resolver>,
)
    requires
        is_verdict(verdict, expected, resolvers),
        resolvers.len() > 0,
    ensures
        expected is None || asn_of(expected->0) is None ==> verdict is Inconclusive,
        expected is Some && asn_of(expected->0) is Some ==> {
            let exit = asn_of(expected->0)->0;
            let leaking = exists|i: int|
                0 <= i < resolvers.len() && (#[trigger] resolvers[i]).asn is Some && asn_of(
                    resolvers[i].asn->0@,
                ) is Some && asn_of(resolvers[i].asn->0@)->0 != exit;
            let matching = exists|i: int|
                0 <= i < resolvers.len() && (#[trigger] resolvers[i]).asn is Some && asn_of(
                    resolvers[i].asn->0@,
                ) == Some(exit);
            &&& verdict is Leaking <==> leaking
            &&& verdict is Consistent <==> !leaking && matching
            &&& verdict is Inconclusive <==> !leaking && !matching
            &&& verdict matches Verdict::Leaking { foreign } ==> forall|ip: IpAddr| #[trigger]
                foreign@.contains(ip) <==> exists|i: int|
                    0 <= i < resolvers.len() && (#[trigger] resolvers[i]).ip == ip
                        && resolvers[i].asn is Some && asn_of(resolvers[i].asn->0@) is Some
                        && asn_of(resolvers[i].asn->0@)->0 != exit
        },
{
    if exit_asn(expected) is Some {
        let exit = exit_asn(expected)->0;
        lemma_foreign(exit, resolvers);
        let all = foreign_ips(exit, resolvers);
        assert forall|ip: IpAddr| #[trigger] all.contains(ip) <==> exists|i: int|
            0 <= i < resolvers.len() && (#[trigger] resolvers[i]).ip == ip && is_foreign(
                exit,
                resolvers[i],
            ) by {
            if all.contains(ip) {
                let i = lemma_foreign_origin(exit, resolvers, ip);
                assert(resolvers[i].ip == ip);
            }
        }
        if all.len() > 0 {
            let i = choose|i: int|
                0 <= i < resolvers.len() && is_foreign(exit, #[trigger] resolvers[i]);
            assert(is_foreign(exit, resolvers[i]));
        }
    }
}

/// The listed addresses are those of the foreign resolvers, one for each and
/// in their order.
pub proof fn lemma_foreign_of_two_lists(
    exit: Seq<char>,
    first: Seq<Resolver>,
    second: Seq<Resolver>,
)
    ensures
        foreign_ips(exit, first + second) == foreign_ips(exit, first) + foreign_ips(exit, second),
    decreases second.len(),
{
    let both = first + second;
    if second.len() == 0 {
        assert(both =~= first);
        assert(foreign_ips(exit, first) =~= foreign_ips(exit, first) + foreign_ips(exit, second));
    } else {
        assert(both.drop_last() =~= first + second.drop_last());
        lemma_foreign_of_two_lists(exit, first, second.drop_last());
        assert(foreign_ips(exit, both) =~= foreign_ips(exit, first) + foreign_ips(exit, second));
    }
}

/// A single resolver is listed exactly if it reports a readable number that is
/// not the exit's.
pub proof fn lemma_foreign_of_one(exit: Seq<char>, resolver: Resolver)
    ensures
        foreign_ips(exit, seq![resolver]) == (if resolver.asn is Some && asn_of(
            resolver.asn->0@,
        ) is Some && asn_of(resolver.asn->0@)->0 != exit {
            seq![resolver.ip]
        } else {
            seq![]
        }),
{
    assert(seq![resolver].drop_last() =~= seq![]);
    assert(foreign_ips(exit, seq![]) =~= seq![]);
    assert(seq![resolver].last() == resolver);
    reveal_with_fuel(foreign_ips, 2);
    assert(Seq::<IpAddr>::empty().push(resolver.ip) =~= seq![resolver.ip]);
}

} // verus!
