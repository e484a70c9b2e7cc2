//! Internet addresses and their textual forms.
//!
//! Reading accepts dotted decimal IPv4 without leading zeros, and IPv6 with
//! up to four hexadecimal digits a group, at most one `::`, and an optional
//! dotted tail. Writing produces the canonical text: lower-case groups
//! without leading zeros, the first longest run of at least two zero groups
//! written as `::`, and IPv4-mapped addresses with a dotted tail.
use vstd::prelude::*;
use vstd::slice::slice_subrange;

use crate::text;
use crate::text::{chars_of, parse_digits, push_decimal, split_chars};

verus! {

/// An IPv4 address, its four octets in network order.
#[derive(Clone, Copy, Debug, PartialEq, Eq, Hash, Structural)]
pub struct Ipv4Addr {
    pub a: u8,
    pub b: u8,
    pub c: u8,
    pub d: u8,
}

/// An IPv6 address, its eight 16-bit groups in network order.
#[derive(Clone, Copy, Debug, PartialEq, Eq, Hash, Structural)]
pub struct Ipv6Addr {
    pub s0: u16,
    pub s1: u16,
    pub s2: u16,
    pub s3: u16,
    pub s4: u16,
    pub s5: u16,
    pub s6: u16,
    pub s7: u16,
}

/// An address of either family.
#[derive(Clone, Copy, Debug, PartialEq, Eq, Hash, Structural)]
pub enum IpAddr {
    V4(Ipv4Addr),
    V6(Ipv6Addr),
}

// ---------------------------------------------------------------------------
// Hexadecimal numerals
// ---------------------------------------------------------------------------

pub open spec fn is_hex(c: char) -> bool {
    '0' <= c <= '9' || 'a' <= c <= 'f' || 'A' <= c <= 'F'
}

pub open spec fn hex_value(c: char) -> nat {
    if '0' <= c <= '9' {
        (c as int - '0' as int) as nat
    } else if 'a' <= c <= 'f' {
        (c as int - 'a' as int + 10) as nat
    } else {
        (c as int - 'A' as int + 10) as nat
    }
}

pub open spec fn hex_char(d: nat) -> char {
    if d < 10 {
        ('0' as int + d) as char
    } else {
        ('a' as int + d - 10) as char
    }
}

pub open spec fn all_hex(s: Seq<char>) -> bool {
    forall|i: int| 0 <= i < s.len() ==> is_hex(#[trigger] s[i])
}

/// The lower-case hexadecimal numeral of `n`, without leading zeros.
pub open spec fn hex_text(n: nat) -> Seq<char>
    decreases n,
{
    if n < 16 {
        seq![hex_char(n)]
    } else {
        hex_text(n / 16).push(hex_char(n % 16))
    }
}

/// The number that a run of hexadecimal digits denotes.
pub open spec fn hex_number(s: Seq<char>) -> nat
    decreases s.len(),
{
    if s.len() == 0 {
        0
    } else {
        hex_number(s.drop_last()) * 16 + hex_value(s.last())
    }
}

proof fn lemma_hex_text(n: nat)
    ensures
        hex_text(n).len() > 0,
        n < 0x100 ==> hex_text(n).len() <= 2,
        n < 0x1000 ==> hex_text(n).len() <= 3,
        n < 0x10000 ==> hex_text(n).len() <= 4,
        n < 16 ==> hex_text(n).len() == 1,
        all_hex(hex_text(n)),
        hex_number(hex_text(n)) == n,
    decreases n,
{
    if n < 16 {
        assert(hex_text(n).drop_last() =~= seq![]);
        assert(hex_number(seq![]) == 0);
    } else {
        lemma_hex_text(n / 16);
        let t = hex_text(n / 16);
        assert(hex_text(n).drop_last() == t);
        assert forall|i: int| 0 <= i < hex_text(n).len() implies is_hex(
            #[trigger] hex_text(n)[i],
        ) by {
            if i < t.len() {
                assert(hex_text(n)[i] == t[i]);
            }
        }
    }
}

proof fn lemma_hex_number_bound(s: Seq<char>)
    requires
        all_hex(s),
    ensures
        s.len() <= 1 ==> hex_number(s) < 0x10,
        s.len() <= 2 ==> hex_number(s) < 0x100,
        s.len() <= 3 ==> hex_number(s) < 0x1000,
        s.len() <= 4 ==> hex_number(s) < 0x10000,
        s.len() == 0 ==> hex_number(s) == 0,
    decreases s.len(),
{
    if s.len() > 0 {
        let t = s.drop_last();
        assert forall|i: int| 0 <= i < t.len() implies is_hex(#[trigger] t[i]) by {
            assert(t[i] == s[i]);
        }
        lemma_hex_number_bound(t);
        assert(is_hex(s[s.len() - 1]));
    }
}

// ---------------------------------------------------------------------------
// What a text denotes
// ---------------------------------------------------------------------------

/// The octet that `p` denotes: decimal, at most 255, no leading zero.
pub open spec fn octet(p: Seq<char>) -> Option<u8> {
    if p.len() > 0 && text::all_digits(p) && (p[0] == '0' ==> p.len() == 1)
        && text::number(p) <= 255 {
        Some(text::number(p) as u8)
    } else {
        None
    }
}

/// The IPv4 address that `s` denotes: four octets separated by dots.
pub open spec fn v4_of(s: Seq<char>) -> Option<Ipv4Addr> {
    let p = text::split(s, '.');
    if p.len() == 4 && octet(p[0]) is Some && octet(p[1]) is Some && octet(p[2]) is Some && octet(
        p[3],
    ) is Some {
        Some(Ipv4Addr { a: octet(p[0])->0, b: octet(p[1])->0, c: octet(p[2])->0, d: octet(p[3])->0 })
    } else {
        None
    }
}

/// The group that `p` denotes: one to four hexadecimal digits.
pub open spec fn group(p: Seq<char>) -> Option<u16> {
    if 1 <= p.len() <= 4 && all_hex(p) {
        Some(hex_number(p) as u16)
    } else {
        None
    }
}

/// The groups that the pieces denote, one each.
pub open spec fn plain_groups(p: Seq<Seq<char>>) -> Option<Seq<u16>> {
    if forall|i: int| 0 <= i < p.len() ==> group(#[trigger] p[i]) is Some {
        Some(Seq::new(p.len(), |i: int| group(p[i])->0))
    } else {
        None
    }
}

/// The two groups that an embedded IPv4 address stands for.
pub open spec fn dotted_groups(a: Ipv4Addr) -> Seq<u16> {
    seq![(a.a * 256 + a.b) as u16, (a.c * 256 + a.d) as u16]
}

/// The groups that the pieces denote, where `dotted` allows the last piece to
/// be an embedded IPv4 address.
pub open spec fn groups(p: Seq<Seq<char>>, dotted: bool) -> Option<Seq<u16>> {
    if dotted && p.len() > 0 && v4_of(p.last()) is Some {
        match plain_groups(p.drop_last()) {
            Some(front) => Some(front + dotted_groups(v4_of(p.last())->0)),
            None => None,
        }
    } else {
        plain_groups(p)
    }
}

/// The groups of one side of an address: none for the empty text, otherwise
/// those of its pieces between colons.
pub open spec fn side(s: Seq<char>, dotted: bool) -> Option<Seq<u16>> {
    if s.len() == 0 {
        Some(seq![])
    } else {
        groups(text::split(s, ':'), dotted)
    }
}

/// Whether a `::` begins at position `i`.
pub open spec fn gap_at(s: Seq<char>, i: int) -> bool {
    0 <= i && i + 1 < s.len() && s[i] == ':' && s[i + 1] == ':'
}

/// The position of the first `::`, or the length where there is none.
pub open spec fn find_gap(s: Seq<char>) -> nat
    decreases s.len(),
{
    if s.len() < 2 {
        s.len()
    } else if gap_at(s, 0) {
        0
    } else {
        1 + find_gap(s.skip(1))
    }
}

/// The address whose groups are `g`.
pub open spec fn from_groups(g: Seq<u16>) -> Ipv6Addr {
    Ipv6Addr {
        s0: g[0],
        s1: g[1],
        s2: g[2],
        s3: g[3],
        s4: g[4],
        s5: g[5],
        s6: g[6],
        s7: g[7],
    }
}

pub open spec fn zeros(n: int) -> Seq<u16> {
    Seq::new(n as nat, |i: int| 0u16)
}

/// The eight groups that `s` denotes: all of them, or at most seven around
/// one `::` that stands for the missing zeros.
pub open spec fn v6_groups(s: Seq<char>) -> Option<Seq<u16>> {
    let i = find_gap(s);
    if i >= s.len() {
        match side(s, true) {
            Some(g) => if g.len() == 8 {
                Some(g)
            } else {
                None
            },
            None => None,
        }
    } else {
        match (side(s.take(i as int), false), side(s.skip(i as int + 2), true)) {
            (Some(h), Some(t)) => if h.len() + t.len() <= 7 {
                Some(h + zeros(8 - h.len() - t.len()) + t)
            } else {
                None
            },
            _ => None,
        }
    }
}

/// The address that a text denotes, if it denotes one.
pub open spec fn address(s: Seq<char>) -> Option<IpAddr> {
    match v4_of(s) {
        Some(a) => Some(IpAddr::V4(a)),
        None => match v6_groups(s) {
            Some(g) => Some(IpAddr::V6(from_groups(g))),
            None => None,
        },
    }
}

// ---------------------------------------------------------------------------
// The canonical text
// ---------------------------------------------------------------------------

impl Ipv6Addr {
    pub open spec fn groups(self) -> Seq<u16> {
        seq![self.s0, self.s1, self.s2, self.s3, self.s4, self.s5, self.s6, self.s7]
    }

    /// Whether this is an IPv4-mapped address, `::ffff:a.b.c.d`.
    pub open spec fn mapped(self) -> bool {
        self.s0 == 0 && self.s1 == 0 && self.s2 == 0 && self.s3 == 0 && self.s4 == 0 && self.s5
            == 0xffff
    }

    pub open spec fn embedded(self) -> Ipv4Addr {
        Ipv4Addr {
            a: (self.s6 / 256) as u8,
            b: (self.s6 % 256) as u8,
            c: (self.s7 / 256) as u8,
            d: (self.s7 % 256) as u8,
        }
    }
}

pub open spec fn v4_pieces(a: Ipv4Addr) -> Seq<Seq<char>> {
    seq![
        text::decimal(a.a as nat),
        text::decimal(a.b as nat),
        text::decimal(a.c as nat),
        text::decimal(a.d as nat),
    ]
}

pub open spec fn v4_text(a: Ipv4Addr) -> Seq<char> {
    text::join(v4_pieces(a), seq!['.'])
}

/// How many zero groups follow one another from position `i`.
pub open spec fn zero_run(g: Seq<u16>, i: int) -> nat
    decreases g.len() - i,
{
    if 0 <= i < g.len() && g[i] == 0 {
        1 + zero_run(g, i + 1)
    } else {
        0
    }
}

/// The first position among the first `n` from which the zero run is longest.
pub open spec fn longest_run(g: Seq<u16>, n: nat) -> int
    decreases n,
{
    if n <= 1 {
        0
    } else {
        let best = longest_run(g, (n - 1) as nat);
        if zero_run(g, n - 1) > zero_run(g, best) {
            n - 1
        } else {
            best
        }
    }
}

pub open spec fn hex_pieces(g: Seq<u16>) -> Seq<Seq<char>> {
    Seq::new(g.len(), |i: int| hex_text(g[i] as nat))
}

/// The groups in hexadecimal, separated by colons.
pub open spec fn colon_text(g: Seq<u16>) -> Seq<char> {
    text::join(hex_pieces(g), seq![':'])
}

pub open spec fn v6_text(addr: Ipv6Addr) -> Seq<char> {
    let g = addr.groups();
    if addr.mapped() {
        "::ffff:"@ + v4_text(addr.embedded())
    } else {
        let start = longest_run(g, 8);
        let run = zero_run(g, start);
        if run > 1 {
            colon_text(g.take(start)) + seq![':', ':'] + colon_text(g.skip(start + run))
        } else {
            colon_text(g)
        }
    }
}

/// The canonical text of an address.
pub open spec fn address_text(addr: IpAddr) -> Seq<char> {
    match addr {
        IpAddr::V4(a) => v4_text(a),
        IpAddr::V6(a) => v6_text(a),
    }
}

// ---------------------------------------------------------------------------
// Reading
// ---------------------------------------------------------------------------

fn read_octet(p: &[char]) -> (r: Option<u8>)
    ensures
        r == octet(p@),
{
    if p.len() == 0 || (p[0] == '0' && p.len() != 1) {
        return None;
    }
    match parse_digits(p, 255) {
        Some(n) => Some(n as u8),
        None => None,
    }
}

fn read_v4(s: &[char]) -> (r: Option<Ipv4Addr>)
    ensures
        r == v4_of(s@),
{
    let p = split_chars(s, '.');
    proof {
        let q = text::split(s@, '.');
        assert(q.len() == p@.len());
        assert forall|i: int| 0 <= i < p@.len() implies #[trigger] q[i] == p@[i]@ by {
            assert(text::runs(p@)[i] == p@[i]@);
        }
    }
    if p.len() != 4 {
        return None;
    }
    match (read_octet(p[0]), read_octet(p[1]), read_octet(p[2]), read_octet(p[3])) {
        (Some(a), Some(b), Some(c), Some(d)) => Some(Ipv4Addr { a, b, c, d }),
        _ => None,
    }
}

fn read_group(p: &[char]) -> (r: Option<u16>)
    ensures
        r == group(p@),
{
    if p.len() == 0 || p.len() > 4 {
        return None;
    }
    let mut value: u32 = 0;
    for i in 0..p.len()
        invariant
            1 <= p@.len() <= 4,
            value == hex_number(p@.take(i as int)),
            forall|j: int| 0 <= j < i ==> is_hex(#[trigger] p@[j]),
    {
        let c = p[i];
        let d: u32 = if '0' <= c && c <= '9' {
            c as u32 - 48
        } else if 'a' <= c && c <= 'f' {
            c as u32 - 97 + 10
        } else if 'A' <= c && c <= 'F' {
            c as u32 - 65 + 10
        } else {
            assert(!is_hex(p@[i as int]));
            return None;
        };
        proof {
            let front = p@.take(i as int);
            assert forall|j: int| 0 <= j < front.len() implies is_hex(#[trigger] front[j]) by {
                assert(front[j] == p@[j]);
            }
            lemma_hex_number_bound(front);
            assert(p@.take(i + 1).drop_last() == front);
        }
        value = value * 16 + d;
    }
    proof {
        assert(p@.take(p@.len() as int) == p@);
        assert(all_hex(p@));
        lemma_hex_number_bound(p@);
    }
    Some(value as u16)
}

/// Reads the first `n` pieces as one group each.
fn read_plain(p: &Vec<&[char]>, n: usize) -> (r: Option<Vec<u16>>)
    requires
        n <= p@.len(),
    ensures
        (match r {
            Some(v) => Some(v@),
            None => None,
        }) == plain_groups(text::runs(p@).take(n as int)),
{
    let ghost pieces = text::runs(p@).take(n as int);
    let mut out: Vec<u16> = Vec::new();
    for i in 0..n
        invariant
            n <= p@.len(),
            pieces == text::runs(p@).take(n as int),
            out@.len() == i,
            forall|j: int| 0 <= j < i ==> group(#[trigger] pieces[j]) == Some(out@[j]),
    {
        assert(pieces[i as int] == p@[i as int]@);
        match read_group(p[i]) {
            Some(g) => {
                out.push(g);
            },
            None => {
                assert(group(pieces[i as int]) is None);
                return None;
            },
        }
    }
    assert(plain_groups(pieces) == Some(out@)) by {
        assert(Seq::new(pieces.len(), |i: int| group(pieces[i])->0) =~= out@);
    }
    Some(out)
}

fn read_side(s: &[char], dotted: bool) -> (r: Option<Vec<u16>>)
    ensures
        (match r {
            Some(v) => Some(v@),
            None => None,
        }) == side(s@, dotted),
{
    if s.len() == 0 {
        return Some(Vec::new());
    }
    let p = split_chars(s, ':');
    let ghost pieces = text::split(s@, ':');
    let last: usize = p.len() - 1;
    assert(pieces.last() == p@[last as int]@);
    if dotted {
        if let Some(a) = read_v4(p[last]) {
            assert(text::runs(p@).take(last as int) == pieces.drop_last());
            return match read_plain(&p, last) {
                Some(mut front) => {
                    let ghost before = front@;
                    front.push((a.a as u16) * 256 + a.b as u16);
                    front.push((a.c as u16) * 256 + a.d as u16);
                    assert(front@ == before + dotted_groups(a));
                    Some(front)
                },
                None => None,
            };
        }
    }
    assert(text::runs(p@).take(p@.len() as int) == pieces);
    read_plain(&p, p.len())
}

proof fn lemma_find_gap(s: Seq<char>)
    ensures
        find_gap(s) <= s.len(),
        find_gap(s) < s.len() ==> gap_at(s, find_gap(s) as int),
        forall|i: int| 0 <= i < find_gap(s) ==> !gap_at(s, i),
    decreases s.len(),
{
    if s.len() >= 2 && !gap_at(s, 0) {
        let t = s.skip(1);
        lemma_find_gap(t);
        assert forall|i: int| 0 <= i < find_gap(s) implies !gap_at(s, i) by {
            if i > 0 {
                assert(!gap_at(t, i - 1));
            }
        }
    }
}

proof fn lemma_find_gap_is(s: Seq<char>, n: nat)
    requires
        n <= s.len(),
        n < s.len() ==> gap_at(s, n as int),
        forall|i: int| 0 <= i < n ==> !gap_at(s, i),
    ensures
        find_gap(s) == n,
{
    lemma_find_gap(s);
    let f = find_gap(s);
    if f < n {
        assert(!gap_at(s, f as int));
    }
    if n < f {
        assert(!gap_at(s, n as int));
    }
}

fn gap_position(s: &[char]) -> (r: usize)
    ensures
        r == find_gap(s@),
        r <= s@.len(),
        r < s@.len() ==> r + 2 <= s@.len(),
{
    let n: usize = s.len();
    let mut i: usize = 0;
    while i < n
        invariant
            n == s@.len(),
            i <= n,
            forall|j: int| 0 <= j < i ==> !gap_at(s@, j),
        decreases n - i,
    {
        if n - i >= 2 && s[i] == ':' && s[i + 1] == ':' {
            proof {
                lemma_find_gap_is(s@, i as nat);
            }
            return i;
        }
        i = i + 1;
    }
    proof {
        lemma_find_gap_is(s@, i as nat);
    }
    i
}

fn read_v6(s: &[char]) -> (r: Option<Ipv6Addr>)
    ensures
        r == (match v6_groups(s@) {
            Some(g) => Some(from_groups(g)),
            None => None::<Ipv6Addr>,
        }),
{
    let i: usize = gap_position(s);
    if i >= s.len() {
        return match read_side(s, true) {
            Some(g) => if g.len() == 8 {
                Some(assemble(&g))
            } else {
                None
            },
            None => None,
        };
    }
    let front = slice_subrange(s, 0, i);
    let back = slice_subrange(s, i + 2, s.len());
    assert(front@ == s@.take(i as int));
    assert(back@ == s@.skip(i + 2));
    match (read_side(front, false), read_side(back, true)) {
        (Some(h), Some(t)) => {
            if h.len() > 7 || t.len() > 7 || h.len() + t.len() > 7 {
                return None;
            }
            let mut g: Vec<u16> = Vec::new();
            let ghost whole = h@ + zeros(8 - h@.len() - t@.len()) + t@;
            for k in 0..8usize
                invariant
                    h@.len() + t@.len() <= 7,
                    whole == h@ + zeros(8 - h@.len() - t@.len()) + t@,
                    g@ == whole.take(k as int),
            {
                if k < h.len() {
                    g.push(h[k]);
                } else if k < 8 - t.len() {
                    g.push(0);
                } else {
                    g.push(t[k - (8 - t.len())]);
                }
            }
            assert(g@ == whole);
            Some(assemble(&g))
        },
        _ => None,
    }
}

fn assemble(g: &Vec<u16>) -> (r: Ipv6Addr)
    requires
        g@.len() == 8,
    ensures
        r == from_groups(g@),
{
    Ipv6Addr { s0: g[0], s1: g[1], s2: g[2], s3: g[3], s4: g[4], s5: g[5], s6: g[6], s7: g[7] }
}

/// Reads an address from a run of characters that must hold nothing else.
pub fn parse_chars(s: &[char]) -> (r: Option<IpAddr>)
    ensures
        r == address(s@),
{
    match read_v4(s) {
        Some(a) => Some(IpAddr::V4(a)),
        None => match read_v6(s) {
            Some(a) => Some(IpAddr::V6(a)),
            None => None,
        },
    }
}

/// Reads an address from a text that must hold nothing else.
pub fn parse(s: &str) -> (r: Option<IpAddr>)
    ensures
        r == address(s@),
{
    let chars = chars_of(s);
    parse_chars(chars.as_slice())
}

// ---------------------------------------------------------------------------
// Writing
// ---------------------------------------------------------------------------

fn push_hex(out: &mut String, n: u16)
    ensures
        final(out)@ == old(out)@ + hex_text(n as nat),
    decreases n,
{
    if n >= 16 {
        push_hex(out, n / 16);
    }
    let d: u8 = (n % 16) as u8;
    if d < 10 {
        out.push((48 + d) as char);
    } else {
        out.push((97 + (d - 10)) as char);
    }
    assert(out@ == old(out)@ + hex_text(n as nat));
}

fn push_v4(out: &mut String, addr: Ipv4Addr)
    ensures
        final(out)@ == old(out)@ + v4_text(addr),
{
    push_decimal(out, addr.a as u64);
    out.push('.');
    push_decimal(out, addr.b as u64);
    out.push('.');
    push_decimal(out, addr.c as u64);
    out.push('.');
    push_decimal(out, addr.d as u64);
    proof {
        let p = v4_pieces(addr);
        let p3 = p.drop_last();
        let p2 = p3.drop_last();
        let p1 = p2.drop_last();
        let dot = seq!['.'];
        assert(text::join(p1, dot) == p[0]);
        assert(text::join(p2, dot) == p[0] + dot + p[1]);
        assert(text::join(p3, dot) == p[0] + dot + p[1] + dot + p[2]);
        assert(v4_text(addr) == p[0] + dot + p[1] + dot + p[2] + dot + p[3]);
        assert(out@ == old(out)@ + v4_text(addr));
    }
}

/// Appends the groups of `g` from `from` up to `to`, separated by colons.
fn push_colon(out: &mut String, g: &Vec<u16>, from: usize, to: usize)
    requires
        from <= to <= g@.len(),
    ensures
        final(out)@ == old(out)@ + colon_text(g@.subrange(from as int, to as int)),
{
    let ghost part = g@.subrange(from as int, to as int);
    assert(hex_pieces(part.take(0)) =~= seq![]);
    for i in from..to
        invariant
            from <= to <= g@.len(),
            part == g@.subrange(from as int, to as int),
            out@ == old(out)@ + colon_text(part.take(i - from)),
    {
        let ghost before = out@;
        let ghost front = part.take(i - from);
        let ghost next = part.take(i + 1 - from);
        if i > from {
            out.push(':');
        }
        push_hex(out, g[i]);
        proof {
            assert(part[i - from] == g@[i as int]);
            assert(hex_pieces(next).drop_last() == hex_pieces(front));
            assert(hex_pieces(next).last() == hex_text(g@[i as int] as nat));
            if i > from {
                assert(colon_text(next) == colon_text(front) + seq![':'] + hex_text(
                    g@[i as int] as nat,
                ));
            } else {
                assert(front =~= seq![]);
                assert(hex_pieces(front) =~= seq![]);
                assert(colon_text(next) == hex_text(g@[i as int] as nat));
                assert(colon_text(front) =~= seq![]);
            }
            assert(out@ == old(out)@ + colon_text(next));
        }
    }
    assert(part.take(to - from) == part);
}

proof fn lemma_zero_run(g: Seq<u16>, i: int)
    requires
        0 <= i <= g.len(),
    ensures
        i + zero_run(g, i) <= g.len(),
        forall|j: int| i <= j < i + zero_run(g, i) ==> g[j] == 0,
    decreases g.len() - i,
{
    if i < g.len() && g[i] == 0 {
        lemma_zero_run(g, i + 1);
    }
}

proof fn lemma_longest_run(g: Seq<u16>, n: nat)
    requires
        1 <= n <= g.len(),
    ensures
        0 <= longest_run(g, n) < n,
        forall|j: int| 0 <= j < n ==> #[trigger] zero_run(g, j) <= zero_run(g, longest_run(g, n)),
        forall|j: int|
            0 <= j < longest_run(g, n) ==> #[trigger] zero_run(g, j) < zero_run(
                g,
                longest_run(g, n),
            ),
    decreases n,
{
    if n > 1 {
        lemma_longest_run(g, (n - 1) as nat);
    }
}

fn count_zeros(g: &Vec<u16>, start: usize) -> (r: usize)
    requires
        start <= g@.len(),
    ensures
        r == zero_run(g@, start as int),
        start + r <= g@.len(),
{
    let mut n: usize = 0;
    while n < g.len() - start && g[start + n] == 0
        invariant
            start + n <= g@.len(),
            n + zero_run(g@, start + n) == zero_run(g@, start as int),
        decreases g@.len() - start - n,
    {
        n = n + 1;
    }
    n
}

fn push_v6(out: &mut String, addr: Ipv6Addr)
    ensures
        final(out)@ == old(out)@ + v6_text(addr),
{
    if addr.s0 == 0 && addr.s1 == 0 && addr.s2 == 0 && addr.s3 == 0 && addr.s4 == 0 && addr.s5
        == 0xffff {
        out.append("::ffff:");
        push_v4(
            out,
            Ipv4Addr {
                a: (addr.s6 / 256) as u8,
                b: (addr.s6 % 256) as u8,
                c: (addr.s7 / 256) as u8,
                d: (addr.s7 % 256) as u8,
            },
        );
        assert(out@ == old(out)@ + v6_text(addr));
        return;
    }
    let g: Vec<u16> = vec![
        addr.s0,
        addr.s1,
        addr.s2,
        addr.s3,
        addr.s4,
        addr.s5,
        addr.s6,
        addr.s7,
    ];
    assert(g@ == addr.groups());
    let mut start: usize = 0;
    let mut run: usize = count_zeros(&g, 0);
    for i in 1..8usize
        invariant
            g@.len() == 8,
            start < 8,
            start == longest_run(g@, i as nat),
            run == zero_run(g@, start as int),
            start + run <= 8,
    {
        let n: usize = count_zeros(&g, i);
        if n > run {
            start = i;
            run = n;
        }
    }
    if run > 1 {
        push_colon(out, &g, 0, start);
        out.push(':');
        out.push(':');
        push_colon(out, &g, start + run, 8);
        assert(g@.subrange(0, start as int) == g@.take(start as int));
        assert(g@.subrange(start + run, 8) == g@.skip(start + run));
        assert(out@ == old(out)@ + v6_text(addr));
    } else {
        push_colon(out, &g, 0, 8);
        assert(g@.subrange(0, 8) == g@);
    }
}

impl IpAddr {
    /// Appends the canonical text.
    pub fn push_text(&self, out: &mut String)
        ensures
            final(out)@ == old(out)@ + address_text(*self),
    {
        match self {
            IpAddr::V4(a) => push_v4(out, *a),
            IpAddr::V6(a) => push_v6(out, *a),
        }
    }

    /// The canonical text.
    pub fn to_text(&self) -> (r: String)
        ensures
            r@ == address_text(*self),
    {
        let mut r = String::new();
        self.push_text(&mut r);
        assert(Seq::<char>::empty() + address_text(*self) == address_text(*self));
        r
    }

    /// Whether the address is a loopback address: `127.0.0.0/8` or `::1`.
    pub open spec fn loopback(self) -> bool {
        match self {
            IpAddr::V4(a) => a.a == 127,
            IpAddr::V6(a) => a.groups() == seq![0u16, 0, 0, 0, 0, 0, 0, 1],
        }
    }

    pub fn is_loopback(&self) -> (r: bool)
        ensures
            r == self.loopback(),
            *self matches IpAddr::V4(a) ==> r == (a.a == 127),
            *self matches IpAddr::V6(a) ==> r == (a.s0 == 0 && a.s1 == 0 && a.s2 == 0 && a.s3 == 0
                && a.s4 == 0 && a.s5 == 0 && a.s6 == 0 && a.s7 == 1),
    {
        match self {
            IpAddr::V4(a) => a.a == 127,
            IpAddr::V6(a) => {
                let r = a.s0 == 0 && a.s1 == 0 && a.s2 == 0 && a.s3 == 0 && a.s4 == 0 && a.s5 == 0
                    && a.s6 == 0 && a.s7 == 1;
                proof {
                    let g = a.groups();
                    let one = seq![0u16, 0, 0, 0, 0, 0, 0, 1];
                    if r {
                        assert(g =~= one);
                    }
                    if g == one {
                        assert(g[0] == one[0] && g[1] == one[1] && g[2] == one[2] && g[3] == one[3]);
                        assert(g[4] == one[4] && g[5] == one[5] && g[6] == one[6] && g[7] == one[7]);
                    }
                }
                r
            },
        }
    }
}

// ---------------------------------------------------------------------------
// Writing and reading are inverse
// ---------------------------------------------------------------------------

/// A run of hexadecimal digits that one group is written as.
spec fn is_piece(p: Seq<char>) -> bool {
    1 <= p.len() && forall|i: int| 0 <= i < p.len() ==> #[trigger] p[i] != ':'
}

/// No two colons meet, and none stands at either end.
spec fn colons_apart(s: Seq<char>) -> bool {
    &&& forall|i: int| !gap_at(s, i)
    &&& s.len() > 0 ==> s[0] != ':' && s.last() != ':'
}

proof fn lemma_join_colons_apart(p: Seq<Seq<char>>)
    requires
        forall|i: int| 0 <= i < p.len() ==> is_piece(#[trigger] p[i]),
    ensures
        colons_apart(text::join(p, seq![':'])),
        p.len() > 0 ==> text::join(p, seq![':']).len() > 0,
    decreases p.len(),
{
    let s = text::join(p, seq![':']);
    if p.len() == 1 {
        assert(is_piece(p[0]));
        assert forall|i: int| !gap_at(s, i) by {
            if gap_at(s, i) {
                assert(p[0][i] != ':');
            }
        }
        assert(p[0][0] != ':');
        assert(p[0][p[0].len() - 1] != ':');
    } else if p.len() > 1 {
        let front = p.drop_last();
        assert forall|i: int| 0 <= i < front.len() implies is_piece(#[trigger] front[i]) by {
            assert(front[i] == p[i]);
        }
        lemma_join_colons_apart(front);
        let a = text::join(front, seq![':']);
        let b = p.last();
        assert(is_piece(p[p.len() - 1]));
        assert(s == a + seq![':'] + b);
        assert forall|i: int| !gap_at(s, i) by {
            if gap_at(s, i) {
                if i + 1 < a.len() {
                    assert(gap_at(a, i));
                } else if i + 1 == a.len() {
                    assert(a.last() == ':');
                } else if i == a.len() {
                    assert(b[0] == ':');
                } else {
                    assert(s[i] == b[i - a.len() - 1]);
                }
            }
        }
        assert(s[0] == a[0]);
        assert(s.last() == b.last());
        assert(b[b.len() - 1] != ':');
    }
}

proof fn lemma_hex_pieces(g: Seq<u16>)
    ensures
        forall|i: int| 0 <= i < g.len() ==> is_piece(#[trigger] hex_pieces(g)[i]),
        plain_groups(hex_pieces(g)) == Some(g),
{
    let p = hex_pieces(g);
    assert forall|i: int| 0 <= i < g.len() implies is_piece(#[trigger] p[i]) && group(p[i])
        == Some(g[i]) by {
        lemma_hex_text(g[i] as nat);
        assert forall|j: int| 0 <= j < p[i].len() implies #[trigger] p[i][j] != ':' by {
            assert(is_hex(p[i][j]));
        }
    }
    assert(Seq::new(p.len(), |i: int| group(p[i])->0) =~= g);
}

/// A text with a colon in it is no IPv4 address.
proof fn lemma_colon_is_not_v4(s: Seq<char>, k: int)
    requires
        0 <= k < s.len(),
        s[k] == ':',
    ensures
        v4_of(s) is None,
{
    if v4_of(s) is Some {
        let p = text::split(s, '.');
        assert forall|i: int| 0 <= i < p.len() implies text::all_digits(#[trigger] p[i]) by {
            assert(i == 0 || i == 1 || i == 2 || i == 3);
        }
        lemma_split_digits(s, k);
    }
}

proof fn lemma_split_digits(s: Seq<char>, k: int)
    requires
        0 <= k < s.len(),
        forall|i: int|
            0 <= i < text::split(s, '.').len() ==> text::all_digits(
                #[trigger] text::split(s, '.')[i],
            ),
    ensures
        s[k] == '.' || text::is_digit(s[k]),
    decreases s.len(),
{
    let f = text::find(s, '.') as int;
    let p = text::split(s, '.');
    text::lemma_find(s, '.');
    assert(text::all_digits(p[0]));
    if k < f {
        assert(p[0][k] == s[k]);
    } else if k > f {
        let rest = s.skip(f + 1);
        let q = text::split(rest, '.');
        assert(p == seq![s.take(f)] + q);
        assert forall|i: int| 0 <= i < q.len() implies text::all_digits(#[trigger] q[i]) by {
            assert(q[i] == p[i + 1]);
        }
        lemma_split_digits(rest, k - f - 1);
        assert(rest[k - f - 1] == s[k]);
    }
}

proof fn lemma_octet_of_decimal(n: u8)
    ensures
        octet(text::decimal(n as nat)) == Some(n),
        forall|j: int|
            0 <= j < text::decimal(n as nat).len() ==> #[trigger] text::decimal(n as nat)[j] != '.'
                && text::decimal(n as nat)[j] != ':',
{
    text::lemma_decimal(n as nat);
    let d = text::decimal(n as nat);
    assert forall|j: int| 0 <= j < d.len() implies #[trigger] d[j] != '.' && d[j] != ':' by {
        assert(text::is_digit(d[j]));
    }
}

/// The text of an IPv4 address denotes that address, and holds no colon.
proof fn lemma_v4_text(addr: Ipv4Addr)
    ensures
        v4_of(v4_text(addr)) == Some(addr),
        forall|j: int| 0 <= j < v4_text(addr).len() ==> #[trigger] v4_text(addr)[j] != ':',
        v4_text(addr).len() > 0,
{
    lemma_octet_of_decimal(addr.a);
    lemma_octet_of_decimal(addr.b);
    lemma_octet_of_decimal(addr.c);
    lemma_octet_of_decimal(addr.d);
    let p = v4_pieces(addr);
    assert forall|i: int, j: int| 0 <= i < p.len() && 0 <= j < p[i].len() implies #[trigger] p[i][j]
        != '.' by {
        assert(i == 0 || i == 1 || i == 2 || i == 3);
    }
    text::lemma_split_join(p, '.');
    let dot = seq!['.'];
    let p3 = p.drop_last();
    let p2 = p3.drop_last();
    let p1 = p2.drop_last();
    assert(text::join(p1, dot) == p[0]);
    assert(text::join(p2, dot) == p[0] + dot + p[1]);
    assert(text::join(p3, dot) == p[0] + dot + p[1] + dot + p[2]);
    assert(v4_text(addr) == p[0] + dot + p[1] + dot + p[2] + dot + p[3]);
}

proof fn lemma_side_of_colon_text(g: Seq<u16>, dotted: bool)
    ensures
        side(colon_text(g), dotted) == Some(g),
        colons_apart(colon_text(g)),
{
    let p = hex_pieces(g);
    lemma_hex_pieces(g);
    lemma_join_colons_apart(p);
    if g.len() == 0 {
        assert(g =~= seq![]);
        assert(p =~= seq![]);
        assert(colon_text(g) =~= seq![]);
    } else {
        assert forall|i: int, j: int|
            0 <= i < p.len() && 0 <= j < p[i].len() implies #[trigger] p[i][j] != ':' by {
            assert(is_piece(p[i]));
        }
        text::lemma_split_join(p, ':');
        lemma_hex_piece_is_not_v4(g.last());
        assert(p.last() == hex_text(g.last() as nat));
    }
}

/// A group is not an embedded IPv4 address: it holds no dot.
proof fn lemma_hex_piece_is_not_v4(n: u16)
    ensures
        v4_of(hex_text(n as nat)) is None,
{
    let h = hex_text(n as nat);
    lemma_hex_text(n as nat);
    assert forall|i: int| 0 <= i < h.len() implies #[trigger] h[i] != '.' by {
        assert(is_hex(h[i]));
    }
    text::lemma_find_is(h, '.', h.len());
}

proof fn lemma_ffff()
    ensures
        group(seq!['f', 'f', 'f', 'f']) == Some(0xffffu16),
{
    let ffff = seq!['f', 'f', 'f', 'f'];
    assert(all_hex(ffff));
    let f3 = ffff.drop_last();
    let f2 = f3.drop_last();
    let f1 = f2.drop_last();
    assert(f1.drop_last() =~= seq![]);
    assert(hex_number(f1.drop_last()) == 0);
    assert(hex_number(f1) == 0xf);
    assert(hex_number(f2) == 0xff);
    assert(hex_number(f3) == 0xfff);
    assert(hex_number(ffff) == 0xffff);
}

proof fn lemma_mapped_side(v4: Ipv4Addr)
    ensures
        side("ffff:"@ + v4_text(v4), true) == Some(seq![0xffffu16] + dotted_groups(v4)),
{
    let tail = "ffff:"@ + v4_text(v4);
    reveal_strlit("ffff:");
    lemma_v4_text(v4);
    lemma_ffff();
    let ffff = seq!['f', 'f', 'f', 'f'];
    let p = seq![ffff, v4_text(v4)];
    assert(p.drop_last() =~= seq![ffff]);
    assert(text::join(seq![ffff], seq![':']) == ffff);
    assert(text::join(p, seq![':']) =~= tail);
    assert forall|i: int, j: int|
        0 <= i < p.len() && 0 <= j < p[i].len() implies #[trigger] p[i][j] != ':' by {
        assert(i == 0 || i == 1);
    }
    text::lemma_split_join(p, ':');
    assert(plain_groups(p.drop_last()) == Some(seq![0xffffu16])) by {
        assert(Seq::new(1, |i: int| group(p.drop_last()[i])->0) =~= seq![0xffffu16]);
    }
}

proof fn lemma_mapped_text(addr: Ipv6Addr)
    requires
        addr.mapped(),
    ensures
        v6_groups(v6_text(addr)) == Some(addr.groups()),
        v6_text(addr).len() > 0,
        v6_text(addr)[0] == ':',
{
    let g = addr.groups();
    let s = v6_text(addr);
    let v4 = addr.embedded();
    reveal_strlit("::ffff:");
    reveal_strlit("ffff:");
    assert(s[0] == ':' && s[1] == ':');
    assert(gap_at(s, 0));
    lemma_find_gap_is(s, 0);
    assert(s.take(0) =~= seq![]);
    assert(s.skip(2) =~= "ffff:"@ + v4_text(v4));
    lemma_mapped_side(v4);
    let t = seq![0xffffu16] + dotted_groups(v4);
    assert(t.len() == 3);
    let h = Seq::<u16>::empty();
    assert(side(s.take(0), false) == Some(h));
    assert(h + zeros(8 - h.len() - t.len()) + t =~= g);
}

proof fn lemma_gapped_text(addr: Ipv6Addr)
    requires
        !addr.mapped(),
        zero_run(addr.groups(), longest_run(addr.groups(), 8)) > 1,
    ensures
        v6_groups(v6_text(addr)) == Some(addr.groups()),
        exists|k: int| 0 <= k < v6_text(addr).len() && v6_text(addr)[k] == ':',
{
    let g = addr.groups();
    let s = v6_text(addr);
    let start = longest_run(g, 8);
    let run = zero_run(g, start);
    lemma_longest_run(g, 8);
    lemma_zero_run(g, start);
    let h = g.take(start);
    let t = g.skip(start + run);
    lemma_side_of_colon_text(h, false);
    lemma_side_of_colon_text(t, true);
    let a = colon_text(h);
    let b = colon_text(t);
    assert(s == a + seq![':', ':'] + b);
    let n = a.len() as int;
    assert(s[n] == ':' && s[n + 1] == ':');
    assert forall|i: int| 0 <= i < n implies !gap_at(s, i) by {
        if gap_at(s, i) {
            if i + 1 < n {
                assert(gap_at(a, i));
            } else {
                assert(a.last() == ':');
            }
        }
    }
    lemma_find_gap_is(s, a.len());
    assert(s.take(n) =~= a);
    assert(s.skip(n + 2) =~= b);
    assert(h + zeros(8 - h.len() - t.len()) + t =~= g);
}

proof fn lemma_full_text(addr: Ipv6Addr)
    requires
        !addr.mapped(),
        zero_run(addr.groups(), longest_run(addr.groups(), 8)) <= 1,
    ensures
        v6_groups(v6_text(addr)) == Some(addr.groups()),
        exists|k: int| 0 <= k < v6_text(addr).len() && v6_text(addr)[k] == ':',
{
    let g = addr.groups();
    let s = v6_text(addr);
    lemma_side_of_colon_text(g, true);
    lemma_find_gap_is(s, s.len());
    let p = hex_pieces(g);
    let front = text::join(p.drop_last(), seq![':']);
    assert(s == front + seq![':'] + p.last());
    assert(s[front.len() as int] == ':');
}

proof fn lemma_v6_text(addr: Ipv6Addr)
    ensures
        v6_groups(v6_text(addr)) == Some(addr.groups()),
        exists|k: int| 0 <= k < v6_text(addr).len() && v6_text(addr)[k] == ':',
{
    if addr.mapped() {
        lemma_mapped_text(addr);
        assert(v6_text(addr)[0] == ':');
    } else if zero_run(addr.groups(), longest_run(addr.groups(), 8)) > 1 {
        lemma_gapped_text(addr);
    } else {
        lemma_full_text(addr);
    }
}

/// Reading the canonical text of an address gives that address back.
pub proof fn lemma_address_round_trip(addr: IpAddr)
    ensures
        address(address_text(addr)) == Some(addr),
{
    match addr {
        IpAddr::V4(a) => {
            lemma_v4_text(a);
        },
        IpAddr::V6(a) => {
            lemma_v6_text(a);
            let s = v6_text(a);
            let k = choose|k: int| 0 <= k < s.len() && s[k] == ':';
            lemma_colon_is_not_v4(s, k);
            assert(from_groups(a.groups()) == a);
        },
    }
}

/// Two addresses with the same canonical text are the same address.
pub proof fn lemma_address_text_injective(left: IpAddr, right: IpAddr)
    requires
        address_text(left) == address_text(right),
    ensures
        left == right,
{
    lemma_address_round_trip(left);
    lemma_address_round_trip(right);
}

proof fn lemma_join_len(pieces: Seq<Seq<char>>, sep: Seq<char>, most: nat)
    requires
        sep.len() == 1,
        forall|i: int| 0 <= i < pieces.len() ==> (#[trigger] pieces[i]).len() <= most,
    ensures
        pieces.len() == 0 ==> text::join(pieces, sep).len() == 0,
        pieces.len() > 0 ==> text::join(pieces, sep).len() <= pieces.len() * (most + 1) - 1,
    decreases pieces.len(),
{
    if pieces.len() > 1 {
        let front = pieces.drop_last();
        assert forall|i: int| 0 <= i < front.len() implies (#[trigger] front[i]).len() <= most by {
            assert(front[i] == pieces[i]);
        }
        lemma_join_len(front, sep, most);
        assert(pieces[pieces.len() - 1].len() <= most);
        assert(pieces.len() * (most + 1) == front.len() * (most + 1) + (most + 1))
            by (nonlinear_arith)
            requires
                pieces.len() == front.len() + 1,
        ;
    } else if pieces.len() == 1 {
        assert(pieces[0].len() <= most);
        assert(pieces.len() * (most + 1) == most + 1) by (nonlinear_arith)
            requires
                pieces.len() == 1,
        ;
        reveal_with_fuel(text::join, 2);
    }
}

proof fn lemma_decimal_len(n: u8)
    ensures
        text::decimal(n as nat).len() <= 3,
{
    reveal_with_fuel(text::decimal, 3);
}

proof fn lemma_v4_text_len(a: Ipv4Addr)
    ensures
        v4_text(a).len() <= 15,
{
    lemma_decimal_len(a.a);
    lemma_decimal_len(a.b);
    lemma_decimal_len(a.c);
    lemma_decimal_len(a.d);
    lemma_join_len(v4_pieces(a), seq!['.'], 3);
}

proof fn lemma_colon_text_len(g: Seq<u16>)
    ensures
        g.len() == 0 ==> colon_text(g).len() == 0,
        g.len() > 0 ==> colon_text(g).len() <= 5 * g.len() - 1,
{
    let pieces = hex_pieces(g);
    assert forall|i: int| 0 <= i < pieces.len() implies (#[trigger] pieces[i]).len() <= 4 by {
        lemma_hex_text(g[i] as nat);
    }
    lemma_join_len(pieces, seq![':'], 4);
    assert(g.len() * (4nat + 1nat) == 5 * g.len()) by (nonlinear_arith);
}

/// The text of an address is never longer than eight full groups with seven
/// colons between them.
pub proof fn lemma_address_text_len(addr: IpAddr)
    ensures
        address_text(addr).len() <= 39,
{
    match addr {
        IpAddr::V4(a) => {
            lemma_v4_text_len(a);
        },
        IpAddr::V6(a) => {
            let g = a.groups();
            if a.mapped() {
                reveal_strlit("::ffff:");
                lemma_v4_text_len(a.embedded());
            } else {
                let start = longest_run(g, 8);
                let run = zero_run(g, start);
                lemma_longest_run(g, 8);
                lemma_zero_run(g, start);
                lemma_colon_text_len(g);
                if run > 1 {
                    lemma_colon_text_len(g.take(start));
                    lemma_colon_text_len(g.skip(start + run));
                }
            }
        },
    }
}

// ---------------------------------------------------------------------------
// Laws of reading and writing
// ---------------------------------------------------------------------------

/// An IPv4 address is read from its four octets in decimal between dots, and
/// from no other text.
pub proof fn lemma_v4_reading_is_exact(s: Seq<char>, a: Ipv4Addr)
    ensures
        address(s) == Some(IpAddr::V4(a)) <==> s == text::decimal(a.a as nat) + seq!['.']
            + text::decimal(a.b as nat) + seq!['.'] + text::decimal(a.c as nat) + seq!['.']
            + text::decimal(a.d as nat),
        address_text(IpAddr::V4(a)) == text::decimal(a.a as nat) + seq!['.'] + text::decimal(
            a.b as nat,
        ) + seq!['.'] + text::decimal(a.c as nat) + seq!['.'] + text::decimal(a.d as nat),
{
    lemma_v4_text(a);
    lemma_v4_text_is(v4_pieces(a));
    if address(s) == Some(IpAddr::V4(a)) {
        assert(v4_of(s) == Some(a));
        let p = text::split(s, '.');
        text::lemma_join_split(s, '.');
        text::lemma_numeral_is_unique(p[0]);
        text::lemma_numeral_is_unique(p[1]);
        text::lemma_numeral_is_unique(p[2]);
        text::lemma_numeral_is_unique(p[3]);
        assert(p =~= v4_pieces(a));
    }
}

proof fn lemma_v4_text_is(p: Seq<Seq<char>>)
    requires
        p.len() == 4,
    ensures
        text::join(p, seq!['.']) == p[0] + seq!['.'] + p[1] + seq!['.'] + p[2] + seq!['.'] + p[3],
{
    let dot = seq!['.'];
    let p3 = p.drop_last();
    let p2 = p3.drop_last();
    let p1 = p2.drop_last();
    assert(text::join(p1, dot) == p[0]);
    assert(text::join(p2, dot) == p[0] + dot + p[1]);
    assert(text::join(p3, dot) == p[0] + dot + p[1] + dot + p[2]);
}

/// Whether a text is one to four hexadecimal digits of either case.
pub open spec fn hex_piece(p: Seq<char>) -> bool {
    1 <= p.len() <= 4 && forall|i: int|
        0 <= i < p.len() ==> '0' <= #[trigger] p[i] <= '9' || 'a' <= p[i] <= 'f' || 'A' <= p[i]
            <= 'F'
}

/// The numbers that the pieces denote in hexadecimal.
pub open spec fn hex_values(p: Seq<Seq<char>>) -> Seq<u16> {
    Seq::new(p.len(), |i: int| hex_number(p[i]) as u16)
}

proof fn lemma_hex_piece(p: Seq<char>)
    requires
        hex_piece(p),
    ensures
        group(p) == Some(hex_number(p) as u16),
        is_piece(p),
        v4_of(p) is None,
{
    assert forall|i: int| 0 <= i < p.len() implies is_hex(#[trigger] p[i]) && p[i] != ':' && p[i]
        != '.' by {}
    text::lemma_find_is(p, '.', p.len());
}

proof fn lemma_side_of_pieces(p: Seq<Seq<char>>, dotted: bool)
    requires
        forall|i: int| 0 <= i < p.len() ==> hex_piece(#[trigger] p[i]),
    ensures
        side(text::join(p, seq![':']), dotted) == Some(hex_values(p)),
        colons_apart(text::join(p, seq![':'])),
{
    assert forall|i: int| 0 <= i < p.len() implies is_piece(#[trigger] p[i]) && group(p[i])
        == Some(hex_number(p[i]) as u16) && v4_of(p[i]) is None by {
        lemma_hex_piece(p[i]);
    }
    lemma_join_colons_apart(p);
    if p.len() == 0 {
        assert(p =~= seq![]);
        assert(hex_values(p) =~= seq![]);
        assert(text::join(p, seq![':']) =~= seq![]);
    } else {
        assert forall|i: int, j: int|
            0 <= i < p.len() && 0 <= j < p[i].len() implies #[trigger] p[i][j] != ':' by {
            assert(is_piece(p[i]));
        }
        text::lemma_split_join(p, ':');
        assert(v4_of(p[p.len() - 1]) is None);
        assert(Seq::new(p.len(), |i: int| group(p[i])->0) =~= hex_values(p));
    }
}

/// Eight groups between colons, each of one to four hexadecimal digits of
/// either case, denote the address with those groups.
pub proof fn lemma_v6_full_reading(p: Seq<Seq<char>>)
    requires
        p.len() == 8,
        forall|i: int| 0 <= i < p.len() ==> hex_piece(#[trigger] p[i]),
    ensures
        address(text::join(p, seq![':'])) == Some(
            IpAddr::V6(
                Ipv6Addr {
                    s0: hex_number(p[0]) as u16,
                    s1: hex_number(p[1]) as u16,
                    s2: hex_number(p[2]) as u16,
                    s3: hex_number(p[3]) as u16,
                    s4: hex_number(p[4]) as u16,
                    s5: hex_number(p[5]) as u16,
                    s6: hex_number(p[6]) as u16,
                    s7: hex_number(p[7]) as u16,
                },
            ),
        ),
{
    let s = text::join(p, seq![':']);
    lemma_side_of_pieces(p, true);
    lemma_find_gap_is(s, s.len());
    let front = text::join(p.drop_last(), seq![':']);
    assert(s == front + seq![':'] + p.last());
    assert(s[front.len() as int] == ':');
    lemma_colon_is_not_v4(s, front.len() as int);
}

proof fn lemma_gap_between(a: Seq<char>, b: Seq<char>)
    requires
        colons_apart(a),
    ensures
        ({
            let s = a + seq![':', ':'] + b;
            find_gap(s) == a.len() && s.take(a.len() as int) == a && s.skip(a.len() as int + 2) == b
        }),
{
    let s = a + seq![':', ':'] + b;
    let n = a.len() as int;
    assert(s[n] == ':' && s[n + 1] == ':');
    assert forall|i: int| 0 <= i < n implies !gap_at(s, i) by {
        if gap_at(s, i) {
            if i + 1 < n {
                assert(gap_at(a, i));
            } else {
                assert(a.last() == ':');
            }
        }
    }
    lemma_find_gap_is(s, a.len());
    assert(s.take(n) =~= a);
    assert(s.skip(n + 2) =~= b);
}

proof fn lemma_gapped_groups(a: Seq<char>, b: Seq<char>, h: Seq<u16>, t: Seq<u16>)
    requires
        colons_apart(a),
        side(a, false) == Some(h),
        side(b, true) == Some(t),
        h.len() + t.len() <= 7,
    ensures
        address(a + seq![':', ':'] + b) matches Some(IpAddr::V6(v6)) && v6.groups() == h + Seq::new(
            (8 - h.len() - t.len()) as nat,
            |i: int| 0u16,
        ) + t,
{
    let s = a + seq![':', ':'] + b;
    lemma_gap_between(a, b);
    assert(s[a.len() as int] == ':');
    lemma_colon_is_not_v4(s, a.len() as int);
    let g = h + zeros(8 - h.len() - t.len()) + t;
    assert(v6_groups(s) == Some(g));
    assert(from_groups(g).groups() =~= g);
}

/// Fewer than eight groups on the two sides of a `::` denote the address in
/// which zeros stand for the missing ones, at that place.
pub proof fn lemma_v6_gapped_reading(h: Seq<Seq<char>>, t: Seq<Seq<char>>)
    requires
        h.len() + t.len() <= 7,
        forall|i: int| 0 <= i < h.len() ==> hex_piece(#[trigger] h[i]),
        forall|i: int| 0 <= i < t.len() ==> hex_piece(#[trigger] t[i]),
    ensures
        address(
            text::join(h, seq![':']) + seq![':', ':'] + text::join(t, seq![':']),
        ) matches Some(IpAddr::V6(a)) && a.groups() == hex_values(h) + Seq::new(
            (8 - h.len() - t.len()) as nat,
            |i: int| 0u16,
        ) + hex_values(t),
{
    lemma_side_of_pieces(h, false);
    lemma_side_of_pieces(t, true);
    lemma_gapped_groups(
        text::join(h, seq![':']),
        text::join(t, seq![':']),
        hex_values(h),
        hex_values(t),
    );
}

/// Groups between colons that are not eight in number, none of them left out
/// by a `::`, denote no address.
pub proof fn lemma_v6_wrong_count(p: Seq<Seq<char>>)
    requires
        2 <= p.len(),
        p.len() != 8,
        forall|i: int| 0 <= i < p.len() ==> hex_piece(#[trigger] p[i]),
    ensures
        address(text::join(p, seq![':'])) is None,
{
    let s = text::join(p, seq![':']);
    lemma_side_of_pieces(p, true);
    lemma_find_gap_is(s, s.len());
    let front = text::join(p.drop_last(), seq![':']);
    assert(s == front + seq![':'] + p.last());
    assert(s[front.len() as int] == ':');
    lemma_colon_is_not_v4(s, front.len() as int);
}

/// A group that is not one to four hexadecimal digits spoils the text, unless
/// it is a dotted IPv4 address at the very end.
pub proof fn lemma_v6_bad_group(p: Seq<Seq<char>>, k: int)
    requires
        2 <= p.len(),
        forall|i: int, j: int| 0 <= i < p.len() && 0 <= j < p[i].len() ==> #[trigger] p[i][j] != ':',
        forall|i: int| 0 <= i < p.len() ==> (#[trigger] p[i]).len() > 0,
        0 <= k < p.len(),
        !hex_piece(p[k]),
        k == p.len() - 1 ==> v4_of(p[k]) is None,
    ensures
        address(text::join(p, seq![':'])) is None,
{
    let s = text::join(p, seq![':']);
    assert forall|i: int| 0 <= i < p.len() implies is_piece(#[trigger] p[i]) by {
        assert forall|j: int| 0 <= j < p[i].len() implies #[trigger] p[i][j] != ':' by {}
    }
    lemma_join_colons_apart(p);
    lemma_find_gap_is(s, s.len());
    let front = text::join(p.drop_last(), seq![':']);
    assert(s == front + seq![':'] + p.last());
    assert(s[front.len() as int] == ':');
    lemma_colon_is_not_v4(s, front.len() as int);
    text::lemma_split_join(p, ':');
    assert(group(p[k]) is None) by {
        if group(p[k]) is Some {
            assert forall|i: int| 0 <= i < p[k].len() implies '0' <= #[trigger] p[k][i] <= '9'
                || 'a' <= p[k][i] <= 'f' || 'A' <= p[k][i] <= 'F' by {
                assert(is_hex(p[k][i]));
            }
        }
    }
    if v4_of(p.last()) is Some {
        assert(p.drop_last()[k] == p[k]);
        assert(plain_groups(p.drop_last()) is None);
    } else {
        assert(plain_groups(p) is None);
    }
}

/// An IPv4 address may take the place of the last two groups.
pub proof fn lemma_v6_dotted_reading(p: Seq<Seq<char>>, v4: Ipv4Addr)
    requires
        p.len() == 6,
        forall|i: int| 0 <= i < p.len() ==> hex_piece(#[trigger] p[i]),
    ensures
        address(
            text::join(p, seq![':']) + seq![':'] + address_text(IpAddr::V4(v4)),
        ) matches Some(IpAddr::V6(a)) && a.groups() == hex_values(p) + seq![
            (v4.a * 256 + v4.b) as u16,
            (v4.c * 256 + v4.d) as u16,
        ],
{
    let all = p.push(v4_text(v4));
    let s = text::join(all, seq![':']);
    assert(all.drop_last() =~= p);
    assert(s == text::join(p, seq![':']) + seq![':'] + v4_text(v4));
    lemma_v4_text(v4);
    assert forall|i: int| 0 <= i < all.len() implies is_piece(#[trigger] all[i]) by {
        if i < p.len() {
            lemma_hex_piece(p[i]);
            assert(all[i] == p[i]);
        }
    }
    lemma_join_colons_apart(all);
    lemma_find_gap_is(s, s.len());
    let front = text::join(p, seq![':']);
    assert(s[front.len() as int] == ':');
    lemma_colon_is_not_v4(s, front.len() as int);
    assert forall|i: int, j: int|
        0 <= i < all.len() && 0 <= j < all[i].len() implies #[trigger] all[i][j] != ':' by {
        assert(is_piece(all[i]));
    }
    text::lemma_split_join(all, ':');
    assert forall|i: int| 0 <= i < p.len() implies group(#[trigger] p[i]) == Some(
        hex_number(p[i]) as u16,
    ) by {
        lemma_hex_piece(p[i]);
    }
    assert(Seq::new(p.len(), |i: int| group(p[i])->0) =~= hex_values(p));
    let g = hex_values(p) + dotted_groups(v4);
    assert(v6_groups(s) == Some(g));
    assert(from_groups(g).groups() =~= g);
}

proof fn lemma_zero_run_reaches(g: Seq<u16>, i: int, n: nat)
    requires
        0 <= i,
        i + n <= g.len(),
        forall|j: int| i <= j < i + n ==> g[j] == 0,
    ensures
        zero_run(g, i) >= n,
    decreases n,
{
    if n > 0 {
        lemma_zero_run_reaches(g, i + 1, (n - 1) as nat);
    }
}

/// Whether the groups from `start` on, `n` in number, are all zero.
pub open spec fn zero_span(g: Seq<u16>, start: int, n: int) -> bool {
    0 <= start && 0 <= n && start + n <= g.len() && forall|j: int|
        start <= j < start + n ==> g[j] == 0
}

/// The `::` stands for the longest run of two or more zero groups, and for the
/// first of them where several are as long; the groups around it are written
/// in hexadecimal between colons.
pub proof fn lemma_longest_zero_run_is_left_out(addr: Ipv6Addr, start: int, n: int)
    requires
        !addr.mapped(),
        n >= 2,
        zero_span(addr.groups(), start, n),
        forall|i: int, m: int| #[trigger]
            zero_span(addr.groups(), i, m) ==> m < n || (m == n && i >= start),
    ensures
        address_text(IpAddr::V6(addr)) == colon_text(addr.groups().take(start)) + seq![':', ':']
            + colon_text(addr.groups().skip(start + n)),
{
    let g = addr.groups();
    let at = longest_run(g, 8);
    let run = zero_run(g, at);
    lemma_longest_run(g, 8);
    lemma_zero_run_reaches(g, start, n as nat);
    assert(zero_run(g, start) <= run);
    lemma_zero_run(g, at);
    lemma_zero_run(g, start);
    assert(zero_span(g, at, run as int));
    assert(zero_span(g, start, zero_run(g, start) as int));
    assert(run == n && at >= start);
    if at > start {
        assert(zero_run(g, start) < run);
    }
}

/// Where no two zero groups meet, all eight groups are written.
pub proof fn lemma_lone_zeros_are_written(addr: Ipv6Addr)
    requires
        !addr.mapped(),
        forall|i: int| 0 <= i < 7 ==> (#[trigger] addr.groups()[i]) != 0 || addr.groups()[i + 1] != 0,
    ensures
        address_text(IpAddr::V6(addr)) == colon_text(addr.groups()),
{
    let g = addr.groups();
    let at = longest_run(g, 8);
    lemma_longest_run(g, 8);
    lemma_zero_run(g, at);
    if zero_run(g, at) > 1 {
        assert(g[at] == 0 && g[at + 1] == 0);
    }
}

/// An IPv4-mapped address is written with that IPv4 address at its end.
pub proof fn lemma_mapped_is_written_dotted(v4: Ipv4Addr)
    ensures
        address_text(
            IpAddr::V6(
                Ipv6Addr {
                    s0: 0,
                    s1: 0,
                    s2: 0,
                    s3: 0,
                    s4: 0,
                    s5: 0xffff,
                    s6: (v4.a * 256 + v4.b) as u16,
                    s7: (v4.c * 256 + v4.d) as u16,
                },
            ),
        ) == "::ffff:"@ + address_text(IpAddr::V4(v4)),
{
}

/// Groups are written one by one: each in lower-case hexadecimal without a
/// leading zero, denoting the group, with a single colon between any two.
pub proof fn lemma_groups_are_written(g: Seq<u16>, n: u16)
    ensures
        g.len() > 0 ==> colon_text(g.push(n)) == colon_text(g) + seq![':'] + hex_text(n as nat),
        colon_text(seq![n]) == hex_text(n as nat),
        colon_text(seq![]) == Seq::<char>::empty(),
        hex_number(hex_text(n as nat)) == n,
        1 <= hex_text(n as nat).len() <= 4,
        hex_text(n as nat)[0] == '0' ==> n == 0,
        forall|i: int|
            0 <= i < hex_text(n as nat).len() ==> '0' <= #[trigger] hex_text(n as nat)[i] <= '9'
                || 'a' <= hex_text(n as nat)[i] <= 'f',
{
    let more = hex_pieces(g.push(n));
    assert(more.drop_last() =~= hex_pieces(g));
    assert(more.last() == hex_text(n as nat));
    assert(hex_pieces(seq![n]) =~= seq![hex_text(n as nat)]);
    assert(hex_pieces(seq![]) =~= seq![]);
    lemma_hex_text(n as nat);
    lemma_hex_text_form(n as nat);
}

proof fn lemma_hex_text_form(n: nat)
    ensures
        hex_text(n).len() > 0,
        hex_text(n)[0] == '0' ==> n == 0,
        forall|i: int|
            0 <= i < hex_text(n).len() ==> '0' <= #[trigger] hex_text(n)[i] <= '9' || 'a'
                <= hex_text(n)[i] <= 'f',
    decreases n,
{
    if n >= 16 {
        lemma_hex_text_form(n / 16);
        let t = hex_text(n / 16);
        assert(hex_text(n)[0] == t[0]);
        assert forall|i: int| 0 <= i < hex_text(n).len() implies '0' <= #[trigger] hex_text(n)[i]
            <= '9' || 'a' <= hex_text(n)[i] <= 'f' by {
            if i < t.len() {
                assert(hex_text(n)[i] == t[i]);
            }
        }
    }
}

/// The loopback addresses are those that begin with 127, and `::1` alone.
pub proof fn lemma_loopback(v4: Ipv4Addr, v6: Ipv6Addr)
    ensures
        IpAddr::V4(v4).loopback() <==> v4.a == 127,
        IpAddr::V6(v6).loopback() <==> v6 == (Ipv6Addr {
            s0: 0,
            s1: 0,
            s2: 0,
            s3: 0,
            s4: 0,
            s5: 0,
            s6: 0,
            s7: 1,
        }),
{
    let g = v6.groups();
    let one = seq![0u16, 0, 0, 0, 0, 0, 0, 1];
    if g == one {
        assert(g[0] == one[0] && g[1] == one[1] && g[2] == one[2] && g[3] == one[3]);
        assert(g[4] == one[4] && g[5] == one[5] && g[6] == one[6] && g[7] == one[7]);
    }
    if v6 == (Ipv6Addr { s0: 0, s1: 0, s2: 0, s3: 0, s4: 0, s5: 0, s6: 0, s7: 1 }) {
        assert(g =~= one);
    }
}

proof fn lemma_join_solid(p: Seq<Seq<char>>, sep: Seq<char>)
    requires
        forall|i: int| 0 <= i < p.len() ==> text::solid(#[trigger] p[i]),
        text::solid(sep),
    ensures
        text::solid(text::join(p, sep)),
    decreases p.len(),
{
    if p.len() == 1 {
        assert(text::solid(p[0]));
    } else if p.len() > 1 {
        let front = p.drop_last();
        assert forall|i: int| 0 <= i < front.len() implies text::solid(#[trigger] front[i]) by {
            assert(front[i] == p[i]);
        }
        lemma_join_solid(front, sep);
        assert(text::solid(p[p.len() - 1]));
        lemma_solid_add(text::join(front, sep), sep);
        lemma_solid_add(text::join(front, sep) + sep, p.last());
    }
}

proof fn lemma_solid_add(a: Seq<char>, b: Seq<char>)
    requires
        text::solid(a),
        text::solid(b),
    ensures
        text::solid(a + b),
{
    let s = a + b;
    assert forall|i: int| 0 <= i < s.len() implies !text::white_space(#[trigger] s[i]) by {
        if i < a.len() {
            assert(s[i] == a[i]);
        } else {
            assert(s[i] == b[i - a.len()]);
        }
    }
}

proof fn lemma_colon_text_solid(g: Seq<u16>)
    ensures
        text::solid(colon_text(g)),
{
    let p = hex_pieces(g);
    assert forall|i: int| 0 <= i < p.len() implies text::solid(#[trigger] p[i]) by {
        lemma_hex_text_form(g[i] as nat);
        assert(p[i] == hex_text(g[i] as nat));
    }
    lemma_join_solid(p, seq![':']);
}

proof fn lemma_v4_text_solid(a: Ipv4Addr)
    ensures
        text::solid(v4_text(a)),
{
    let p = v4_pieces(a);
    assert forall|i: int| 0 <= i < p.len() implies text::solid(#[trigger] p[i]) by {
        text::lemma_decimal(a.a as nat);
        text::lemma_decimal(a.b as nat);
        text::lemma_decimal(a.c as nat);
        text::lemma_decimal(a.d as nat);
        assert forall|j: int| 0 <= j < p[i].len() implies !text::white_space(
            #[trigger] p[i][j],
        ) by {
            assert(i == 0 || i == 1 || i == 2 || i == 3);
            assert(text::is_digit(p[i][j]));
        }
    }
    lemma_join_solid(p, seq!['.']);
}

/// The text of an address is not empty and holds no white space.
pub proof fn lemma_address_text_solid(addr: IpAddr)
    ensures
        address_text(addr).len() > 0,
        text::solid(address_text(addr)),
{
    match addr {
        IpAddr::V4(a) => {
            lemma_v4_text(a);
            lemma_v4_text_solid(a);
        },
        IpAddr::V6(a) => {
            lemma_v6_text(a);
            let g = a.groups();
            if a.mapped() {
                reveal_strlit("::ffff:");
                lemma_v4_text_solid(a.embedded());
                lemma_solid_add("::ffff:"@, v4_text(a.embedded()));
            } else {
                let start = longest_run(g, 8);
                let run = zero_run(g, start);
                lemma_colon_text_solid(g);
                lemma_colon_text_solid(g.take(start));
                lemma_colon_text_solid(g.skip(start + run));
                lemma_solid_add(colon_text(g.take(start)), seq![':', ':']);
                lemma_solid_add(
                    colon_text(g.take(start)) + seq![':', ':'],
                    colon_text(g.skip(start + run)),
                );
            }
        },
    }
}

/// White space around the text of an address does not matter once trimmed.
pub proof fn lemma_padded_address(before: Seq<char>, addr: IpAddr, after: Seq<char>)
    requires
        text::blank(before),
        text::blank(after),
    ensures
        address(text::trimmed(before + address_text(addr) + after)) == Some(addr),
{
    lemma_address_text_solid(addr);
    text::lemma_trimmed(before, address_text(addr), after);
    lemma_address_round_trip(addr);
}

/// A hexadecimal digit denotes the same number in either case, the letters
/// follow on the digits, and each further digit weighs a sixteenth of the one
/// before it.
pub proof fn lemma_hex_digits(s: Seq<char>, d: nat)
    requires
        d < 6,
    ensures
        hex_value('0') == 0 && hex_value('9') == 9,
        hex_value(('0' as int + d) as char) == d,
        hex_value(('4' as int + d) as char) == 4 + d,
        hex_value(('a' as int + d) as char) == 10 + d,
        hex_value(('A' as int + d) as char) == 10 + d,
        hex_number(s.push(('a' as int + d) as char)) == 16 * hex_number(s) + 10 + d,
        hex_number(s.push(('A' as int + d) as char)) == 16 * hex_number(s) + 10 + d,
        hex_number(s.push(('0' as int + d) as char)) == 16 * hex_number(s) + d,
        hex_number(seq![]) == 0,
{
    assert(s.push(('a' as int + d) as char).drop_last() =~= s);
    assert(s.push(('A' as int + d) as char).drop_last() =~= s);
    assert(s.push(('0' as int + d) as char).drop_last() =~= s);
}

} // verus!
