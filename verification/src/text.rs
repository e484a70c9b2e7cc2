//! Text as sequences of characters: trimming, splitting, numerals and
//! comparison, the vocabulary in which the rest of the crate states what a
//! string holds.
use vstd::prelude::*;
use vstd::slice::slice_subrange;

verus! {

/// `String::push` appends the given character to the end of the string.
pub assume_specification[ String::push ](s: &mut String, c: char)
    ensures
        final(s)@ == old(s)@.push(c),
;

/// What `format!("{:?}", text)` renders: the text in double quotes, with the
/// escapes that `str`'s `Debug` implementation chooses.
pub uninterp spec fn debug_form(text: Seq<char>) -> Seq<char>;

/// Renders `text` through `str`'s `Debug` implementation. The contract only
/// claims that the result is a function of the text.
#[verifier::external_body]
pub(crate) fn debug_text(text: &str) -> (r: String)
    ensures
        r@ == debug_form(text@),
{
    format!("{:?}", text)
}

// ---------------------------------------------------------------------------
// Comparison and conversion
// ---------------------------------------------------------------------------

/// The characters of `s`, in order.
pub fn chars_of(s: &str) -> (v: Vec<char>)
    ensures
        v@ == s@,
{
    let mut v: Vec<char> = Vec::new();
    for c in it: s.chars()
        invariant
            v@ == s@.take(it.index() as int),
            it.seq() == s@,
    {
        v.push(c);
    }
    v
}

/// The string made of the given characters.
pub fn string_of(chars: &[char]) -> (r: String)
    ensures
        r@ == chars@,
{
    let mut r = String::new();
    for i in 0..chars.len()
        invariant
            r@ == chars@.take(i as int),
    {
        r.push(chars[i]);
    }
    assert(chars@.take(chars@.len() as int) == chars@);
    r
}

/// Whether two runs of characters are the same text.
pub fn same_chars(a: &[char], b: &[char]) -> (r: bool)
    ensures
        r == (a@ == b@),
{
    if a.len() != b.len() {
        return false;
    }
    for i in 0..a.len()
        invariant
            a@.len() == b@.len(),
            forall|j: int| 0 <= j < i ==> a@[j] == b@[j],
    {
        if a[i] != b[i] {
            return false;
        }
    }
    assert(a@ == b@);
    true
}

/// Whether two strings are the same text.
pub fn same_text(a: &str, b: &str) -> (r: bool)
    ensures
        r == (a@ == b@),
{
    let left = chars_of(a);
    let right = chars_of(b);
    same_chars(left.as_slice(), right.as_slice())
}

/// The text of an optional string.
pub open spec fn opt_text(s: Option<String>) -> Option<Seq<char>> {
    match s {
        Some(t) => Some(t@),
        None => None,
    }
}

/// The text of an optional string slice.
pub open spec fn opt_str(s: Option<&str>) -> Option<Seq<char>> {
    match s {
        Some(t) => Some(t@),
        None => None,
    }
}

/// The texts of a sequence of strings.
pub open spec fn texts(v: Seq<String>) -> Seq<Seq<char>> {
    Seq::new(v.len(), |i: int| v[i]@)
}

/// The texts of a sequence of character runs.
pub open spec fn runs(v: Seq<&[char]>) -> Seq<Seq<char>> {
    Seq::new(v.len(), |i: int| v[i]@)
}

/// The pieces joined into one text, `sep` between neighbours.
pub open spec fn join(pieces: Seq<Seq<char>>, sep: Seq<char>) -> Seq<char>
    decreases pieces.len(),
{
    if pieces.len() == 0 {
        seq![]
    } else if pieces.len() == 1 {
        pieces[0]
    } else {
        join(pieces.drop_last(), sep) + sep + pieces.last()
    }
}

// ---------------------------------------------------------------------------
// White space
// ---------------------------------------------------------------------------

/// The characters with the Unicode `White_Space` property.
pub open spec fn white_space(c: char) -> bool {
    ||| '\u{9}' <= c <= '\u{d}'
    ||| c == ' '
    ||| c == '\u{85}'
    ||| c == '\u{a0}'
    ||| c == '\u{1680}'
    ||| '\u{2000}' <= c <= '\u{200a}'
    ||| c == '\u{2028}'
    ||| c == '\u{2029}'
    ||| c == '\u{202f}'
    ||| c == '\u{205f}'
    ||| c == '\u{3000}'
}

pub fn is_white_space(c: char) -> (r: bool)
    ensures
        r == white_space(c),
{
    ('\u{9}' <= c && c <= '\u{d}') || c == ' ' || c == '\u{85}' || c == '\u{a0}' || c
        == '\u{1680}' || ('\u{2000}' <= c && c <= '\u{200a}') || c == '\u{2028}' || c
        == '\u{2029}' || c == '\u{202f}' || c == '\u{205f}' || c == '\u{3000}'
}

/// The text without its leading white space.
pub open spec fn trim_start(s: Seq<char>) -> Seq<char>
    decreases s.len(),
{
    if s.len() > 0 && white_space(s[0]) {
        trim_start(s.skip(1))
    } else {
        s
    }
}

/// The text without its trailing white space.
pub open spec fn trim_end(s: Seq<char>) -> Seq<char>
    decreases s.len(),
{
    if s.len() > 0 && white_space(s.last()) {
        trim_end(s.drop_last())
    } else {
        s
    }
}

/// The text without leading and trailing white space.
pub open spec fn trimmed(s: Seq<char>) -> Seq<char> {
    trim_end(trim_start(s))
}

pub fn skip_white_space<'a>(s: &'a [char]) -> (r: &'a [char])
    ensures
        r@ == trim_start(s@),
{
    let mut i: usize = 0;
    assert(s@.skip(0) == s@);
    while i < s.len() && is_white_space(s[i])
        invariant
            i <= s@.len(),
            trim_start(s@.skip(i as int)) == trim_start(s@),
        decreases s@.len() - i,
    {
        assert(s@.skip(i as int).skip(1) == s@.skip(i + 1));
        i = i + 1;
    }
    let r = slice_subrange(s, i, s.len());
    assert(r@ == s@.skip(i as int));
    r
}

/// Removes leading and trailing white space.
pub fn trim<'a>(s: &'a [char]) -> (r: &'a [char])
    ensures
        r@ == trimmed(s@),
{
    let t = skip_white_space(s);
    let mut n: usize = t.len();
    assert(t@.take(n as int) == t@);
    while n > 0 && is_white_space(t[n - 1])
        invariant
            n <= t@.len(),
            trim_end(t@.take(n as int)) == trim_end(t@),
        decreases n,
    {
        assert(t@.take(n as int).drop_last() == t@.take(n - 1));
        n = n - 1;
    }
    let r = slice_subrange(t, 0, n);
    assert(r@ == t@.take(n as int));
    r
}

/// The text without the trailing repetitions of `c`.
pub open spec fn without_trailing(s: Seq<char>, c: char) -> Seq<char>
    decreases s.len(),
{
    if s.len() > 0 && s.last() == c {
        without_trailing(s.drop_last(), c)
    } else {
        s
    }
}

/// Removes every trailing repetition of `c`.
pub fn trim_end_matches(s: &str, c: char) -> (r: String)
    ensures
        r@ == without_trailing(s@, c),
{
    let chars = chars_of(s);
    let mut n: usize = chars.len();
    assert(chars@.take(n as int) == chars@);
    while n > 0 && chars[n - 1] == c
        invariant
            n <= chars@.len(),
            without_trailing(chars@.take(n as int), c) == without_trailing(chars@, c),
        decreases n,
    {
        assert(chars@.take(n as int).drop_last() == chars@.take(n - 1));
        n = n - 1;
    }
    let r = string_of(slice_subrange(chars.as_slice(), 0, n));
    assert(r@ == chars@.take(n as int));
    r
}

// ---------------------------------------------------------------------------
// Words and pieces
// ---------------------------------------------------------------------------

/// How many characters stand before the first white space.
pub open spec fn word_len(s: Seq<char>) -> nat
    decreases s.len(),
{
    if s.len() == 0 || white_space(s[0]) {
        0
    } else {
        1 + word_len(s.skip(1))
    }
}

pub proof fn lemma_word_len(s: Seq<char>)
    ensures
        word_len(s) <= s.len(),
    decreases s.len(),
{
    if s.len() > 0 && !white_space(s[0]) {
        lemma_word_len(s.skip(1));
    }
}

pub proof fn lemma_trim_start_len(s: Seq<char>)
    ensures
        trim_start(s).len() <= s.len(),
        trim_start(s).len() > 0 ==> word_len(trim_start(s)) > 0,
    decreases s.len(),
{
    if s.len() > 0 && white_space(s[0]) {
        lemma_trim_start_len(s.skip(1));
    }
}

/// The maximal runs of characters that are not white space, in order.
pub open spec fn words(s: Seq<char>) -> Seq<Seq<char>>
    decreases s.len(),
{
    let t = trim_start(s);
    if t.len() == 0 {
        seq![]
    } else {
        let n = word_len(t);
        proof {
            lemma_trim_start_len(s);
            lemma_word_len(t);
        }
        seq![t.take(n as int)] + words(t.skip(n as int))
    }
}

/// The first word of `s` and what follows it, when there is a word.
pub fn next_word<'a>(s: &'a [char]) -> (r: Option<(&'a [char], &'a [char])>)
    ensures
        r is None <==> words(s@).len() == 0,
        r matches Some(p) ==> words(s@) == seq![p.0@] + words(p.1@),
        r matches Some(p) ==> p.1@.len() < s@.len(),
{
    proof {
        lemma_trim_start_len(s@);
    }
    let t = skip_white_space(s);
    if t.len() == 0 {
        return None;
    }
    let mut n: usize = 0;
    assert(t@.skip(0) == t@);
    while n < t.len() && !is_white_space(t[n])
        invariant
            n <= t@.len(),
            n + word_len(t@.skip(n as int)) == word_len(t@),
        decreases t@.len() - n,
    {
        assert(t@.skip(n as int).skip(1) == t@.skip(n + 1));
        n = n + 1;
    }
    assert(word_len(t@) == n);
    let first = slice_subrange(t, 0, n);
    let rest = slice_subrange(t, n, t.len());
    assert(first@ == t@.take(n as int));
    assert(rest@ == t@.skip(n as int));
    Some((first, rest))
}

/// The position of the first `sep`, or the length where there is none.
pub open spec fn find(s: Seq<char>, sep: char) -> nat
    decreases s.len(),
{
    if s.len() == 0 || s[0] == sep {
        0
    } else {
        1 + find(s.skip(1), sep)
    }
}

pub proof fn lemma_find(s: Seq<char>, sep: char)
    ensures
        find(s, sep) <= s.len(),
        find(s, sep) < s.len() ==> s[find(s, sep) as int] == sep,
        forall|i: int| 0 <= i < find(s, sep) ==> s[i] != sep,
    decreases s.len(),
{
    if s.len() > 0 && s[0] != sep {
        let t = s.skip(1);
        lemma_find(t, sep);
        assert forall|i: int| 0 <= i < find(s, sep) implies s[i] != sep by {
            if i > 0 {
                assert(s[i] == t[i - 1]);
            }
        }
    }
}

/// `find` is determined by what it promises.
pub proof fn lemma_find_is(s: Seq<char>, sep: char, n: nat)
    requires
        n <= s.len(),
        n < s.len() ==> s[n as int] == sep,
        forall|i: int| 0 <= i < n ==> s[i] != sep,
    ensures
        find(s, sep) == n,
{
    lemma_find(s, sep);
    let f = find(s, sep);
    if f < n {
        assert(s[f as int] != sep);
    }
    if n < f {
        assert(s[n as int] != sep);
    }
}

/// The pieces between the occurrences of `sep`; one piece where there is none.
pub open spec fn split(s: Seq<char>, sep: char) -> Seq<Seq<char>>
    decreases s.len(),
{
    let i = find(s, sep);
    if i >= s.len() {
        seq![s]
    } else {
        seq![s.take(i as int)] + split(s.skip(i as int + 1), sep)
    }
}

proof fn lemma_split_last(a: Seq<char>, b: Seq<char>, sep: char)
    requires
        forall|i: int| 0 <= i < b.len() ==> #[trigger] b[i] != sep,
    ensures
        split(a + seq![sep] + b, sep) == split(a, sep) + seq![b],
    decreases a.len(),
{
    let s = a + seq![sep] + b;
    let f = find(a, sep);
    lemma_find(a, sep);
    assert forall|i: int| 0 <= i < f implies s[i] != sep by {
        assert(s[i] == a[i]);
    }
    lemma_find_is(s, sep, f);
    lemma_find_is(b, sep, b.len());
    if f >= a.len() {
        assert(s.take(f as int) =~= a);
        assert(s.skip(f as int + 1) =~= b);
        assert(split(b, sep) =~= seq![b]);
        assert(split(s, sep) =~= seq![a] + seq![b]);
    } else {
        let rest = a.skip(f as int + 1);
        assert(s.skip(f as int + 1) =~= rest + seq![sep] + b);
        assert(s.take(f as int) =~= a.take(f as int));
        lemma_split_last(rest, b, sep);
        assert(split(s, sep) =~= seq![a.take(f as int)] + (split(rest, sep) + seq![b]));
    }
}

/// Splitting undoes joining, where no piece holds the separator.
pub proof fn lemma_split_join(pieces: Seq<Seq<char>>, sep: char)
    requires
        pieces.len() > 0,
        forall|i: int, j: int|
            0 <= i < pieces.len() && 0 <= j < pieces[i].len() ==> #[trigger] pieces[i][j] != sep,
    ensures
        split(join(pieces, seq![sep]), sep) == pieces,
    decreases pieces.len(),
{
    let last = pieces.last();
    assert forall|j: int| 0 <= j < last.len() implies #[trigger] last[j] != sep by {
        assert(pieces[pieces.len() - 1][j] != sep);
    }
    if pieces.len() == 1 {
        lemma_find_is(last, sep, last.len());
        assert(split(last, sep) =~= pieces);
    } else {
        let front = pieces.drop_last();
        assert forall|i: int, j: int|
            0 <= i < front.len() && 0 <= j < front[i].len() implies #[trigger] front[i][j] != sep by {
            assert(pieces[i][j] != sep);
        }
        lemma_split_join(front, sep);
        lemma_split_last(join(front, seq![sep]), last, sep);
        assert(front + seq![last] =~= pieces);
    }
}

pub fn find_char(s: &[char], sep: char) -> (r: usize)
    ensures
        r == find(s@, sep),
        r <= s@.len(),
{
    let mut i: usize = 0;
    while i < s.len() && s[i] != sep
        invariant
            i <= s@.len(),
            forall|j: int| 0 <= j < i ==> s@[j] != sep,
        decreases s@.len() - i,
    {
        i = i + 1;
    }
    proof {
        lemma_find_is(s@, sep, i as nat);
    }
    i
}

/// Splits `s` at every `sep`.
pub fn split_chars<'a>(s: &'a [char], sep: char) -> (r: Vec<&'a [char]>)
    ensures
        runs(r@) == split(s@, sep),
        r@.len() > 0,
{
    let mut pieces: Vec<&'a [char]> = Vec::new();
    let mut rest = s;
    assert(runs(pieces@) + split(rest@, sep) == split(s@, sep));
    loop
        invariant
            runs(pieces@) + split(rest@, sep) == split(s@, sep),
        decreases rest@.len(),
    {
        let i: usize = find_char(rest, sep);
        let ghost before = pieces@;
        if i >= rest.len() {
            pieces.push(rest);
            assert(runs(pieces@) == runs(before) + seq![rest@]);
            return pieces;
        }
        let piece = slice_subrange(rest, 0, i);
        assert(piece@ == rest@.take(i as int));
        pieces.push(piece);
        assert(runs(pieces@) == runs(before) + seq![piece@]);
        let next = slice_subrange(rest, i + 1, rest.len());
        assert(next@ == rest@.skip(i + 1));
        assert(runs(pieces@) + split(next@, sep) == runs(before) + (seq![piece@] + split(next@, sep)));
        rest = next;
    }
}

// ---------------------------------------------------------------------------
// Decimal numerals
// ---------------------------------------------------------------------------

pub open spec fn is_digit(c: char) -> bool {
    '0' <= c <= '9'
}

pub open spec fn digit_value(c: char) -> nat {
    (c as int - '0' as int) as nat
}

pub open spec fn digit_char(d: nat) -> char {
    ('0' as int + d) as char
}

pub open spec fn all_digits(s: Seq<char>) -> bool {
    forall|i: int| 0 <= i < s.len() ==> is_digit(#[trigger] s[i])
}

/// The decimal numeral of `n`, without leading zeros.
pub open spec fn decimal(n: nat) -> Seq<char>
    decreases n,
{
    if n < 10 {
        seq![digit_char(n)]
    } else {
        decimal(n / 10).push(digit_char(n % 10))
    }
}

/// The number that a run of decimal digits denotes.
pub open spec fn number(s: Seq<char>) -> nat
    decreases s.len(),
{
    if s.len() == 0 {
        0
    } else {
        number(s.drop_last()) * 10 + digit_value(s.last())
    }
}

/// A decimal numeral holds digits only, denotes its number, and begins with
/// `0` only when it is the single digit `0`.
pub proof fn lemma_decimal(n: nat)
    ensures
        decimal(n).len() > 0,
        all_digits(decimal(n)),
        number(decimal(n)) == n,
        decimal(n)[0] == '0' ==> n == 0,
        n < 10 ==> decimal(n).len() == 1,
    decreases n,
{
    if n < 10 {
        assert(decimal(n).drop_last() =~= seq![]);
        assert(number(seq![]) == 0);
    } else {
        lemma_decimal(n / 10);
        let d = decimal(n / 10);
        assert(decimal(n).drop_last() == d);
        assert(decimal(n)[0] == d[0]);
        assert forall|i: int| 0 <= i < decimal(n).len() implies is_digit(
            #[trigger] decimal(n)[i],
        ) by {
            if i < d.len() {
                assert(decimal(n)[i] == d[i]);
            }
        }
    }
}

/// A longer numeral denotes no smaller number than its front part.
pub proof fn lemma_number_prefix(s: Seq<char>, n: int)
    requires
        0 <= n <= s.len(),
    ensures
        number(s.take(n)) <= number(s),
    decreases s.len(),
{
    if n == s.len() {
        assert(s.take(n) == s);
    } else {
        assert(s.take(n) == s.drop_last().take(n));
        lemma_number_prefix(s.drop_last(), n);
    }
}

/// Appends the decimal numeral of `n`.
pub fn push_decimal(out: &mut String, n: u64)
    ensures
        final(out)@ == old(out)@ + decimal(n as nat),
    decreases n,
{
    if n >= 10 {
        push_decimal(out, n / 10);
    }
    let d: u8 = (n % 10) as u8;
    out.push((48 + d) as char);
    assert(out@ == old(out)@ + decimal(n as nat));
}

/// The decimal numeral of `n`.
pub fn decimal_text(n: u64) -> (r: String)
    ensures
        r@ == decimal(n as nat),
{
    let mut r = String::new();
    push_decimal(&mut r, n);
    assert(Seq::<char>::empty() + decimal(n as nat) == decimal(n as nat));
    r
}

/// The number of a run of digits, unless it is not one or exceeds `max`.
pub fn parse_digits(s: &[char], max: u32) -> (r: Option<u32>)
    ensures
        r == (if s@.len() > 0 && all_digits(s@) && number(s@) <= max {
            Some(number(s@) as u32)
        } else {
            None::<u32>
        }),
{
    if s.len() == 0 {
        return None;
    }
    let mut value: u64 = 0;
    for i in 0..s.len()
        invariant
            value == number(s@.take(i as int)),
            value <= max,
            forall|j: int| 0 <= j < i ==> is_digit(#[trigger] s@[j]),
    {
        let c = s[i];
        if !('0' <= c && c <= '9') {
            assert(!is_digit(s@[i as int]));
            return None;
        }
        assert(s@.take(i + 1).drop_last() == s@.take(i as int));
        value = value * 10 + (c as u32 - 48) as u64;
        assert(value == number(s@.take(i + 1)));
        if value > max as u64 {
            proof {
                lemma_number_prefix(s@, i + 1);
            }
            return None;
        }
    }
    assert(s@.take(s@.len() as int) == s@);
    Some(value as u32)
}

/// The text that an unsigned integer is read from: one leading `+` is allowed.
pub open spec fn unsigned_digits(s: Seq<char>) -> Seq<char> {
    if s.len() > 0 && s[0] == '+' {
        s.skip(1)
    } else {
        s
    }
}

/// The number that `s` denotes when it is read as an unsigned integer: an
/// optional `+` and at least one decimal digit.
pub open spec fn unsigned(s: Seq<char>) -> Option<nat> {
    let digits = unsigned_digits(s);
    if digits.len() > 0 && all_digits(digits) {
        Some(number(digits))
    } else {
        None
    }
}

/// Reads an unsigned integer that is at most `max`.
pub fn parse_unsigned(s: &[char], max: u32) -> (r: Option<u32>)
    ensures
        r == (match unsigned(s@) {
            Some(n) => if n <= max {
                Some(n as u32)
            } else {
                None::<u32>
            },
            None => None::<u32>,
        }),
{
    if s.len() > 0 && s[0] == '+' {
        let digits = slice_subrange(s, 1, s.len());
        assert(digits@ == s@.skip(1));
        parse_digits(digits, max)
    } else {
        parse_digits(s, max)
    }
}

// ---------------------------------------------------------------------------
// Laws
// ---------------------------------------------------------------------------

/// White space is exactly these characters: tab to carriage return, space, the
/// next-line control, the no-break spaces, and Unicode's other separators.
pub proof fn lemma_white_space(c: char)
    ensures
        white_space(c) <==> seq![
            0x9u32, 0xa, 0xb, 0xc, 0xd, 0x20, 0x85, 0xa0, 0x1680, 0x2000, 0x2001, 0x2002, 0x2003,
            0x2004, 0x2005, 0x2006, 0x2007, 0x2008, 0x2009, 0x200a, 0x2028, 0x2029, 0x202f, 0x205f,
            0x3000,
        ].contains(c as u32),
{
    let codes = seq![
        0x9u32, 0xa, 0xb, 0xc, 0xd, 0x20, 0x85, 0xa0, 0x1680, 0x2000, 0x2001, 0x2002, 0x2003,
        0x2004, 0x2005, 0x2006, 0x2007, 0x2008, 0x2009, 0x200a, 0x2028, 0x2029, 0x202f, 0x205f,
        0x3000,
    ];
    let n = c as u32;
    if white_space(c) {
        let k: int = if n <= 0xd {
            n - 0x9
        } else if n == 0x20 {
            5
        } else if n == 0x85 {
            6
        } else if n == 0xa0 {
            7
        } else if n == 0x1680 {
            8
        } else if n <= 0x200a {
            n - 0x2000 + 9
        } else if n == 0x2028 {
            20
        } else if n == 0x2029 {
            21
        } else if n == 0x202f {
            22
        } else if n == 0x205f {
            23
        } else {
            24
        };
        assert(codes[k] == n);
    }
    if codes.contains(n) {
        let k = choose|k: int| 0 <= k < codes.len() && codes[k] == n;
        assert(0 <= k < 25);
    }
}

/// Whether a text is white space throughout.
pub open spec fn blank(s: Seq<char>) -> bool {
    forall|i: int| 0 <= i < s.len() ==> white_space(#[trigger] s[i])
}

/// Whether a text holds no white space.
pub open spec fn solid(s: Seq<char>) -> bool {
    forall|i: int| 0 <= i < s.len() ==> !white_space(#[trigger] s[i])
}

proof fn lemma_trim_start(s: Seq<char>) -> (i: int)
    ensures
        0 <= i <= s.len(),
        trim_start(s) == s.skip(i),
        forall|k: int| 0 <= k < i ==> white_space(#[trigger] s[k]),
        i < s.len() ==> !white_space(s[i]),
    decreases s.len(),
{
    if s.len() > 0 && white_space(s[0]) {
        let t = s.skip(1);
        let j = lemma_trim_start(t);
        assert(t.skip(j) =~= s.skip(j + 1));
        assert forall|k: int| 0 <= k < j + 1 implies white_space(#[trigger] s[k]) by {
            if k > 0 {
                assert(s[k] == t[k - 1]);
            }
        }
        if j < t.len() {
            assert(t[j] == s[j + 1]);
        }
        j + 1
    } else {
        assert(s.skip(0) =~= s);
        0
    }
}

proof fn lemma_trim_end(s: Seq<char>) -> (n: int)
    ensures
        0 <= n <= s.len(),
        trim_end(s) == s.take(n),
        forall|k: int| n <= k < s.len() ==> white_space(#[trigger] s[k]),
        n > 0 ==> !white_space(s[n - 1]),
    decreases s.len(),
{
    if s.len() > 0 && white_space(s.last()) {
        let t = s.drop_last();
        let n = lemma_trim_end(t);
        assert(t.take(n) =~= s.take(n));
        assert forall|k: int| n <= k < s.len() implies white_space(#[trigger] s[k]) by {
            if k < t.len() {
                assert(s[k] == t[k]);
            }
        }
        if n > 0 {
            assert(t[n - 1] == s[n - 1]);
        }
        n
    } else {
        assert(s.take(s.len() as int) =~= s);
        s.len() as int
    }
}

/// Trimming takes away the white space at both ends, all of it and nothing
/// else.
pub proof fn lemma_trimmed(before: Seq<char>, kept: Seq<char>, after: Seq<char>)
    requires
        blank(before),
        blank(after),
        kept.len() > 0 ==> !white_space(kept[0]) && !white_space(kept.last()),
    ensures
        trimmed(before + kept + after) == kept,
{
    let s = before + kept + after;
    let i = lemma_trim_start(s);
    let t = s.skip(i);
    let n = lemma_trim_end(t);
    if kept.len() == 0 {
        assert forall|k: int| 0 <= k < s.len() implies white_space(#[trigger] s[k]) by {
            if k < before.len() {
                assert(s[k] == before[k]);
            } else {
                assert(s[k] == after[k - before.len()]);
            }
        }
        assert(i == s.len());
        assert(trimmed(s) =~= kept);
    } else {
        let b = before.len() as int;
        let e = b + kept.len();
        assert(s[b] == kept[0] && s[e - 1] == kept.last());
        if i < b {
            assert(s[i] == before[i]);
        }
        assert(i == b);
        assert(t[kept.len() - 1] == kept.last());
        if n > kept.len() {
            assert(t[n - 1] == after[n - 1 - kept.len()]);
        }
        assert(n == kept.len());
        assert(trimmed(s) =~= kept);
    }
}

/// Removing a trailing character takes away all its repetitions at the end and
/// nothing else.
pub proof fn lemma_without_trailing(kept: Seq<char>, c: char, n: nat)
    requires
        kept.len() > 0 ==> kept.last() != c,
    ensures
        without_trailing(kept + Seq::new(n, |i: int| c), c) == kept,
    decreases n,
{
    let s = kept + Seq::new(n, |i: int| c);
    if n == 0 {
        assert(s =~= kept);
    } else {
        assert(s.last() == c);
        assert(s.drop_last() =~= kept + Seq::new((n - 1) as nat, |i: int| c));
        lemma_without_trailing(kept, c, (n - 1) as nat);
    }
}

proof fn lemma_word_len_is(w: Seq<char>, rest: Seq<char>)
    requires
        solid(w),
        rest.len() == 0 || white_space(rest[0]),
    ensures
        word_len(w + rest) == w.len(),
    decreases w.len(),
{
    let s = w + rest;
    if w.len() > 0 {
        let v = w.skip(1);
        assert(s[0] == w[0]);
        assert(s.skip(1) =~= v + rest);
        assert forall|i: int| 0 <= i < v.len() implies !white_space(#[trigger] v[i]) by {
            assert(v[i] == w[i + 1]);
        }
        lemma_word_len_is(v, rest);
    } else {
        assert(s =~= rest);
    }
}

/// Words are read off one by one: after any white space comes the first word,
/// which ends where white space follows, and then the words of what is left.
pub proof fn lemma_words(before: Seq<char>, word: Seq<char>, rest: Seq<char>)
    requires
        blank(before),
        word.len() > 0,
        solid(word),
        rest.len() == 0 || white_space(rest[0]),
    ensures
        words(before + word + rest) == seq![word] + words(rest),
{
    let s = before + word + rest;
    let i = lemma_trim_start(s);
    let b = before.len() as int;
    assert(s[b] == word[0]);
    if i < b {
        assert(s[i] == before[i]);
    }
    assert(i == b);
    let t = s.skip(i);
    assert(t =~= word + rest);
    lemma_word_len_is(word, rest);
    assert(t.take(word.len() as int) =~= word);
    assert(t.skip(word.len() as int) =~= rest);
}

/// White space holds no words.
pub proof fn lemma_no_words(s: Seq<char>)
    requires
        blank(s),
    ensures
        words(s).len() == 0,
{
    let i = lemma_trim_start(s);
    assert(i == s.len());
}

/// Joining undoes splitting, and no piece holds the separator.
pub proof fn lemma_join_split(s: Seq<char>, sep: char)
    ensures
        join(split(s, sep), seq![sep]) == s,
        split(s, sep).len() > 0,
        forall|i: int, j: int|
            0 <= i < split(s, sep).len() && 0 <= j < split(s, sep)[i].len() ==> #[trigger] split(
                s,
                sep,
            )[i][j] != sep,
    decreases s.len(),
{
    let f = find(s, sep) as int;
    let p = split(s, sep);
    lemma_find(s, sep);
    if f >= s.len() {
        assert(p =~= seq![s]);
    } else {
        let rest = s.skip(f + 1);
        let q = split(rest, sep);
        lemma_join_split(rest, sep);
        assert(p == seq![s.take(f)] + q);
        lemma_join_cons(s.take(f), q, seq![sep]);
        assert(s =~= s.take(f) + seq![sep] + rest);
        assert forall|i: int, j: int| 0 <= i < p.len() && 0 <= j < p[i].len() implies #[trigger] p[i][j]
            != sep by {
            if i == 0 {
                assert(p[0][j] == s[j]);
            } else {
                assert(p[i] == q[i - 1]);
                assert(q[i - 1][j] != sep);
            }
        }
    }
}

/// Joining puts the first piece in front, and the separator behind it.
pub proof fn lemma_join_cons(first: Seq<char>, rest: Seq<Seq<char>>, sep: Seq<char>)
    requires
        rest.len() > 0,
    ensures
        join(seq![first] + rest, sep) == first + sep + join(rest, sep),
    decreases rest.len(),
{
    let all = seq![first] + rest;
    if rest.len() == 1 {
        assert(all.drop_last() =~= seq![first]);
        assert(join(seq![first], sep) == first);
        assert(all.last() == rest[0]);
    } else {
        let front = rest.drop_last();
        assert(all.drop_last() =~= seq![first] + front);
        lemma_join_cons(first, front, sep);
        assert(all.last() == rest.last());
        assert(join(all, sep) =~= first + sep + join(rest, sep));
    }
}

proof fn lemma_number_positive(s: Seq<char>)
    requires
        s.len() > 0,
        all_digits(s),
        s[0] != '0',
    ensures
        number(s) > 0,
    decreases s.len(),
{
    assert(is_digit(s[0]));
    let front = s.drop_last();
    if front.len() > 0 {
        assert(all_digits(front)) by {
            assert forall|i: int| 0 <= i < front.len() implies is_digit(#[trigger] front[i]) by {
                assert(front[i] == s[i]);
            }
        }
        lemma_number_positive(front);
    } else {
        assert(s.last() == s[0]);
    }
}

/// A run of digits without a leading zero is the numeral of its number.
pub proof fn lemma_numeral_is_unique(s: Seq<char>)
    requires
        s.len() > 0,
        all_digits(s),
        s[0] == '0' ==> s.len() == 1,
    ensures
        decimal(number(s)) == s,
    decreases s.len(),
{
    let front = s.drop_last();
    let last = s.last();
    assert(is_digit(s[s.len() - 1]));
    let d = digit_value(last);
    assert(digit_char(d) == last);
    if s.len() == 1 {
        assert(number(front) == 0);
        assert(number(s) == d);
        assert(decimal(d) =~= s);
    } else {
        assert(all_digits(front)) by {
            assert forall|i: int| 0 <= i < front.len() implies is_digit(#[trigger] front[i]) by {
                assert(front[i] == s[i]);
            }
        }
        lemma_number_positive(front);
        lemma_numeral_is_unique(front);
        let n = number(s);
        assert(n == number(front) * 10 + d && d < 10);
        assert(n / 10 == number(front) && n % 10 == d);
        assert(decimal(n) =~= s);
    }
}

/// An unsigned integer is written with digits alone, or with a plus sign and
/// digits, and leading zeros do not matter.
pub proof fn lemma_unsigned(digits: Seq<char>)
    requires
        digits.len() > 0,
        forall|i: int| 0 <= i < digits.len() ==> '0' <= #[trigger] digits[i] <= '9',
    ensures
        unsigned(digits) == Some(number(digits)),
        unsigned(seq!['+'] + digits) == Some(number(digits)),
        unsigned(seq!['0'] + digits) == Some(number(digits)),
{
    assert(all_digits(digits)) by {
        assert forall|i: int| 0 <= i < digits.len() implies is_digit(#[trigger] digits[i]) by {}
    }
    assert(digits[0] != '+');
    assert((seq!['+'] + digits).skip(1) =~= digits);
    let padded = seq!['0'] + digits;
    assert(padded[0] == '0');
    assert forall|i: int| 0 <= i < padded.len() implies is_digit(#[trigger] padded[i]) by {
        if i > 0 {
            assert(padded[i] == digits[i - 1]);
        }
    }
    lemma_leading_zero(digits);
}

proof fn lemma_leading_zero(s: Seq<char>)
    ensures
        number(seq!['0'] + s) == number(s),
    decreases s.len(),
{
    let padded = seq!['0'] + s;
    if s.len() == 0 {
        assert(padded.drop_last() =~= seq![]);
        assert(number(seq![]) == 0);
    } else {
        assert(padded.drop_last() =~= seq!['0'] + s.drop_last());
        assert(padded.last() == s.last());
        lemma_leading_zero(s.drop_last());
    }
}

/// Nothing else is an unsigned integer.
pub proof fn lemma_only_unsigned(s: Seq<char>)
    requires
        unsigned(s) is Some,
    ensures
        s.len() > 0,
        s[0] == '+' ==> s.len() > 1,
        s[0] == '+' || '0' <= s[0] <= '9',
        forall|i: int| 1 <= i < s.len() ==> '0' <= #[trigger] s[i] <= '9',
{
    let d = unsigned_digits(s);
    assert forall|i: int| 1 <= i < s.len() implies '0' <= #[trigger] s[i] <= '9' by {
        if s[0] == '+' {
            assert(d[i - 1] == s[i]);
            assert(is_digit(d[i - 1]));
        } else {
            assert(is_digit(d[i]));
        }
    }
    if s[0] != '+' {
        assert(is_digit(d[0]));
    }
}

/// A numeral is written digit by digit in base ten.
pub proof fn lemma_decimal_digits(n: nat, d: nat)
    requires
        d < 10,
    ensures
        decimal(d) == seq![('0' as int + d) as char],
        n > 0 ==> decimal(n * 10 + d) == decimal(n).push(('0' as int + d) as char),
{
    if n > 0 {
        assert((n * 10 + d) / 10 == n && (n * 10 + d) % 10 == d);
    }
}

/// Texts are taken as they are: one for one and in order.
pub proof fn lemma_texts(v: Seq<String>, s: String)
    ensures
        opt_text(Some(s)) == Some(s@),
        opt_text(None) is None,
        texts(v).len() == v.len(),
        forall|i: int| 0 <= i < v.len() ==> #[trigger] texts(v)[i] == v[i]@,
{
}

/// Runs of characters are taken as they are: one for one and in order.
pub proof fn lemma_runs(v: Seq<&[char]>)
    ensures
        runs(v).len() == v.len(),
        forall|i: int| 0 <= i < v.len() ==> #[trigger] runs(v)[i] == v[i]@,
{
}

} // verus!
