//! Text as the rest of the library reads and builds it.
//!
//! A string's view is its sequence of characters, so every definition here is one over
//! `Seq<char>`. The executable half of each stands beside it.
use vstd::prelude::*;

verus! {

/// `String::push`: the character is appended and nothing before it changes.
pub assume_specification[ String::push ](s: &mut String, c: char)
    ensures
        final(s)@ == old(s)@.push(c),
;

/// The characters of `s`, in order.
pub fn chars_of(s: &str) -> (out: Vec<char>)
    ensures
        out@ == s@,
{
    let mut out: Vec<char> = Vec::new();
    for c in it: s.chars()
        invariant
            out@ == it.seq().take(it.index() as int),
            it.seq() == s@,
    {
        out.push(c);
    }
    out
}

/// Whether two strings hold the same characters.
pub fn same(a: &str, b: &str) -> (r: bool)
    ensures
        r == (a@ == b@),
{
    a.to_owned() == b.to_owned()
}

/// The string made of `chars[from..to]`.
pub fn slice_of(chars: &Vec<char>, from: usize, to: usize) -> (out: String)
    requires
        from <= to <= chars.len(),
    ensures
        out@ == chars@.subrange(from as int, to as int),
{
    let mut out = String::new();
    let mut i: usize = from;
    while i < to
        invariant
            from <= i <= to <= chars.len(),
            out@ == chars@.subrange(from as int, i as int),
        decreases to - i,
    {
        out.push(chars[i]);
        i = i + 1;
        assert(chars@.subrange(from as int, i as int) =~= chars@.subrange(
            from as int,
            i - 1,
        ).push(chars@[i - 1]));
    }
    out
}

/// The characters Unicode gives the `White_Space` property.
pub open spec fn white_space(c: char) -> bool {
    ||| 0x09 <= c as u32 <= 0x0d
    ||| c as u32 == 0x20
    ||| c as u32 == 0x85
    ||| c as u32 == 0xa0
    ||| c as u32 == 0x1680
    ||| 0x2000 <= c as u32 <= 0x200a
    ||| c as u32 == 0x2028
    ||| c as u32 == 0x2029
    ||| c as u32 == 0x202f
    ||| c as u32 == 0x205f
    ||| c as u32 == 0x3000
}

/// Whether `c` is white space.
pub fn is_white_space(c: char) -> (r: bool)
    ensures
        r == white_space(c),
{
    let n: u32 = c as u32;
    (0x09 <= n && n <= 0x0d) || n == 0x20 || n == 0x85 || n == 0xa0 || n == 0x1680 || (0x2000 <= n
        && n <= 0x200a) || n == 0x2028 || n == 0x2029 || n == 0x202f || n == 0x205f || n == 0x3000
}

/// A text with nothing but white space in it.
pub open spec fn blank(s: Seq<char>) -> bool {
    forall|i: int| 0 <= i < s.len() ==> white_space(#[trigger] s[i])
}

/// Whether `s` holds nothing but white space.
pub fn is_blank(s: &str) -> (r: bool)
    ensures
        r == blank(s@),
{
    let cs = chars_of(s);
    let mut i: usize = 0;
    while i < cs.len()
        invariant
            i <= cs.len(),
            cs@ == s@,
            forall|k: int| 0 <= k < i ==> white_space(#[trigger] s@[k]),
        decreases cs.len() - i,
    {
        if !is_white_space(cs[i]) {
            assert(!white_space(s@[i as int]));
            return false;
        }
        i = i + 1;
    }
    true
}

/// `s` without its leading white space.
pub open spec fn trimmed_start(s: Seq<char>) -> Seq<char>
    decreases s.len(),
{
    if s.len() > 0 && white_space(s[0]) {
        trimmed_start(s.skip(1))
    } else {
        s
    }
}

/// `s` without its trailing white space.
pub open spec fn trimmed_end(s: Seq<char>) -> Seq<char>
    decreases s.len(),
{
    if s.len() > 0 && white_space(s.last()) {
        trimmed_end(s.drop_last())
    } else {
        s
    }
}

/// `s` without the white space at either end.
pub open spec fn trimmed(s: Seq<char>) -> Seq<char> {
    trimmed_end(trimmed_start(s))
}

/// `s` without the white space at either end.
pub fn trim(s: &str) -> (out: String)
    ensures
        out@ == trimmed(s@),
{
    let cs = chars_of(s);
    let mut from: usize = 0;
    assert(s@.skip(0) =~= s@);
    while from < cs.len() && is_white_space(cs[from])
        invariant
            from <= cs.len(),
            cs@ == s@,
            trimmed_start(s@) == trimmed_start(s@.skip(from as int)),
        decreases cs.len() - from,
    {
        assert(s@.skip(from as int).skip(1) =~= s@.skip(from + 1));
        from = from + 1;
    }
    assert(trimmed_start(s@) == s@.skip(from as int));
    let ghost rest = s@.skip(from as int);
    let mut to: usize = cs.len();
    assert(rest.take(to - from) =~= rest);
    while to > from && is_white_space(cs[to - 1])
        invariant
            from <= to <= cs.len(),
            cs@ == s@,
            rest == s@.skip(from as int),
            trimmed_end(rest) == trimmed_end(rest.take(to - from)),
        decreases to - from,
    {
        assert(rest.take(to - from).drop_last() =~= rest.take(to - from - 1));
        to = to - 1;
    }
    assert(trimmed_end(rest) == rest.take(to - from));
    assert(rest.take(to - from) =~= cs@.subrange(from as int, to as int));
    slice_of(&cs, from, to)
}

/// Where `sep` first occurs in `s`, or the length of `s`.
pub open spec fn first_index(s: Seq<char>, sep: char) -> int
    decreases s.len(),
{
    if s.len() == 0 || s[0] == sep {
        0
    } else {
        1 + first_index(s.skip(1), sep)
    }
}

/// The parts of `s` between occurrences of `sep`: always at least one.
pub open spec fn split(s: Seq<char>, sep: char) -> Seq<Seq<char>>
    decreases s.len(),
{
    let at = first_index(s, sep);
    if 0 <= at < s.len() {
        seq![s.take(at)] + split(s.skip(at + 1), sep)
    } else {
        seq![s]
    }
}

pub proof fn lemma_first_index(s: Seq<char>, sep: char)
    ensures
        0 <= first_index(s, sep) <= s.len(),
        forall|i: int| 0 <= i < first_index(s, sep) ==> #[trigger] s[i] != sep,
        first_index(s, sep) < s.len() ==> s[first_index(s, sep)] == sep,
    decreases s.len(),
{
    if s.len() > 0 && s[0] != sep {
        lemma_first_index(s.skip(1), sep);
        let k = first_index(s.skip(1), sep);
        assert forall|i: int| 0 <= i < k + 1 implies #[trigger] s[i] != sep by {
            if i > 0 {
                assert(s[i] == s.skip(1)[i - 1]);
            }
        }
    }
}

/// A position with no `sep` before it and `sep` (or the end) at it is the first one.
pub proof fn lemma_first_index_is(s: Seq<char>, sep: char, at: int)
    requires
        0 <= at <= s.len(),
        forall|i: int| 0 <= i < at ==> #[trigger] s[i] != sep,
        at < s.len() ==> s[at] == sep,
    ensures
        first_index(s, sep) == at,
{
    lemma_first_index(s, sep);
    let k = first_index(s, sep);
    if k < at {
        assert(s[k] != sep);
    } else if at < k {
        assert(s[at] != sep);
    }
}

/// The views of a list of strings.
pub open spec fn views(v: Seq<String>) -> Seq<Seq<char>> {
    Seq::new(v.len(), |i: int| v[i]@)
}

/// The views of a list of string slices.
pub open spec fn str_views(v: Seq<&str>) -> Seq<Seq<char>> {
    Seq::new(v.len(), |i: int| v[i]@)
}

/// The parts of `s` between occurrences of `sep`.
pub fn split_on<'a>(s: &'a str, sep: char) -> (out: Vec<&'a str>)
    ensures
        str_views(out@) == split(s@, sep),
{
    let cs = chars_of(s);
    let mut out: Vec<&'a str> = Vec::new();
    let mut from: usize = 0;
    let mut i: usize = 0;
    assert(s@.skip(0) =~= s@);
    assert(str_views(out@) + split(s@, sep) =~= split(s@, sep));
    while i < cs.len()
        invariant
            from <= i <= cs.len(),
            cs@ == s@,
            forall|k: int| from <= k < i ==> #[trigger] s@[k] != sep,
            str_views(out@) + split(s@.skip(from as int), sep) == split(s@, sep),
        decreases cs.len() - i,
    {
        if cs[i] == sep {
            let ghost rest = s@.skip(from as int);
            let ghost before = str_views(out@);
            proof {
                assert forall|k: int| 0 <= k < i - from implies #[trigger] rest[k] != sep by {
                    assert(rest[k] == s@[from + k]);
                }
                lemma_first_index_is(rest, sep, i - from);
                assert(rest.take(i - from) =~= s@.subrange(from as int, i as int));
                assert(rest.skip(i - from + 1) =~= s@.skip(i + 1));
            }
            out.push(s.substring_char(from, i));
            assert(str_views(out@) =~= before.push(rest.take(i - from)));
            assert(before + (seq![rest.take(i - from)] + split(s@.skip(i + 1), sep))
                =~= str_views(out@) + split(s@.skip(i + 1), sep));
            from = i + 1;
        }
        i = i + 1;
    }
    let ghost rest = s@.skip(from as int);
    let ghost before = str_views(out@);
    proof {
        assert forall|k: int| 0 <= k < rest.len() implies #[trigger] rest[k] != sep by {
            assert(rest[k] == s@[from + k]);
        }
        lemma_first_index_is(rest, sep, rest.len() as int);
        assert(rest =~= s@.subrange(from as int, s@.len() as int));
    }
    let n: usize = cs.len();
    out.push(s.substring_char(from, n));
    assert(str_views(out@) =~= before + seq![rest]);
    out
}

/// Whether `s` begins with `prefix`.
pub open spec fn begins_with(s: Seq<char>, prefix: Seq<char>) -> bool {
    prefix.len() <= s.len() && s.take(prefix.len() as int) == prefix
}

/// Whether `s` begins with `prefix`.
pub fn starts_with(s: &str, prefix: &str) -> (r: bool)
    ensures
        r == begins_with(s@, prefix@),
{
    let cs = chars_of(s);
    let ps = chars_of(prefix);
    if ps.len() > cs.len() {
        return false;
    }
    let mut i: usize = 0;
    while i < ps.len()
        invariant
            i <= ps.len() <= cs.len(),
            cs@ == s@,
            ps@ == prefix@,
            forall|k: int| 0 <= k < i ==> s@[k] == #[trigger] prefix@[k],
        decreases ps.len() - i,
    {
        if cs[i] != ps[i] {
            assert(s@.take(prefix@.len() as int)[i as int] != prefix@[i as int]);
            return false;
        }
        i = i + 1;
    }
    assert(s@.take(prefix@.len() as int) =~= prefix@);
    true
}

/// Whether `c` occurs in `s`.
pub fn has_char(s: &str, c: char) -> (r: bool)
    ensures
        r == s@.contains(c),
{
    let cs = chars_of(s);
    let mut i: usize = 0;
    while i < cs.len()
        invariant
            i <= cs.len(),
            cs@ == s@,
            forall|k: int| 0 <= k < i ==> #[trigger] s@[k] != c,
        decreases cs.len() - i,
    {
        if cs[i] == c {
            assert(s@[i as int] == c);
            return true;
        }
        i = i + 1;
    }
    false
}

/// The text before the first `sep`, or all of it.
pub fn before_char(s: &str, sep: char) -> (out: String)
    ensures
        out@ == s@.take(first_index(s@, sep)),
{
    let cs = chars_of(s);
    let mut i: usize = 0;
    while i < cs.len() && cs[i] != sep
        invariant
            i <= cs.len(),
            cs@ == s@,
            forall|k: int| 0 <= k < i ==> #[trigger] s@[k] != sep,
        decreases cs.len() - i,
    {
        i = i + 1;
    }
    proof {
        lemma_first_index_is(s@, sep, i as int);
        assert(s@.take(i as int) =~= cs@.subrange(0, i as int));
    }
    slice_of(&cs, 0, i)
}

/// The character that stands for `d` in base ten.
pub open spec fn digit(d: nat) -> char {
    (('0' as u32) + d) as char
}

/// `n` in base ten, without leading zeros.
pub open spec fn decimal(n: nat) -> Seq<char>
    decreases n,
{
    if n < 10 {
        seq![digit(n)]
    } else {
        decimal(n / 10).push(digit(n % 10))
    }
}

fn digit_char(d: u128) -> (c: char)
    requires
        d < 10,
    ensures
        c == digit(d as nat),
{
    match d {
        0 => '0',
        1 => '1',
        2 => '2',
        3 => '3',
        4 => '4',
        5 => '5',
        6 => '6',
        7 => '7',
        8 => '8',
        _ => '9',
    }
}

/// `n` in base ten, without leading zeros.
pub fn wide_decimal_of(n: u128) -> (out: String)
    ensures
        out@ == decimal(n as nat),
    decreases n,
{
    if n < 10 {
        let mut out = String::new();
        out.push(digit_char(n));
        assert(out@ =~= seq![digit(n as nat)]);
        out
    } else {
        let mut out = wide_decimal_of(n / 10);
        out.push(digit_char(n % 10));
        out
    }
}

/// `n` in base ten, without leading zeros.
pub fn decimal_of(n: u64) -> (out: String)
    ensures
        out@ == decimal(n as nat),
{
    wide_decimal_of(n as u128)
}

/// A character that is one of the ten ASCII digits.
pub open spec fn is_digit(c: char) -> bool {
    '0' as u32 <= c as u32 <= '9' as u32
}

/// A text of ASCII digits, at least one.
pub open spec fn all_digits(s: Seq<char>) -> bool {
    &&& s.len() > 0
    &&& forall|i: int| 0 <= i < s.len() ==> is_digit(#[trigger] s[i])
}

/// The number a text of digits spells in base ten.
pub open spec fn number(s: Seq<char>) -> nat
    decreases s.len(),
{
    if s.len() == 0 {
        0
    } else {
        number(s.drop_last()) * 10 + (s.last() as u32 - '0' as u32) as nat
    }
}

/// More digits never make a number smaller.
proof fn lemma_number_grows(s: Seq<char>, k: int)
    requires
        0 <= k <= s.len(),
    ensures
        number(s.take(k)) <= number(s),
    decreases s.len() - k,
{
    if k < s.len() {
        lemma_number_grows(s, k + 1);
        assert(s.take(k + 1).drop_last() =~= s.take(k));
    } else {
        assert(s.take(k) =~= s);
    }
}

/// The number `chars[from..]` spells, when it is digits to the end and no more than `max`.
pub fn parse_digits(chars: &Vec<char>, from: usize, max: u64) -> (out: Option<u64>)
    requires
        from <= chars.len(),
        max <= 0xffff_ffff_ffff,
    ensures
        out is Some <==> all_digits(chars@.skip(from as int)) && number(chars@.skip(from as int))
            <= max,
        out is Some ==> out->0 == number(chars@.skip(from as int)),
{
    let ghost rest = chars@.skip(from as int);
    let n: usize = chars.len();
    if from == n {
        return None;
    }
    let mut value: u64 = 0;
    let mut i: usize = from;
    while i < n
        invariant
            from <= i <= n == chars.len(),
            max <= 0xffff_ffff_ffff,
            rest == chars@.skip(from as int),
            value <= max,
            value == number(rest.take(i - from)),
            forall|k: int| 0 <= k < i - from ==> is_digit(#[trigger] rest[k]),
        decreases n - i,
    {
        let c: u32 = chars[i] as u32;
        if c < 48 || c > 57 {
            assert(!is_digit(rest[i - from]));
            return None;
        }
        let d: u64 = (c - 48) as u64;
        assert(rest.take(i - from + 1).drop_last() =~= rest.take(i - from));
        value = value * 10 + d;
        if value > max {
            proof {
                lemma_number_grows(rest, i - from + 1);
            }
            return None;
        }
        i = i + 1;
    }
    assert(rest.take(i - from) =~= rest);
    Some(value)
}

/// The character that stands for `d` in base sixteen, in lower case.
pub open spec fn hex_digit(d: nat) -> char {
    if d < 10 {
        (('0' as u32) + d) as char
    } else {
        (('a' as u32) + d - 10) as char
    }
}

/// Each byte as two base-sixteen digits, in lower case.
pub open spec fn hex(bytes: Seq<u8>) -> Seq<char>
    decreases bytes.len(),
{
    if bytes.len() == 0 {
        Seq::empty()
    } else {
        hex(bytes.drop_last()).push(hex_digit(bytes.last() as nat / 16)).push(
            hex_digit(bytes.last() as nat % 16),
        )
    }
}

/// The character that stands for `d` in base sixteen, in lower case.
pub fn hex_char(d: u8) -> (c: char)
    requires
        d < 16,
    ensures
        c == hex_digit(d as nat),
{
    match d {
        0 => '0',
        1 => '1',
        2 => '2',
        3 => '3',
        4 => '4',
        5 => '5',
        6 => '6',
        7 => '7',
        8 => '8',
        9 => '9',
        10 => 'a',
        11 => 'b',
        12 => 'c',
        13 => 'd',
        14 => 'e',
        _ => 'f',
    }
}

/// Each byte as two base-sixteen digits, in lower case.
pub fn hex_of(bytes: &[u8]) -> (out: String)
    ensures
        out@ == hex(bytes@),
{
    let mut out = String::new();
    let mut i: usize = 0;
    while i < bytes.len()
        invariant
            i <= bytes.len(),
            out@ == hex(bytes@.take(i as int)),
        decreases bytes.len() - i,
    {
        out.push(hex_char(bytes[i] / 16));
        out.push(hex_char(bytes[i] % 16));
        assert(bytes@.take(i + 1).drop_last() =~= bytes@.take(i as int));
        i = i + 1;
    }
    assert(bytes@.take(i as int) =~= bytes@);
    out
}

/// Every character of a hex spelling is a lower-case base-sixteen digit, and there are two for
/// each byte.
pub proof fn lemma_hex(bytes: Seq<u8>)
    ensures
        hex(bytes).len() == 2 * bytes.len(),
        forall|i: int|
            0 <= i < hex(bytes).len() ==> ('0' as u32 <= #[trigger] hex(bytes)[i] as u32 <= '9' as u32
                || 'a' as u32 <= hex(bytes)[i] as u32 <= 'f' as u32),
    decreases bytes.len(),
{
    if bytes.len() > 0 {
        lemma_hex(bytes.drop_last());
        assert(bytes.last() as nat / 16 < 16);
    }
}

pub proof fn lemma_hex_digits_differ(a: nat, b: nat)
    requires
        a < 16,
        b < 16,
        hex_digit(a) == hex_digit(b),
    ensures
        a == b,
{
    assert(hex_digit(a) as u32 == if a < 10 {
        48 + a
    } else {
        87 + a
    });
    assert(hex_digit(b) as u32 == if b < 10 {
        48 + b
    } else {
        87 + b
    });
}

/// Different bytes have different hex spellings.
pub proof fn lemma_hex_is_injective(a: Seq<u8>, b: Seq<u8>)
    requires
        hex(a) == hex(b),
    ensures
        a == b,
    decreases a.len(),
{
    lemma_hex(a);
    lemma_hex(b);
    if a.len() > 0 {
        let n = hex(a).len() as int;
        assert(hex(a)[n - 1] == hex(b)[n - 1]);
        assert(hex(a)[n - 2] == hex(b)[n - 2]);
        lemma_hex(a.drop_last());
        lemma_hex(b.drop_last());
        assert(hex(a).take(n - 2) =~= hex(a.drop_last()));
        assert(hex(b).take(n - 2) =~= hex(b.drop_last()));
        lemma_hex_is_injective(a.drop_last(), b.drop_last());
        let (x, y) = (a.last() as nat, b.last() as nat);
        assert(hex(a)[n - 1] == hex_digit(x % 16) && hex(a)[n - 2] == hex_digit(x / 16));
        assert(hex(b)[n - 1] == hex_digit(y % 16) && hex(b)[n - 2] == hex_digit(y / 16));
        lemma_hex_digits_differ(x / 16, y / 16);
        lemma_hex_digits_differ(x % 16, y % 16);
        assert(a =~= a.drop_last().push(a.last()));
        assert(b =~= b.drop_last().push(b.last()));
    } else {
        assert(b =~= a);
    }
}

/// Where the first word of `s` ends: at its first white space, or at its end.
pub open spec fn word_end(s: Seq<char>) -> int
    decreases s.len(),
{
    if s.len() == 0 || white_space(s[0]) {
        0
    } else {
        1 + word_end(s.skip(1))
    }
}

/// The second word of `s`, where words are what white space separates.
pub open spec fn second_word(s: Seq<char>) -> Option<Seq<char>> {
    let first = trimmed_start(s);
    let rest = trimmed_start(first.skip(word_end(first)));
    if rest.len() == 0 {
        None
    } else {
        Some(rest.take(word_end(rest)))
    }
}

fn skip_spaces(cs: &Vec<char>, from: usize) -> (at: usize)
    requires
        from <= cs.len(),
    ensures
        from <= at <= cs.len(),
        trimmed_start(cs@.skip(from as int)) == cs@.skip(at as int),
{
    let mut at: usize = from;
    while at < cs.len() && is_white_space(cs[at])
        invariant
            from <= at <= cs.len(),
            trimmed_start(cs@.skip(from as int)) == trimmed_start(cs@.skip(at as int)),
        decreases cs.len() - at,
    {
        assert(cs@.skip(at as int).skip(1) =~= cs@.skip(at + 1));
        at = at + 1;
    }
    at
}

fn skip_word(cs: &Vec<char>, from: usize) -> (at: usize)
    requires
        from <= cs.len(),
    ensures
        from <= at <= cs.len(),
        at == from + word_end(cs@.skip(from as int)),
{
    let mut at: usize = from;
    while at < cs.len() && !is_white_space(cs[at])
        invariant
            from <= at <= cs.len(),
            from + word_end(cs@.skip(from as int)) == at + word_end(cs@.skip(at as int)),
        decreases cs.len() - at,
    {
        assert(cs@.skip(at as int).skip(1) =~= cs@.skip(at + 1));
        at = at + 1;
    }
    at
}

/// The second word of `chars[from..]`, as its characters.
pub fn second_word_of(chars: &Vec<char>, from: usize) -> (out: Option<Vec<char>>)
    requires
        from <= chars.len(),
    ensures
        out is Some <==> second_word(chars@.skip(from as int)) is Some,
        out is Some ==> out->0@ == second_word(chars@.skip(from as int))->0,
{
    let a = skip_spaces(chars, from);
    let b = skip_word(chars, a);
    assert(chars@.skip(a as int).skip(b - a) =~= chars@.skip(b as int));
    let c = skip_spaces(chars, b);
    if c == chars.len() {
        return None;
    }
    let d = skip_word(chars, c);
    assert(chars@.skip(c as int).take(d - c) =~= chars@.subrange(c as int, d as int));
    let word = slice_of(chars, c, d);
    Some(chars_of(word.as_str()))
}

/// `c` in lower case, if it is an ASCII letter.
pub open spec fn ascii_lower(c: char) -> char {
    if 'A' as u32 <= c as u32 <= 'Z' as u32 {
        ((c as u32) + 32) as char
    } else {
        c
    }
}

/// Whether two texts are the same, ASCII letters compared without their case.
pub open spec fn same_ignoring_case(a: Seq<char>, b: Seq<char>) -> bool {
    a.len() == b.len() && forall|i: int|
        0 <= i < a.len() ==> ascii_lower(#[trigger] a[i]) == ascii_lower(b[i])
}

fn lower_code(c: char) -> (n: u32)
    ensures
        n == ascii_lower(c) as u32,
{
    let n: u32 = c as u32;
    if 65 <= n && n <= 90 {
        n + 32
    } else {
        n
    }
}

/// Whether `chars[from..from + other]` and `other` are the same but for the case of ASCII
/// letters; false when there are not that many characters.
pub fn matches_ignoring_case(chars: &Vec<char>, from: usize, other: &str) -> (r: bool)
    requires
        from <= chars.len(),
    ensures
        r == (other@.len() <= chars@.len() - from && same_ignoring_case(
            chars@.subrange(from as int, from + other@.len()),
            other@,
        )),
{
    let os = chars_of(other);
    if os.len() > chars.len() - from {
        return false;
    }
    let ghost part = chars@.subrange(from as int, from + other@.len());
    let mut i: usize = 0;
    while i < os.len()
        invariant
            i <= os.len() <= chars.len() - from,
            from <= chars.len(),
            os@ == other@,
            part == chars@.subrange(from as int, from + other@.len()),
            forall|k: int| 0 <= k < i ==> ascii_lower(#[trigger] part[k]) == ascii_lower(other@[k]),
        decreases os.len() - i,
    {
        if lower_code(chars[from + i]) != lower_code(os[i]) {
            assert(ascii_lower(part[i as int]) != ascii_lower(other@[i as int]));
            return false;
        }
        assert(part[i as int] == chars@[from + i]);
        proof {
            let a = ascii_lower(part[i as int]);
            let b = ascii_lower(other@[i as int]);
            assert(a as u32 == b as u32);
        }
        i = i + 1;
    }
    true
}

/// Whether two strings are the same, ASCII letters compared without their case.
pub fn eq_ignoring_case(a: &str, b: &str) -> (r: bool)
    ensures
        r == same_ignoring_case(a@, b@),
{
    let cs = chars_of(a);
    if cs.len() != b.unicode_len() {
        return false;
    }
    assert(cs@.subrange(0, b@.len() as int) =~= a@);
    matches_ignoring_case(&cs, 0, b)
}

/// Whether `a` comes before `b`, character by character, a beginning before what extends it.
pub open spec fn text_before(a: Seq<char>, b: Seq<char>) -> bool
    decreases a.len(),
{
    if b.len() == 0 {
        false
    } else if a.len() == 0 {
        true
    } else if a[0] != b[0] {
        (a[0] as u32) < (b[0] as u32)
    } else {
        text_before(a.skip(1), b.skip(1))
    }
}

pub proof fn lemma_text_before_transitive(a: Seq<char>, b: Seq<char>, c: Seq<char>)
    requires
        text_before(a, b),
        text_before(b, c),
    ensures
        text_before(a, c),
    decreases a.len(),
{
    if a.len() > 0 && a[0] == b[0] && b[0] == c[0] {
        lemma_text_before_transitive(a.skip(1), b.skip(1), c.skip(1));
    }
}

pub proof fn lemma_text_before_total(a: Seq<char>, b: Seq<char>)
    ensures
        !(text_before(a, b) && text_before(b, a)),
        a == b ==> !text_before(a, b),
        a != b ==> text_before(a, b) || text_before(b, a),
    decreases a.len(),
{
    if a.len() > 0 && b.len() > 0 {
        if a[0] == b[0] {
            lemma_text_before_total(a.skip(1), b.skip(1));
            assert(a =~= seq![a[0]] + a.skip(1));
            assert(b =~= seq![b[0]] + b.skip(1));
        } else {
            vstd::utf8::char_u32_cast(a[0], a[0] as u32);
            vstd::utf8::char_u32_cast(b[0], b[0] as u32);
        }
    } else {
        assert(a.len() == 0 && b.len() == 0 ==> a =~= b);
    }
}

/// Whether `a` comes before `b`.
pub fn is_before(a: &str, b: &str) -> (r: bool)
    ensures
        r == text_before(a@, b@),
{
    let xs = chars_of(a);
    let ys = chars_of(b);
    let mut i: usize = 0;
    assert(a@.skip(0) =~= a@);
    assert(b@.skip(0) =~= b@);
    while i < xs.len() && i < ys.len()
        invariant
            i <= xs.len(),
            i <= ys.len(),
            xs@ == a@,
            ys@ == b@,
            text_before(a@, b@) == text_before(a@.skip(i as int), b@.skip(i as int)),
        decreases xs.len() - i,
    {
        let x: char = xs[i];
        let y: char = ys[i];
        if x != y {
            let m: u32 = x as u32;
            let n: u32 = y as u32;
            proof {
                vstd::utf8::char_is_scalar(x);
                vstd::utf8::char_is_scalar(y);
                vstd::utf8::char_u32_cast(x, m);
                vstd::utf8::char_u32_cast(y, n);
            }
            return m < n;
        }
        assert(a@.skip(i as int).skip(1) =~= a@.skip(i + 1));
        assert(b@.skip(i as int).skip(1) =~= b@.skip(i + 1));
        i = i + 1;
    }
    i < ys.len()
}

/// How many UTF-16 units a text takes.
pub open spec fn utf16_len(s: Seq<char>) -> nat
    decreases s.len(),
{
    if s.len() == 0 {
        0
    } else {
        utf16_len(s.drop_last()) + (if s.last() as u32 >= 0x1_0000 {
            2nat
        } else {
            1nat
        })
    }
}

/// What is left of a trimmed text stands in it as one piece, with white space alone before and
/// behind it, and neither begins nor ends with white space.
pub proof fn law_trimming_removes_only_white_space(s: Seq<char>) -> (cut: (Seq<char>, Seq<char>))
    ensures
        s == cut.0 + trimmed(s) + cut.1,
        blank(cut.0),
        blank(cut.1),
        trimmed(s).len() > 0 ==> !white_space(trimmed(s)[0]) && !white_space(trimmed(s).last()),
        blank(s) <==> trimmed(s).len() == 0,
{
    let rest = trimmed_start(s);
    let before = lemma_trimmed_start(s);
    let after = lemma_trimmed_end(rest);
    assert(s =~= before + trimmed(s) + after);
    assert(rest == trimmed(s) + after);
    if trimmed(s).len() > 0 {
        assert(rest[0] == trimmed(s)[0]);
        assert(s[before.len() as int] == rest[0]);
    } else {
        assert forall|i: int| 0 <= i < s.len() implies white_space(#[trigger] s[i]) by {
            if i < before.len() {
                assert(s[i] == before[i]);
            } else {
                assert(s[i] == after[i - before.len()]);
            }
        }
    }
    (before, after)
}

proof fn lemma_trimmed_start(s: Seq<char>) -> (cut: Seq<char>)
    ensures
        s == cut + trimmed_start(s),
        blank(cut),
        trimmed_start(s).len() > 0 ==> !white_space(trimmed_start(s)[0]),
    decreases s.len(),
{
    if s.len() > 0 && white_space(s[0]) {
        let cut = lemma_trimmed_start(s.skip(1));
        assert(trimmed_start(s) == trimmed_start(s.skip(1)));
        assert(s =~= seq![s[0]] + s.skip(1));
        assert(s =~= (seq![s[0]] + cut) + trimmed_start(s));
        seq![s[0]] + cut
    } else {
        assert(s =~= Seq::empty() + s);
        Seq::empty()
    }
}

proof fn lemma_trimmed_end(s: Seq<char>) -> (cut: Seq<char>)
    ensures
        s == trimmed_end(s) + cut,
        blank(cut),
        trimmed_end(s).len() > 0 ==> !white_space(trimmed_end(s).last()),
    decreases s.len(),
{
    if s.len() > 0 && white_space(s.last()) {
        let cut = lemma_trimmed_end(s.drop_last());
        assert(trimmed_end(s) == trimmed_end(s.drop_last()));
        assert(s =~= s.drop_last().push(s.last()));
        assert(s =~= trimmed_end(s) + cut.push(s.last()));
        cut.push(s.last())
    } else {
        assert(s =~= s + Seq::empty());
        Seq::empty()
    }
}

/// Several texts as one, with `sep` between each and the next.
pub open spec fn joined_by(parts: Seq<Seq<char>>, sep: char) -> Seq<char>
    decreases parts.len(),
{
    if parts.len() == 0 {
        Seq::empty()
    } else if parts.len() == 1 {
        parts[0]
    } else {
        parts[0] + seq![sep] + joined_by(parts.skip(1), sep)
    }
}

/// Splitting loses nothing and makes nothing up: the parts joined again are the text, there is
/// always a part, and no part holds what the text was split on.
pub proof fn law_the_parts_make_up_the_whole(s: Seq<char>, sep: char)
    ensures
        split(s, sep).len() > 0,
        joined_by(split(s, sep), sep) == s,
        forall|i: int, j: int|
            0 <= i < split(s, sep).len() && 0 <= j < split(s, sep)[i].len() ==> (
            #[trigger] split(s, sep)[i][j]) != sep,
    decreases s.len(),
{
    lemma_first_index(s, sep);
    let at = first_index(s, sep);
    let parts = split(s, sep);
    if at < s.len() {
        let rest = s.skip(at + 1);
        law_the_parts_make_up_the_whole(rest, sep);
        assert(parts.skip(1) =~= split(rest, sep));
        assert(parts[0] == s.take(at));
        assert(s =~= s.take(at) + seq![sep] + rest);
        assert forall|i: int, j: int|
            0 <= i < parts.len() && 0 <= j < parts[i].len() implies #[trigger] parts[i][j] != sep by {
            if i == 0 {
                assert(parts[0][j] == s[j]);
            } else {
                assert(parts[i] == split(rest, sep)[i - 1]);
            }
        }
    } else {
        assert(parts =~= seq![s]);
    }
}

/// A number spelled in base ten reads back as the same number, in digits alone, with no zero in
/// front of it.
pub proof fn law_a_number_reads_back(n: nat)
    ensures
        number(decimal(n)) == n,
        all_digits(decimal(n)),
        n > 0 ==> decimal(n)[0] != '0',
    decreases n,
{
    if n < 10 {
        assert(decimal(n) =~= seq![digit(n)]);
        assert(decimal(n).drop_last() =~= Seq::empty());
        assert(number(Seq::<char>::empty()) == 0);
        assert(digit(n) as u32 == 48 + n);
    } else {
        let high = decimal(n / 10);
        law_a_number_reads_back(n / 10);
        assert(decimal(n).drop_last() =~= high);
        assert(digit(n % 10) as u32 == 48 + n % 10);
        assert(decimal(n)[0] == high[0]);
        assert forall|i: int| 0 <= i < decimal(n).len() implies is_digit(
            #[trigger] decimal(n)[i],
        ) by {
            if i < high.len() {
                assert(decimal(n)[i] == high[i]);
            }
        }
    }
}

/// The number that digits spell with one more digit behind them is ten times theirs and that
/// digit.
pub proof fn law_a_digit_more_is_ten_times_as_much(s: Seq<char>, d: nat)
    requires
        d < 10,
    ensures
        number(s.push(digit(d))) == 10 * number(s) + d,
        number(Seq::empty()) == 0,
{
    assert(s.push(digit(d)).drop_last() =~= s);
    assert(digit(d) as u32 == 48 + d);
}

/// The second word is a piece of the text without white space, whose neighbours are white space
/// or the end, behind exactly one other word.
pub proof fn law_the_second_word_follows_the_first(
    gap: Seq<char>,
    first: Seq<char>,
    between: Seq<char>,
    second: Seq<char>,
    rest: Seq<char>,
)
    requires
        blank(gap),
        blank(between),
        between.len() > 0,
        first.len() > 0,
        forall|i: int| 0 <= i < first.len() ==> !white_space(#[trigger] first[i]),
        second.len() > 0,
        forall|i: int| 0 <= i < second.len() ==> !white_space(#[trigger] second[i]),
        rest.len() > 0 ==> white_space(rest[0]),
    ensures
        second_word(gap + first + between + second + rest) == Some(second),
        second_word(gap + first + between) is None,
        second_word(gap + first) is None,
        second_word(gap) is None,
{
    let tail = second + rest;
    let s = gap + first + between + second + rest;
    assert(s =~= gap + (first + (between + tail)));
    lemma_trimmed_start_skips(gap, first + (between + tail));
    lemma_word_end_is(first, between + tail);
    assert((first + (between + tail)).skip(first.len() as int) =~= between + tail);
    lemma_trimmed_start_skips(between, tail);
    lemma_word_end_is(second, rest);
    assert(tail.take(second.len() as int) =~= second);

    let none = Seq::<char>::empty();
    assert(gap + first + between =~= gap + (first + between));
    lemma_trimmed_start_skips(gap, first + between);
    lemma_word_end_is(first, between);
    assert((first + between).skip(first.len() as int) =~= between + none);
    lemma_trimmed_start_skips(between, none);

    lemma_trimmed_start_skips(gap, first);
    assert(first + none =~= first);
    lemma_word_end_is(first, none);
    assert(first.skip(first.len() as int) =~= none);

    assert(gap + none =~= gap);
    lemma_trimmed_start_skips(gap, none);
    assert(none.skip(0) =~= none);
}

/// Blank text in front of something that is not is what trimming the start removes.
pub proof fn lemma_trimmed_start_skips(gap: Seq<char>, rest: Seq<char>)
    requires
        blank(gap),
        rest.len() > 0 ==> !white_space(rest[0]),
    ensures
        trimmed_start(gap + rest) == rest,
    decreases gap.len(),
{
    if gap.len() > 0 {
        assert(white_space(gap[0]));
        assert((gap + rest).skip(1) =~= gap.skip(1) + rest);
        assert forall|i: int| 0 <= i < gap.skip(1).len() implies white_space(
            #[trigger] gap.skip(1)[i],
        ) by {
            assert(gap.skip(1)[i] == gap[i + 1]);
        }
        lemma_trimmed_start_skips(gap.skip(1), rest);
    } else {
        assert(gap + rest =~= rest);
    }
}

proof fn lemma_word_end_is(word: Seq<char>, rest: Seq<char>)
    requires
        forall|i: int| 0 <= i < word.len() ==> !white_space(#[trigger] word[i]),
        rest.len() > 0 ==> white_space(rest[0]),
    ensures
        word_end(word + rest) == word.len(),
    decreases word.len(),
{
    if word.len() > 0 {
        assert(!white_space(word[0]));
        assert((word + rest).skip(1) =~= word.skip(1) + rest);
        assert forall|i: int| 0 <= i < word.skip(1).len() implies !white_space(
            #[trigger] word.skip(1)[i],
        ) by {
            assert(word.skip(1)[i] == word[i + 1]);
        }
        lemma_word_end_is(word.skip(1), rest);
    } else {
        assert(word + rest =~= rest);
    }
}

/// Comparing without case tells apart whatever differs in more than the case of a Latin letter,
/// and nothing else.
pub proof fn law_only_the_case_of_letters_is_ignored(a: char, b: char)
    ensures
        a == b ==> ascii_lower(a) == ascii_lower(b),
        'a' as u32 <= a as u32 <= 'z' as u32 && b as u32 == a as u32 - 32 ==> ascii_lower(a)
            == ascii_lower(b),
        ascii_lower(a) == ascii_lower(b) ==> a == b || a as u32 == b as u32 + 32 || b as u32
            == a as u32 + 32,
        !('A' as u32 <= a as u32 <= 'Z' as u32) ==> ascii_lower(a) == a,
        ascii_lower(ascii_lower(a)) == ascii_lower(a),
{
    vstd::utf8::char_u32_cast(a, a as u32);
    vstd::utf8::char_u32_cast(b, b as u32);
}

/// A text comes before every text that extends it, and two that differ first at some place are
/// in the order of their characters there.
pub proof fn law_texts_are_ordered_where_they_first_differ(
    common: Seq<char>,
    a: Seq<char>,
    b: Seq<char>,
)
    ensures
        a.len() > 0 && b.len() > 0 && (a[0] as u32) < (b[0] as u32) ==> text_before(
            common + a,
            common + b,
        ),
        b.len() > 0 ==> text_before(common, common + b),
        !text_before(common + b, common),
    decreases common.len(),
{
    if common.len() > 0 {
        law_texts_are_ordered_where_they_first_differ(common.skip(1), a, b);
        assert((common + a).skip(1) =~= common.skip(1) + a);
        assert((common + b).skip(1) =~= common.skip(1) + b);
    } else {
        assert(common + a =~= a);
        assert(common + b =~= b);
    }
}

/// The UTF-16 units of two texts add up; a character takes two where it lies above the basic
/// plane, and one elsewhere.
pub proof fn law_units_add_up(a: Seq<char>, b: Seq<char>)
    ensures
        utf16_len(a + b) == utf16_len(a) + utf16_len(b),
        a.len() <= utf16_len(a) <= 2 * a.len(),
        a.len() == 1 ==> utf16_len(a) == if a[0] as u32 > 0xffff {
            2nat
        } else {
            1nat
        },
    decreases a.len() + b.len(),
{
    if b.len() > 0 {
        law_units_add_up(a, b.drop_last());
        assert((a + b).drop_last() =~= a + b.drop_last());
    } else {
        assert(a + b =~= a);
        if a.len() > 0 {
            law_units_add_up(a.drop_last(), b);
            assert(a.len() == 1 ==> a.drop_last() =~= Seq::empty());
        }
    }
}

/// In ASCII the white space is the space and what moves the cursor: no letter, digit or mark
/// is white space, and no other control character.
pub proof fn law_what_is_white_space_in_ascii(c: char)
    requires
        (c as u32) < 0x80,
    ensures
        white_space(c) <==> c == ' ' || c == '\t' || c == '\n' || c == '\r' || c as u32 == 0x0b
            || c as u32 == 0x0c,
{
    vstd::utf8::char_u32_cast(c, c as u32);
}

/// A byte's spelling is its high half and then its low half, behind the bytes before it.
pub proof fn law_a_byte_is_spelled_high_half_first(bytes: Seq<u8>, byte: u8)
    ensures
        hex(bytes.push(byte)).len() == hex(bytes).len() + 2,
        hex(bytes.push(byte)).take(hex(bytes).len() as int) == hex(bytes),
        ({
            let high = byte / 16;
            let low = byte % 16;
            let n = hex(bytes).len() as int;
            &&& hex(bytes.push(byte))[n] as u32 == if high < 10 {
                48 + high
            } else {
                87 + high
            }
            &&& hex(bytes.push(byte))[n + 1] as u32 == if low < 10 {
                48 + low
            } else {
                87 + low
            }
        }),
{
    assert(bytes.push(byte).drop_last() =~= bytes);
    assert(hex(bytes.push(byte)).take(hex(bytes).len() as int) =~= hex(bytes));
}

/// Two texts are the same but for case exactly when they are as long and each character of one
/// is that of the other or the same Latin letter in the other case.
pub proof fn law_same_but_for_case(a: Seq<char>, b: Seq<char>)
    ensures
        same_ignoring_case(a, b) ==> a.len() == b.len() && same_ignoring_case(b, a),
        same_ignoring_case(a, a),
        same_ignoring_case(a, b) <==> a.len() == b.len() && forall|i: int|
            0 <= i < a.len() ==> same_letter(#[trigger] a[i], b[i]),
{
    assert forall|i: int| 0 <= i < a.len() && 0 <= i < b.len() implies (same_letter(
        #[trigger] a[i],
        b[i],
    ) <==> ascii_lower(a[i]) == ascii_lower(b[i])) by {
        law_only_the_case_of_letters_is_ignored(a[i], b[i]);
        vstd::utf8::char_u32_cast(a[i], a[i] as u32);
        vstd::utf8::char_u32_cast(b[i], b[i] as u32);
    }
    if same_ignoring_case(a, b) {
        assert forall|i: int| 0 <= i < b.len() implies ascii_lower(#[trigger] b[i]) == ascii_lower(
            a[i],
        ) by {
            assert(ascii_lower(a[i]) == ascii_lower(b[i]));
        }
        assert forall|i: int| 0 <= i < a.len() implies same_letter(#[trigger] a[i], b[i]) by {
            assert(ascii_lower(a[i]) == ascii_lower(b[i]));
        }
    }
}

/// The same character, or the same Latin letter in either case.
pub open spec fn same_letter(a: char, b: char) -> bool {
    ||| a == b
    ||| 'a' as u32 <= a as u32 <= 'z' as u32 && b as u32 + 32 == a as u32
    ||| 'a' as u32 <= b as u32 <= 'z' as u32 && a as u32 + 32 == b as u32
}

/// A text begins with another exactly when it is that text and something behind it.
pub proof fn law_what_a_text_begins_with(s: Seq<char>, prefix: Seq<char>, rest: Seq<char>)
    ensures
        begins_with(prefix + rest, prefix),
        begins_with(s, prefix) ==> s == prefix + s.skip(prefix.len() as int),
        s.len() < prefix.len() ==> !begins_with(s, prefix),
{
    assert((prefix + rest).take(prefix.len() as int) =~= prefix);
    if begins_with(s, prefix) {
        assert(s =~= s.take(prefix.len() as int) + s.skip(prefix.len() as int));
    }
}

/// The ten digits are the digits.
pub proof fn law_there_are_ten_digits(c: char)
    ensures
        is_digit(c) <==> c == '0' || c == '1' || c == '2' || c == '3' || c == '4' || c == '5' || c
            == '6' || c == '7' || c == '8' || c == '9',
{
    vstd::utf8::char_u32_cast(c, c as u32);
}

} // verus!
