//! Character-level text handling: whitespace, digits, trimming, decimal numbers.
//!
//! The mathematical side works on `Seq<char>`; the executable side works on a
//! `Vec<char>` together with a half-open index range, so that pieces of a text
//! are examined in place.

use vstd::prelude::*;

verus! {

/// Whether `c` has the Unicode `White_Space` property.
pub open spec fn is_whitespace(c: char) -> bool {
    let n = c as u32;
    ||| 0x09 <= n <= 0x0D
    ||| n == 0x20
    ||| n == 0x85
    ||| n == 0xA0
    ||| n == 0x1680
    ||| 0x2000 <= n <= 0x200A
    ||| n == 0x2028
    ||| n == 0x2029
    ||| n == 0x202F
    ||| n == 0x205F
    ||| n == 0x3000
}

/// Whether `c` is one of the ten ASCII decimal digits.
pub open spec fn is_digit(c: char) -> bool {
    '0' <= c <= '9'
}

/// The number that the digit `c` stands for.
pub open spec fn digit_value(c: char) -> nat
    recommends
        is_digit(c),
{
    (c as u32 - '0' as u32) as nat
}

/// `s` without its leading whitespace.
pub open spec fn skip_whitespace(s: Seq<char>) -> Seq<char>
    decreases s.len(),
{
    if s.len() > 0 && is_whitespace(s.first()) {
        skip_whitespace(s.drop_first())
    } else {
        s
    }
}

/// `s` without its trailing whitespace.
pub open spec fn drop_trailing_whitespace(s: Seq<char>) -> Seq<char>
    decreases s.len(),
{
    if s.len() > 0 && is_whitespace(s.last()) {
        drop_trailing_whitespace(s.drop_last())
    } else {
        s
    }
}

/// `s` without leading and trailing whitespace.
pub open spec fn trimmed(s: Seq<char>) -> Seq<char> {
    drop_trailing_whitespace(skip_whitespace(s))
}

/// The longest prefix of `s` that holds no whitespace.
pub open spec fn leading_word(s: Seq<char>) -> Seq<char>
    decreases s.len(),
{
    if s.len() > 0 && !is_whitespace(s.first()) {
        seq![s.first()] + leading_word(s.drop_first())
    } else {
        Seq::empty()
    }
}

/// The first whitespace-delimited word of `s`; empty where `s` holds none.
pub open spec fn first_token(s: Seq<char>) -> Seq<char> {
    leading_word(skip_whitespace(s))
}

/// Whether some character of `s` is a decimal digit.
pub open spec fn contains_digit(s: Seq<char>) -> bool {
    exists|i: int| 0 <= i < s.len() && is_digit(#[trigger] s[i])
}

/// Whether every character of `s` is a decimal digit.
pub open spec fn all_digits(s: Seq<char>) -> bool {
    forall|i: int| 0 <= i < s.len() ==> is_digit(#[trigger] s[i])
}

/// The number that the digit string `s` writes in base ten.
pub open spec fn digits_value(s: Seq<char>) -> nat
    decreases s.len(),
{
    if s.len() == 0 {
        0
    } else {
        digits_value(s.drop_last()) * 10 + digit_value(s.last())
    }
}

/// `s` without one leading plus sign, if it has one.
pub open spec fn unsigned_part(s: Seq<char>) -> Seq<char> {
    if s.len() > 0 && s.first() == '+' {
        s.drop_first()
    } else {
        s
    }
}

/// The 16-bit number that `s` writes: an optional plus sign, then one or more
/// decimal digits and nothing else, with a value of at most 65535.
pub open spec fn decimal_u16(s: Seq<char>) -> Option<u16> {
    let body = unsigned_part(s);
    if body.len() > 0 && all_digits(body) && digits_value(body) <= u16::MAX {
        Some(digits_value(body) as u16)
    } else {
        None
    }
}

/// The number of characters of `s` that stand before the first `c`; the
/// length of `s` where `c` does not occur.
pub open spec fn index_of(s: Seq<char>, c: char) -> nat
    decreases s.len(),
{
    if s.len() == 0 || s.first() == c {
        0
    } else {
        1 + index_of(s.drop_first(), c)
    }
}

/// Where the last occurrence of the two characters `a`, `b` begins in `s`.
pub open spec fn last_pair(s: Seq<char>, a: char, b: char) -> Option<int>
    decreases s.len(),
{
    if s.len() < 2 {
        None
    } else if s[s.len() - 2] == a && s[s.len() - 1] == b {
        Some(s.len() - 2)
    } else {
        last_pair(s.drop_last(), a, b)
    }
}

/// The character that writes the digit `d`.
pub open spec fn digit_char(d: nat) -> char
    recommends
        d < 10,
{
    if d == 0 {
        '0'
    } else if d == 1 {
        '1'
    } else if d == 2 {
        '2'
    } else if d == 3 {
        '3'
    } else if d == 4 {
        '4'
    } else if d == 5 {
        '5'
    } else if d == 6 {
        '6'
    } else if d == 7 {
        '7'
    } else if d == 8 {
        '8'
    } else {
        '9'
    }
}

/// `n` written in base ten, without leading zeros.
pub open spec fn decimal(n: nat) -> Seq<char>
    decreases n,
{
    if n < 10 {
        seq![digit_char(n)]
    } else {
        decimal(n / 10).push(digit_char(n % 10))
    }
}

/// Whether `c` is whitespace.
pub fn char_is_whitespace(c: char) -> (b: bool)
    ensures
        b == is_whitespace(c),
{
    let n: u32 = c as u32;
    (0x09 <= n && n <= 0x0D) || n == 0x20 || n == 0x85 || n == 0xA0 || n == 0x1680 || (0x2000 <= n
        && n <= 0x200A) || n == 0x2028 || n == 0x2029 || n == 0x202F || n == 0x205F || n == 0x3000
}

/// Whether `c` is a decimal digit.
pub fn char_is_digit(c: char) -> (b: bool)
    ensures
        b == is_digit(c),
{
    '0' <= c && c <= '9'
}

/// The characters of `s`, in order.
pub fn chars_of(s: &str) -> (v: Vec<char>)
    ensures
        v@ == s@,
{
    let mut v: Vec<char> = Vec::new();
    for c in it: s.chars()
        invariant
            v@ == it.seq().take(it.index() as int),
            it.seq() == s@,
    {
        v.push(c);
    }
    v
}

/// Where the leading whitespace of `v[lo..hi]` ends.
pub fn whitespace_end(v: &Vec<char>, lo: usize, hi: usize) -> (a: usize)
    requires
        lo <= hi <= v.len(),
    ensures
        lo <= a <= hi,
        v@.subrange(a as int, hi as int) == skip_whitespace(v@.subrange(lo as int, hi as int)),
{
    let mut a: usize = lo;
    while a < hi && char_is_whitespace(v[a])
        invariant
            lo <= a <= hi <= v.len(),
            skip_whitespace(v@.subrange(lo as int, hi as int)) == skip_whitespace(
                v@.subrange(a as int, hi as int),
            ),
        decreases hi - a,
    {
        assert(v@.subrange(a as int, hi as int).drop_first() == v@.subrange(a + 1, hi as int));
        a += 1;
    }
    a
}

/// The bounds of `v[lo..hi]` without its leading and trailing whitespace.
pub fn trim_range(v: &Vec<char>, lo: usize, hi: usize) -> (r: (usize, usize))
    requires
        lo <= hi <= v.len(),
    ensures
        lo <= r.0 <= r.1 <= hi,
        v@.subrange(r.0 as int, r.1 as int) == trimmed(v@.subrange(lo as int, hi as int)),
{
    let a = whitespace_end(v, lo, hi);
    let mut b: usize = hi;
    while a < b && char_is_whitespace(v[b - 1])
        invariant
            a <= b <= hi <= v.len(),
            drop_trailing_whitespace(v@.subrange(a as int, hi as int)) == drop_trailing_whitespace(
                v@.subrange(a as int, b as int),
            ),
        decreases b - a,
    {
        assert(v@.subrange(a as int, b as int).drop_last() == v@.subrange(a as int, b - 1));
        b -= 1;
    }
    (a, b)
}

/// The end of the longest run of non-whitespace characters that begins at `lo`.
pub fn word_end(v: &Vec<char>, lo: usize, hi: usize) -> (end: usize)
    requires
        lo <= hi <= v.len(),
    ensures
        lo <= end <= hi,
        v@.subrange(lo as int, end as int) == leading_word(v@.subrange(lo as int, hi as int)),
{
    let mut e: usize = lo;
    while e < hi && !char_is_whitespace(v[e])
        invariant
            lo <= e <= hi <= v.len(),
            leading_word(v@.subrange(lo as int, hi as int)) == v@.subrange(lo as int, e as int)
                + leading_word(v@.subrange(e as int, hi as int)),
        decreases hi - e,
    {
        assert(v@.subrange(e as int, hi as int).drop_first() == v@.subrange(e + 1, hi as int));
        assert(v@.subrange(lo as int, e as int) + seq![v@[e as int]] == v@.subrange(
            lo as int,
            e + 1,
        ));
        e += 1;
    }
    e
}

/// Whether `v[lo..hi]` holds a decimal digit.
pub fn range_contains_digit(v: &Vec<char>, lo: usize, hi: usize) -> (b: bool)
    requires
        lo <= hi <= v.len(),
    ensures
        b == contains_digit(v@.subrange(lo as int, hi as int)),
{
    let ghost s = v@.subrange(lo as int, hi as int);
    let mut i: usize = lo;
    while i < hi
        invariant
            lo <= i <= hi <= v.len(),
            s == v@.subrange(lo as int, hi as int),
            forall|j: int| 0 <= j < i - lo ==> !is_digit(#[trigger] s[j]),
        decreases hi - i,
    {
        if char_is_digit(v[i]) {
            assert(is_digit(s[i - lo]));
            return true;
        }
        i += 1;
    }
    false
}

/// A prefix of a digit string writes no greater a number than the whole.
pub proof fn lemma_digits_value_prefix(s: Seq<char>, k: int)
    requires
        0 <= k <= s.len(),
    ensures
        digits_value(s.take(k)) <= digits_value(s),
    decreases s.len(),
{
    if k == s.len() {
        assert(s.take(k) == s);
    } else {
        lemma_digits_value_prefix(s.drop_last(), k);
        assert(s.drop_last().take(k) == s.take(k));
    }
}

/// The number that `v[lo..hi]` writes, as `decimal_u16` reads it.
pub fn parse_u16_range(v: &Vec<char>, lo: usize, hi: usize) -> (r: Option<u16>)
    requires
        lo <= hi <= v.len(),
    ensures
        r == decimal_u16(v@.subrange(lo as int, hi as int)),
{
    let ghost s = v@.subrange(lo as int, hi as int);
    let start: usize = if lo < hi && v[lo] == '+' {
        lo + 1
    } else {
        lo
    };
    let ghost body = unsigned_part(s);
    assert(body == v@.subrange(start as int, hi as int));
    if start == hi {
        return None;
    }
    let mut acc: u16 = 0;
    let mut i: usize = start;
    while i < hi
        invariant
            start <= i <= hi <= v.len(),
            start < hi,
            s == v@.subrange(lo as int, hi as int),
            body == unsigned_part(s),
            body == v@.subrange(start as int, hi as int),
            all_digits(body.take(i - start)),
            acc == digits_value(body.take(i - start)),
        decreases hi - i,
    {
        let c = v[i];
        assert(c == body[i - start]);
        if !char_is_digit(c) {
            return None;
        }
        let d: u16 = (c as u32 - '0' as u32) as u16;
        proof {
            assert(body.take(i - start + 1).drop_last() == body.take(i - start));
            lemma_digits_value_prefix(body, i - start + 1);
        }
        if acc > 6553 || (acc == 6553 && d > 5) {
            return None;
        }
        acc = acc * 10 + d;
        i += 1;
    }
    assert(body.take(hi - start) == body);
    Some(acc)
}

/// The first position in `v[lo..hi]` that holds `c`, or `hi`.
pub fn find_char(v: &Vec<char>, lo: usize, hi: usize, c: char) -> (pos: usize)
    requires
        lo <= hi <= v.len(),
    ensures
        pos == lo + index_of(v@.subrange(lo as int, hi as int), c),
        lo <= pos <= hi,
        pos < hi ==> v@[pos as int] == c,
        forall|j: int| lo <= j < pos ==> v@[j] != c,
{
    let mut i: usize = lo;
    while i < hi && v[i] != c
        invariant
            lo <= i <= hi <= v.len(),
            index_of(v@.subrange(lo as int, hi as int), c) == (i - lo) + index_of(
                v@.subrange(i as int, hi as int),
                c,
            ),
            forall|j: int| lo <= j < i ==> v@[j] != c,
        decreases hi - i,
    {
        assert(v@.subrange(i as int, hi as int).drop_first() == v@.subrange(i + 1, hi as int));
        i += 1;
    }
    i
}

/// Where the last occurrence of the characters `a`, `b` begins in `v`.
pub fn find_last_pair(v: &Vec<char>, a: char, b: char) -> (pos: Option<usize>)
    ensures
        match pos {
            Some(p) => last_pair(v@, a, b) == Some(p as int) && p + 2 <= v.len(),
            None => last_pair(v@, a, b) is None,
        },
{
    let mut end: usize = v.len();
    assert(v@.take(end as int) == v@);
    while end >= 2
        invariant
            end <= v.len(),
            last_pair(v@, a, b) == last_pair(v@.take(end as int), a, b),
        decreases end,
    {
        if v[end - 2] == a && v[end - 1] == b {
            return Some(end - 2);
        }
        assert(v@.take(end as int).drop_last() == v@.take(end - 1));
        end -= 1;
    }
    None
}

/// The one-character text that writes the digit `d`.
fn digit_str(d: u16) -> (s: &'static str)
    requires
        d < 10,
    ensures
        s@ == seq![digit_char(d as nat)],
{
    proof {
        reveal_strlit("0");
        reveal_strlit("1");
        reveal_strlit("2");
        reveal_strlit("3");
        reveal_strlit("4");
        reveal_strlit("5");
        reveal_strlit("6");
        reveal_strlit("7");
        reveal_strlit("8");
        reveal_strlit("9");
    }
    let s = if d == 0 {
        "0"
    } else if d == 1 {
        "1"
    } else if d == 2 {
        "2"
    } else if d == 3 {
        "3"
    } else if d == 4 {
        "4"
    } else if d == 5 {
        "5"
    } else if d == 6 {
        "6"
    } else if d == 7 {
        "7"
    } else if d == 8 {
        "8"
    } else {
        "9"
    };
    assert(s@ =~= seq![digit_char(d as nat)]);
    s
}

/// Appends `n`, written in base ten, to `out`.
pub fn push_decimal(out: &mut String, n: u16)
    ensures
        final(out)@ == old(out)@ + decimal(n as nat),
    decreases n,
{
    if n >= 10 {
        push_decimal(out, n / 10);
    }
    out.append(digit_str(n % 10));
    assert(final(out)@ =~= old(out)@ + decimal(n as nat));
}

} // verus!
