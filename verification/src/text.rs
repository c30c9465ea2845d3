//! Character-level utilities shared by the lexer and the code generator:
//! building a `String` from a character vector, trimming whitespace, and
//! converting between decimal text and 64-bit integers.

use vstd::prelude::*;

verus! {

/// Relies on `String::push`: appends the character to the end of the string.
#[verifier::external_body]
fn push_char(s: &mut String, c: char)
    ensures
        final(s)@ == old(s)@.push(c),
{
    s.push(c);
}

/// Builds an owned `String` holding exactly the characters of `v`.
pub fn chars_to_string(v: &Vec<char>) -> (s: String)
    ensures
        s@ == v@,
{
    let mut s = String::new();
    let mut i: usize = 0;
    while i < v.len()
        invariant
            i <= v.len(),
            s@ == v@.subrange(0, i as int),
        decreases v.len() - i,
    {
        push_char(&mut s, v[i]);
        i = i + 1;
        assert(s@ =~= v@.subrange(0, i as int));
    }
    assert(s@ =~= v@);
    s
}

/// Collects the characters of `s` into a vector.
pub fn string_to_chars(s: &str) -> (v: Vec<char>)
    ensures
        v@ == s@,
{
    let mut v: Vec<char> = Vec::new();
    for c in it: s.chars()
        invariant
            v@ =~= it.seq().subrange(0, it.index()),
    {
        v.push(c);
    }
    assert(v@ =~= s@);
    v
}

/// The characters with the Unicode `White_Space` property, the set that
/// `str::trim` removes from both ends of a string.
pub open spec fn spec_is_whitespace(c: char) -> bool {
    ||| c == ' '
    ||| c == '\t'
    ||| c == '\n'
    ||| c == '\u{b}'
    ||| c == '\u{c}'
    ||| c == '\r'
    ||| c == '\u{85}'
    ||| c == '\u{a0}'
    ||| c == '\u{1680}'
    ||| ('\u{2000}' <= c && c <= '\u{200a}')
    ||| c == '\u{2028}'
    ||| c == '\u{2029}'
    ||| c == '\u{202f}'
    ||| c == '\u{205f}'
    ||| c == '\u{3000}'
}

/// Decides `spec_is_whitespace`.
pub fn is_whitespace_char(c: char) -> (b: bool)
    ensures
        b == spec_is_whitespace(c),
{
    c == ' ' || c == '\t' || c == '\n' || c == '\u{b}' || c == '\u{c}' || c == '\r'
        || c == '\u{85}' || c == '\u{a0}' || c == '\u{1680}'
        || ('\u{2000}' <= c && c <= '\u{200a}') || c == '\u{2028}' || c == '\u{2029}'
        || c == '\u{202f}' || c == '\u{205f}' || c == '\u{3000}'
}

/// `s` without its leading whitespace.
pub open spec fn spec_trim_start(s: Seq<char>) -> Seq<char>
    decreases s.len(),
{
    if s.len() > 0 && spec_is_whitespace(s[0]) {
        spec_trim_start(s.drop_first())
    } else {
        s
    }
}

/// `s` without its trailing whitespace.
pub open spec fn spec_trim_end(s: Seq<char>) -> Seq<char>
    decreases s.len(),
{
    if s.len() > 0 && spec_is_whitespace(s.last()) {
        spec_trim_end(s.drop_last())
    } else {
        s
    }
}

/// `s` without leading and trailing whitespace, as `str::trim` leaves it.
pub open spec fn spec_trim(s: Seq<char>) -> Seq<char> {
    spec_trim_end(spec_trim_start(s))
}

proof fn lemma_trim_start_skip(s: Seq<char>, lo: int)
    requires
        0 <= lo <= s.len(),
        forall|j: int| 0 <= j < lo ==> spec_is_whitespace(s[j]),
        lo == s.len() || !spec_is_whitespace(s[lo]),
    ensures
        spec_trim_start(s) == s.skip(lo),
    decreases lo,
{
    if lo == 0 {
        assert(s.skip(0) =~= s);
    } else {
        lemma_trim_start_skip(s.drop_first(), lo - 1);
        assert(s.drop_first().skip(lo - 1) =~= s.skip(lo));
    }
}

proof fn lemma_trim_end_take(s: Seq<char>, hi: int)
    requires
        0 <= hi <= s.len(),
        forall|j: int| hi <= j < s.len() ==> spec_is_whitespace(s[j]),
        hi == 0 || !spec_is_whitespace(s[hi - 1]),
    ensures
        spec_trim_end(s) == s.take(hi),
    decreases s.len() - hi,
{
    if hi == s.len() {
        assert(s.take(hi) =~= s);
    } else {
        lemma_trim_end_take(s.drop_last(), hi);
        assert(s.drop_last().take(hi) =~= s.take(hi));
    }
}

/// `v` with leading and trailing whitespace removed.
pub fn trim_chars(v: &Vec<char>) -> (r: Vec<char>)
    ensures
        r@ == spec_trim(v@),
{
    let n = v.len();
    let mut lo: usize = 0;
    while lo < n && is_whitespace_char(v[lo])
        invariant
            lo <= n == v.len(),
            forall|j: int| 0 <= j < lo ==> spec_is_whitespace(v@[j]),
        decreases n - lo,
    {
        lo = lo + 1;
    }
    let mut hi: usize = n;
    while hi > lo && is_whitespace_char(v[hi - 1])
        invariant
            lo <= hi <= n == v.len(),
            forall|j: int| hi <= j < n ==> spec_is_whitespace(v@[j]),
        decreases hi,
    {
        hi = hi - 1;
    }
    let mut r: Vec<char> = Vec::new();
    let mut i: usize = lo;
    while i < hi
        invariant
            lo <= i <= hi <= v.len(),
            r@ == v@.subrange(lo as int, i as int),
        decreases hi - i,
    {
        r.push(v[i]);
        i = i + 1;
        assert(r@ =~= v@.subrange(lo as int, i as int));
    }
    proof {
        lemma_trim_start_skip(v@, lo as int);
        if hi == lo {
            lemma_trim_end_take(v@.skip(lo as int), 0);
        } else {
            lemma_trim_end_take(v@.skip(lo as int), hi - lo);
        }
        assert(v@.skip(lo as int).take(hi - lo) =~= v@.subrange(lo as int, hi as int));
    }
    r
}

/// An ASCII decimal digit.
pub open spec fn spec_is_digit(c: char) -> bool {
    '0' <= c && c <= '9'
}

/// The numeric value of an ASCII decimal digit.
pub open spec fn spec_digit_value(c: char) -> int {
    c as int - '0' as int
}

/// Every character of `s` is an ASCII decimal digit.
pub open spec fn all_digits(s: Seq<char>) -> bool {
    forall|i: int| 0 <= i < s.len() ==> spec_is_digit(s[i])
}

/// The value of a sequence of decimal digits, most significant first.
pub open spec fn digits_value(s: Seq<char>) -> int
    decreases s.len(),
{
    if s.len() == 0 {
        0
    } else {
        digits_value(s.drop_last()) * 10 + spec_digit_value(s.last())
    }
}

/// `s` without its single leading sign character, if it has one.
pub open spec fn literal_body(s: Seq<char>) -> Seq<char> {
    if s.len() > 0 && (s[0] == '+' || s[0] == '-') {
        s.drop_first()
    } else {
        s
    }
}

/// The signed value of a decimal literal with an optional leading sign.
pub open spec fn spec_literal_value(s: Seq<char>) -> int {
    if s.len() > 0 && s[0] == '-' {
        -digits_value(literal_body(s))
    } else {
        digits_value(literal_body(s))
    }
}

/// `s` is text that `i64` parsing accepts: an optional `+` or `-` sign,
/// then one or more ASCII digits, with a value in the `i64` range.
pub open spec fn is_i64_literal(s: Seq<char>) -> bool {
    &&& literal_body(s).len() > 0
    &&& all_digits(literal_body(s))
    &&& i64::MIN <= spec_literal_value(s) <= i64::MAX
}

pub proof fn lemma_digits_value_nonneg(s: Seq<char>)
    requires
        all_digits(s),
    ensures
        digits_value(s) >= 0,
    decreases s.len(),
{
    if s.len() > 0 {
        assert(forall|i: int| 0 <= i < s.drop_last().len() ==> s.drop_last()[i] == s[i]);
        lemma_digits_value_nonneg(s.drop_last());
    }
}

/// A prefix of a digit string never exceeds the whole string in value.
pub proof fn lemma_digits_value_take(s: Seq<char>, k: int)
    requires
        all_digits(s),
        0 <= k <= s.len(),
    ensures
        digits_value(s.take(k)) <= digits_value(s),
    decreases s.len() - k,
{
    if k == s.len() {
        assert(s.take(k) =~= s);
    } else {
        assert(forall|i: int| 0 <= i < s.drop_last().len() ==> s.drop_last()[i] == s[i]);
        lemma_digits_value_take(s.drop_last(), k);
        assert(s.drop_last().take(k) =~= s.take(k));
        lemma_digits_value_nonneg(s.drop_last());
    }
}

/// Parses `v` as a 64-bit signed decimal integer, accepting exactly the
/// texts that `is_i64_literal` describes.
pub fn parse_i64(v: &Vec<char>) -> (r: Option<i64>)
    ensures
        match r {
            Some(value) => is_i64_literal(v@) && value as int == spec_literal_value(v@),
            None => !is_i64_literal(v@),
        },
{
    let n = v.len();
    let mut start: usize = 0;
    let mut negative: bool = false;
    if n > 0 && (v[0] == '+' || v[0] == '-') {
        negative = v[0] == '-';
        start = 1;
    }
    if start >= n {
        assert(literal_body(v@).len() == 0);
        return None;
    }
    let limit: u64 = if negative {
        9223372036854775808u64
    } else {
        9223372036854775807u64
    };
    let ghost body = literal_body(v@);
    assert(body =~= v@.subrange(start as int, n as int));
    let mut mag: u64 = 0;
    let mut i: usize = start;
    while i < n
        invariant
            start <= i <= n == v@.len(),
            start == 1 <==> n > 0 && (v@[0] == '+' || v@[0] == '-'),
            start == 0 || start == 1,
            negative <==> n > 0 && v@[0] == '-',
            limit == (if negative { 9223372036854775808u64 } else { 9223372036854775807u64 }),
            body == literal_body(v@),
            body =~= v@.subrange(start as int, n as int),
            forall|j: int| start <= j < i ==> spec_is_digit(v@[j]),
            mag as int == digits_value(v@.subrange(start as int, i as int)),
            mag <= limit,
        decreases n - i,
    {
        let c = v[i];
        if !('0' <= c && c <= '9') {
            assert(!all_digits(body)) by {
                assert(body[i - start as int] == v@[i as int]);
            }
            return None;
        }
        let d: u64 = (c as u64) - 48;
        assert(d as int == spec_digit_value(c));
        assert(d <= 9);
        if mag > (limit - d) / 10 {
            proof {
                let taken = v@.subrange(start as int, i + 1);
                assert(taken.drop_last() =~= v@.subrange(start as int, i as int));
                assert(taken.last() == v@[i as int]);
                assert(digits_value(taken) == mag * 10 + d);
                assert(mag * 10 + d > limit) by {
                    assert(mag >= (limit - d) / 10 + 1);
                    assert(((limit - d) / 10 + 1) * 10 == ((limit - d) / 10) * 10 + 10);
                    assert(((limit - d) / 10) * 10 + 10 > limit - d) by (nonlinear_arith);
                    assert(mag * 10 >= ((limit - d) / 10 + 1) * 10) by (nonlinear_arith)
                        requires
                            mag >= (limit - d) / 10 + 1,
                    ;
                }
                if all_digits(body) {
                    assert(taken =~= body.take(i + 1 - start));
                    lemma_digits_value_take(body, i + 1 - start);
                    assert(digits_value(body) > limit);
                }
            }
            return None;
        }
        proof {
            assert(mag <= (limit - d) / 10);
            assert(mag * 10 <= ((limit - d) / 10) * 10) by (nonlinear_arith)
                requires
                    mag <= (limit - d) / 10,
            ;
            assert(((limit - d) / 10) * 10 <= limit - d) by (nonlinear_arith);
            let taken = v@.subrange(start as int, i + 1);
            assert(taken.drop_last() =~= v@.subrange(start as int, i as int));
            assert(taken.last() == v@[i as int]);
        }
        mag = mag * 10 + d;
        i = i + 1;
    }
    assert(v@.subrange(start as int, n as int) =~= body);
    assert(mag as int == digits_value(body));
    assert(all_digits(body));
    assert(body.len() > 0);
    if negative {
        assert(spec_literal_value(v@) == -(mag as int));
        if mag == 9223372036854775808u64 {
            Some(i64::MIN)
        } else {
            Some(-(mag as i64))
        }
    } else {
        assert(spec_literal_value(v@) == mag as int);
        Some(mag as i64)
    }
}

/// The ASCII digit character with numeric value `d`.
pub open spec fn spec_digit_char(d: int) -> char {
    if d == 0 {
        '0'
    } else if d == 1 {
        '1'
    } else if d == 2 {
        '2'
    } else if d == 3 {
        '3'
    } else if d == 4 {
        '4'
    } else if d == 5 {
        '5'
    } else if d == 6 {
        '6'
    } else if d == 7 {
        '7'
    } else if d == 8 {
        '8'
    } else {
        '9'
    }
}

/// The decimal digit string of a non-negative integer, without sign or
/// leading zeros (`0` itself is written `"0"`).
pub open spec fn spec_digits(n: int) -> Seq<char>
    decreases n,
{
    if n < 10 {
        seq![spec_digit_char(n)]
    } else {
        spec_digits(n / 10).push(spec_digit_char(n % 10))
    }
}

/// The decimal text of an integer: a `-` sign when negative, then digits.
pub open spec fn spec_decimal(n: int) -> Seq<char> {
    if n < 0 {
        seq!['-'] + spec_digits(-n)
    } else {
        spec_digits(n)
    }
}

proof fn lemma_digit_char_value(d: int)
    requires
        0 <= d <= 9,
    ensures
        spec_is_digit(spec_digit_char(d)),
        spec_digit_value(spec_digit_char(d)) == d,
{
    assert('0' as int == 48 && '1' as int == 49 && '2' as int == 50 && '3' as int == 51 && '4'
        as int == 52 && '5' as int == 53 && '6' as int == 54 && '7' as int == 55 && '8' as int == 56
        && '9' as int == 57);
}

/// The digit string of `n` consists of digits and reads back as `n`.
pub proof fn lemma_spec_digits_value(n: int)
    requires
        n >= 0,
    ensures
        spec_digits(n).len() >= 1,
        all_digits(spec_digits(n)),
        digits_value(spec_digits(n)) == n,
    decreases n,
{
    if n < 10 {
        lemma_digit_char_value(n);
        let s = spec_digits(n);
        assert(s == seq![spec_digit_char(n)]);
        assert(s.len() == 1);
        assert(s.last() == spec_digit_char(n));
        assert(s.drop_last() =~= Seq::<char>::empty());
        assert(digits_value(s.drop_last()) == 0);
        assert(digits_value(s) == digits_value(s.drop_last()) * 10 + spec_digit_value(s.last()));
        assert(digits_value(s) == n);
        assert(all_digits(s));
    } else {
        lemma_spec_digits_value(n / 10);
        lemma_digit_char_value(n % 10);
        let prev = spec_digits(n / 10);
        let s = prev.push(spec_digit_char(n % 10));
        assert(s.drop_last() =~= prev);
        assert(s.last() == spec_digit_char(n % 10));
        assert(digits_value(s) == digits_value(prev) * 10 + spec_digit_value(s.last()));
        assert(digits_value(s) == (n / 10) * 10 + n % 10);
        assert((n / 10) * 10 + n % 10 == n);
        assert(forall|i: int| 0 <= i < s.len() ==> spec_is_digit(#[trigger] s[i]));
    }
}

/// Decimal text parses back to the integer it was formatted from.
pub proof fn lemma_decimal_round_trip(value: i64)
    ensures
        is_i64_literal(spec_decimal(value as int)),
        spec_literal_value(spec_decimal(value as int)) == value as int,
{
    let n = value as int;
    if n >= 0 {
        lemma_spec_digits_value(n);
        let s = spec_digits(n);
        assert(spec_is_digit(s[0]));
        assert(literal_body(spec_decimal(n)) == s);
    } else {
        lemma_spec_digits_value(-n);
        let s = seq!['-'] + spec_digits(-n);
        assert(s[0] == '-');
        assert(s.drop_first() =~= spec_digits(-n));
        assert(literal_body(s) == spec_digits(-n));
    }
}

fn digit_to_char(d: u64) -> (c: char)
    requires
        d <= 9,
    ensures
        c == spec_digit_char(d as int),
{
    match d {
        0 => '0',
        1 => '1',
        2 => '2',
        3 => '3',
        4 => '4',
        5 => '5',
        6 => '6',
        7 => '7',
        8 => '8',
        _ => '9',
    }
}

/// The decimal digit string of `n`.
fn format_u64(n: u64) -> (v: Vec<char>)
    ensures
        v@ == spec_digits(n as int),
{
    let mut rev: Vec<char> = Vec::new();
    let mut m: u64 = n;
    while m >= 10
        invariant
            spec_digits(n as int) == spec_digits(m as int) + rev@.reverse(),
        decreases m,
    {
        let d = m % 10;
        proof {
            let pushed = rev@.push(spec_digit_char(d as int));
            assert(pushed.reverse() =~= seq![spec_digit_char(d as int)] + rev@.reverse());
            assert(spec_digits(m as int) == spec_digits(m as int / 10).push(
                spec_digit_char(m as int % 10),
            ));
            assert(spec_digits(m as int / 10).push(spec_digit_char(m as int % 10)) =~= spec_digits(
                m as int / 10,
            ) + seq![spec_digit_char(m as int % 10)]);
            assert(spec_digits(m as int / 10) + seq![spec_digit_char(m as int % 10)]
                + rev@.reverse() =~= spec_digits(m as int / 10) + pushed.reverse());
        }
        rev.push(digit_to_char(d));
        m = m / 10;
    }
    proof {
        let pushed = rev@.push(spec_digit_char(m as int));
        assert(pushed.reverse() =~= seq![spec_digit_char(m as int)] + rev@.reverse());
        assert(spec_digits(m as int) =~= seq![spec_digit_char(m as int)]);
    }
    rev.push(digit_to_char(m));
    let mut v: Vec<char> = Vec::new();
    let mut i: usize = rev.len();
    while i > 0
        invariant
            i <= rev.len(),
            v@.len() == rev.len() - i,
            forall|j: int| 0 <= j < v@.len() ==> v@[j] == rev@[rev@.len() - 1 - j],
        decreases i,
    {
        i = i - 1;
        v.push(rev[i]);
    }
    assert(v@ =~= rev@.reverse());
    assert(rev@.reverse() == spec_digits(n as int));
    v
}

/// The decimal text of a 64-bit signed integer.
pub fn format_i64(value: i64) -> (v: Vec<char>)
    ensures
        v@ == spec_decimal(value as int),
{
    if value >= 0 {
        format_u64(value as u64)
    } else {
        let mag: u64 = if value == i64::MIN {
            9223372036854775808u64
        } else {
            (-value) as u64
        };
        assert(mag as int == -(value as int));
        let digits = format_u64(mag);
        let mut v: Vec<char> = Vec::new();
        v.push('-');
        let mut i: usize = 0;
        while i < digits.len()
            invariant
                i <= digits.len(),
                v@ == seq!['-'] + digits@.subrange(0, i as int),
            decreases digits.len() - i,
        {
            proof {
                assert(v@.push(digits@[i as int]) =~= seq!['-'] + digits@.subrange(
                    0,
                    i + 1,
                ));
            }
            v.push(digits[i]);
            i = i + 1;
        }
        assert(digits@.subrange(0, digits@.len() as int) =~= digits@);
        v
    }
}

} // verus!
