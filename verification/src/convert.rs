//! Reading and writing decimal integers and integer ranges as text.
//!
//! Every fixed-width integer flag funnels through one conversion at the
//! widest signed width; narrower widths are reached by a numeric cast.  A
//! range literal is `<integer>..<integer>`, both sides present, each side
//! read by the integer rule.

use vstd::prelude::*;

verus! {

use vstd::string::StrSliceExecFns;
use vstd::string::StringExecFns;

/// Whether `c` is a decimal digit.
pub open spec fn is_digit(c: char) -> bool {
    48 <= c as int <= 57
}

/// The value of a decimal digit.
pub open spec fn digit_val(c: char) -> int {
    c as int - 48
}

/// Whether every character of `s` is a decimal digit.
pub open spec fn all_digits(s: Seq<char>) -> bool {
    forall|i: int| 0 <= i < s.len() ==> is_digit(s[i])
}

/// The value of a digit string, most significant digit first.
pub open spec fn digits_val(s: Seq<char>) -> int
    decreases s.len(),
{
    if s.len() == 0 {
        0
    } else {
        digits_val(s.drop_last()) * 10 + digit_val(s.last())
    }
}

/// The integer a piece of text denotes: an optional `-` or `+` sign followed
/// by one or more decimal digits, with no width restriction.  Anything else
/// denotes nothing.
pub open spec fn int_of_text(s: Seq<char>) -> Option<int> {
    if s.len() > 0 && (s[0] == '-' || s[0] == '+') {
        let d = s.subrange(1, s.len() as int);
        if d.len() > 0 && all_digits(d) {
            Some(
                if s[0] == '-' {
                    -digits_val(d)
                } else {
                    digits_val(d)
                },
            )
        } else {
            None
        }
    } else if s.len() > 0 && all_digits(s) {
        Some(digits_val(s))
    } else {
        None
    }
}

/// The widest-signed-width reading of a token: the integer the text denotes,
/// provided it fits.
pub open spec fn spec_parse_int(s: Seq<char>) -> Option<i128> {
    match int_of_text(s) {
        Some(v) => if i128::MIN <= v <= i128::MAX {
            Some(v as i128)
        } else {
            None
        },
        None => None,
    }
}

/// A digit string's value is never negative.
pub proof fn lemma_digits_val_nonneg(s: Seq<char>)
    requires
        all_digits(s),
    ensures
        digits_val(s) >= 0,
    decreases s.len(),
{
    if s.len() > 0 {
        lemma_digits_val_nonneg(s.drop_last());
    }
}

/// Extending a digit string by one digit multiplies its value by ten and
/// adds the digit.
pub proof fn lemma_digits_val_push(s: Seq<char>, c: char)
    ensures
        digits_val(s.push(c)) == digits_val(s) * 10 + digit_val(c),
{
    assert(s.push(c).drop_last() =~= s);
    assert(s.push(c).last() == c);
}

/// A digit string's value only grows as digits are appended: any prefix
/// denotes at most the whole.
pub proof fn lemma_digits_val_prefix_le(s: Seq<char>, m: int)
    requires
        all_digits(s),
        0 <= m <= s.len(),
    ensures
        digits_val(s.take(m)) <= digits_val(s),
    decreases s.len() - m,
{
    if m == s.len() {
        assert(s.take(m) =~= s);
    } else {
        lemma_digits_val_prefix_le(s, m + 1);
        let p = s.take(m + 1);
        assert(p.drop_last() =~= s.take(m));
        assert(p.last() == s[m]);
        lemma_digits_val_nonneg(s.take(m));
    }
}

/// Truncated division by ten, used by the overflow guard of [`parse_int`]:
/// the greatest magnitude whose last digit can still be appended without
/// leaving the widest signed width.
const TENTH_OF_MIN: i128 = -17014118346046923173168730371588410572;

/// Reads a token as an integer at the widest signed width, or nothing if the
/// text does not denote an integer that fits.
pub fn parse_int(s: &str) -> (r: Option<i128>)
    ensures
        r == spec_parse_int(s@),
{
    let n = s.unicode_len();
    if n == 0 {
        return None;
    }
    let c0 = s.get_char(0);
    let neg = c0 == '-';
    let start: usize = if c0 == '-' || c0 == '+' {
        1
    } else {
        0
    };
    if n == start {
        return None;
    }
    let ghost digits: Seq<char> = s@.subrange(start as int, n as int);
    let mut acc: i128 = 0;
    let mut i: usize = start;
    while i < n
        invariant
            n == s@.len(),
            start <= i <= n,
            start == 0 || start == 1,
            start == 1 ==> (s@[0] == '-' || s@[0] == '+'),
            start == 0 ==> !(s@[0] == '-' || s@[0] == '+'),
            neg == (s@[0] == '-'),
            digits == s@.subrange(start as int, n as int),
            all_digits(s@.subrange(start as int, i as int)),
            acc == -digits_val(s@.subrange(start as int, i as int)),
            i128::MIN <= acc <= 0,
        decreases n - i,
    {
        let c = s.get_char(i);
        let cv = c as u32;
        proof {
            assert(s@.subrange(start as int, i as int + 1).drop_last() =~= s@.subrange(
                start as int,
                i as int,
            ));
        }
        if cv < 48 || cv > 57 {
            // `s` has a non-digit where a digit is owed, so it denotes
            // nothing, whichever sign branch applies.
            proof {
                assert(digits[i - start] == s@[i as int]);
                assert(!all_digits(digits));
                assert(s@.subrange(0, n as int) =~= s@);
            }
            return None;
        }
        let d = (cv - 48) as i128;
        if acc < TENTH_OF_MIN || (acc == TENTH_OF_MIN && d > 8) {
            // The digits read so far already overrun the widest signed
            // width; however the rest of the token reads, the token denotes
            // nothing that fits.
            proof {
                let p = s@.subrange(start as int, i as int + 1);
                assert(p =~= s@.subrange(start as int, i as int).push(s@[i as int]));
                lemma_digits_val_push(s@.subrange(start as int, i as int), s@[i as int]);
                assert(digits_val(p) == (-acc) * 10 + d);
                if all_digits(digits) {
                    assert(p =~= digits.take(i + 1 - start));
                    lemma_digits_val_prefix_le(digits, i + 1 - start);
                    lemma_digits_val_nonneg(digits);
                    assert(digits_val(digits) > -(i128::MIN as int));
                }
                assert(s@.subrange(0, n as int) =~= s@);
            }
            return None;
        }
        acc = acc * 10 - d;
        i += 1;
        proof {
            assert(s@.subrange(start as int, i as int) =~= s@.subrange(
                start as int,
                i as int - 1,
            ).push(s@[i - 1]));
            lemma_digits_val_push(s@.subrange(start as int, i as int - 1), s@[i - 1]);
        }
    }
    proof {
        assert(s@.subrange(start as int, i as int) =~= digits);
        assert(s@.subrange(0, n as int) =~= s@);
        lemma_digits_val_nonneg(digits);
    }
    if neg {
        Some(acc)
    } else if acc == i128::MIN {
        // The magnitude is one past the positive end of the width.
        None
    } else {
        Some(-acc)
    }
}

/// The character for one decimal digit.
pub open spec fn char_of_digit(d: int) -> char {
    if d == 0 {
        '0'
    } else if d == 1 {
        '1'
    } else if d == 2 {
        '2'
    } else if d == 3 {
        '3'
    } else if d == 4 {
        '4'
    } else if d == 5 {
        '5'
    } else if d == 6 {
        '6'
    } else if d == 7 {
        '7'
    } else if d == 8 {
        '8'
    } else {
        '9'
    }
}

/// The canonical digit string of a non-negative integer: no sign, no leading
/// zero except for zero itself.
pub open spec fn dec_text(n: int) -> Seq<char>
    recommends
        n >= 0,
    decreases n,
{
    if n < 10 {
        seq![char_of_digit(n)]
    } else {
        dec_text(n / 10).push(char_of_digit(n % 10))
    }
}

/// The canonical text of an integer: a `-` sign for negatives, then the
/// magnitude's digit string.
pub open spec fn spec_int_text(v: int) -> Seq<char> {
    if v < 0 {
        seq!['-'] + dec_text(-v)
    } else {
        dec_text(v)
    }
}

/// Appends one decimal digit to a string.
fn push_digit(s: &mut String, d: u8)
    requires
        d < 10,
    ensures
        final(s)@ == old(s)@.push(char_of_digit(d as int)),
{
    match d {
        0 => {
            proof {
                reveal_strlit("0");
            }
            s.append("0")
        },
        1 => {
            proof {
                reveal_strlit("1");
            }
            s.append("1")
        },
        2 => {
            proof {
                reveal_strlit("2");
            }
            s.append("2")
        },
        3 => {
            proof {
                reveal_strlit("3");
            }
            s.append("3")
        },
        4 => {
            proof {
                reveal_strlit("4");
            }
            s.append("4")
        },
        5 => {
            proof {
                reveal_strlit("5");
            }
            s.append("5")
        },
        6 => {
            proof {
                reveal_strlit("6");
            }
            s.append("6")
        },
        7 => {
            proof {
                reveal_strlit("7");
            }
            s.append("7")
        },
        8 => {
            proof {
                reveal_strlit("8");
            }
            s.append("8")
        },
        _ => {
            proof {
                reveal_strlit("9");
            }
            s.append("9")
        },
    }
    proof {
        assert(final(s)@ =~= old(s)@.push(char_of_digit(d as int)));
    }
}

/// Appends the canonical digit string of `m`.
fn append_dec(s: &mut String, m: u128)
    ensures
        final(s)@ == old(s)@ + dec_text(m as int),
    decreases m,
{
    if m < 10 {
        push_digit(s, m as u8);
        proof {
            assert(old(s)@.push(char_of_digit(m as int)) =~= old(s)@ + dec_text(m as int));
        }
    } else {
        proof {
            assert(m / 10 < m) by (nonlinear_arith)
                requires
                    m >= 10,
            ;
        }
        append_dec(s, m / 10);
        push_digit(s, (m % 10) as u8);
        proof {
            assert((old(s)@ + dec_text(m as int / 10)).push(char_of_digit(m as int % 10)) =~= old(
                s,
            )@ + dec_text(m as int));
        }
    }
}

/// Writes an integer of the widest signed width as its canonical text.
pub fn int_to_text(v: i128) -> (s: String)
    ensures
        s@ == spec_int_text(v as int),
{
    let mut s = String::new();
    if v < 0 {
        proof {
            reveal_strlit("-");
        }
        s.append("-");
        let m: u128 = ((-(v + 1)) as u128) + 1;
        append_dec(&mut s, m);
        proof {
            assert(seq!['-'] + dec_text(m as int) =~= spec_int_text(v as int));
        }
    } else {
        append_dec(&mut s, v as u128);
    }
    s
}

/// The canonical digit string really is all digits, is never empty, and
/// denotes the number it was made from.
pub proof fn lemma_dec_text_val(n: int)
    requires
        n >= 0,
    ensures
        all_digits(dec_text(n)),
        dec_text(n).len() >= 1,
        digits_val(dec_text(n)) == n,
    decreases n,
{
    if n < 10 {
        assert(dec_text(n).drop_last() =~= Seq::<char>::empty());
        assert(digit_val(char_of_digit(n)) == n);
        assert(digits_val(dec_text(n)) == digits_val(Seq::<char>::empty()) * 10 + digit_val(
            char_of_digit(n),
        ));
    } else {
        lemma_dec_text_val(n / 10);
        lemma_digits_val_push(dec_text(n / 10), char_of_digit(n % 10));
        assert(n / 10 * 10 + n % 10 == n);
    }
}

/// Whether the two characters at `i` are the range separator `..`.
pub open spec fn dotdot_at(s: Seq<char>, i: int) -> bool {
    0 <= i && i + 2 <= s.len() && s[i] == '.' && s[i + 1] == '.'
}

/// The first separator position at or after `i`.
pub open spec fn first_dotdot_from(s: Seq<char>, i: int) -> Option<int>
    decreases s.len() - i,
{
    if i < 0 || i + 2 > s.len() {
        None
    } else if dotdot_at(s, i) {
        Some(i)
    } else {
        first_dotdot_from(s, i + 1)
    }
}

/// The position of the first `..` in `s`, if any.
pub open spec fn first_dotdot(s: Seq<char>) -> Option<int> {
    first_dotdot_from(s, 0)
}

/// What `first_dotdot_from` finds: a separator with none before it (within
/// the scanned range), or the absence of any separator in the range.
pub proof fn lemma_first_dotdot_from(s: Seq<char>, i: int)
    requires
        0 <= i,
    ensures
        match first_dotdot_from(s, i) {
            Some(j) => i <= j && dotdot_at(s, j) && forall|k: int| i <= k < j ==> !dotdot_at(s, k),
            None => forall|k: int| i <= k ==> !dotdot_at(s, k),
        },
    decreases s.len() - i,
{
    if i + 2 <= s.len() && !dotdot_at(s, i) {
        lemma_first_dotdot_from(s, i + 1);
    }
}

/// A separator with none before it is exactly what `first_dotdot` returns.
pub proof fn lemma_first_dotdot_is(s: Seq<char>, j: int)
    requires
        dotdot_at(s, j),
        forall|k: int| 0 <= k < j ==> !dotdot_at(s, k),
    ensures
        first_dotdot(s) == Some(j),
{
    lemma_first_dotdot_from(s, 0);
}

/// The two sides of a range literal: the text before the first `..` and the
/// text after it, provided a separator exists and the right side holds no
/// further separator.
pub open spec fn spec_split_range(s: Seq<char>) -> Option<(Seq<char>, Seq<char>)> {
    match first_dotdot(s) {
        Some(i) => {
            let right = s.subrange(i + 2, s.len() as int);
            if first_dotdot(right) is None {
                Some((s.subrange(0, i), right))
            } else {
                None
            }
        },
        None => None,
    }
}

/// The widest-signed-width reading of a range token: both sides read by the
/// integer rule, provided the token splits as a range literal at all.
pub open spec fn spec_parse_range(s: Seq<char>) -> Option<(i128, i128)> {
    match spec_split_range(s) {
        Some((l, r)) => match (spec_parse_int(l), spec_parse_int(r)) {
            (Some(a), Some(b)) => Some((a, b)),
            _ => None,
        },
        None => None,
    }
}

/// The position of the first `..` in `s`, by a forward scan.
fn find_dotdot(s: &str) -> (r: Option<usize>)
    ensures
        match r {
            Some(i) => first_dotdot(s@) == Some(i as int),
            None => first_dotdot(s@) is None,
        },
{
    let n = s.unicode_len();
    if n < 2 {
        proof {
            lemma_first_dotdot_from(s@, 0);
        }
        return None;
    }
    let mut i: usize = 0;
    while i <= n - 2
        invariant
            n == s@.len(),
            2 <= n,
            0 <= i <= n,
            forall|k: int| 0 <= k < i ==> !dotdot_at(s@, k),
        decreases n - i,
    {
        if s.get_char(i) == '.' && s.get_char(i + 1) == '.' {
            proof {
                lemma_first_dotdot_is(s@, i as int);
            }
            return Some(i);
        }
        i += 1;
    }
    proof {
        lemma_first_dotdot_from(s@, 0);
    }
    None
}

/// Reads a token as an integer range at the widest signed width: the start
/// and end on either side of the one `..` separator, or nothing if the token
/// is not such a literal.
pub fn parse_range(s: &str) -> (r: Option<(i128, i128)>)
    ensures
        r == spec_parse_range(s@),
{
    match find_dotdot(s) {
        None => None,
        Some(i) => {
            let n = s.unicode_len();
            proof {
                lemma_first_dotdot_from(s@, 0);
            }
            let left = s.substring_char(0, i);
            let right = s.substring_char(i + 2, n);
            match find_dotdot(right) {
                Some(_) => None,
                None => match (parse_int(left), parse_int(right)) {
                    (Some(a), Some(b)) => Some((a, b)),
                    _ => None,
                },
            }
        },
    }
}

/// The canonical text of a range: both sides canonical, joined by `..`.
pub open spec fn spec_range_text(a: int, b: int) -> Seq<char> {
    spec_int_text(a) + seq!['.', '.'] + spec_int_text(b)
}

/// Writes a range of the widest signed width as its canonical text.
pub fn range_to_text(a: i128, b: i128) -> (s: String)
    ensures
        s@ == spec_range_text(a as int, b as int),
{
    let mut s = int_to_text(a);
    proof {
        reveal_strlit("..");
    }
    s.append("..");
    let tail = int_to_text(b);
    s.append(tail.as_str());
    proof {
        assert(s@ =~= spec_range_text(a as int, b as int));
    }
    s
}

/// No character of an integer's canonical text is a dot.
pub proof fn lemma_int_text_no_dot(v: int)
    ensures
        forall|i: int| 0 <= i < spec_int_text(v).len() ==> spec_int_text(v)[i] != '.',
{
    lemma_dec_text_no_dot(if v < 0 {
        -v
    } else {
        v
    });
}

/// No character of a canonical digit string is a dot.
proof fn lemma_dec_text_no_dot(n: int)
    requires
        n >= 0,
    ensures
        forall|i: int| 0 <= i < dec_text(n).len() ==> dec_text(n)[i] != '.',
    decreases n,
{
    if n < 10 {
        assert(char_of_digit(n) != '.');
    } else {
        lemma_dec_text_no_dot(n / 10);
        assert(char_of_digit(n % 10) != '.');
        assert(forall|i: int|
            0 <= i < dec_text(n / 10).len() ==> dec_text(n)[i] == dec_text(n / 10)[i]);
    }
}

/// Round trip for ranges at the widest signed width: the canonical text of
/// any pair of bounds reads back as exactly those bounds.
pub proof fn lemma_range_text_round_trip(a: i128, b: i128)
    ensures
        spec_parse_range(spec_range_text(a as int, b as int)) == Some((a, b)),
{
    let ta = spec_int_text(a as int);
    let tb = spec_int_text(b as int);
    let t = spec_range_text(a as int, b as int);
    let la = ta.len() as int;
    lemma_int_text_no_dot(a as int);
    lemma_int_text_no_dot(b as int);
    lemma_dec_text_val(if a < 0 {
        -(a as int)
    } else {
        a as int
    });
    lemma_dec_text_val(if b < 0 {
        -(b as int)
    } else {
        b as int
    });
    assert(dotdot_at(t, la));
    assert forall|k: int| 0 <= k < la implies !dotdot_at(t, k) by {
        assert(t[k] == ta[k]);
    }
    lemma_first_dotdot_is(t, la);
    assert(t.subrange(la + 2, t.len() as int) =~= tb);
    assert forall|k: int| 0 <= k implies !dotdot_at(tb, k) by {
        if k + 2 <= tb.len() {
            assert(tb[k] != '.');
        }
    }
    lemma_first_dotdot_from(tb, 0);
    assert(t.subrange(0, la) =~= ta);
    lemma_int_text_round_trip(a);
    lemma_int_text_round_trip(b);
}

/// Round trip at the widest signed width: the canonical text of any value
/// reads back as exactly that value.
pub proof fn lemma_int_text_round_trip(v: i128)
    ensures
        spec_parse_int(spec_int_text(v as int)) == Some(v),
{
    if v < 0 {
        let t = spec_int_text(v as int);
        lemma_dec_text_val(-(v as int));
        assert(t[0] == '-');
        assert(t.subrange(1, t.len() as int) =~= dec_text(-(v as int)));
        assert(int_of_text(t) == Some(v as int));
    } else {
        let t = dec_text(v as int);
        lemma_dec_text_val(v as int);
        assert(is_digit(t[0]));
        assert(!(t[0] == '-' || t[0] == '+'));
        assert(int_of_text(t) == Some(v as int));
    }
}

/// Round trip at width `i8`: the canonical text of any value — and of any
/// range of values — of this width reads back, through the wide funnel, as
/// exactly what it was made from, and the narrowing cast returns the
/// original value.
pub proof fn lemma_round_trip_i8(a: i8, b: i8)
    ensures
        spec_parse_int(spec_int_text(a as int)) == Some(a as i128),
        (a as i128) as i8 == a,
        spec_parse_range(spec_range_text(a as int, b as int)) == Some((a as i128, b as i128)),
        (b as i128) as i8 == b,
{
    lemma_int_text_round_trip(a as i128);
    lemma_range_text_round_trip(a as i128, b as i128);
}

/// Round trip at width `i16`: the canonical text of any value — and of any
/// range of values — of this width reads back, through the wide funnel, as
/// exactly what it was made from, and the narrowing cast returns the
/// original value.
pub proof fn lemma_round_trip_i16(a: i16, b: i16)
    ensures
        spec_parse_int(spec_int_text(a as int)) == Some(a as i128),
        (a as i128) as i16 == a,
        spec_parse_range(spec_range_text(a as int, b as int)) == Some((a as i128, b as i128)),
        (b as i128) as i16 == b,
{
    lemma_int_text_round_trip(a as i128);
    lemma_range_text_round_trip(a as i128, b as i128);
}

/// Round trip at width `i32`: the canonical text of any value — and of any
/// range of values — of this width reads back, through the wide funnel, as
/// exactly what it was made from, and the narrowing cast returns the
/// original value.
pub proof fn lemma_round_trip_i32(a: i32, b: i32)
    ensures
        spec_parse_int(spec_int_text(a as int)) == Some(a as i128),
        (a as i128) as i32 == a,
        spec_parse_range(spec_range_text(a as int, b as int)) == Some((a as i128, b as i128)),
        (b as i128) as i32 == b,
{
    lemma_int_text_round_trip(a as i128);
    lemma_range_text_round_trip(a as i128, b as i128);
}

/// Round trip at width `i64`: the canonical text of any value — and of any
/// range of values — of this width reads back, through the wide funnel, as
/// exactly what it was made from, and the narrowing cast returns the
/// original value.
pub proof fn lemma_round_trip_i64(a: i64, b: i64)
    ensures
        spec_parse_int(spec_int_text(a as int)) == Some(a as i128),
        (a as i128) as i64 == a,
        spec_parse_range(spec_range_text(a as int, b as int)) == Some((a as i128, b as i128)),
        (b as i128) as i64 == b,
{
    lemma_int_text_round_trip(a as i128);
    lemma_range_text_round_trip(a as i128, b as i128);
}

/// Round trip at width `i128`: the canonical text of any value — and of any
/// range of values — of this width reads back, through the wide funnel, as
/// exactly what it was made from, and the narrowing cast returns the
/// original value.
pub proof fn lemma_round_trip_i128(a: i128, b: i128)
    ensures
        spec_parse_int(spec_int_text(a as int)) == Some(a as i128),
        (a as i128) as i128 == a,
        spec_parse_range(spec_range_text(a as int, b as int)) == Some((a as i128, b as i128)),
        (b as i128) as i128 == b,
{
    lemma_int_text_round_trip(a as i128);
    lemma_range_text_round_trip(a as i128, b as i128);
}

/// Round trip at width `isize`: the canonical text of any value — and of any
/// range of values — of this width reads back, through the wide funnel, as
/// exactly what it was made from, and the narrowing cast returns the
/// original value.
pub proof fn lemma_round_trip_isize(a: isize, b: isize)
    ensures
        spec_parse_int(spec_int_text(a as int)) == Some(a as i128),
        (a as i128) as isize == a,
        spec_parse_range(spec_range_text(a as int, b as int)) == Some((a as i128, b as i128)),
        (b as i128) as isize == b,
{
    lemma_int_text_round_trip(a as i128);
    lemma_range_text_round_trip(a as i128, b as i128);
}

/// Round trip at width `u8`: the canonical text of any value — and of any
/// range of values — of this width reads back, through the wide funnel, as
/// exactly what it was made from, and the narrowing cast returns the
/// original value.
pub proof fn lemma_round_trip_u8(a: u8, b: u8)
    ensures
        spec_parse_int(spec_int_text(a as int)) == Some(a as i128),
        (a as i128) as u8 == a,
        spec_parse_range(spec_range_text(a as int, b as int)) == Some((a as i128, b as i128)),
        (b as i128) as u8 == b,
{
    lemma_int_text_round_trip(a as i128);
    lemma_range_text_round_trip(a as i128, b as i128);
}

/// Round trip at width `u16`: the canonical text of any value — and of any
/// range of values — of this width reads back, through the wide funnel, as
/// exactly what it was made from, and the narrowing cast returns the
/// original value.
pub proof fn lemma_round_trip_u16(a: u16, b: u16)
    ensures
        spec_parse_int(spec_int_text(a as int)) == Some(a as i128),
        (a as i128) as u16 == a,
        spec_parse_range(spec_range_text(a as int, b as int)) == Some((a as i128, b as i128)),
        (b as i128) as u16 == b,
{
    lemma_int_text_round_trip(a as i128);
    lemma_range_text_round_trip(a as i128, b as i128);
}

/// Round trip at width `u32`: the canonical text of any value — and of any
/// range of values — of this width reads back, through the wide funnel, as
/// exactly what it was made from, and the narrowing cast returns the
/// original value.
pub proof fn lemma_round_trip_u32(a: u32, b: u32)
    ensures
        spec_parse_int(spec_int_text(a as int)) == Some(a as i128),
        (a as i128) as u32 == a,
        spec_parse_range(spec_range_text(a as int, b as int)) == Some((a as i128, b as i128)),
        (b as i128) as u32 == b,
{
    lemma_int_text_round_trip(a as i128);
    lemma_range_text_round_trip(a as i128, b as i128);
}

/// Round trip at width `u64`: the canonical text of any value — and of any
/// range of values — of this width reads back, through the wide funnel, as
/// exactly what it was made from, and the narrowing cast returns the
/// original value.
pub proof fn lemma_round_trip_u64(a: u64, b: u64)
    ensures
        spec_parse_int(spec_int_text(a as int)) == Some(a as i128),
        (a as i128) as u64 == a,
        spec_parse_range(spec_range_text(a as int, b as int)) == Some((a as i128, b as i128)),
        (b as i128) as u64 == b,
{
    lemma_int_text_round_trip(a as i128);
    lemma_range_text_round_trip(a as i128, b as i128);
}

/// Round trip at width `u128`: the canonical text of a value — and of a
/// range of values — of this width reads back, through the wide funnel, as
/// exactly what it was made from, and the narrowing cast returns the
/// original value.  Only the values that the widest signed width can hold
/// take part: a larger `u128` does not survive the funnel.
pub proof fn lemma_round_trip_u128(a: u128, b: u128)
    requires
        a <= i128::MAX as u128,
        b <= i128::MAX as u128,
    ensures
        spec_parse_int(spec_int_text(a as int)) == Some(a as i128),
        (a as i128) as u128 == a,
        spec_parse_range(spec_range_text(a as int, b as int)) == Some((a as i128, b as i128)),
        (b as i128) as u128 == b,
{
    lemma_int_text_round_trip(a as i128);
    lemma_range_text_round_trip(a as i128, b as i128);
}

/// Round trip at width `usize`: the canonical text of any value — and of any
/// range of values — of this width reads back, through the wide funnel, as
/// exactly what it was made from, and the narrowing cast returns the
/// original value.
pub proof fn lemma_round_trip_usize(a: usize, b: usize)
    ensures
        spec_parse_int(spec_int_text(a as int)) == Some(a as i128),
        (a as i128) as usize == a,
        spec_parse_range(spec_range_text(a as int, b as int)) == Some((a as i128, b as i128)),
        (b as i128) as usize == b,
{
    lemma_int_text_round_trip(a as i128);
    lemma_range_text_round_trip(a as i128, b as i128);
}

} // verus!
