//! Decimal integers as the standard `FromStr` of the integer types reads them.

use vstd::prelude::*;
use crate::text::chars_of;

verus! {

/// Whether `c` is an ASCII decimal digit.
pub open spec fn is_digit(c: char) -> bool {
    48 <= (c as u32) <= 57
}

/// Whether every character of `s` is a digit.
pub open spec fn all_digits(s: Seq<char>) -> bool {
    forall|i: int| 0 <= i < s.len() ==> is_digit(#[trigger] s[i])
}

/// The value of a run of digits.
pub open spec fn digits_value(s: Seq<char>) -> nat
    decreases s.len(),
{
    if s.len() == 0 {
        0
    } else {
        digits_value(s.drop_last()) * 10 + ((s.last() as u32) - 48) as nat
    }
}

/// The digits of an unsigned number: the text after an optional leading `+`.
pub open spec fn unsigned_digits(s: Seq<char>) -> Seq<char> {
    if s.len() > 0 && s[0] == '+' {
        s.drop_first()
    } else {
        s
    }
}

/// What `usize::from_str` gives: an optional `+` and at least one digit, of a value
/// that fits.
pub open spec fn usize_value(s: Seq<char>) -> Option<usize> {
    let d = unsigned_digits(s);
    if d.len() > 0 && all_digits(d) && digits_value(d) <= usize::MAX {
        Some(digits_value(d) as usize)
    } else {
        None
    }
}

/// Whether a number text starts with a minus sign.
pub open spec fn is_negative_text(s: Seq<char>) -> bool {
    s.len() > 0 && s[0] == '-'
}

/// The digits of a signed number: the text after an optional leading `+` or `-`.
pub open spec fn signed_digits(s: Seq<char>) -> Seq<char> {
    if s.len() > 0 && (s[0] == '+' || s[0] == '-') {
        s.drop_first()
    } else {
        s
    }
}

/// What `i64::from_str` gives: an optional sign and at least one digit, of a value
/// that fits.
pub open spec fn i64_value(s: Seq<char>) -> Option<i64> {
    let d = signed_digits(s);
    let v: int = if is_negative_text(s) {
        -digits_value(d)
    } else {
        digits_value(d) as int
    };
    if d.len() > 0 && all_digits(d) && i64::MIN <= v <= i64::MAX {
        Some(v as i64)
    } else {
        None
    }
}

/// A text is refused as a number when it is empty or holds a character other than a
/// digit, apart from one leading `+`.
pub proof fn law_usize_value_refuses(s: Seq<char>, i: int)
    ensures
        s.len() == 0 ==> usize_value(s) is None,
        (0 < i < s.len() && !is_digit(s[i])) ==> usize_value(s) is None,
        (s.len() > 0 && s[0] != '+' && !is_digit(s[0])) ==> usize_value(s) is None,
        (s.len() == 1 && s[0] == '+') ==> usize_value(s) is None,
{
    if 0 < i < s.len() && !is_digit(s[i]) {
        let d = unsigned_digits(s);
        if s[0] == '+' {
            assert(d[i - 1] == s[i]);
        } else {
            assert(d[i] == s[i]);
        }
    }
    if s.len() > 0 && s[0] != '+' && !is_digit(s[0]) {
        assert(unsigned_digits(s)[0] == s[0]);
    }
}

/// The value of a run of digits grows by each digit appended: a text of digits reads
/// as the number it writes in base ten.
pub proof fn law_digits_value_step(s: Seq<char>, c: char)
    requires
        is_digit(c),
    ensures
        digits_value(s.push(c)) == digits_value(s) * 10 + ((c as u32) - 48),
{
    assert(s.push(c).drop_last() =~= s);
}

/// A number text reads as its value: with a `+` or without, and with a `-` as its
/// negation, whenever the value fits.
pub proof fn law_number_value_of_digits(d: Seq<char>)
    requires
        d.len() > 0,
        all_digits(d),
    ensures
        digits_value(d) <= usize::MAX ==> usize_value(d) == Some(digits_value(d) as usize),
        digits_value(d) <= usize::MAX ==> usize_value(seq!['+'] + d) == Some(digits_value(d) as usize),
        digits_value(d) <= i64::MAX ==> i64_value(d) == Some(digits_value(d) as i64),
        digits_value(d) <= i64::MAX + 1 ==> i64_value(seq!['-'] + d) == Some((-digits_value(d)) as i64),
{
    assert(d[0] != '+' && d[0] != '-') by {
        assert(is_digit(d[0]));
    }
    assert((seq!['+'] + d).drop_first() =~= d);
    assert((seq!['-'] + d).drop_first() =~= d);
}

proof fn lemma_digits_value_grows(s: Seq<char>, i: int)
    requires
        0 <= i <= s.len(),
        all_digits(s),
    ensures
        digits_value(s.take(i)) <= digits_value(s),
    decreases s.len() - i,
{
    if i < s.len() {
        lemma_digits_value_grows(s, i + 1);
        assert(s.take(i + 1).drop_last() =~= s.take(i));
        assert(is_digit(s[i]));
    } else {
        assert(s.take(i) =~= s);
    }
}

fn digit_value(c: char) -> (d: u32)
    requires
        is_digit(c),
    ensures
        d == (c as u32) - 48,
{
    (c as u32) - 48
}

fn is_digit_char(c: char) -> (b: bool)
    ensures
        b == is_digit(c),
{
    let n: u32 = c as u32;
    48 <= n && n <= 57
}

/// Reads the digits `v[from..]` as a value no greater than `max`.
fn read_digits(v: &Vec<char>, from: usize, max: u128) -> (r: Option<u128>)
    requires
        from <= v@.len(),
        max <= u64::MAX,
    ensures
        ({
            let d = v@.skip(from as int);
            match r {
                Some(x) => all_digits(d) && x == digits_value(d) && x <= max,
                None => !all_digits(d) || digits_value(d) > max,
            }
        }),
{
    let ghost d = v@.skip(from as int);
    let n = v.len();
    let mut acc: u128 = 0;
    let mut i: usize = from;
    assert(d.take(0) =~= Seq::<char>::empty());
    while i < n
        invariant
            from <= i <= n,
            n == v@.len(),
            max <= u64::MAX,
            d == v@.skip(from as int),
            all_digits(d.take(i - from)),
            acc == digits_value(d.take(i - from)),
            acc <= max,
        decreases n - i,
    {
        let c = v[i];
        assert(d[i - from] == c);
        if !is_digit_char(c) {
            return None;
        }
        let ghost prefix = d.take(i - from + 1);
        assert(prefix.drop_last() =~= d.take(i - from));
        assert(prefix.last() == c);
        let next: u128 = acc * 10 + digit_value(c) as u128;
        if next > max {
            proof {
                assert(all_digits(prefix));
                if all_digits(d) {
                    lemma_digits_value_grows(d, i - from + 1);
                }
            }
            return None;
        }
        acc = next;
        i = i + 1;
    }
    assert(d.take(n - from) =~= d);
    Some(acc)
}

/// `usize::from_str`: the value of the text, or `None` where the standard parser
/// refuses it.
pub fn parse_usize(s: &str) -> (r: Option<usize>)
    ensures
        r == usize_value(s@),
{
    let v = chars_of(s);
    let from: usize = if v.len() > 0 && v[0] == '+' {
        1
    } else {
        0
    };
    assert(unsigned_digits(s@) =~= v@.skip(from as int));
    if from >= v.len() {
        return None;
    }
    match read_digits(&v, from, usize::MAX as u128) {
        Some(x) => Some(x as usize),
        None => None,
    }
}

/// `i64::from_str`: the value of the text, or `None` where the standard parser
/// refuses it.
pub fn parse_i64(s: &str) -> (r: Option<i64>)
    ensures
        r == i64_value(s@),
{
    let v = chars_of(s);
    let negative = v.len() > 0 && v[0] == '-';
    let from: usize = if v.len() > 0 && (v[0] == '+' || v[0] == '-') {
        1
    } else {
        0
    };
    assert(signed_digits(s@) =~= v@.skip(from as int));
    if from >= v.len() {
        return None;
    }
    if negative {
        match read_digits(&v, from, 9223372036854775808u128) {
            Some(x) => {
                let m: i128 = 0i128 - (x as i128);
                Some(m as i64)
            },
            None => None,
        }
    } else {
        match read_digits(&v, from, 9223372036854775807u128) {
            Some(x) => Some(x as i64),
            None => None,
        }
    }
}

} // verus!
