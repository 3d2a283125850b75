//! Integers in decimal notation.

use vstd::prelude::*;
use vstd::slice::slice_subrange;

use crate::text;
use crate::text::{chars_of, digit};

verus! {

/// The character of a digit from 0 to 9.
pub open spec fn digit_char(d: nat) -> char {
    (48 + d) as char
}

/// A natural number in decimal digits.
pub open spec fn decimal(n: nat) -> Seq<char>
    decreases n,
{
    if n < 10 {
        seq![digit_char(n)]
    } else {
        decimal(n / 10).push(digit_char(n % 10))
    }
}

/// An integer in decimal digits, with a minus sign where it is negative.
pub open spec fn signed_decimal(n: int) -> Seq<char> {
    if n < 0 {
        seq!['-'] + decimal((-n) as nat)
    } else {
        decimal(n as nat)
    }
}

/// The digits of `n`, with zeros in front up to `width` characters.
pub open spec fn padded(n: nat, width: nat) -> Seq<char> {
    zeros((width - decimal(n).len()) as int) + decimal(n)
}

/// `k` zeros.
pub open spec fn zeros(k: int) -> Seq<char> {
    Seq::new(
        if k < 0 {
            0
        } else {
            k as nat
        },
        |i: int| '0',
    )
}

/// Whether the text is made of digits.
pub open spec fn all_digits(s: Seq<char>) -> bool {
    forall|i: int| 0 <= i < s.len() ==> text::is_digit(#[trigger] s[i])
}

/// The number that a row of digits stands for.
pub open spec fn digits_value(s: Seq<char>) -> nat
    decreases s.len(),
{
    if s.len() == 0 {
        0
    } else {
        (digits_value(s.drop_last()) * 10 + (s.last() as int - 48)) as nat
    }
}

/// The integer a text stands for: digits with an optional sign in front. Nothing
/// else may stand in the text, and the value has to be in range.
pub open spec fn parsed_i64(s: Seq<char>) -> Option<i64> {
    let signed = s.len() > 0 && (s[0] == '+' || s[0] == '-');
    let ds = if signed {
        s.skip(1)
    } else {
        s
    };
    let value = if signed && s[0] == '-' {
        -digits_value(ds)
    } else {
        digits_value(ds) as int
    };
    if ds.len() == 0 || !all_digits(ds) || value < i64::MIN || value > i64::MAX {
        None
    } else {
        Some(value as i64)
    }
}

/// The digits of a number are digits, and they stand for it.
pub proof fn lemma_decimal(n: nat)
    ensures
        decimal(n).len() >= 1,
        all_digits(decimal(n)),
        digits_value(decimal(n)) == n,
    decreases n,
{
    if n < 10 {
        assert(seq![digit_char(n)].drop_last() == Seq::<char>::empty());
        assert(digits_value(Seq::<char>::empty()) == 0);
    } else {
        lemma_decimal(n / 10);
        let d = decimal(n / 10).push(digit_char(n % 10));
        assert(d.drop_last() == decimal(n / 10));
        assert forall|i: int| 0 <= i < d.len() implies text::is_digit(#[trigger] d[i]) by {
            if i < d.len() - 1 {
                assert(d[i] == decimal(n / 10)[i]);
            }
        }
    }
}

/// Reading back the decimal notation of an integer gives the integer.
pub proof fn lemma_decimal_round_trip(n: i64)
    ensures
        parsed_i64(signed_decimal(n as int)) == Some(n),
{
    if n < 0 {
        let ds = decimal((-n) as nat);
        lemma_decimal((-n) as nat);
        assert((seq!['-'] + ds).skip(1) == ds);
    } else {
        lemma_decimal(n as nat);
        assert(text::is_digit(decimal(n as nat)[0]));
    }
}

/// The character of a digit.
fn char_of_digit(d: u8) -> (r: char)
    requires
        d < 10,
    ensures
        r == digit_char(d as nat),
{
    (48 + d) as char
}

/// Writes a number behind a text.
pub fn push_number(out: &mut String, n: u64)
    ensures
        final(out)@ == old(out)@ + decimal(n as nat),
    decreases n,
{
    if n >= 10 {
        push_number(out, n / 10);
        out.push(char_of_digit((n % 10) as u8));
        assert(out@ == old(out)@ + decimal(n as nat));
    } else {
        out.push(char_of_digit(n as u8));
        assert(out@ == old(out)@ + decimal(n as nat));
    }
}

/// A number as text.
pub fn number_text(n: u64) -> (r: String)
    ensures
        r@ == decimal(n as nat),
{
    let mut out = String::new();
    push_number(&mut out, n);
    assert(out@ == decimal(n as nat));
    out
}

/// An integer as text.
pub fn integer_text(n: i64) -> (r: String)
    ensures
        r@ == signed_decimal(n as int),
{
    let mut out = String::new();
    if n < 0 {
        let m: u64 = if n == i64::MIN {
            9223372036854775808
        } else {
            (-n) as u64
        };
        out.push('-');
        push_number(&mut out, m);
        assert(out@ == seq!['-'] + decimal(m as nat));
    } else {
        push_number(&mut out, n as u64);
        assert(out@ == decimal(n as nat));
    }
    out
}

/// Writes a number with zeros in front up to `width` characters.
pub fn push_padded(out: &mut String, n: u64, width: usize)
    ensures
        final(out)@ == old(out)@ + padded(n as nat, width as nat),
{
    let digits: String = number_text(n);
    let len: usize = chars_of(digits.as_str()).len();
    let mut k: usize = len;
    let ghost start = out@;
    while k < width
        invariant
            len <= k,
            k <= width || k == len,
            out@ == start + zeros(k - len),
        decreases width - k,
    {
        out.push('0');
        assert(zeros(k + 1 - len) == zeros(k - len).push('0'));
        k += 1;
    }
    out.append(digits.as_str());
    assert(zeros(k - len) == zeros(width - len));
    assert(out@ == start + padded(n as nat, width as nat));
}

/// Reads an integer.
#[verifier::loop_isolation(false)]
pub fn parse_i64(text: &str) -> (r: Option<i64>)
    ensures
        r == parsed_i64(text@),
{
    let s: Vec<char> = chars_of(text);
    let signed: bool = s.len() > 0 && (s[0] == '+' || s[0] == '-');
    let negative: bool = s.len() > 0 && s[0] == '-';
    let from: usize = if signed {
        1
    } else {
        0
    };
    let ds = slice_subrange(s.as_slice(), from, s.len());
    assert(s@.subrange(0, s@.len() as int) == s@);
    assert(signed ==> ds@ == s@.skip(1));
    if ds.len() == 0 {
        return None;
    }
    let mut acc: u64 = 0;
    let mut big: bool = false;
    let mut i: usize = 0;
    while i < ds.len()
        invariant
            i <= ds.len(),
            forall|j: int| 0 <= j < i ==> text::is_digit(#[trigger] ds@[j]),
            !big ==> acc == digits_value(ds@.take(i as int)) && acc <= 9223372036854775808,
            big ==> digits_value(ds@.take(i as int)) > 9223372036854775808,
        decreases ds.len() - i,
    {
        let c: char = ds[i];
        if !digit(c) {
            assert(!text::is_digit(ds@[i as int]));
            return None;
        }
        assert(ds@.take(i + 1).drop_last() == ds@.take(i as int));
        if !big {
            let d: u128 = (c as u8 - 48) as u128;
            let v: u128 = acc as u128 * 10 + d;
            if v > 9223372036854775808 {
                big = true;
            } else {
                acc = v as u64;
            }
        }
        i += 1;
    }
    assert(ds@.take(i as int) == ds@);
    if big {
        None
    } else if negative {
        if acc == 9223372036854775808 {
            Some(i64::MIN)
        } else {
            Some(-(acc as i64))
        }
    } else if acc == 9223372036854775808 {
        None
    } else {
        Some(acc as i64)
    }
}

/// A text is read as a number just where it is made of digits with at most a sign in front and
/// the number is in range; the digits count from left to right, each ten times the next.
pub proof fn law_numbers_are_read(ds: Seq<char>, d: char)
    requires
        ds.len() > 0,
        all_digits(ds),
    ensures
        parsed_i64(ds) == if digits_value(ds) <= i64::MAX {
            Some(digits_value(ds) as i64)
        } else {
            None
        },
        parsed_i64(seq!['+'] + ds) == parsed_i64(ds),
        parsed_i64(seq!['-'] + ds) == if -digits_value(ds) >= i64::MIN {
            Some((-digits_value(ds)) as i64)
        } else {
            None
        },
        text::is_digit(d) ==> digits_value(seq![d]) == d as int - '0' as int && digits_value(
            ds.push(d),
        ) == 10 * digits_value(ds) + (d as int - '0' as int),
        !text::is_digit(d) ==> parsed_i64(ds.push(d)) is None,
        parsed_i64(Seq::empty()) is None,
{
    assert(text::is_digit(ds[0]));
    let plus = seq!['+'] + ds;
    let minus = seq!['-'] + ds;
    assert(plus.skip(1) =~= ds);
    assert(minus.skip(1) =~= ds);
    assert(ds.push(d).drop_last() =~= ds);
    assert(seq![d].drop_last() =~= Seq::<char>::empty());
    assert(digits_value(Seq::<char>::empty()) == 0);
    if !text::is_digit(d) {
        let all = ds.push(d);
        assert(all[0] == ds[0]);
        assert(all[ds.len() as int] == d);
        assert(!all_digits(all));
    }
}

} // verus!
