//! Text for the display: lines of bounded length and numbers written in decimal.
//!
//! A line is a `heapless::String` of [`LINE_CAPACITY`] bytes. What it holds is named
//! [`line_text`]; the four functions that call into `heapless` state what they do to it.

use vstd::prelude::*;

verus! {

/// Bytes that a line can hold.
pub const LINE_CAPACITY: usize = 24;

/// `heapless::String`, a string in a buffer of `N` bytes.
#[verifier::external_type_specification]
#[verifier::external_body]
pub struct ExHeaplessString<const N: usize>(heapless::String<N>);

/// A line of text.
pub type Line = heapless::String<LINE_CAPACITY>;

/// The characters that a line holds.
pub uninterp spec fn line_text(line: heapless::String<LINE_CAPACITY>) -> Seq<char>;

/// Calls `heapless::String::new`, which gives an empty string.
#[verifier::external_body]
pub(crate) fn new_line() -> (line: Line)
    ensures
        line_text(line) == Seq::<char>::empty(),
{
    heapless::String::new()
}

/// Calls `heapless::String::push_str`, which appends all of `s` when the bytes of both fit in the
/// capacity, and otherwise changes nothing and reports an error.
#[verifier::external_body]
pub(crate) fn push_str(line: &mut Line, s: &str) -> (r: Result<(), ()>)
    ensures
        r is Ok <==> vstd::utf8::encode_utf8(line_text(*old(line))).len()
            + vstd::utf8::encode_utf8(s@).len() <= LINE_CAPACITY,
        r is Ok ==> line_text(*final(line)) == line_text(*old(line)) + s@,
        r is Err ==> line_text(*final(line)) == line_text(*old(line)),
{
    line.push_str(s)
}

/// Calls `heapless::String::push`, which appends `c` when its bytes still fit in the capacity, and
/// otherwise changes nothing and reports an error.
#[verifier::external_body]
pub(crate) fn push_char(line: &mut Line, c: char) -> (r: Result<(), ()>)
    ensures
        r is Ok <==> vstd::utf8::encode_utf8(line_text(*old(line))).len()
            + vstd::utf8::encode_utf8(seq![c]).len() <= LINE_CAPACITY,
        r is Ok ==> line_text(*final(line)) == line_text(*old(line)).push(c),
        r is Err ==> line_text(*final(line)) == line_text(*old(line)),
{
    line.push(c)
}

/// Calls `heapless::String::as_str`, which gives the characters that the string holds.
#[verifier::external_body]
pub(crate) fn as_str(line: &Line) -> (s: &str)
    ensures
        s@ == line_text(*line),
{
    line.as_str()
}

/// The character of a decimal digit.
pub open spec fn digit(d: nat) -> char {
    (48 + d) as char
}

/// `n` in decimal, without leading zeros.
pub open spec fn decimal(n: nat) -> Seq<char>
    decreases n,
{
    if n < 10 {
        seq![digit(n)]
    } else {
        decimal(n / 10).push(digit(n % 10))
    }
}

/// `n` in decimal behind its sign, which is `+` for zero too.
pub open spec fn signed_decimal(n: int) -> Seq<char> {
    if n < 0 {
        seq!['-'] + decimal((-n) as nat)
    } else {
        seq!['+'] + decimal(n as nat)
    }
}

/// A decimal number has at least one digit, only ASCII characters, and no more digits than its
/// size allows.
pub proof fn lemma_decimal(n: nat)
    ensures
        1 <= decimal(n).len(),
        n < 10 ==> decimal(n).len() <= 1,
        n < 100 ==> decimal(n).len() <= 2,
        n < 1000 ==> decimal(n).len() <= 3,
        n <= u32::MAX ==> decimal(n).len() <= 10,
        vstd::utf8::is_ascii_chars(decimal(n)),
{
    lemma_decimal_digits(n);
    lemma_decimal_bound(n, 1);
    lemma_decimal_bound(n, 2);
    lemma_decimal_bound(n, 3);
    lemma_decimal_bound(n, 10);
    assert(vstd::arithmetic::power::pow(10, 1) == 10 && vstd::arithmetic::power::pow(10, 2) == 100
        && vstd::arithmetic::power::pow(10, 3) == 1000 && vstd::arithmetic::power::pow(10, 10)
        == 10_000_000_000) by {
        reveal_with_fuel(vstd::arithmetic::power::pow, 11);
    }
}

/// Every character of a decimal number is an ASCII digit.
proof fn lemma_decimal_digits(n: nat)
    ensures
        1 <= decimal(n).len(),
        vstd::utf8::is_ascii_chars(decimal(n)),
    decreases n,
{
    if n >= 10 {
        lemma_decimal_digits(n / 10);
    }
}

/// A decimal number is written with the ten digits only.
pub proof fn lemma_decimal_is_digits(n: nat)
    ensures
        forall|i: int| 0 <= i < decimal(n).len() ==> '0' <= #[trigger] decimal(n)[i] <= '9',
    decreases n,
{
    if n >= 10 {
        let above = decimal(n / 10);
        lemma_decimal_is_digits(n / 10);
        assert forall|i: int| 0 <= i < decimal(n).len() implies '0' <= #[trigger] decimal(n)[i]
            <= '9' by {
            if i < above.len() {
                assert(decimal(n)[i] == above[i]);
            }
        }
    }
}

/// A number below the `k`-th power of ten has at most `k` digits.
proof fn lemma_decimal_bound(n: nat, k: nat)
    requires
        k >= 1,
    ensures
        n < vstd::arithmetic::power::pow(10, k) ==> decimal(n).len() <= k,
    decreases k,
{
    if n < vstd::arithmetic::power::pow(10, k) && n >= 10 {
        reveal(vstd::arithmetic::power::pow);
        assert(vstd::arithmetic::power::pow(10, 0) == 1);
        lemma_decimal_bound(n / 10, (k - 1) as nat);
    }
}

/// The number that decimal digits stand for.
pub open spec fn value(digits: Seq<char>) -> int
    decreases digits.len(),
{
    if digits.len() == 0 {
        0
    } else {
        10 * value(digits.drop_last()) + (digits.last() as int - 48)
    }
}

/// A number written in decimal reads as that number.
pub proof fn law_decimal_reads_back(n: nat)
    ensures
        value(decimal(n)) == n,
    decreases n,
{
    reveal_with_fuel(value, 2);
    if n >= 10 {
        law_decimal_reads_back(n / 10);
        assert(decimal(n).drop_last() =~= decimal(n / 10));
    } else {
        assert(decimal(n).drop_last() =~= Seq::<char>::empty());
    }
}

/// A number written in decimal has the ten digits only, no leading zero unless it is zero, and one
/// digit more than its tenth, which is the number's remainder; so no two numbers look the same.
pub proof fn law_decimal_is_canonical(n: nat, d: nat, other: nat)
    requires
        d < 10,
    ensures
        decimal(n).len() > 0,
        forall|i: int| 0 <= i < decimal(n).len() ==> '0' <= #[trigger] decimal(n)[i] <= '9',
        n > 0 ==> decimal(n)[0] != '0',
        n > 0 ==> decimal(10 * n + d) == decimal(n).push((48 + d) as char),
        decimal(d) == seq![(48 + d) as char],
        decimal(n) == decimal(other) ==> n == other,
{
    lemma_decimal_digits(n);
    lemma_decimal_is_digits(n);
    lemma_no_leading_zero(n);
    law_decimal_reads_back(n);
    law_decimal_reads_back(other);
    assert((10 * n + d) / 10 == n && (10 * n + d) % 10 == d);
}

/// A number other than zero starts with another digit than zero.
proof fn lemma_no_leading_zero(n: nat)
    ensures
        n > 0 ==> decimal(n).len() > 0 && decimal(n)[0] != '0',
    decreases n,
{
    if n >= 10 {
        lemma_no_leading_zero(n / 10);
        assert(decimal(n)[0] == decimal(n / 10)[0]);
    }
}

/// A number written with its sign starts with `-` exactly when it is below zero and with `+`
/// otherwise, and what follows is its distance from zero in decimal.
pub proof fn law_signed_decimal_reads_back(n: int)
    ensures
        ({
            let text = signed_decimal(n);
            let digits = text.skip(1);
            &&& text.len() >= 2
            &&& text[0] == if n < 0 {
                '-'
            } else {
                '+'
            }
            &&& value(digits) == if n < 0 {
                -n
            } else {
                n
            }
            &&& digits.len() > 1 ==> digits[0] != '0'
            &&& forall|i: int| 0 <= i < digits.len() ==> '0' <= #[trigger] digits[i] <= '9'
        }),
{
    let size = if n < 0 {
        (-n) as nat
    } else {
        n as nat
    };
    law_decimal_is_canonical(size, 0, size);
    law_decimal_reads_back(size);
    assert(signed_decimal(n).skip(1) =~= decimal(size));
}

/// A line whose characters are all ASCII holds as many bytes as characters.
proof fn lemma_fits(text: Seq<char>, more: Seq<char>)
    requires
        vstd::utf8::is_ascii_chars(text),
        vstd::utf8::is_ascii_chars(more),
    ensures
        vstd::utf8::encode_utf8(text).len() == text.len(),
        vstd::utf8::encode_utf8(more).len() == more.len(),
        vstd::utf8::is_ascii_chars(text + more),
{
    vstd::utf8::is_ascii_chars_encode_utf8(text);
    vstd::utf8::is_ascii_chars_encode_utf8(more);
}

/// Appends `s`, which fits.
pub(crate) fn put_str(line: &mut Line, s: &str)
    requires
        vstd::utf8::is_ascii_chars(line_text(*old(line))),
        vstd::utf8::is_ascii_chars(s@),
        line_text(*old(line)).len() + s@.len() <= LINE_CAPACITY,
    ensures
        line_text(*final(line)) == line_text(*old(line)) + s@,
        vstd::utf8::is_ascii_chars(line_text(*final(line))),
{
    proof {
        lemma_fits(line_text(*line), s@);
    }
    let _ = push_str(line, s);
}

/// Appends `n` in decimal, which fits.
pub(crate) fn put_decimal(line: &mut Line, n: u32)
    requires
        vstd::utf8::is_ascii_chars(line_text(*old(line))),
        line_text(*old(line)).len() + decimal(n as nat).len() <= LINE_CAPACITY,
    ensures
        line_text(*final(line)) == line_text(*old(line)) + decimal(n as nat),
        vstd::utf8::is_ascii_chars(line_text(*final(line))),
    decreases n,
{
    if n >= 10 {
        put_decimal(line, n / 10);
    }
    let c: char = (48u8 + (n % 10) as u8) as char;
    proof {
        assert(c == digit((n % 10) as nat));
        lemma_fits(line_text(*line), seq![c]);
        assert(line_text(*line).push(c) =~= line_text(*line) + seq![c]);
        assert(line_text(*line).push(c) =~= line_text(*old(line)) + decimal(n as nat));
    }
    let _ = push_char(line, c);
}

/// Appends `n` in decimal with its sign, which fits.
pub(crate) fn put_signed_decimal(line: &mut Line, n: i32)
    requires
        vstd::utf8::is_ascii_chars(line_text(*old(line))),
        line_text(*old(line)).len() + signed_decimal(n as int).len() <= LINE_CAPACITY,
    ensures
        line_text(*final(line)) == line_text(*old(line)) + signed_decimal(n as int),
        vstd::utf8::is_ascii_chars(line_text(*final(line))),
{
    let sign: char = if n < 0 {
        '-'
    } else {
        '+'
    };
    let magnitude: u32 = if n < 0 {
        (-(n as i64)) as u32
    } else {
        n as u32
    };
    proof {
        lemma_fits(line_text(*line), seq![sign]);
        assert(line_text(*line).push(sign) =~= line_text(*line) + seq![sign]);
    }
    let _ = push_char(line, sign);
    put_decimal(line, magnitude);
    assert(line_text(*line) =~= line_text(*old(line)) + signed_decimal(n as int));
}

} // verus!
