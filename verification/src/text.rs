//! Text helpers: decimal numerals and prefix tests on character sequences.

use vstd::prelude::*;
use vstd::string::*;

verus! {

/// The ten decimal digits, in order of value.
pub const DECIMAL_DIGITS: &'static str = "0123456789";

/// The character that writes the digit of value `digit`.
pub open spec fn digit_char(digit: int) -> char
    recommends
        0 <= digit < 10,
{
    DECIMAL_DIGITS@[digit]
}

/// The decimal numeral of a natural number, without leading zeros.
pub open spec fn decimal_digits(value: nat) -> Seq<char>
    decreases value,
{
    if value < 10 {
        seq![digit_char(value as int)]
    } else {
        decimal_digits(value / 10).push(digit_char((value % 10) as int))
    }
}

/// The decimal numeral of an integer: a minus sign before the numeral of its
/// magnitude where it is negative.
pub open spec fn decimal_text(value: int) -> Seq<char> {
    if value < 0 {
        seq!['-'] + decimal_digits((-value) as nat)
    } else {
        decimal_digits(value as nat)
    }
}

/// The one-character text of a decimal digit.
fn digit_str(digit: usize) -> (text: &'static str)
    requires
        digit < 10,
    ensures
        text@ == seq![digit_char(digit as int)],
{
    proof {
        reveal_strlit("0123456789");
    }
    let text = DECIMAL_DIGITS.substring_ascii(digit, digit + 1);
    assert(text@ =~= seq![digit_char(digit as int)]);
    text
}

/// Appends the decimal numeral of `value` to `out`.
fn append_decimal_digits(out: &mut String, value: u64)
    ensures
        final(out)@ == old(out)@ + decimal_digits(value as nat),
    decreases value,
{
    if value >= 10 {
        append_decimal_digits(out, value / 10);
    }
    let ghost before = out@;
    out.append(digit_str((value % 10) as usize));
    assert(out@ =~= old(out)@ + decimal_digits(value as nat));
}

/// Appends the decimal numeral of `value`, signed where negative, to `out`.
pub fn append_decimal(out: &mut String, value: i32)
    ensures
        final(out)@ == old(out)@ + decimal_text(value as int),
{
    let wide: i64 = value as i64;
    if wide < 0 {
        proof {
            reveal_strlit("-");
        }
        out.append("-");
        append_decimal_digits(out, (-wide) as u64);
        assert(out@ =~= old(out)@ + decimal_text(value as int));
    } else {
        append_decimal_digits(out, wide as u64);
    }
}

/// Tells whether `text` begins with `prefix`.
pub fn starts_with(text: &str, prefix: &str) -> (found: bool)
    ensures
        found == prefix@.is_prefix_of(text@),
{
    let prefix_len = prefix.unicode_len();
    if text.unicode_len() < prefix_len {
        return false;
    }
    let mut i: usize = 0;
    while i < prefix_len
        invariant
            i <= prefix_len,
            prefix_len == prefix@.len(),
            prefix@.len() <= text@.len(),
            forall|j: int| 0 <= j < i ==> text@[j] == prefix@[j],
        decreases prefix_len - i,
    {
        if text.get_char(i) != prefix.get_char(i) {
            assert(text@.subrange(0, prefix@.len() as int)[i as int] != prefix@[i as int]);
            return false;
        }
        i += 1;
    }
    assert(prefix@ =~= text@.subrange(0, prefix@.len() as int));
    true
}

/// Whether `c` is one of the ten decimal digits.
pub open spec fn is_digit(c: char) -> bool {
    exists|digit: int| 0 <= digit < 10 && c == digit_char(digit)
}

/// Distinct digit values are written with distinct characters.
pub proof fn lemma_digit_char_injective(a: int, b: int)
    requires
        0 <= a < 10,
        0 <= b < 10,
        digit_char(a) == digit_char(b),
    ensures
        a == b,
{
    reveal_strlit("0123456789");
}

/// A decimal numeral is never empty and holds digits only.
pub proof fn lemma_decimal_digits_shape(value: nat)
    ensures
        decimal_digits(value).len() >= 1,
        value >= 10 ==> decimal_digits(value).len() >= 2,
        forall|i: int| 0 <= i < decimal_digits(value).len() ==> is_digit(decimal_digits(value)[i]),
    decreases value,
{
    if value >= 10 {
        lemma_decimal_digits_shape(value / 10);
        let head = decimal_digits(value / 10);
        assert forall|i: int| 0 <= i < decimal_digits(value).len() implies is_digit(
            decimal_digits(value)[i],
        ) by {
            if i < head.len() {
                assert(decimal_digits(value)[i] == head[i]);
            } else {
                assert(decimal_digits(value)[i] == digit_char((value % 10) as int));
            }
        }
    } else {
        assert(decimal_digits(value)[0] == digit_char(value as int));
    }
}

/// Distinct natural numbers have distinct decimal numerals.
pub proof fn law_decimal_digits_injective(a: nat, b: nat)
    requires
        decimal_digits(a) == decimal_digits(b),
    ensures
        a == b,
    decreases a,
{
    lemma_decimal_digits_shape(a);
    lemma_decimal_digits_shape(b);
    if a < 10 && b < 10 {
        assert(decimal_digits(a)[0] == digit_char(a as int));
        assert(decimal_digits(b)[0] == digit_char(b as int));
        lemma_digit_char_injective(a as int, b as int);
    } else if a >= 10 && b >= 10 {
        let head_a = decimal_digits(a / 10);
        let head_b = decimal_digits(b / 10);
        assert(head_a.push(digit_char((a % 10) as int)).drop_last() =~= head_a);
        assert(head_b.push(digit_char((b % 10) as int)).drop_last() =~= head_b);
        assert(head_a.push(digit_char((a % 10) as int)).last() == digit_char((a % 10) as int));
        assert(head_b.push(digit_char((b % 10) as int)).last() == digit_char((b % 10) as int));
        law_decimal_digits_injective(a / 10, b / 10);
        lemma_digit_char_injective((a % 10) as int, (b % 10) as int);
    } else {
        assert(decimal_digits(a).len() == 1 || decimal_digits(b).len() == 1);
    }
}

/// Distinct integers have distinct decimal numerals.
pub proof fn law_decimal_text_injective(a: int, b: int)
    requires
        decimal_text(a) == decimal_text(b),
    ensures
        a == b,
{
    reveal_strlit("0123456789");
    lemma_decimal_digits_shape(if a < 0 { (-a) as nat } else { a as nat });
    lemma_decimal_digits_shape(if b < 0 { (-b) as nat } else { b as nat });
    if a < 0 && b < 0 {
        let digits_a = decimal_digits((-a) as nat);
        let digits_b = decimal_digits((-b) as nat);
        assert((seq!['-'] + digits_a).drop_first() =~= digits_a);
        assert((seq!['-'] + digits_b).drop_first() =~= digits_b);
        law_decimal_digits_injective((-a) as nat, (-b) as nat);
    } else if a >= 0 && b >= 0 {
        law_decimal_digits_injective(a as nat, b as nat);
    } else if a < 0 {
        let digits_b = decimal_digits(b as nat);
        assert(is_digit(digits_b[0]));
        assert(decimal_text(a)[0] == '-');
    } else {
        let digits_a = decimal_digits(a as nat);
        assert(is_digit(digits_a[0]));
        assert(decimal_text(b)[0] == '-');
    }
}

} // verus!
