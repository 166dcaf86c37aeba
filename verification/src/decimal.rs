//! Decimal notation: amounts read from a field as whole hundredths, and
//! integers written out in base ten.

use crate::text::characters;
use vstd::prelude::*;

verus! {

/// Whether `c` is one of the digits `0` to `9`.
pub open spec fn is_digit(c: char) -> bool {
    '0' <= c && c <= '9'
}

/// The value of the digit `c`.
pub open spec fn digit_value(c: char) -> nat
    recommends
        is_digit(c),
{
    (c as int - '0' as int) as nat
}

/// The digit that stands for `value`.
pub open spec fn digit_of(value: nat) -> char
    recommends
        value < 10,
{
    (value + '0' as nat) as char
}

/// Whether `text` holds digits only.
pub open spec fn all_digits(text: Seq<char>) -> bool {
    forall|i: int| 0 <= i < text.len() ==> is_digit(#[trigger] text[i])
}

/// The number that a string of digits writes in base ten; the empty string
/// writes zero.
pub open spec fn number(digits: Seq<char>) -> nat
    decreases digits.len(),
{
    if digits.len() == 0 {
        0
    } else {
        number(digits.drop_last()) * 10 + digit_value(digits.last())
    }
}

/// Whether `c` separates the whole part of an amount from its fraction. A
/// comma and a dot both do.
pub open spec fn is_separator(c: char) -> bool {
    c == ',' || c == '.'
}

/// Where the first separator of `text` stands; the length of `text` if it
/// has none.
pub open spec fn separator_index(text: Seq<char>) -> int
    decreases text.len(),
{
    if text.len() == 0 || is_separator(text.first()) {
        0
    } else {
        1 + separator_index(text.drop_first())
    }
}

/// What stands before the first separator.
pub open spec fn whole_part(text: Seq<char>) -> Seq<char> {
    text.take(separator_index(text))
}

/// What stands after the first separator; empty if there is none.
pub open spec fn fraction_part(text: Seq<char>) -> Seq<char> {
    if separator_index(text) < text.len() {
        text.skip(separator_index(text) + 1)
    } else {
        Seq::empty()
    }
}

/// Whether `text` writes an unsigned decimal number: digits, then at most
/// one separator followed by digits, with a digit on at least one side.
pub open spec fn is_decimal(text: Seq<char>) -> bool {
    &&& all_digits(whole_part(text))
    &&& all_digits(fraction_part(text))
    &&& whole_part(text).len() + fraction_part(text).len() > 0
}

/// The first two places of a fraction, with zeros where it is shorter.
pub open spec fn two_places(fraction: Seq<char>) -> Seq<char> {
    (fraction + seq!['0', '0']).take(2)
}

/// The value of a decimal number in hundredths. Places after the second are
/// cut off.
pub open spec fn hundredths(text: Seq<char>) -> nat {
    number(whole_part(text)) * 100 + number(two_places(fraction_part(text)))
}

/// The amount that a field holds: its value in hundredths where the field
/// writes a decimal number that fits in 64 bits, nothing otherwise.
pub open spec fn amount_of(text: Seq<char>) -> Option<u64> {
    if is_decimal(text) && hundredths(text) <= u64::MAX {
        Some(hundredths(text) as u64)
    } else {
        None
    }
}

/// `value` written in base ten, without leading zeros.
pub open spec fn decimal(value: nat) -> Seq<char>
    decreases value,
{
    if value < 10 {
        seq![digit_of(value)]
    } else {
        decimal(value / 10).push(digit_of(value % 10))
    }
}

/// `value` written in base ten, with a minus sign in front where it is
/// negative.
pub open spec fn signed_decimal(value: int) -> Seq<char> {
    if value < 0 {
        seq!['-'] + decimal((-value) as nat)
    } else {
        decimal(value as nat)
    }
}

/// `separator_index` is the first place that holds a separator.
pub proof fn lemma_separator_index(text: Seq<char>)
    ensures
        0 <= separator_index(text) <= text.len(),
        forall|j: int| 0 <= j < separator_index(text) ==> !is_separator(#[trigger] text[j]),
        separator_index(text) < text.len() ==> is_separator(text[separator_index(text)]),
    decreases text.len(),
{
    if text.len() == 0 || is_separator(text.first()) {
    } else {
        let rest = text.drop_first();
        lemma_separator_index(rest);
        assert forall|j: int| 0 <= j < separator_index(text) implies !is_separator(
            #[trigger] text[j],
        ) by {
            if j > 0 {
                assert(text[j] == rest[j - 1]);
            }
        }
        if separator_index(rest) < rest.len() {
            assert(text[separator_index(text)] == rest[separator_index(rest)]);
        }
    }
}

/// A string of digits writes at least as much as any of its beginnings.
pub proof fn lemma_number_grows(digits: Seq<char>, n: int)
    requires
        0 <= n <= digits.len(),
    ensures
        number(digits.take(n)) <= number(digits),
    decreases digits.len() - n,
{
    if n == digits.len() {
        assert(digits.take(n) == digits);
    } else {
        lemma_number_grows(digits, n + 1);
        let longer = digits.take(n + 1);
        assert(longer.drop_last() == digits.take(n));
    }
}

/// Reads an amount from a field. See [`amount_of`].
pub fn parse_amount(text: &str) -> (amount: Option<u64>)
    ensures
        amount == amount_of(text@),
{
    let chars = characters(text);
    let len = chars.len();
    proof {
        lemma_separator_index(text@);
    }
    let mut whole: u128 = 0;
    let mut i: usize = 0;
    while i < len && chars[i] != ',' && chars[i] != '.'
        invariant
            i <= len == chars.len(),
            chars@ == text@,
            i <= separator_index(text@),
            all_digits(text@.take(i as int)),
            whole == number(text@.take(i as int)),
            whole <= u64::MAX,
        decreases len - i,
    {
        let c = chars[i];
        proof {
            lemma_separator_index(text@);
        }
        assert(i < separator_index(text@));
        if !(c >= '0' && c <= '9') {
            assert(whole_part(text@)[i as int] == c);
            return None;
        }
        assert(text@.take(i + 1).drop_last() == text@.take(i as int));
        whole = whole * 10 + (c as u128 - '0' as u128);
        if whole > u64::MAX as u128 {
            proof {
                if all_digits(whole_part(text@)) {
                    lemma_number_grows(whole_part(text@), i + 1);
                    assert(whole_part(text@).take(i + 1) == text@.take(i + 1));
                }
            }
            return None;
        }
        i += 1;
    }
    proof {
        lemma_separator_index(text@);
        lemma_two_places_empty();
    }
    assert(i == separator_index(text@));
    assert(whole_part(text@) == text@.take(i as int));
    let mut cents: u128 = 0;
    let mut seen: usize = 0;
    if i < len {
        let start = i + 1;
        let mut j: usize = start;
        assert(text@.subrange(start as int, j as int) == Seq::<char>::empty());
        while j < len
            invariant
                start <= j <= len == chars.len(),
                start == separator_index(text@) + 1,
                chars@ == text@,
                all_digits(text@.subrange(start as int, j as int)),
                seen == j - start,
                cents == number(two_places(text@.subrange(start as int, j as int))),
                cents < 100,
            decreases len - j,
        {
            let c = chars[j];
            if !(c >= '0' && c <= '9') {
                assert(fraction_part(text@)[j - start] == c);
                return None;
            }
            let ghost before = text@.subrange(start as int, j as int);
            let ghost after = text@.subrange(start as int, j + 1);
            assert(after == before.push(c));
            proof {
                lemma_two_places(before, c);
            }
            if seen == 0 {
                cents = (c as u128 - '0' as u128) * 10;
            } else if seen == 1 {
                cents = cents + (c as u128 - '0' as u128);
            }
            seen += 1;
            j += 1;
        }
        assert(fraction_part(text@) == text@.subrange(start as int, len as int));
    } else {
        assert(fraction_part(text@) == Seq::<char>::empty());
    }
    if i + seen == 0 {
        return None;
    }
    let total: u128 = whole * 100 + cents;
    if total > u64::MAX as u128 {
        None
    } else {
        Some(total as u64)
    }
}

/// The number that two digits write.
proof fn lemma_number_of_two(places: Seq<char>)
    requires
        places.len() == 2,
    ensures
        number(places) == digit_value(places[0]) * 10 + digit_value(places[1]),
{
    reveal_with_fuel(number, 3);
    assert(places.drop_last().drop_last() == Seq::<char>::empty());
}

/// How the first two places change when a digit is added at the end.
proof fn lemma_two_places(fraction: Seq<char>, c: char)
    requires
        all_digits(fraction),
        is_digit(c),
    ensures
        all_digits(fraction.push(c)),
        fraction.len() == 0 ==> number(two_places(fraction.push(c))) == digit_value(c) * 10,
        fraction.len() == 1 ==> number(two_places(fraction.push(c))) == number(
            two_places(fraction),
        ) + digit_value(c),
        fraction.len() >= 2 ==> two_places(fraction.push(c)) == two_places(fraction),
        number(two_places(fraction.push(c))) < 100,
{
    let longer = fraction.push(c);
    lemma_number_of_two(two_places(longer));
    lemma_number_of_two(two_places(fraction));
    if fraction.len() >= 1 {
        assert(is_digit(fraction[0]));
    }
    if fraction.len() >= 2 {
        assert(is_digit(fraction[1]));
        assert(two_places(longer) == two_places(fraction));
    }
    assert forall|i: int| 0 <= i < longer.len() implies is_digit(#[trigger] longer[i]) by {
        if i < fraction.len() {
            assert(longer[i] == fraction[i]);
        }
    }
}

/// A fraction without digits counts as zero hundredths.
proof fn lemma_two_places_empty()
    ensures
        number(two_places(Seq::<char>::empty())) == 0,
{
    lemma_number_of_two(two_places(Seq::<char>::empty()));
}

/// Appends `value` in base ten to `text`.
pub fn push_decimal(text: &mut String, value: u128)
    ensures
        final(text)@ == old(text)@ + decimal(value as nat),
    decreases value,
{
    if value >= 10 {
        push_decimal(text, value / 10);
    }
    let last: u8 = (value % 10) as u8;
    text.push((last + 48u8) as char);
}

/// `value` in base ten, with a minus sign in front where it is negative.
pub fn decimal_text(value: i128) -> (text: String)
    ensures
        text@ == signed_decimal(value as int),
{
    let mut text = String::new();
    if value < 0 {
        text.push('-');
        let size: u128 = (-(value + 1)) as u128 + 1;
        push_decimal(&mut text, size);
    } else {
        push_decimal(&mut text, value as u128);
    }
    text
}

} // verus!
