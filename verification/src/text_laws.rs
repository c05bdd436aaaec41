//! What taking texts apart and writing numbers promises.

use crate::text::{
    after_prefix, before_suffix, contains_text, decimal, decimal_digits, digit, ends_with,
    first_at, hex_byte, joined, occurs_at, split_parts, starts_with,
};
use vstd::prelude::*;

verus! {

/// A prefix can be taken off a text if and only if the text is the prefix with something
/// behind it, which is what is left.
pub proof fn law_prefix_taken_off(text: Seq<char>, prefix: Seq<char>, rest: Seq<char>)
    ensures
        after_prefix(text, prefix) == Some(rest) <==> text == prefix + rest,
        starts_with(prefix + rest, prefix),
        starts_with(text, prefix) <==> after_prefix(text, prefix) is Some,
{
    let whole = prefix + rest;
    assert(whole.subrange(0, prefix.len() as int) =~= prefix);
    assert(whole.skip(prefix.len() as int) =~= rest);
    if after_prefix(text, prefix) == Some(rest) {
        assert(text =~= text.subrange(0, prefix.len() as int) + text.skip(prefix.len() as int));
    }
}

/// An ending can be taken off a text if and only if the text is something with the ending
/// behind it, which is what is left.
pub proof fn law_suffix_taken_off(text: Seq<char>, suffix: Seq<char>, rest: Seq<char>)
    ensures
        before_suffix(text, suffix) == Some(rest) <==> text == rest + suffix,
        ends_with(rest + suffix, suffix),
        ends_with(text, suffix) <==> before_suffix(text, suffix) is Some,
{
    let whole = rest + suffix;
    let at = rest.len() as int;
    assert(whole.subrange(at, at + suffix.len()) =~= suffix);
    assert(whole.take(at) =~= rest);
    if before_suffix(text, suffix) == Some(rest) {
        let n = text.len() - suffix.len();
        assert(text =~= text.take(n) + text.subrange(n, n + suffix.len()));
    }
}

/// A part stands in a text if and only if the text is something, the part and something
/// else.
pub proof fn law_part_stands_in_text(
    before: Seq<char>,
    part: Seq<char>,
    behind: Seq<char>,
    text: Seq<char>,
)
    ensures
        contains_text(before + part + behind, part),
        contains_text(text, part) ==> exists|a: Seq<char>, b: Seq<char>|
            text == #[trigger] (a + part + b),
{
    let whole = before + part + behind;
    let at = before.len() as int;
    assert(whole.subrange(at, at + part.len()) =~= part);
    assert(occurs_at(whole, part, at));
    if contains_text(text, part) {
        let i = choose|i: int| occurs_at(text, part, i);
        let a = text.take(i);
        let b = text.skip(i + part.len());
        assert(text =~= a + part + b);
    }
}

proof fn lemma_first(text: Seq<char>, part: Seq<char>, at: int)
    requires
        occurs_at(text, part, at),
    ensures
        exists|i: int| first_at(text, part, i),
    decreases at,
{
    if exists|i: int| occurs_at(text, part, i) && i < at {
        let i = choose|i: int| occurs_at(text, part, i) && i < at;
        lemma_first(text, part, i);
    } else {
        assert(first_at(text, part, at));
    }
}

/// A text is split where the separator first stands: putting it between the parts gives the
/// text back, and it stands nowhere before. A text without it is not split.
pub proof fn law_text_split_at_separator(text: Seq<char>, separator: Seq<char>)
    ensures
        split_parts(text, separator) is Some <==> contains_text(text, separator),
        split_parts(text, separator) matches Some((left, right)) ==> {
            &&& text == left + separator + right
            &&& forall|i: int| #[trigger] occurs_at(text, separator, i) ==> left.len() <= i
        },
{
    if contains_text(text, separator) {
        let some = choose|at: int| occurs_at(text, separator, at);
        lemma_first(text, separator, some);
        let at = choose|at: int| first_at(text, separator, at);
        let left = text.take(at);
        let right = text.skip(at + separator.len());
        assert(text =~= left + separator + right) by {
            assert(text.subrange(at, at + separator.len()) == separator);
        }
    }
}

// Numbers.

/// The number that decimal digits stand for.
pub open spec fn number_in(digits: Seq<char>) -> int
    decreases digits.len(),
{
    if digits.len() == 0 {
        0
    } else {
        number_in(digits.drop_last()) * 10 + (digits.last() as int - '0' as int)
    }
}

/// All of them are decimal digits.
pub open spec fn all_digits(text: Seq<char>) -> bool {
    forall|i: int| 0 <= i < text.len() ==> '0' <= #[trigger] text[i] <= '9'
}

proof fn lemma_digits_push(digits: Seq<char>, value: int)
    requires
        all_digits(digits),
        0 <= value < 10,
    ensures
        all_digits(digits.push(digit(value))),
        number_in(digits.push(digit(value))) == number_in(digits) * 10 + value,
{
    let more = digits.push(digit(value));
    assert(more.drop_last() =~= digits);
    assert forall|i: int| 0 <= i < more.len() implies '0' <= #[trigger] more[i] <= '9' by {
        if i < digits.len() {
            assert(more[i] == digits[i]);
        }
    }
}

/// A number in decimal reads as that number, and does not begin with a zero, but for zero
/// itself.
pub proof fn law_decimal_reads_back(value: nat)
    ensures
        number_in(decimal(value)) == value,
        all_digits(decimal(value)),
        decimal(value).len() > 0,
        value > 0 ==> decimal(value)[0] != '0',
    decreases value,
{
    let none: Seq<char> = seq![];
    if value < 10 {
        lemma_digits_push(none, value as int);
        assert(decimal(value) =~= none.push(digit(value as int)));
    } else {
        law_decimal_reads_back(value / 10);
        lemma_digits_push(decimal(value / 10), (value % 10) as int);
    }
}

/// So many last digits of a number read as that number, if it has no more.
pub proof fn law_decimal_digits_read_back(value: nat, width: nat)
    ensures
        decimal_digits(value, width).len() == width,
        all_digits(decimal_digits(value, width)),
        value < pow10(width) ==> number_in(decimal_digits(value, width)) == value,
    decreases width,
{
    if width > 0 {
        let fewer = (width - 1) as nat;
        law_decimal_digits_read_back(value / 10, fewer);
        lemma_digits_push(decimal_digits(value / 10, fewer), (value % 10) as int);
        if value < pow10(width) {
            assert(value / 10 < pow10(fewer)) by {
                assert(pow10(width) == pow10(fewer) * 10);
            }
        }
    }
}

/// Ten to a power.
pub open spec fn pow10(power: nat) -> nat
    decreases power,
{
    if power == 0 {
        1
    } else {
        pow10((power - 1) as nat) * 10
    }
}

/// Bytes that are written alike in hexadecimal are alike.
pub proof fn law_hexadecimal_tells_bytes_apart(a: u8, b: u8)
    requires
        hex_byte(a) == hex_byte(b),
    ensures
        a == b,
{
    assert(hex_byte(a)[0] == hex_byte(b)[0]);
    assert(hex_byte(a)[1] == hex_byte(b)[1]);
}

/// Texts of one length, joined, have all their characters in place.
pub proof fn law_joined_texts_stand_in_order(
    list: Seq<Seq<char>>,
    separator: Seq<char>,
    width: nat,
    i: int,
)
    requires
        0 <= i < list.len(),
        forall|j: int| 0 <= j < list.len() ==> (#[trigger] list[j]).len() == width,
    ensures
        joined(list, separator).len() == list.len() * width + (list.len() - 1) * separator.len(),
        0 <= i * (width + separator.len()) <= joined(list, separator).len() - width,
        joined(list, separator).subrange(
            i * (width + separator.len()),
            i * (width + separator.len()) + width,
        ) == list[i],
    decreases list.len(),
{
    let whole = joined(list, separator);
    let n = list.len() as int;
    if n == 1 {
        assert(whole.subrange(0, width as int) =~= list[0]);
        assert(i * (width + separator.len()) == 0) by (nonlinear_arith)
            requires
                i == 0,
        ;
        assert(n * width == width && (n - 1) * separator.len() == 0) by (nonlinear_arith)
            requires
                n == 1,
        ;
    } else {
        let before = list.drop_last();
        let step = (width + separator.len()) as int;
        assert forall|j: int| 0 <= j < before.len() implies (#[trigger] before[j]).len()
            == width by {
            assert(before[j] == list[j]);
        }
        let at = if i < n - 1 {
            i
        } else {
            0
        };
        law_joined_texts_stand_in_order(before, separator, width, at);
        let head = joined(before, separator);
        assert(whole =~= head + separator + list[n - 1]);
        assert((n - 1) * width + (n - 2) * separator.len() + separator.len() + width == n * width
            + (n - 1) * separator.len()) by (nonlinear_arith);
        assert((n - 1) * width + (n - 2) * separator.len() + separator.len() == (n - 1) * step)
            by (nonlinear_arith)
            requires
                step == width + separator.len(),
        ;
        assert(i * step >= 0) by (nonlinear_arith)
            requires
                i >= 0,
                step >= 0,
        ;
        if i < n - 1 {
            assert(head.subrange(i * step, i * step + width) == list[i]);
            assert(whole.subrange(i * step, i * step + width) =~= head.subrange(
                i * step,
                i * step + width,
            ));
        } else {
            assert(i * step == (n - 1) * step);
            assert(whole.subrange(i * step, i * step + width) =~= list[i]);
        }
    }
}

/// Joining is joining the parts with the separator between them, and one text is joined to
/// itself.
pub proof fn law_joined_in_parts(
    first: Seq<Seq<char>>,
    second: Seq<Seq<char>>,
    separator: Seq<char>,
    text: Seq<char>,
)
    requires
        first.len() > 0,
        second.len() > 0,
    ensures
        joined(first + second, separator) == joined(first, separator) + separator + joined(
            second,
            separator,
        ),
        joined(seq![text], separator) == text,
        joined(seq![], separator).len() == 0,
    decreases second.len(),
{
    let all = first + second;
    assert(all.last() == second.last());
    if second.len() == 1 {
        assert(all.drop_last() =~= first);
        assert(second[0] == second.last());
    } else {
        law_joined_in_parts(first, second.drop_last(), separator, text);
        assert(all.drop_last() =~= first + second.drop_last());
        assert(joined(all, separator) =~= joined(first, separator) + separator + joined(
            second,
            separator,
        ));
    }
}

} // verus!
