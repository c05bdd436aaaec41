//! Text: taking names apart and putting them together.

use vstd::prelude::*;
use vstd::string::*;
use vstd::utf8::{decode_utf8, encode_utf8, valid_utf8};

verus! {

/// `part` stands at position `at` of `text`.
pub open spec fn occurs_at(text: Seq<char>, part: Seq<char>, at: int) -> bool {
    0 <= at && at + part.len() <= text.len() && text.subrange(at, at + part.len()) == part
}

/// `part` stands somewhere in `text`.
pub open spec fn contains_text(text: Seq<char>, part: Seq<char>) -> bool {
    exists|at: int| occurs_at(text, part, at)
}

/// `text` begins with `prefix`.
pub open spec fn starts_with(text: Seq<char>, prefix: Seq<char>) -> bool {
    occurs_at(text, prefix, 0)
}

/// `text` ends with `suffix`.
pub open spec fn ends_with(text: Seq<char>, suffix: Seq<char>) -> bool {
    occurs_at(text, suffix, text.len() - suffix.len())
}

/// What is left of a text that begins with `prefix`.
pub open spec fn after_prefix(text: Seq<char>, prefix: Seq<char>) -> Option<Seq<char>> {
    if starts_with(text, prefix) {
        Some(text.skip(prefix.len() as int))
    } else {
        None
    }
}

/// What is left of a text that ends with `suffix`.
pub open spec fn before_suffix(text: Seq<char>, suffix: Seq<char>) -> Option<Seq<char>> {
    if ends_with(text, suffix) {
        Some(text.take(text.len() - suffix.len()))
    } else {
        None
    }
}

/// `part` stands at `at` of `text` and nowhere before.
pub open spec fn first_at(text: Seq<char>, part: Seq<char>, at: int) -> bool {
    occurs_at(text, part, at) && forall|i: int| occurs_at(text, part, i) ==> at <= i
}

/// The two parts of a text at the first place where `separator` stands.
pub open spec fn split_parts(text: Seq<char>, separator: Seq<char>) -> Option<
    (Seq<char>, Seq<char>),
> {
    if contains_text(text, separator) {
        let at = choose|at: int| first_at(text, separator, at);
        Some((text.take(at), text.skip(at + separator.len())))
    } else {
        None
    }
}

/// The views of a list of texts.
pub open spec fn texts(list: Seq<String>) -> Seq<Seq<char>> {
    list.map_values(|text: String| text@)
}

/// The view of a text that may be missing.
pub open spec fn text_opt(text: Option<String>) -> Option<Seq<char>> {
    match text {
        Some(text) => Some(text@),
        None => None,
    }
}

/// The view of a borrowed text that may be missing.
pub open spec fn str_opt(text: Option<&str>) -> Option<Seq<char>> {
    match text {
        Some(text) => Some(text@),
        None => None,
    }
}

/// Whether two texts are the same.
pub fn same_text(a: &str, b: &str) -> (r: bool)
    ensures
        r == (a@ == b@),
{
    let left = a.as_bytes();
    let right = b.as_bytes();
    proof {
        vstd::utf8::encode_utf8_decode_utf8(a@);
        vstd::utf8::encode_utf8_decode_utf8(b@);
    }
    if left.len() != right.len() {
        return false;
    }
    let mut i: usize = 0;
    while i < left.len()
        invariant
            left@ == encode_utf8(a@),
            right@ == encode_utf8(b@),
            left.len() == right.len(),
            i <= left.len(),
            forall|j: int| 0 <= j < i ==> left@[j] == right@[j],
        decreases left.len() - i,
    {
        if left[i] != right[i] {
            return false;
        }
        i += 1;
    }
    assert(left@ =~= right@);
    true
}

/// The characters of a text.
pub fn chars_of(text: &str) -> (r: Vec<char>)
    ensures
        r@ == text@,
{
    let mut r: Vec<char> = Vec::new();
    for c in iter: text.chars()
        invariant
            iter.seq() == text@,
            r@ == iter.seq().take(iter.index() as int),
    {
        r.push(c);
    }
    assert(r@ =~= text@);
    r
}

/// Whether `part` stands at position `at` of `text`.
fn stands_at(text: &Vec<char>, part: &Vec<char>, at: usize) -> (r: bool)
    ensures
        r == occurs_at(text@, part@, at as int),
{
    if part.len() > text.len() || at > text.len() - part.len() {
        return false;
    }
    let mut i: usize = 0;
    while i < part.len()
        invariant
            i <= part.len(),
            at + part.len() <= text.len(),
            forall|j: int| 0 <= j < i ==> text@[at + j] == part@[j],
        decreases part.len() - i,
    {
        if text[at + i] != part[i] {
            assert(text@.subrange(at as int, at + part@.len())[i as int] != part@[i as int]);
            return false;
        }
        i += 1;
    }
    assert(text@.subrange(at as int, at + part@.len()) =~= part@);
    true
}

/// The first position at which `part` stands.
pub fn find_text(text: &str, part: &str) -> (r: Option<usize>)
    ensures
        match r {
            Some(at) => first_at(text@, part@, at as int),
            None => !contains_text(text@, part@),
        },
{
    let chars = chars_of(text);
    let wanted = chars_of(part);
    let mut at: usize = 0;
    while at < chars.len()
        invariant
            chars@ == text@,
            wanted@ == part@,
            at <= chars.len(),
            forall|i: int| occurs_at(text@, part@, i) ==> at <= i,
        decreases chars.len() - at,
    {
        if stands_at(&chars, &wanted, at) {
            return Some(at);
        }
        at += 1;
    }
    if stands_at(&chars, &wanted, at) {
        return Some(at);
    }
    None
}

/// Whether `part` stands somewhere in `text`.
pub fn has_text(text: &str, part: &str) -> (r: bool)
    ensures
        r == contains_text(text@, part@),
{
    find_text(text, part).is_some()
}

/// Whether `text` begins with `prefix`.
pub fn has_prefix(text: &str, prefix: &str) -> (r: bool)
    ensures
        r == starts_with(text@, prefix@),
{
    stands_at(&chars_of(text), &chars_of(prefix), 0)
}

/// Whether `text` ends with `suffix`.
pub fn has_suffix(text: &str, suffix: &str) -> (r: bool)
    ensures
        r == ends_with(text@, suffix@),
{
    let chars = chars_of(text);
    let wanted = chars_of(suffix);
    if wanted.len() > chars.len() {
        return false;
    }
    stands_at(&chars, &wanted, chars.len() - wanted.len())
}

/// Takes `prefix` off a text that begins with it.
pub fn strip_prefix<'a>(text: &'a str, prefix: &str) -> (r: Option<&'a str>)
    ensures
        str_opt(r) == after_prefix(text@, prefix@),
{
    if has_prefix(text, prefix) {
        let rest = text.substring_char(prefix.unicode_len(), text.unicode_len());
        assert(rest@ =~= text@.skip(prefix@.len() as int));
        Some(rest)
    } else {
        None
    }
}

/// Takes `suffix` off a text that ends with it.
pub fn strip_suffix<'a>(text: &'a str, suffix: &str) -> (r: Option<&'a str>)
    ensures
        str_opt(r) == before_suffix(text@, suffix@),
{
    if has_suffix(text, suffix) {
        let rest = text.substring_char(0, text.unicode_len() - suffix.unicode_len());
        assert(rest@ =~= text@.take(text@.len() - suffix@.len()));
        Some(rest)
    } else {
        None
    }
}

/// Parts a text at the first place where `separator` stands.
pub fn split_once<'a>(text: &'a str, separator: &str) -> (r: Option<(&'a str, &'a str)>)
    ensures
        match (r, split_parts(text@, separator@)) {
            (Some((left, right)), Some(parts)) => left@ == parts.0 && right@ == parts.1,
            (None, None) => true,
            _ => false,
        },
{
    match find_text(text, separator) {
        None => None,
        Some(at) => {
            let end: usize = text.unicode_len();
            let left = text.substring_char(0, at);
            let right = text.substring_char(at + separator.unicode_len(), end);
            proof {
                let chosen = choose|at: int| first_at(text@, separator@, at);
                assert(first_at(text@, separator@, at as int));
                assert(first_at(text@, separator@, chosen));
                assert(chosen == at);
                assert(left@ =~= text@.take(at as int));
                assert(right@ =~= text@.skip(at + separator@.len()));
            }
            Some((left, right))
        },
    }
}

/// Parts of a text, one after the other.
pub fn join2(a: &str, b: &str) -> (r: String)
    ensures
        r@ == a@ + b@,
{
    let mut r = a.to_owned();
    r.append(b);
    r
}

/// Parts of a text, one after the other.
pub fn join3(a: &str, b: &str, c: &str) -> (r: String)
    ensures
        r@ == a@ + b@ + c@,
{
    let mut r = join2(a, b);
    r.append(c);
    r
}

/// A list of texts with a separator between neighbours.
pub open spec fn joined(list: Seq<Seq<char>>, separator: Seq<char>) -> Seq<char>
    decreases list.len(),
{
    if list.len() == 0 {
        seq![]
    } else if list.len() == 1 {
        list[0]
    } else {
        joined(list.drop_last(), separator) + separator + list.last()
    }
}

/// Joins a list of texts.
pub fn join_texts(list: &Vec<String>, separator: &str) -> (r: String)
    ensures
        r@ == joined(texts(list@), separator@),
{
    let ghost views = texts(list@);
    let mut r = String::new();
    assert(r@ =~= joined(views.take(0), separator@));
    let mut i: usize = 0;
    while i < list.len()
        invariant
            views == texts(list@),
            i <= list.len(),
            r@ == joined(views.take(i as int), separator@),
        decreases list.len() - i,
    {
        assert(views.take(i + 1).drop_last() =~= views.take(i as int));
        if i > 0 {
            r.append(separator);
        }
        r.append(list[i].as_str());
        assert(r@ =~= joined(views.take(i + 1), separator@));
        i += 1;
    }
    assert(views.take(i as int) =~= views);
    r
}

/// Copies a list of texts.
pub fn clone_texts(list: &Vec<String>) -> (r: Vec<String>)
    ensures
        texts(r@) == texts(list@),
{
    let mut r: Vec<String> = Vec::new();
    let mut i: usize = 0;
    while i < list.len()
        invariant
            i <= list.len(),
            r@.len() == i,
            forall|j: int| 0 <= j < i ==> (#[trigger] r@[j])@ == list@[j]@,
        decreases list.len() - i,
    {
        r.push(list[i].clone());
        i += 1;
    }
    assert(texts(r@) =~= texts(list@));
    r
}

/// Copies a text that may be missing.
pub fn clone_text_opt(text: &Option<String>) -> (r: Option<String>)
    ensures
        text_opt(r) == text_opt(*text),
{
    match text {
        Some(text) => Some(text.clone()),
        None => None,
    }
}

// Numbers.

/// A digit, up to fifteen.
pub open spec fn digit(value: int) -> char {
    if value < 10 {
        (48 + value) as char
    } else {
        (87 + value) as char
    }
}

/// A number in decimal, without leading zeros.
pub open spec fn decimal(value: nat) -> Seq<char>
    decreases value,
{
    if value < 10 {
        seq![digit(value as int)]
    } else {
        decimal(value / 10).push(digit((value % 10) as int))
    }
}

/// The last `width` decimal digits of a number.
pub open spec fn decimal_digits(value: nat, width: nat) -> Seq<char>
    decreases width,
{
    if width == 0 {
        seq![]
    } else {
        decimal_digits(value / 10, (width - 1) as nat).push(digit((value % 10) as int))
    }
}

/// A byte as two hexadecimal digits.
pub open spec fn hex_byte(byte: u8) -> Seq<char> {
    seq![digit((byte / 16) as int), digit((byte % 16) as int)]
}

fn digit_text(value: u8) -> (r: &'static str)
    requires
        value < 16,
    ensures
        r@ == seq![digit(value as int)],
{
    proof {
        reveal_strlit("0");
        reveal_strlit("1");
        reveal_strlit("2");
        reveal_strlit("3");
        reveal_strlit("4");
        reveal_strlit("5");
        reveal_strlit("6");
        reveal_strlit("7");
        reveal_strlit("8");
        reveal_strlit("9");
        reveal_strlit("a");
        reveal_strlit("b");
        reveal_strlit("c");
        reveal_strlit("d");
        reveal_strlit("e");
        reveal_strlit("f");
    }
    let r = match value {
        0 => "0",
        1 => "1",
        2 => "2",
        3 => "3",
        4 => "4",
        5 => "5",
        6 => "6",
        7 => "7",
        8 => "8",
        9 => "9",
        10 => "a",
        11 => "b",
        12 => "c",
        13 => "d",
        14 => "e",
        _ => "f",
    };
    assert(r@ =~= seq![digit(value as int)]);
    r
}

/// A number in decimal.
pub fn decimal_text(value: u64) -> (r: String)
    ensures
        r@ == decimal(value as nat),
    decreases value,
{
    if value < 10 {
        digit_text(value as u8).to_owned()
    } else {
        let mut r = decimal_text(value / 10);
        r.append(digit_text((value % 10) as u8));
        assert(r@ =~= decimal((value / 10) as nat).push(digit((value % 10) as int)));
        r
    }
}

/// The last `width` decimal digits of a number.
pub fn decimal_digits_text(value: u64, width: u8) -> (r: String)
    ensures
        r@ == decimal_digits(value as nat, width as nat),
    decreases width,
{
    if width == 0 {
        let r = String::new();
        assert(r@ =~= seq![]);
        r
    } else {
        let mut r = decimal_digits_text(value / 10, width - 1);
        r.append(digit_text((value % 10) as u8));
        assert(r@ =~= decimal_digits((value / 10) as nat, (width - 1) as nat).push(
            digit((value % 10) as int),
        ));
        r
    }
}

/// Appends a byte as two hexadecimal digits.
pub fn append_hex_byte(out: &mut String, byte: u8)
    ensures
        final(out)@ == old(out)@ + hex_byte(byte),
{
    out.append(digit_text(byte / 16));
    out.append(digit_text(byte % 16));
    assert(out@ =~= old(out)@ + hex_byte(byte));
}

// Bytes.

/// `std::str::from_utf8`: the text that the bytes encode, or nothing if they are not
/// valid UTF-8.
#[verifier::external_body]
pub(crate) fn text_from_utf8(bytes: &[u8]) -> (r: Option<String>)
    ensures
        match r {
            Some(text) => valid_utf8(bytes@) && text@ == decode_utf8(bytes@),
            None => !valid_utf8(bytes@),
        },
{
    std::str::from_utf8(bytes).ok().map(|text| text.to_string())
}

} // verus!
