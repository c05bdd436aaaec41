//! How identifiers, kinds and spans of time are written.

use crate::command::names::{
    duration_text, durability_text, gid_digits, gid_text, liveliness_text, nine_digits,
    reliability_text,
};
use crate::common::TopicGid;
use crate::discovery::tables::{DurabilityQos, DurationValue, LivelinessQos, ReliabilityQos};
use crate::text::{decimal, digit, hex_byte};
use crate::text_laws::{
    all_digits, law_decimal_digits_read_back, law_decimal_reads_back,
    law_joined_texts_stand_in_order, number_in, pow10,
};
use vstd::prelude::*;
use vstd::string::*;

verus! {

/// The value of a hexadecimal digit, written small.
pub open spec fn hex_value(c: char) -> int {
    if '0' <= c <= '9' {
        c as int - '0' as int
    } else if 'a' <= c <= 'f' {
        c as int - 'a' as int + 10
    } else {
        -1
    }
}

/// A byte is written with two hexadecimal digits, the greater first, and reads back from
/// them.
pub proof fn law_byte_in_hexadecimal(byte: u8)
    ensures
        hex_byte(byte).len() == 2,
        0 <= hex_value(hex_byte(byte)[0]) < 16,
        0 <= hex_value(hex_byte(byte)[1]) < 16,
        hex_value(hex_byte(byte)[0]) * 16 + hex_value(hex_byte(byte)[1]) == byte,
{
    assert(digit((byte / 16) as int) as int == if byte / 16 < 10 {
        48 + byte / 16
    } else {
        87 + byte / 16
    });
    assert(digit((byte % 16) as int) as int == if byte % 16 < 10 {
        48 + byte % 16
    } else {
        87 + byte % 16
    });
}

/// An identifier is written as twenty-four bytes with dots between them: its own sixteen,
/// and eight zeros.
pub proof fn law_identifier_in_hexadecimal(gid: TopicGid, i: int)
    requires
        0 <= i < 24,
    ensures
        gid_text(gid).len() == 71,
        gid_text(gid).subrange(3 * i, 3 * i + 2) == hex_byte(
            if i < 16 {
                gid.bytes[i]
            } else {
                0
            },
        ),
{
    reveal_strlit(".");
    law_joined_texts_stand_in_order(gid_digits(gid), "."@, 2, i);
    let dot = "."@.len();
    assert(i * (2 + dot) == 3 * i) by (nonlinear_arith)
        requires
            dot == 1,
    ;
}

/// Every kind of reliability, durability and liveliness has its name, and a kind that is not
/// known is shown by its number.
pub proof fn law_kinds_have_names(
    reliability: ReliabilityQos,
    durability: DurabilityQos,
    liveliness: LivelinessQos,
)
    ensures
        reliability.kind == 1 ==> reliability_text(reliability) == "BEST_EFFORT"@,
        reliability.kind == 2 ==> reliability_text(reliability) == "RELIABLE"@,
        reliability.kind != 1 && reliability.kind != 2 ==> reliability_text(reliability)
            == "UNKNOWN ("@ + decimal(reliability.kind as nat) + ")"@,
        durability.kind == 0 ==> durability_text(durability) == "VOLATILE"@,
        durability.kind == 1 ==> durability_text(durability) == "TRANSIENT_LOCAL"@,
        durability.kind == 2 ==> durability_text(durability) == "TRANSIENT"@,
        durability.kind == 3 ==> durability_text(durability) == "PERSISTENT"@,
        durability.kind > 3 ==> durability_text(durability) == "UNKNOWN ("@ + decimal(
            durability.kind as nat,
        ) + ")"@,
        liveliness.kind == 0 ==> liveliness_text(liveliness) == "AUTOMATIC"@,
        liveliness.kind == 1 ==> liveliness_text(liveliness) == "MANUAL_BY_PARTICIPANT"@,
        liveliness.kind == 2 ==> liveliness_text(liveliness) == "MANUAL_BY_TOPIC"@,
        liveliness.kind > 2 ==> liveliness_text(liveliness) == "UNKNOWN ("@ + decimal(
            liveliness.kind as nat,
        ) + ")"@,
{
}

/// A span that is negative or the greatest that there is never ends. Any other is written in
/// seconds, with its fraction behind a point unless it is nothing, and both numbers read back
/// as themselves. A fraction below a thousand million has nine digits.
pub proof fn law_span_of_time_written(value: DurationValue)
    ensures
        ({
            let endless = value.seconds < 0 || (value.seconds == 0x7fff_ffff && value.fraction
                == 0xffff_ffff);
            let text = duration_text(value);
            let digits = nine_digits(value.fraction);
            &&& endless ==> text == "Infinite"@
            &&& !endless && value.fraction == 0 ==> text == decimal(value.seconds as nat) + "s"@
            &&& !endless && value.fraction > 0 ==> text == decimal(value.seconds as nat) + "."@
                + digits + "s"@
            &&& all_digits(digits)
            &&& number_in(digits) == value.fraction
            &&& value.fraction < 1_000_000_000 ==> digits.len() == 9
        }),
{
    reveal_with_fuel(pow10, 10);
    assert(pow10(9) == 1_000_000_000);
    law_decimal_digits_read_back(value.fraction as nat, 9);
    law_decimal_reads_back(value.fraction as nat);
}

} // verus!
