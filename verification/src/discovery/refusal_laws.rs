//! Which bytes do not read as a list of nodes.

use crate::discovery::laws::{
    entities_payload, entities_written, law_payload_reads_back, law_written_entities_read_back,
    writable,
};
use crate::discovery::ros_graph::{
    aligned, entities_read, gid_read, is_discovery_topic, parsed_entities, string_read, u32_read,
    CdrError, EntitiesError, EntitiesView, ROS_GID_LEN, ROS_GID_LEN_LEGACY,
};
use crate::wire::u32_at;
use vstd::prelude::*;
use vstd::string::*;
use vstd::utf8::valid_utf8;

verus! {

/// A payload that is shorter than its header is refused, and so is one whose header names
/// neither byte order.
pub proof fn law_unknown_header_refused(payload: Seq<u8>)
    ensures
        payload.len() < 4 ==> parsed_entities(payload) == Err::<EntitiesView, EntitiesError>(
            EntitiesError::ShortPayload,
        ),
        payload.len() >= 4 && !(payload[0] == 0 && payload[1] <= 1) ==> parsed_entities(payload)
            == Err::<EntitiesView, EntitiesError>(
            EntitiesError::UnsupportedEncapsulation {
                kind: (payload[0] * 256 + payload[1]) as u16,
            },
        ),
        payload.len() >= 4 && payload[0] == 0 && payload[1] <= 1 && parsed_entities(payload) is Err
            ==> (parsed_entities(payload) matches Err(EntitiesError::Unreadable {
            current,
            legacy,
        }) && entities_read(payload.skip(4), payload[1] == 1, 16) == Err::<EntitiesView, CdrError>(
            current,
        ) && entities_read(payload.skip(4), payload[1] == 1, 24) == Err::<EntitiesView, CdrError>(
            legacy,
        )),
{
}

/// What a current release writes, with identifiers of sixteen bytes, reads back as itself,
/// and so does what an older one writes, with identifiers of twenty-four, unless its bytes
/// also read as those of a current one.
pub proof fn law_both_releases_read_back(info: EntitiesView, le: bool, padding: nat)
    requires
        writable(info),
    ensures
        ({
            let body = entities_written(info, le, 16) + Seq::new(padding, |i: int| 0u8);
            parsed_entities(entities_payload(body, le)) == Ok::<EntitiesView, EntitiesError>(info)
        }),
        ({
            let body = entities_written(info, le, 24) + Seq::new(padding, |i: int| 0u8);
            entities_read(body, le, 16) is Err ==> parsed_entities(entities_payload(body, le))
                == Ok::<EntitiesView, EntitiesError>(info)
        }),
{
    assert(ROS_GID_LEN == 16 && ROS_GID_LEN_LEGACY == 24);
    law_payload_reads_back(info, le, false, padding);
    let older = entities_written(info, le, 24) + Seq::new(padding, |i: int| 0u8);
    if entities_read(older, le, 16) is Err {
        law_payload_reads_back(info, le, true, padding);
    }
}

/// A number stands at the next place that four divides. One that is not there in full is
/// refused.
pub proof fn law_number_read(bytes: Seq<u8>, le: bool, offset: int, place: int)
    requires
        0 <= offset <= place < offset + 4,
        place % 4 == 0,
    ensures
        aligned(offset) == place,
        place > bytes.len() ==> u32_read(bytes, le, offset) == Err::<(u32, int), CdrError>(
            CdrError::AlignmentOutOfBounds,
        ),
        place <= bytes.len() < place + 4 ==> u32_read(bytes, le, offset) == Err::<
            (u32, int),
            CdrError,
        >(CdrError::U32OutOfBounds),
        place + 4 <= bytes.len() ==> u32_read(bytes, le, offset) == Ok::<(u32, int), CdrError>(
            (u32_at(bytes, place, le), place + 4),
        ),
{
}

/// Four bytes are read with the least significant first or last.
pub proof fn law_byte_orders(bytes: Seq<u8>, at: int)
    requires
        0 <= at,
        at + 4 <= bytes.len(),
    ensures
        u32_at(bytes, at, true) == bytes[at] + bytes[at + 1] * 0x100 + bytes[at + 2] * 0x1_0000
            + bytes[at + 3] * 0x100_0000,
        u32_at(bytes, at, false) == bytes[at + 3] + bytes[at + 2] * 0x100 + bytes[at + 1] * 0x1_0000
            + bytes[at] * 0x100_0000,
{
}

/// A string that says to be longer than what is left, does not end in a null byte or is no
/// UTF-8 before it is refused. An empty one has nothing behind its length.
pub proof fn law_broken_strings_refused(bytes: Seq<u8>, le: bool, offset: int, len: u32, at: int)
    requires
        u32_read(bytes, le, offset) == Ok::<(u32, int), CdrError>((len, at)),
    ensures
        len == 0 ==> (string_read(bytes, le, offset) matches Ok((text, end)) && text.len() == 0
            && end == at),
        len > 0 && at + len > bytes.len() ==> string_read(bytes, le, offset) == Err::<
            (Seq<char>, int),
            CdrError,
        >(CdrError::StringOutOfBounds),
        len > 0 && at + len <= bytes.len() && bytes[at + len - 1] != 0 ==> string_read(
            bytes,
            le,
            offset,
        ) == Err::<(Seq<char>, int), CdrError>(CdrError::MissingNull),
        len > 0 && at + len <= bytes.len() && bytes[at + len - 1] == 0 && !valid_utf8(
            bytes.subrange(at, at + len - 1),
        ) ==> string_read(bytes, le, offset) == Err::<(Seq<char>, int), CdrError>(
            CdrError::InvalidUtf8,
        ),
{
}

/// An identifier that is not there in full is refused, and what is read of one are its first
/// sixteen bytes.
pub proof fn law_identifier_read(bytes: Seq<u8>, gid_len: int, offset: int, i: int)
    requires
        gid_len >= 16,
        0 <= offset,
    ensures
        offset + gid_len > bytes.len() ==> gid_read(bytes, gid_len, offset) is Err,
        offset + gid_len <= bytes.len() ==> (gid_read(bytes, gid_len, offset) matches Ok((gid, end))
            && end == offset + gid_len && (0 <= i < 16 ==> gid.bytes[i] == bytes[offset + i])),
{
}

/// A list with anything but zeros behind it is refused.
pub proof fn law_nothing_else_behind_a_list(info: EntitiesView, le: bool, rest: Seq<u8>, i: int)
    requires
        writable(info),
        0 <= i < rest.len(),
        rest[i] != 0,
    ensures
        entities_read(entities_written(info, le, 16) + rest, le, 16) is Err,
{
    let written = entities_written(info, le, 16);
    let all = written + rest;
    law_written_entities_read_back(info, le, 16, 0);
    assert(written + Seq::new(0, |i: int| 0u8) =~= written);
    assert(all.take(written.len() as int) =~= written);
    crate::discovery::padding_laws::lemma_entities_extend(all, written, le, 16);
    assert(all[written.len() + i] == rest[i]);
}

/// Nodes are listed on one topic, whose name ROS and DDS write each in their way.
pub proof fn law_topic_of_nodes(topic_name: Seq<char>)
    ensures
        is_discovery_topic(topic_name) <==> topic_name == "/ros_discovery_info"@ || topic_name
            == "rt/ros_discovery_info"@,
{
}

} // verus!
