//! What may follow a list of nodes.

use crate::common::TopicGid;
use crate::discovery::ros_graph::{
    entities_read, gid_read, gid_sequence_read, gids_read, node_read, nodes_read, only_padding,
    parsed_entities, sequence_len_read, string_read, u32_read, CdrError, EntitiesView,
    SequenceItem, CDR_LE, NODE_ENTITY_MIN_SERIALIZED_LEN, ROS_GID_LEN,
};
use crate::wire::be16;
use vstd::prelude::*;

verus! {

/// `longer` is `bytes` with something appended.
pub open spec fn extends(longer: Seq<u8>, bytes: Seq<u8>) -> bool {
    &&& bytes.len() <= longer.len()
    &&& longer.take(bytes.len() as int) == bytes
}

proof fn lemma_same_byte(longer: Seq<u8>, bytes: Seq<u8>, i: int)
    requires
        extends(longer, bytes),
        0 <= i < bytes.len(),
    ensures
        longer[i] == bytes[i],
{
    assert(longer.take(bytes.len() as int)[i] == longer[i]);
}

proof fn lemma_u32_extends(longer: Seq<u8>, bytes: Seq<u8>, le: bool, offset: int)
    requires
        extends(longer, bytes),
        offset >= 0,
        u32_read(bytes, le, offset) is Ok,
    ensures
        u32_read(longer, le, offset) == u32_read(bytes, le, offset),
        match u32_read(bytes, le, offset) {
            Ok((_, at)) => 0 <= at <= bytes.len(),
            Err(_) => true,
        },
{
    let at = crate::discovery::ros_graph::aligned(offset);
    lemma_same_byte(longer, bytes, at);
    lemma_same_byte(longer, bytes, at + 1);
    lemma_same_byte(longer, bytes, at + 2);
    lemma_same_byte(longer, bytes, at + 3);
}

proof fn lemma_string_extends(longer: Seq<u8>, bytes: Seq<u8>, le: bool, offset: int)
    requires
        extends(longer, bytes),
        offset >= 0,
        string_read(bytes, le, offset) is Ok,
    ensures
        string_read(longer, le, offset) == string_read(bytes, le, offset),
        match string_read(bytes, le, offset) {
            Ok((_, at)) => 0 <= at <= bytes.len(),
            Err(_) => true,
        },
{
    lemma_u32_extends(longer, bytes, le, offset);
    match u32_read(bytes, le, offset) {
        Err(_) => {},
        Ok((len, at)) => {
            if len > 0 {
                lemma_same_byte(longer, bytes, at + len - 1);
                assert forall|i: int| at <= i < at + len - 1 implies longer[i] == bytes[i] by {
                    lemma_same_byte(longer, bytes, i);
                }
                assert(longer.subrange(at, at + len - 1) =~= bytes.subrange(at, at + len - 1));
            }
        },
    }
}

proof fn lemma_gid_extends(longer: Seq<u8>, bytes: Seq<u8>, gid_len: int, offset: int)
    requires
        extends(longer, bytes),
        offset >= 0,
        gid_len >= 16,
        gid_read(bytes, gid_len, offset) is Ok,
    ensures
        gid_read(longer, gid_len, offset) == gid_read(bytes, gid_len, offset),
        match gid_read(bytes, gid_len, offset) {
            Ok((_, at)) => 0 <= at <= bytes.len(),
            Err(_) => true,
        },
{
    assert forall|i: int| offset <= i < offset + 16 implies longer[i] == bytes[i] by {
        lemma_same_byte(longer, bytes, i);
    }
}

proof fn lemma_sequence_len_extends(
    longer: Seq<u8>,
    bytes: Seq<u8>,
    le: bool,
    item: SequenceItem,
    item_len: int,
    offset: int,
)
    requires
        extends(longer, bytes),
        offset >= 0,
        item_len > 0,
        sequence_len_read(bytes, le, item, item_len, offset) is Ok,
    ensures
        sequence_len_read(longer, le, item, item_len, offset) == sequence_len_read(
            bytes,
            le,
            item,
            item_len,
            offset,
        ),
        match sequence_len_read(bytes, le, item, item_len, offset) {
            Ok((_, at)) => 0 <= at <= bytes.len(),
            Err(_) => true,
        },
{
    lemma_u32_extends(longer, bytes, le, offset);
    match u32_read(bytes, le, offset) {
        Err(_) => {},
        Ok((_, at)) => {
            let fewer = bytes.len() - at;
            let more = longer.len() - at;
            assert(fewer / item_len <= more / item_len) by (nonlinear_arith)
                requires
                    0 <= fewer <= more,
                    item_len > 0,
            ;
        },
    }
}

proof fn lemma_gids_extend(
    longer: Seq<u8>,
    bytes: Seq<u8>,
    gid_len: int,
    count: nat,
    offset: int,
)
    requires
        extends(longer, bytes),
        0 <= offset <= bytes.len(),
        gid_len >= 16,
        gids_read(bytes, gid_len, count, offset) is Ok,
    ensures
        gids_read(longer, gid_len, count, offset) == gids_read(bytes, gid_len, count, offset),
        match gids_read(bytes, gid_len, count, offset) {
            Ok((_, at)) => 0 <= at <= bytes.len(),
            Err(_) => true,
        },
    decreases count,
{
    if count > 0 {
        lemma_gids_extend(longer, bytes, gid_len, (count - 1) as nat, offset);
        match gids_read(bytes, gid_len, (count - 1) as nat, offset) {
            Err(_) => {},
            Ok((_, at)) => lemma_gid_extends(longer, bytes, gid_len, at),
        }
    }
}

proof fn lemma_gid_sequence_extends(
    longer: Seq<u8>,
    bytes: Seq<u8>,
    le: bool,
    gid_len: int,
    offset: int,
)
    requires
        extends(longer, bytes),
        offset >= 0,
        gid_len >= 16,
        gid_sequence_read(bytes, le, gid_len, offset) is Ok,
    ensures
        gid_sequence_read(longer, le, gid_len, offset) == gid_sequence_read(
            bytes,
            le,
            gid_len,
            offset,
        ),
        match gid_sequence_read(bytes, le, gid_len, offset) {
            Ok((_, at)) => 0 <= at <= bytes.len(),
            Err(_) => true,
        },
{
    lemma_sequence_len_extends(longer, bytes, le, SequenceItem::Gid, gid_len, offset);
    match sequence_len_read(bytes, le, SequenceItem::Gid, gid_len, offset) {
        Err(_) => {},
        Ok((count, at)) => lemma_gids_extend(longer, bytes, gid_len, count as nat, at),
    }
}

proof fn lemma_node_extends(
    longer: Seq<u8>,
    bytes: Seq<u8>,
    le: bool,
    gid_len: int,
    participant_gid: TopicGid,
    offset: int,
)
    requires
        extends(longer, bytes),
        offset >= 0,
        gid_len >= 16,
        node_read(bytes, le, gid_len, participant_gid, offset) is Ok,
    ensures
        node_read(longer, le, gid_len, participant_gid, offset) == node_read(
            bytes,
            le,
            gid_len,
            participant_gid,
            offset,
        ),
        match node_read(bytes, le, gid_len, participant_gid, offset) {
            Ok((node, at)) => 0 <= at <= bytes.len() && node.participant_gid == participant_gid,
            Err(_) => true,
        },
{
    lemma_string_extends(longer, bytes, le, offset);
    let (_, first) = string_read(bytes, le, offset)->Ok_0;
    lemma_string_extends(longer, bytes, le, first);
    let (_, second) = string_read(bytes, le, first)->Ok_0;
    lemma_gid_sequence_extends(longer, bytes, le, gid_len, second);
    let (_, third) = gid_sequence_read(bytes, le, gid_len, second)->Ok_0;
    lemma_gid_sequence_extends(longer, bytes, le, gid_len, third);
}

proof fn lemma_nodes_extend(
    longer: Seq<u8>,
    bytes: Seq<u8>,
    le: bool,
    gid_len: int,
    participant_gid: TopicGid,
    count: nat,
    offset: int,
)
    requires
        extends(longer, bytes),
        0 <= offset <= bytes.len(),
        gid_len >= 16,
        nodes_read(bytes, le, gid_len, participant_gid, count, offset) is Ok,
    ensures
        nodes_read(longer, le, gid_len, participant_gid, count, offset) == nodes_read(
            bytes,
            le,
            gid_len,
            participant_gid,
            count,
            offset,
        ),
        match nodes_read(bytes, le, gid_len, participant_gid, count, offset) {
            Ok((nodes, at)) => 0 <= at <= bytes.len() && forall|i: int|
                0 <= i < nodes.len() ==> (#[trigger] nodes[i]).participant_gid == participant_gid,
            Err(_) => true,
        },
    decreases count,
{
    if count > 0 {
        let fewer = (count - 1) as nat;
        lemma_nodes_extend(longer, bytes, le, gid_len, participant_gid, fewer, offset);
        match nodes_read(bytes, le, gid_len, participant_gid, fewer, offset) {
            Err(_) => {},
            Ok((_, at)) => lemma_node_extends(longer, bytes, le, gid_len, participant_gid, at),
        }
    }
}

/// Bytes that read as a list of nodes read as the same list with something appended, if
/// and only if what is appended is padding.
pub proof fn lemma_entities_extend(longer: Seq<u8>, bytes: Seq<u8>, le: bool, gid_len: int)
    requires
        extends(longer, bytes),
        gid_len >= 16,
        entities_read(bytes, le, gid_len) is Ok,
    ensures
        entities_read(longer, le, gid_len) == (if only_padding(longer, bytes.len() as int) {
            entities_read(bytes, le, gid_len)
        } else {
            Err(CdrError::TrailingBytes)
        }),
        match entities_read(bytes, le, gid_len) {
            Ok(info) => forall|i: int|
                0 <= i < info.nodes.len() ==> (#[trigger] info.nodes[i]).participant_gid
                    == info.participant_gid,
            Err(_) => true,
        },
{
    let item_len = NODE_ENTITY_MIN_SERIALIZED_LEN as int;
    lemma_gid_extends(longer, bytes, gid_len, 0);
    let (participant_gid, first) = gid_read(bytes, gid_len, 0)->Ok_0;
    lemma_sequence_len_extends(longer, bytes, le, SequenceItem::Node, item_len, first);
    let (count, second) = sequence_len_read(
        bytes,
        le,
        SequenceItem::Node,
        item_len,
        first,
    )->Ok_0;
    lemma_nodes_extend(longer, bytes, le, gid_len, participant_gid, count as nat, second);
    let (_, end) = nodes_read(
        bytes,
        le,
        gid_len,
        participant_gid,
        count as nat,
        second,
    )->Ok_0;
    assert(only_padding(longer, end) <==> only_padding(longer, bytes.len() as int)) by {
        assert forall|i: int| end <= i < bytes.len() implies longer[i] == 0 by {
            lemma_same_byte(longer, bytes, i);
            assert(bytes[i] == 0);
        }
    }
}

/// Whatever reads as a list of nodes reads as the same list with any number of zero bytes
/// appended, and every node in it belongs to the participant that the list names.
pub proof fn law_padding_changes_nothing(bytes: Seq<u8>, le: bool, gid_len: int, padding: nat)
    requires
        gid_len >= 16,
        entities_read(bytes, le, gid_len) is Ok,
    ensures
        entities_read(bytes + Seq::new(padding, |i: int| 0u8), le, gid_len) == entities_read(
            bytes,
            le,
            gid_len,
        ),
        match entities_read(bytes, le, gid_len) {
            Ok(info) => forall|i: int|
                0 <= i < info.nodes.len() ==> (#[trigger] info.nodes[i]).participant_gid
                    == info.participant_gid,
            Err(_) => false,
        },
{
    let longer = bytes + Seq::new(padding, |i: int| 0u8);
    assert(longer.take(bytes.len() as int) =~= bytes);
    lemma_entities_extend(longer, bytes, le, gid_len);
    assert(only_padding(longer, bytes.len() as int));
}

/// Whatever reads as a list of nodes reads no more with a byte other than zero appended.
pub proof fn law_trailing_byte_is_refused(bytes: Seq<u8>, le: bool, gid_len: int, byte: u8)
    requires
        gid_len >= 16,
        entities_read(bytes, le, gid_len) is Ok,
        byte != 0,
    ensures
        entities_read(bytes.push(byte), le, gid_len) == Err::<EntitiesView, CdrError>(
            CdrError::TrailingBytes,
        ),
{
    let longer = bytes.push(byte);
    assert(longer.take(bytes.len() as int) =~= bytes);
    lemma_entities_extend(longer, bytes, le, gid_len);
    assert(longer[bytes.len() as int] == byte);
}

/// A payload whose identifiers have the current length says the same with any number of zero
/// bytes appended.
pub proof fn law_padded_payload_says_the_same(payload: Seq<u8>, padding: nat)
    requires
        payload.len() >= 4,
        entities_read(
            payload.skip(4),
            be16(payload[0], payload[1]) == CDR_LE,
            ROS_GID_LEN as int,
        ) is Ok,
    ensures
        parsed_entities(payload + Seq::new(padding, |i: int| 0u8)) == parsed_entities(payload),
{
    let zeros = Seq::new(padding, |i: int| 0u8);
    let le = be16(payload[0], payload[1]) == CDR_LE;
    law_padding_changes_nothing(payload.skip(4), le, ROS_GID_LEN as int, padding);
    assert((payload + zeros).skip(4) =~= payload.skip(4) + zeros);
}

} // verus!
