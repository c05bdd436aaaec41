//! What reading a participant's nodes promises as a whole.

use crate::common::TopicGid;
use crate::discovery::ros_graph::{
    aligned, entities_read, gid_read, gid_sequence_read, gids_read, node_read, nodes_read,
    only_padding, parsed_entities, string_read, u32_read, CdrError, EntitiesError, EntitiesView,
    CDR_BE, CDR_LE, NODE_ENTITY_MIN_SERIALIZED_LEN, ROS_GID_LEN,
    ROS_GID_LEN_LEGACY,
};
use crate::discovery::tables::NodeSampleView;
use crate::wire::{be16, bytes16_at, u32_at};
use vstd::prelude::*;
use vstd::utf8::encode_utf8;

verus! {

// Writing, as functions that extend what has been written.

/// Bytes filled up to a multiple of four.
pub open spec fn padded(bytes: Seq<u8>) -> Seq<u8> {
    bytes + Seq::new((aligned(bytes.len() as int) - bytes.len()) as nat, |i: int| 0u8)
}

/// The four bytes of a number.
pub open spec fn u32_bytes(value: u32, le: bool) -> Seq<u8> {
    let b3 = (value / 0x100_0000) as u8;
    let b2 = (value / 0x1_0000 % 256) as u8;
    let b1 = (value / 0x100 % 256) as u8;
    let b0 = (value % 256) as u8;
    if le {
        seq![b0, b1, b2, b3]
    } else {
        seq![b3, b2, b1, b0]
    }
}

/// A number behind what has been written.
pub open spec fn u32_written(bytes: Seq<u8>, le: bool, value: u32) -> Seq<u8> {
    padded(bytes) + u32_bytes(value, le)
}

/// A string behind what has been written: its length, its bytes and a null byte.
pub open spec fn string_written(bytes: Seq<u8>, le: bool, text: Seq<char>) -> Seq<u8> {
    u32_written(bytes, le, (encode_utf8(text).len() + 1) as u32) + encode_utf8(text).push(0)
}

/// An identifier of `gid_len` bytes behind what has been written.
pub open spec fn gid_written(bytes: Seq<u8>, gid_len: int, gid: TopicGid) -> Seq<u8> {
    bytes + gid.bytes@ + Seq::new((gid_len - 16) as nat, |i: int| 0u8)
}

/// Identifiers behind what has been written.
pub open spec fn gids_written(bytes: Seq<u8>, gid_len: int, gids: Seq<TopicGid>) -> Seq<u8>
    decreases gids.len(),
{
    if gids.len() == 0 {
        bytes
    } else {
        gid_written(gids_written(bytes, gid_len, gids.drop_last()), gid_len, gids.last())
    }
}

/// A sequence of identifiers behind what has been written.
pub open spec fn gid_sequence_written(
    bytes: Seq<u8>,
    le: bool,
    gid_len: int,
    gids: Seq<TopicGid>,
) -> Seq<u8> {
    gids_written(u32_written(bytes, le, gids.len() as u32), gid_len, gids)
}

/// A node behind what has been written.
pub open spec fn node_written(
    bytes: Seq<u8>,
    le: bool,
    gid_len: int,
    node: NodeSampleView,
) -> Seq<u8> {
    gid_sequence_written(
        gid_sequence_written(
            string_written(string_written(bytes, le, node.node_namespace), le, node.node_name),
            le,
            gid_len,
            node.reader_gids,
        ),
        le,
        gid_len,
        node.writer_gids,
    )
}

/// Nodes behind what has been written.
pub open spec fn nodes_written(
    bytes: Seq<u8>,
    le: bool,
    gid_len: int,
    nodes: Seq<NodeSampleView>,
) -> Seq<u8>
    decreases nodes.len(),
{
    if nodes.len() == 0 {
        bytes
    } else {
        node_written(nodes_written(bytes, le, gid_len, nodes.drop_last()), le, gid_len, nodes.last())
    }
}

/// A whole list of nodes.
pub open spec fn entities_written(info: EntitiesView, le: bool, gid_len: int) -> Seq<u8> {
    nodes_written(
        u32_written(
            gid_written(seq![], gid_len, info.participant_gid),
            le,
            info.nodes.len() as u32,
        ),
        le,
        gid_len,
        info.nodes,
    )
}

/// The lengths in a list of nodes fit their fields, and each node names the
/// participant of the list.
pub open spec fn writable(info: EntitiesView) -> bool {
    &&& info.nodes.len() <= u32::MAX
    &&& forall|i: int|
        0 <= i < info.nodes.len() ==> node_writable(#[trigger] info.nodes[i], info.participant_gid)
}

/// The lengths in a node fit their fields, and it names the participant.
pub open spec fn node_writable(node: NodeSampleView, participant_gid: TopicGid) -> bool {
    &&& node.participant_gid == participant_gid
    &&& encode_utf8(node.node_namespace).len() < u32::MAX
    &&& encode_utf8(node.node_name).len() < u32::MAX
    &&& node.reader_gids.len() <= u32::MAX
    &&& node.writer_gids.len() <= u32::MAX
}

/// `all` starts with `part`.
spec fn begins(all: Seq<u8>, part: Seq<u8>) -> bool {
    part.len() <= all.len() && forall|i: int|
        0 <= i < part.len() ==> #[trigger] all[i] == part[i]
}

proof fn lemma_u32_bytes(value: u32, le: bool, bytes: Seq<u8>, at: int)
    requires
        0 <= at,
        at + 4 <= bytes.len(),
        bytes[at] == u32_bytes(value, le)[0],
        bytes[at + 1] == u32_bytes(value, le)[1],
        bytes[at + 2] == u32_bytes(value, le)[2],
        bytes[at + 3] == u32_bytes(value, le)[3],
    ensures
        u32_at(bytes, at, le) == value,
{
    assert(value / 0x100_0000 < 256);
    assert((value / 0x100_0000) * 0x100_0000 + (value / 0x1_0000 % 256) * 0x1_0000 + (value / 0x100
        % 256) * 0x100 + value % 256 == value);
}

proof fn lemma_u32(all: Seq<u8>, bytes: Seq<u8>, le: bool, value: u32)
    requires
        begins(all, u32_written(bytes, le, value)),
    ensures
        u32_read(all, le, bytes.len() as int) == Ok::<
            (u32, int),
            CdrError,
        >((value, u32_written(bytes, le, value).len() as int)),
        begins(all, bytes),
        u32_written(bytes, le, value).len() == aligned(bytes.len() as int) + 4,
{
    let written = u32_written(bytes, le, value);
    let at = aligned(bytes.len() as int);
    assert(written.len() == at + 4);
    assert forall|i: int| 0 <= i < bytes.len() implies #[trigger] all[i] == bytes[i] by {
        assert(all[i] == written[i]);
    }
    assert(all[at] == written[at]);
    assert(all[at + 1] == written[at + 1]);
    assert(all[at + 2] == written[at + 2]);
    assert(all[at + 3] == written[at + 3]);
    lemma_u32_bytes(value, le, all, at);
}

proof fn lemma_string(all: Seq<u8>, bytes: Seq<u8>, le: bool, text: Seq<char>)
    requires
        begins(all, string_written(bytes, le, text)),
        encode_utf8(text).len() < u32::MAX,
    ensures
        string_read(all, le, bytes.len() as int) == Ok::<
            (Seq<char>, int),
            CdrError,
        >((text, string_written(bytes, le, text).len() as int)),
        begins(all, bytes),
        string_written(bytes, le, text).len() >= aligned(bytes.len() as int) + 5,
{
    let utf8 = encode_utf8(text);
    let len = (utf8.len() + 1) as u32;
    let head = u32_written(bytes, le, len);
    let written = string_written(bytes, le, text);
    assert(written =~= head + utf8.push(0));
    assert(begins(all, head)) by {
        assert forall|i: int| 0 <= i < head.len() implies #[trigger] all[i] == head[i] by {
            assert(all[i] == written[i]);
        }
    }
    lemma_u32(all, bytes, le, len);
    let at = head.len() as int;
    assert(all[at + len - 1] == written[at + len - 1]);
    assert(all.subrange(at, at + len - 1) =~= utf8) by {
        assert forall|i: int| 0 <= i < utf8.len() implies all[at + i] == utf8[i] by {
            assert(all[at + i] == written[at + i]);
        }
    }
    vstd::utf8::encode_utf8_valid_utf8(text);
    vstd::utf8::encode_utf8_decode_utf8(text);
}

proof fn lemma_gid(all: Seq<u8>, bytes: Seq<u8>, gid_len: int, gid: TopicGid)
    requires
        begins(all, gid_written(bytes, gid_len, gid)),
        gid_len >= 16,
    ensures
        gid_read(all, gid_len, bytes.len() as int) == Ok::<
            (TopicGid, int),
            CdrError,
        >((gid, bytes.len() + gid_len)),
        gid_written(bytes, gid_len, gid).len() == bytes.len() + gid_len,
        begins(all, bytes),
{
    let written = gid_written(bytes, gid_len, gid);
    assert forall|i: int| 0 <= i < bytes.len() implies #[trigger] all[i] == bytes[i] by {
        assert(all[i] == written[i]);
    }
    let got = bytes16_at(all, bytes.len() as int);
    assert forall|i: int| 0 <= i < 16 implies got@[i] == gid.bytes@[i] by {
        assert(all[bytes.len() + i] == written[bytes.len() + i]);
        assert(got@[i] == all[bytes.len() + i]);
    }
    assert(got =~= gid.bytes);
}

proof fn lemma_gids(all: Seq<u8>, bytes: Seq<u8>, gid_len: int, gids: Seq<TopicGid>)
    requires
        begins(all, gids_written(bytes, gid_len, gids)),
        gid_len >= 16,
    ensures
        gids_read(all, gid_len, gids.len(), bytes.len() as int) == Ok::<
            (Seq<TopicGid>, int),
            CdrError,
        >((gids, gids_written(bytes, gid_len, gids).len() as int)),
        gids_written(bytes, gid_len, gids).len() == bytes.len() + gids.len() * gid_len,
        begins(all, bytes),
    decreases gids.len(),
{
    if gids.len() > 0 {
        let before = gids_written(bytes, gid_len, gids.drop_last());
        lemma_gid(all, before, gid_len, gids.last());
        lemma_gids(all, bytes, gid_len, gids.drop_last());
        assert(gids.drop_last().push(gids.last()) =~= gids);
        assert((gids.len() - 1) * gid_len + gid_len == gids.len() * gid_len) by (nonlinear_arith);
    } else {
        assert(gids =~= seq![]);
        assert(gids.len() * gid_len == 0) by (nonlinear_arith)
            requires
                gids.len() == 0,
        ;
    }
}

proof fn lemma_gid_sequence(
    all: Seq<u8>,
    bytes: Seq<u8>,
    le: bool,
    gid_len: int,
    gids: Seq<TopicGid>,
)
    requires
        begins(all, gid_sequence_written(bytes, le, gid_len, gids)),
        gid_len >= 16,
        gids.len() <= u32::MAX,
    ensures
        gid_sequence_read(all, le, gid_len, bytes.len() as int) == Ok::<
            (Seq<TopicGid>, int),
            CdrError,
        >((gids, gid_sequence_written(bytes, le, gid_len, gids).len() as int)),
        begins(all, bytes),
        gid_sequence_written(bytes, le, gid_len, gids).len() >= aligned(bytes.len() as int) + 4,
{
    let head = u32_written(bytes, le, gids.len() as u32);
    lemma_gids(all, head, gid_len, gids);
    lemma_u32(all, bytes, le, gids.len() as u32);
    let room = all.len() - head.len();
    let n = gids.len() as int;
    assert(n * gid_len >= 0) by (nonlinear_arith)
        requires
            n >= 0,
            gid_len >= 16,
    ;
    assert(n <= room / gid_len) by (nonlinear_arith)
        requires
            n * gid_len <= room,
            gid_len >= 16,
    ;
}

/// A node is read when its four parts are, one behind the other.
proof fn lemma_node_parts(
    all: Seq<u8>,
    le: bool,
    gid_len: int,
    node: NodeSampleView,
    at: int,
    ends: (int, int, int, int),
)
    requires
        string_read(all, le, at) == Ok::<(Seq<char>, int), CdrError>((node.node_namespace, ends.0)),
        string_read(all, le, ends.0) == Ok::<(Seq<char>, int), CdrError>((node.node_name, ends.1)),
        gid_sequence_read(all, le, gid_len, ends.1) == Ok::<(Seq<TopicGid>, int), CdrError>(
            (node.reader_gids, ends.2),
        ),
        gid_sequence_read(all, le, gid_len, ends.2) == Ok::<(Seq<TopicGid>, int), CdrError>(
            (node.writer_gids, ends.3),
        ),
    ensures
        node_read(all, le, gid_len, node.participant_gid, at) == Ok::<
            (NodeSampleView, int),
            CdrError,
        >((node, ends.3)),
{
}

proof fn lemma_node(all: Seq<u8>, bytes: Seq<u8>, le: bool, gid_len: int, node: NodeSampleView)
    requires
        begins(all, node_written(bytes, le, gid_len, node)),
        gid_len >= 16,
        node_writable(node, node.participant_gid),
    ensures
        node_read(all, le, gid_len, node.participant_gid, bytes.len() as int) == Ok::<
            (NodeSampleView, int),
            CdrError,
        >((node, node_written(bytes, le, gid_len, node).len() as int)),
        begins(all, bytes),
        node_written(bytes, le, gid_len, node).len() >= bytes.len()
            + NODE_ENTITY_MIN_SERIALIZED_LEN,
{
    let after_namespace = string_written(bytes, le, node.node_namespace);
    let after_name = string_written(after_namespace, le, node.node_name);
    let after_readers = gid_sequence_written(after_name, le, gid_len, node.reader_gids);
    lemma_gid_sequence(all, after_readers, le, gid_len, node.writer_gids);
    lemma_gid_sequence(all, after_name, le, gid_len, node.reader_gids);
    lemma_string(all, after_namespace, le, node.node_name);
    lemma_string(all, bytes, le, node.node_namespace);
    lemma_node_parts(
        all,
        le,
        gid_len,
        node,
        bytes.len() as int,
        (
            after_namespace.len() as int,
            after_name.len() as int,
            after_readers.len() as int,
            node_written(bytes, le, gid_len, node).len() as int,
        ),
    );
}

proof fn lemma_nodes(
    all: Seq<u8>,
    bytes: Seq<u8>,
    le: bool,
    gid_len: int,
    participant_gid: TopicGid,
    nodes: Seq<NodeSampleView>,
)
    requires
        begins(all, nodes_written(bytes, le, gid_len, nodes)),
        gid_len >= 16,
        forall|i: int| 0 <= i < nodes.len() ==> node_writable(#[trigger] nodes[i], participant_gid),
    ensures
        nodes_read(all, le, gid_len, participant_gid, nodes.len(), bytes.len() as int) == Ok::<
            (Seq<NodeSampleView>, int),
            CdrError,
        >((nodes, nodes_written(bytes, le, gid_len, nodes).len() as int)),
        begins(all, bytes),
        nodes_written(bytes, le, gid_len, nodes).len() >= bytes.len() + nodes.len()
            * NODE_ENTITY_MIN_SERIALIZED_LEN,
    decreases nodes.len(),
{
    if nodes.len() > 0 {
        let before = nodes_written(bytes, le, gid_len, nodes.drop_last());
        assert(node_writable(nodes[nodes.len() - 1], participant_gid));
        lemma_node(all, before, le, gid_len, nodes.last());
        lemma_nodes(all, bytes, le, gid_len, participant_gid, nodes.drop_last());
        assert(nodes.drop_last().push(nodes.last()) =~= nodes);
    } else {
        assert(nodes =~= seq![]);
    }
}

/// A list of nodes, written with identifiers of `gid_len` bytes and followed by
/// padding, reads back as itself with that length of identifiers.
pub proof fn law_written_entities_read_back(
    info: EntitiesView,
    le: bool,
    gid_len: int,
    padding: nat,
)
    requires
        writable(info),
        gid_len >= 16,
    ensures
        entities_read(
            entities_written(info, le, gid_len) + Seq::new(padding, |i: int| 0u8),
            le,
            gid_len,
        ) == Ok::<EntitiesView, CdrError>(info),
{
    let written = entities_written(info, le, gid_len);
    let all = written + Seq::new(padding, |i: int| 0u8);
    assert(begins(all, written));
    let first = gid_written(seq![], gid_len, info.participant_gid);
    let head = u32_written(first, le, info.nodes.len() as u32);
    lemma_nodes(all, head, le, gid_len, info.participant_gid, info.nodes);
    lemma_u32(all, first, le, info.nodes.len() as u32);
    lemma_gid(all, seq![], gid_len, info.participant_gid);
    assert(info.nodes.len() <= (all.len() - head.len()) / 16);
    assert(only_padding(all, written.len() as int));
}

/// The payload of a list of nodes: the encapsulation header, then the list.
pub open spec fn entities_payload(body: Seq<u8>, le: bool) -> Seq<u8> {
    seq![0u8, if le { 1u8 } else { 0u8 }, 0u8, 0u8] + body
}

proof fn lemma_payload_header(body: Seq<u8>, le: bool)
    ensures
        entities_payload(body, le).len() >= 4,
        entities_payload(body, le).skip(4) == body,
        be16(entities_payload(body, le)[0], entities_payload(body, le)[1]) == (if le {
            CDR_LE
        } else {
            CDR_BE
        }),
{
    assert(entities_payload(body, le).skip(4) =~= body);
}

/// A payload is read with the first length of identifiers that fits.
proof fn lemma_payload(body: Seq<u8>, le: bool, info: EntitiesView)
    requires
        entities_read(body, le, ROS_GID_LEN as int) == Ok::<EntitiesView, CdrError>(info) || (
        entities_read(body, le, ROS_GID_LEN as int) is Err && entities_read(
            body,
            le,
            ROS_GID_LEN_LEGACY as int,
        ) == Ok::<EntitiesView, CdrError>(info)),
    ensures
        parsed_entities(entities_payload(body, le)) == Ok::<EntitiesView, EntitiesError>(info),
{
    lemma_payload_header(body, le);
}

/// What a current release writes reads back as itself. So does what an older release
/// writes, unless its bytes also read as those of a current one.
pub proof fn law_payload_reads_back(info: EntitiesView, le: bool, legacy: bool, padding: nat)
    requires
        writable(info),
        legacy ==> entities_read(
            entities_written(info, le, ROS_GID_LEN_LEGACY as int) + Seq::new(
                padding,
                |i: int| 0u8,
            ),
            le,
            ROS_GID_LEN as int,
        ) is Err,
    ensures
        ({
            let gid_len = if legacy {
                ROS_GID_LEN_LEGACY as int
            } else {
                ROS_GID_LEN as int
            };
            let body = entities_written(info, le, gid_len) + Seq::new(padding, |i: int| 0u8);
            parsed_entities(entities_payload(body, le)) == Ok::<
                EntitiesView,
                EntitiesError,
            >(info)
        }),
{
    let gid_len = if legacy {
        ROS_GID_LEN_LEGACY as int
    } else {
        ROS_GID_LEN as int
    };
    let body = entities_written(info, le, gid_len) + Seq::new(padding, |i: int| 0u8);
    law_written_entities_read_back(info, le, gid_len, padding);
    lemma_payload(body, le, info);
}

} // verus!
