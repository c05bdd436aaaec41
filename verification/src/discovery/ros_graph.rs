//! The topic on which every participant lists its nodes and their endpoints.

use crate::common::TopicGid;
use crate::discovery::tables::{NodeSample, NodeSampleView};
use crate::text::{same_text, text_from_utf8};
use crate::wire::{array16, be16, bytes16_at, read_be16, read_u32_at, u32_at};
use vstd::prelude::*;
use vstd::utf8::{decode_utf8, valid_utf8};

verus! {

pub const CDR_BE: u16 = 0x0000;

pub const CDR_LE: u16 = 0x0001;

/// Bytes of an identifier as current releases write it.
pub const ROS_GID_LEN: usize = 16;

/// Bytes of an identifier as older releases write it.
pub const ROS_GID_LEN_LEGACY: usize = 24;

/// The fewest bytes that a node takes.
pub const NODE_ENTITY_MIN_SERIALIZED_LEN: usize = 16;

/// What one participant says of its nodes.
pub struct ParticipantEntitiesInfo {
    pub participant_gid: TopicGid,
    pub nodes: Vec<NodeSample>,
}

/// What a [`ParticipantEntitiesInfo`] holds.
#[verifier::ext_equal]
pub struct EntitiesView {
    pub participant_gid: TopicGid,
    pub nodes: Seq<NodeSampleView>,
}

/// The views of a list of nodes.
pub open spec fn node_views(nodes: Seq<NodeSample>) -> Seq<NodeSampleView> {
    nodes.map_values(|node: NodeSample| node@)
}

impl View for ParticipantEntitiesInfo {
    type V = EntitiesView;

    open spec fn view(&self) -> EntitiesView {
        EntitiesView { participant_gid: self.participant_gid, nodes: node_views(self.nodes@) }
    }
}

/// What a sequence is made of.
#[derive(Clone, Copy, Debug, Eq, PartialEq)]
pub enum SequenceItem {
    Node,
    Gid,
}

/// Why bytes do not read as a list of nodes.
#[derive(Clone, Copy, Debug, Eq, PartialEq)]
pub enum CdrError {
    /// The padding before a number reaches past the end.
    AlignmentOutOfBounds,
    /// A number reaches past the end.
    U32OutOfBounds,
    /// A string reaches past the end.
    StringOutOfBounds,
    /// A string does not end in a null byte.
    MissingNull,
    /// A string is not valid UTF-8.
    InvalidUtf8,
    /// An identifier reaches past the end.
    GidOutOfBounds,
    /// A sequence claims more items than the rest of the bytes can hold.
    SequenceTooLong { item: SequenceItem, len: u32, capacity: usize },
    /// Something other than padding follows the last node.
    TrailingBytes,
}

/// Why a payload does not read as a list of nodes.
#[derive(Clone, Copy, Debug, Eq, PartialEq)]
pub enum EntitiesError {
    /// The payload is shorter than its encapsulation header.
    ShortPayload,
    /// The encapsulation header names neither byte order.
    UnsupportedEncapsulation { kind: u16 },
    /// The payload reads with neither length of identifiers.
    Unreadable { current: CdrError, legacy: CdrError },
}

/// A topic is the one on which participants list their nodes.
pub open spec fn is_discovery_topic(topic_name: Seq<char>) -> bool {
    topic_name == "/ros_discovery_info"@ || topic_name == "rt/ros_discovery_info"@
}

/// Whether a topic is the one on which participants list their nodes.
pub fn is_ros_discovery_info(topic_name: &str) -> (r: bool)
    ensures
        r == is_discovery_topic(topic_name@),
{
    same_text(topic_name, "/ros_discovery_info") || same_text(topic_name, "rt/ros_discovery_info")
}

/// The type of the topic on which participants list their nodes.
pub fn ros_discovery_info_type() -> (r: &'static str)
    ensures
        r@ == "rmw_dds_common/msg/ParticipantEntitiesInfo"@,
{
    "rmw_dds_common/msg/ParticipantEntitiesInfo"
}

// Reading, as functions of the bytes and a position. Each gives what was read and the
// position behind it.

/// The position of the next number: padding fills up to four bytes.
pub open spec fn aligned(offset: int) -> int {
    (offset + 3) / 4 * 4
}

/// The number at a position.
pub open spec fn u32_read(bytes: Seq<u8>, le: bool, offset: int) -> Result<(u32, int), CdrError> {
    let at = aligned(offset);
    if at > bytes.len() {
        Err(CdrError::AlignmentOutOfBounds)
    } else if at + 4 > bytes.len() {
        Err(CdrError::U32OutOfBounds)
    } else {
        Ok((u32_at(bytes, at, le), at + 4))
    }
}

/// The string at a position: its length, its bytes and a null byte. Nothing at all
/// follows the length zero.
pub open spec fn string_read(bytes: Seq<u8>, le: bool, offset: int) -> Result<
    (Seq<char>, int),
    CdrError,
> {
    match u32_read(bytes, le, offset) {
        Err(error) => Err(error),
        Ok((len, at)) => if len == 0 {
            Ok((seq![], at))
        } else if at + len > bytes.len() {
            Err(CdrError::StringOutOfBounds)
        } else if bytes[at + len - 1] != 0 {
            Err(CdrError::MissingNull)
        } else if !valid_utf8(bytes.subrange(at, at + len - 1)) {
            Err(CdrError::InvalidUtf8)
        } else {
            Ok((decode_utf8(bytes.subrange(at, at + len - 1)), at + len))
        },
    }
}

/// The identifier at a position: its first sixteen bytes count.
pub open spec fn gid_read(bytes: Seq<u8>, gid_len: int, offset: int) -> Result<
    (TopicGid, int),
    CdrError,
> {
    if offset + gid_len > bytes.len() {
        Err(CdrError::GidOutOfBounds)
    } else {
        Ok((TopicGid { bytes: bytes16_at(bytes, offset) }, offset + gid_len))
    }
}

/// The length of the sequence at a position, whose items take `item_len` bytes or more.
pub open spec fn sequence_len_read(
    bytes: Seq<u8>,
    le: bool,
    item: SequenceItem,
    item_len: int,
    offset: int,
) -> Result<(u32, int), CdrError> {
    match u32_read(bytes, le, offset) {
        Err(error) => Err(error),
        Ok((len, at)) => if len > (bytes.len() - at) / item_len {
            Err(
                CdrError::SequenceTooLong {
                    item,
                    len,
                    capacity: ((bytes.len() - at) / item_len) as usize,
                },
            )
        } else {
            Ok((len, at))
        },
    }
}

/// `count` identifiers from a position on.
pub open spec fn gids_read(bytes: Seq<u8>, gid_len: int, count: nat, offset: int) -> Result<
    (Seq<TopicGid>, int),
    CdrError,
>
    decreases count,
{
    if count == 0 {
        Ok((seq![], offset))
    } else {
        match gids_read(bytes, gid_len, (count - 1) as nat, offset) {
            Err(error) => Err(error),
            Ok((gids, at)) => match gid_read(bytes, gid_len, at) {
                Err(error) => Err(error),
                Ok((gid, end)) => Ok((gids.push(gid), end)),
            },
        }
    }
}

/// The sequence of identifiers at a position.
pub open spec fn gid_sequence_read(bytes: Seq<u8>, le: bool, gid_len: int, offset: int) -> Result<
    (Seq<TopicGid>, int),
    CdrError,
> {
    match sequence_len_read(bytes, le, SequenceItem::Gid, gid_len, offset) {
        Err(error) => Err(error),
        Ok((count, at)) => gids_read(bytes, gid_len, count as nat, at),
    }
}

/// The node at a position: its namespace, its name, its readers and its writers.
pub open spec fn node_read(
    bytes: Seq<u8>,
    le: bool,
    gid_len: int,
    participant_gid: TopicGid,
    offset: int,
) -> Result<(NodeSampleView, int), CdrError> {
    match string_read(bytes, le, offset) {
        Err(error) => Err(error),
        Ok((node_namespace, at)) => match string_read(bytes, le, at) {
            Err(error) => Err(error),
            Ok((node_name, at)) => match gid_sequence_read(bytes, le, gid_len, at) {
                Err(error) => Err(error),
                Ok((reader_gids, at)) => match gid_sequence_read(bytes, le, gid_len, at) {
                    Err(error) => Err(error),
                    Ok((writer_gids, at)) => Ok(
                        (
                            NodeSampleView {
                                participant_gid,
                                node_namespace,
                                node_name,
                                writer_gids,
                                reader_gids,
                            },
                            at,
                        ),
                    ),
                },
            },
        },
    }
}

/// `count` nodes from a position on.
pub open spec fn nodes_read(
    bytes: Seq<u8>,
    le: bool,
    gid_len: int,
    participant_gid: TopicGid,
    count: nat,
    offset: int,
) -> Result<(Seq<NodeSampleView>, int), CdrError>
    decreases count,
{
    if count == 0 {
        Ok((seq![], offset))
    } else {
        match nodes_read(bytes, le, gid_len, participant_gid, (count - 1) as nat, offset) {
            Err(error) => Err(error),
            Ok((nodes, at)) => match node_read(bytes, le, gid_len, participant_gid, at) {
                Err(error) => Err(error),
                Ok((node, end)) => Ok((nodes.push(node), end)),
            },
        }
    }
}

/// Only padding stands from a position on.
pub open spec fn only_padding(bytes: Seq<u8>, offset: int) -> bool {
    forall|i: int| offset <= i < bytes.len() ==> #[trigger] bytes[i] == 0
}

/// A whole list of nodes, with identifiers of `gid_len` bytes.
pub open spec fn entities_read(bytes: Seq<u8>, le: bool, gid_len: int) -> Result<
    EntitiesView,
    CdrError,
> {
    match gid_read(bytes, gid_len, 0) {
        Err(error) => Err(error),
        Ok((participant_gid, at)) => match sequence_len_read(
            bytes,
            le,
            SequenceItem::Node,
            NODE_ENTITY_MIN_SERIALIZED_LEN as int,
            at,
        ) {
            Err(error) => Err(error),
            Ok((count, at)) => match nodes_read(
                bytes,
                le,
                gid_len,
                participant_gid,
                count as nat,
                at,
            ) {
                Err(error) => Err(error),
                Ok((nodes, at)) => if only_padding(bytes, at) {
                    Ok(EntitiesView { participant_gid, nodes })
                } else {
                    Err(CdrError::TrailingBytes)
                },
            },
        },
    }
}

/// What a payload says of a participant's nodes. Identifiers of the current length are
/// tried first.
pub open spec fn parsed_entities(payload: Seq<u8>) -> Result<EntitiesView, EntitiesError> {
    if payload.len() < 4 {
        Err(EntitiesError::ShortPayload)
    } else {
        let kind = be16(payload[0], payload[1]);
        if kind != CDR_BE && kind != CDR_LE {
            Err(EntitiesError::UnsupportedEncapsulation { kind })
        } else {
            let body = payload.skip(4);
            match entities_read(body, kind == CDR_LE, ROS_GID_LEN as int) {
                Ok(info) => Ok(info),
                Err(current) => match entities_read(
                    body,
                    kind == CDR_LE,
                    ROS_GID_LEN_LEGACY as int,
                ) {
                    Ok(info) => Ok(info),
                    Err(legacy) => Err(EntitiesError::Unreadable { current, legacy }),
                },
            }
        }
    }
}

/// Reads one value after the other.
struct CdrReader<'a> {
    bytes: &'a [u8],
    offset: usize,
    little_endian: bool,
    gid_len: usize,
}

/// `r` is what `want` says was read, and the reader stands behind it.
spec fn is_read<T, V>(
    r: Result<T, CdrError>,
    view: spec_fn(T) -> V,
    offset: usize,
    want: Result<(V, int), CdrError>,
) -> bool {
    match (r, want) {
        (Ok(value), Ok((wanted, at))) => view(value) == wanted && offset == at,
        (Err(error), Err(wanted)) => error == wanted,
        _ => false,
    }
}

proof fn lemma_gids_error_stays(
    bytes: Seq<u8>,
    gid_len: int,
    fewer: nat,
    count: nat,
    offset: int,
    error: CdrError,
)
    requires
        gids_read(bytes, gid_len, fewer, offset) == Err::<(Seq<TopicGid>, int), CdrError>(error),
        fewer <= count,
    ensures
        gids_read(bytes, gid_len, count, offset) == Err::<(Seq<TopicGid>, int), CdrError>(error),
    decreases count,
{
    if fewer < count {
        lemma_gids_error_stays(bytes, gid_len, fewer, (count - 1) as nat, offset, error);
    }
}

proof fn lemma_nodes_error_stays(
    bytes: Seq<u8>,
    le: bool,
    gid_len: int,
    participant_gid: TopicGid,
    fewer: nat,
    count: nat,
    offset: int,
    error: CdrError,
)
    requires
        nodes_read(bytes, le, gid_len, participant_gid, fewer, offset) == Err::<
            (Seq<NodeSampleView>, int),
            CdrError,
        >(error),
        fewer <= count,
    ensures
        nodes_read(bytes, le, gid_len, participant_gid, count, offset) == Err::<
            (Seq<NodeSampleView>, int),
            CdrError,
        >(error),
    decreases count,
{
    if fewer < count {
        lemma_nodes_error_stays(
            bytes,
            le,
            gid_len,
            participant_gid,
            fewer,
            (count - 1) as nat,
            offset,
            error,
        );
    }
}

impl<'a> CdrReader<'a> {
    spec fn wf(&self) -> bool {
        &&& self.offset <= self.bytes@.len()
        &&& self.gid_len >= 16
    }

    /// Only the position has changed.
    spec fn moved_from(&self, other: &CdrReader<'a>) -> bool {
        &&& self.wf()
        &&& self.bytes == other.bytes
        &&& self.little_endian == other.little_endian
        &&& self.gid_len == other.gid_len
    }

    fn new(bytes: &'a [u8], little_endian: bool, gid_len: usize) -> (r: CdrReader<'a>)
        ensures
            r == (CdrReader { bytes, offset: 0, little_endian, gid_len }),
    {
        CdrReader { bytes, offset: 0, little_endian, gid_len }
    }

    fn align(&mut self) -> (r: Result<(), CdrError>)
        requires
            old(self).wf(),
        ensures
            final(self).moved_from(old(self)),
            match r {
                Ok(()) => final(self).offset == aligned(old(self).offset as int),
                Err(error) => error == CdrError::AlignmentOutOfBounds && aligned(
                    old(self).offset as int,
                ) > old(self).bytes@.len(),
            },
    {
        let misalignment: usize = self.offset % 4;
        if misalignment == 0 {
            return Ok(());
        }
        let pad: usize = 4 - misalignment;
        if pad > self.bytes.len() - self.offset {
            return Err(CdrError::AlignmentOutOfBounds);
        }
        self.offset += pad;
        Ok(())
    }

    fn read_u32(&mut self) -> (r: Result<u32, CdrError>)
        requires
            old(self).wf(),
        ensures
            final(self).moved_from(old(self)),
            is_read(
                r,
                |value: u32| value,
                final(self).offset,
                u32_read(old(self).bytes@, old(self).little_endian, old(self).offset as int),
            ),
    {
        match self.align() {
            Err(error) => return Err(error),
            Ok(()) => {},
        }
        if self.bytes.len() - self.offset < 4 {
            return Err(CdrError::U32OutOfBounds);
        }
        let value: u32 = read_u32_at(self.bytes, self.offset, self.little_endian);
        self.offset += 4;
        Ok(value)
    }

    fn read_string(&mut self) -> (r: Result<String, CdrError>)
        requires
            old(self).wf(),
        ensures
            final(self).moved_from(old(self)),
            is_read(
                r,
                |value: String| value@,
                final(self).offset,
                string_read(old(self).bytes@, old(self).little_endian, old(self).offset as int),
            ),
    {
        let len: usize = match self.read_u32() {
            Err(error) => return Err(error),
            Ok(len) => len as usize,
        };
        if len == 0 {
            let text = String::new();
            assert(text@ =~= seq![]);
            return Ok(text);
        }
        if len > self.bytes.len() - self.offset {
            return Err(CdrError::StringOutOfBounds);
        }
        let start: usize = self.offset;
        let last: usize = start + len - 1;
        self.offset = start + len;
        if self.bytes[last] != 0 {
            return Err(CdrError::MissingNull);
        }
        match text_from_utf8(&self.bytes[start..last]) {
            None => Err(CdrError::InvalidUtf8),
            Some(text) => Ok(text),
        }
    }

    fn read_topic_gid(&mut self) -> (r: Result<TopicGid, CdrError>)
        requires
            old(self).wf(),
        ensures
            final(self).moved_from(old(self)),
            is_read(
                r,
                |value: TopicGid| value,
                final(self).offset,
                gid_read(old(self).bytes@, old(self).gid_len as int, old(self).offset as int),
            ),
    {
        if self.gid_len > self.bytes.len() - self.offset {
            return Err(CdrError::GidOutOfBounds);
        }
        let gid = TopicGid::new(array16(self.bytes, self.offset));
        self.offset += self.gid_len;
        Ok(gid)
    }

    fn read_sequence_len(&mut self, item: SequenceItem, item_len: usize) -> (r: Result<
        u32,
        CdrError,
    >)
        requires
            old(self).wf(),
            item_len > 0,
        ensures
            final(self).moved_from(old(self)),
            is_read(
                r,
                |value: u32| value,
                final(self).offset,
                sequence_len_read(
                    old(self).bytes@,
                    old(self).little_endian,
                    item,
                    item_len as int,
                    old(self).offset as int,
                ),
            ),
    {
        let len: u32 = match self.read_u32() {
            Err(error) => return Err(error),
            Ok(len) => len,
        };
        let capacity: usize = (self.bytes.len() - self.offset) / item_len;
        if len as usize > capacity {
            return Err(CdrError::SequenceTooLong { item, len, capacity });
        }
        Ok(len)
    }

    fn read_gid_sequence(&mut self) -> (r: Result<Vec<TopicGid>, CdrError>)
        requires
            old(self).wf(),
        ensures
            final(self).moved_from(old(self)),
            is_read(
                r,
                |value: Vec<TopicGid>| value@,
                final(self).offset,
                gid_sequence_read(
                    old(self).bytes@,
                    old(self).little_endian,
                    old(self).gid_len as int,
                    old(self).offset as int,
                ),
            ),
    {
        let len: u32 = match self.read_sequence_len(SequenceItem::Gid, self.gid_len) {
            Err(error) => return Err(error),
            Ok(len) => len,
        };
        let ghost start = self.offset as int;
        let ghost gid_len = self.gid_len as int;
        let ghost bytes = self.bytes@;
        let mut gids: Vec<TopicGid> = Vec::new();
        let mut i: u32 = 0;
        assert(gids@ =~= seq![]);
        while i < len
            invariant
                i <= len,
                self.moved_from(old(self)),
                bytes == self.bytes@,
                gid_len == self.gid_len,
                gid_sequence_read(
                    old(self).bytes@,
                    old(self).little_endian,
                    old(self).gid_len as int,
                    old(self).offset as int,
                ) == gids_read(bytes, gid_len, len as nat, start),
                gids_read(bytes, gid_len, i as nat, start) == Ok::<
                    (Seq<TopicGid>, int),
                    CdrError,
                >((gids@, self.offset as int)),
            decreases len - i,
        {
            match self.read_topic_gid() {
                Err(error) => {
                    proof {
                        lemma_gids_error_stays(
                            bytes,
                            gid_len,
                            (i + 1) as nat,
                            len as nat,
                            start,
                            error,
                        );
                    }
                    return Err(error);
                },
                Ok(gid) => gids.push(gid),
            }
            i += 1;
        }
        Ok(gids)
    }

    fn read_node(&mut self, participant_gid: TopicGid) -> (r: Result<NodeSample, CdrError>)
        requires
            old(self).wf(),
        ensures
            final(self).moved_from(old(self)),
            is_read(
                r,
                |value: NodeSample| value@,
                final(self).offset,
                node_read(
                    old(self).bytes@,
                    old(self).little_endian,
                    old(self).gid_len as int,
                    participant_gid,
                    old(self).offset as int,
                ),
            ),
    {
        let node_namespace = match self.read_string() {
            Err(error) => return Err(error),
            Ok(text) => text,
        };
        let node_name = match self.read_string() {
            Err(error) => return Err(error),
            Ok(text) => text,
        };
        let reader_gids = match self.read_gid_sequence() {
            Err(error) => return Err(error),
            Ok(gids) => gids,
        };
        let writer_gids = match self.read_gid_sequence() {
            Err(error) => return Err(error),
            Ok(gids) => gids,
        };
        Ok(NodeSample { participant_gid, node_namespace, node_name, writer_gids, reader_gids })
    }

    fn finish(&self) -> (r: Result<(), CdrError>)
        requires
            self.wf(),
        ensures
            r == (if only_padding(self.bytes@, self.offset as int) {
                Ok::<(), CdrError>(())
            } else {
                Err(CdrError::TrailingBytes)
            }),
    {
        let mut i: usize = self.offset;
        while i < self.bytes.len()
            invariant
                self.offset <= i <= self.bytes@.len(),
                forall|j: int| self.offset <= j < i ==> #[trigger] self.bytes@[j] == 0,
            decreases self.bytes@.len() - i,
        {
            if self.bytes[i] != 0 {
                return Err(CdrError::TrailingBytes);
            }
            i += 1;
        }
        Ok(())
    }
}

/// Reads a list of nodes, with identifiers of `gid_len` bytes.
pub fn parse_participant_entities_info_body(
    payload: &[u8],
    little_endian: bool,
    gid_len: usize,
) -> (r: Result<ParticipantEntitiesInfo, CdrError>)
    requires
        gid_len >= 16,
    ensures
        match (r, entities_read(payload@, little_endian, gid_len as int)) {
            (Ok(info), Ok(wanted)) => info@ == wanted,
            (Err(error), Err(wanted)) => error == wanted,
            _ => false,
        },
{
    let mut reader = CdrReader::new(payload, little_endian, gid_len);
    let participant_gid = match reader.read_topic_gid() {
        Err(error) => return Err(error),
        Ok(gid) => gid,
    };
    let node_count: u32 = match reader.read_sequence_len(
        SequenceItem::Node,
        NODE_ENTITY_MIN_SERIALIZED_LEN,
    ) {
        Err(error) => return Err(error),
        Ok(count) => count,
    };
    let ghost start = reader.offset as int;
    let mut nodes: Vec<NodeSample> = Vec::new();
    let mut i: u32 = 0;
    assert(node_views(nodes@) =~= seq![]);
    while i < node_count
        invariant
            i <= node_count,
            reader.wf(),
            reader.bytes == payload,
            reader.little_endian == little_endian,
            reader.gid_len == gid_len,
            entities_read(payload@, little_endian, gid_len as int) == (match nodes_read(
                payload@,
                little_endian,
                gid_len as int,
                participant_gid,
                node_count as nat,
                start,
            ) {
                Err(error) => Err::<EntitiesView, CdrError>(error),
                Ok((nodes, at)) => if only_padding(payload@, at) {
                    Ok(EntitiesView { participant_gid, nodes })
                } else {
                    Err(CdrError::TrailingBytes)
                },
            }),
            nodes_read(
                payload@,
                little_endian,
                gid_len as int,
                participant_gid,
                i as nat,
                start,
            ) == Ok::<(Seq<NodeSampleView>, int), CdrError>(
                (node_views(nodes@), reader.offset as int),
            ),
        decreases node_count - i,
    {
        match reader.read_node(participant_gid) {
            Err(error) => {
                proof {
                    lemma_nodes_error_stays(
                        payload@,
                        little_endian,
                        gid_len as int,
                        participant_gid,
                        (i + 1) as nat,
                        node_count as nat,
                        start,
                        error,
                    );
                }
                return Err(error);
            },
            Ok(node) => {
                let ghost before = node_views(nodes@);
                nodes.push(node);
                assert(node_views(nodes@) =~= before.push(node@));
            },
        }
        i += 1;
    }
    match reader.finish() {
        Err(error) => Err(error),
        Ok(()) => Ok(ParticipantEntitiesInfo { participant_gid, nodes }),
    }
}

/// Reads what a participant says of its nodes.
pub fn parse_participant_entities_info(payload: &[u8]) -> (r: Result<
    ParticipantEntitiesInfo,
    EntitiesError,
>)
    ensures
        match (r, parsed_entities(payload@)) {
            (Ok(info), Ok(wanted)) => info@ == wanted,
            (Err(error), Err(wanted)) => error == wanted,
            _ => false,
        },
{
    if payload.len() < 4 {
        return Err(EntitiesError::ShortPayload);
    }
    let kind: u16 = read_be16(payload[0], payload[1]);
    if kind != CDR_BE && kind != CDR_LE {
        return Err(EntitiesError::UnsupportedEncapsulation { kind });
    }
    let little_endian = kind == CDR_LE;
    let body = &payload[4..payload.len()];
    assert(body@ =~= payload@.skip(4));
    match parse_participant_entities_info_body(body, little_endian, ROS_GID_LEN) {
        Ok(info) => Ok(info),
        Err(current) => match parse_participant_entities_info_body(
            body,
            little_endian,
            ROS_GID_LEN_LEGACY,
        ) {
            Ok(info) => Ok(info),
            Err(legacy) => Err(EntitiesError::Unreadable { current, legacy }),
        },
    }
}

} // verus!
