//! Putting fragmented IP datagrams back together.

use crate::assoc::{as_map, has_key, key_at, lemma_as_map, lemma_push, lemma_remove, lemma_update, unique_keys};
use crate::capture::ip_frag::{fragment_fits, CapturedIpPacket, IpFragmentInfo, IpFragmentKey, IpPacketView, UDP_HDR_LEN};
use crate::capture::ranges::{block, covered, insert_range, lemma_single_block, ranges_wf};
use crate::capture::socket::PacketDirection;
use crate::common::{FlowTuple, Timestamp};
use crate::payload::{payload_bytes, payload_from_vec, payload_slice, payload_subrange};
use crate::wire::{be16, read_be16};
use bytes::Bytes;
use std::collections::VecDeque;
use vstd::prelude::*;

verus! {

/// A whole IP datagram.
pub struct ReassembledIpDatagram {
    pub socket_timestamp: Timestamp,
    pub frame_len: usize,
    pub direction: PacketDirection,
    pub flow: FlowTuple,
    pub ip_identification: u16,
    pub ip_payload: Bytes,
    pub fragment_count: u32,
    pub was_fragmented: bool,
}

/// What a [`ReassembledIpDatagram`] holds.
#[verifier::ext_equal]
pub struct IpDatagramView {
    pub socket_timestamp: Timestamp,
    pub frame_len: usize,
    pub direction: PacketDirection,
    pub flow: FlowTuple,
    pub ip_identification: u16,
    pub ip_payload: Seq<u8>,
    pub fragment_count: u32,
    pub was_fragmented: bool,
}

impl View for ReassembledIpDatagram {
    type V = IpDatagramView;

    open spec fn view(&self) -> IpDatagramView {
        IpDatagramView {
            socket_timestamp: self.socket_timestamp,
            frame_len: self.frame_len,
            direction: self.direction,
            flow: self.flow,
            ip_identification: self.ip_identification,
            ip_payload: payload_bytes(self.ip_payload),
            fragment_count: self.fragment_count,
            was_fragmented: self.was_fragmented,
        }
    }
}

/// The payload of a UDP datagram.
pub struct ReassembledUdpPayload {
    pub socket_timestamp: Timestamp,
    pub frame_len: usize,
    pub direction: PacketDirection,
    pub flow: FlowTuple,
    pub ip_identification: u16,
    pub udp_payload: Bytes,
    pub fragment_count: u32,
    pub was_fragmented: bool,
}

/// Why a whole IP datagram holds no UDP payload.
#[derive(Clone, Copy, Debug, Eq, PartialEq)]
pub enum UdpPayloadError {
    /// The datagram is shorter than a UDP header.
    ShortPayload,
    /// The UDP length is smaller than its header.
    UdpLength,
}

/// Why the bytes of a whole IP datagram hold no UDP payload, if so.
pub open spec fn udp_payload_error(ip_payload: Seq<u8>) -> Option<UdpPayloadError> {
    if ip_payload.len() < UDP_HDR_LEN {
        Some(UdpPayloadError::ShortPayload)
    } else if be16(ip_payload[4], ip_payload[5]) < UDP_HDR_LEN {
        Some(UdpPayloadError::UdpLength)
    } else {
        None
    }
}

/// What follows the UDP header, up to the UDP length or the end of the datagram.
pub open spec fn udp_payload_of(ip_payload: Seq<u8>) -> Seq<u8> {
    let udp_len = be16(ip_payload[4], ip_payload[5]) as int;
    ip_payload.subrange(
        UDP_HDR_LEN as int,
        if udp_len <= ip_payload.len() {
            udp_len
        } else {
            ip_payload.len() as int
        },
    )
}

/// `payload` is the UDP payload of `datagram`.
pub open spec fn is_udp_payload_of(
    payload: ReassembledUdpPayload,
    datagram: IpDatagramView,
) -> bool {
    &&& payload.socket_timestamp == datagram.socket_timestamp
    &&& payload.frame_len == datagram.frame_len
    &&& payload.direction == datagram.direction
    &&& payload.flow == datagram.flow
    &&& payload.ip_identification == datagram.ip_identification
    &&& payload_bytes(payload.udp_payload) == udp_payload_of(datagram.ip_payload)
    &&& payload.fragment_count == datagram.fragment_count
    &&& payload.was_fragmented == datagram.was_fragmented
}

impl ReassembledIpDatagram {
    /// Takes the UDP header off a whole datagram.
    pub fn into_udp_payload(self) -> (r: Result<ReassembledUdpPayload, UdpPayloadError>)
        ensures
            match udp_payload_error(self@.ip_payload) {
                Some(error) => r == Err::<ReassembledUdpPayload, UdpPayloadError>(error),
                None => r matches Ok(payload) && is_udp_payload_of(payload, self@),
            },
    {
        let bytes = payload_slice(&self.ip_payload);
        if bytes.len() < UDP_HDR_LEN {
            return Err(UdpPayloadError::ShortPayload);
        }
        let udp_len: usize = read_be16(bytes[4], bytes[5]) as usize;
        if udp_len < UDP_HDR_LEN {
            return Err(UdpPayloadError::UdpLength);
        }
        let available: usize = if udp_len <= bytes.len() { udp_len } else { bytes.len() };
        let udp_payload = payload_subrange(&self.ip_payload, UDP_HDR_LEN, available);
        Ok(
            ReassembledUdpPayload {
                socket_timestamp: self.socket_timestamp,
                frame_len: self.frame_len,
                direction: self.direction,
                flow: self.flow,
                ip_identification: self.ip_identification,
                udp_payload,
                fragment_count: self.fragment_count,
                was_fragmented: self.was_fragmented,
            },
        )
    }
}

// One datagram in the making.

/// A datagram of which fragments have arrived.
#[verifier::ext_equal]
pub struct FlowView {
    pub socket_timestamp: Timestamp,
    pub frame_len: usize,
    pub direction: PacketDirection,
    pub flow: FlowTuple,
    pub ip_identification: u16,
    /// Its length, once the last fragment has arrived.
    pub total_len: Option<usize>,
    /// The positions that some fragment has held.
    pub covered: Set<int>,
    /// The latest fragment at each offset.
    pub chunks: Map<usize, Seq<u8>>,
}

/// A datagram of which nothing has arrived, with the data of the packet at hand.
pub open spec fn fresh_flow(packet: IpPacketView) -> FlowView {
    FlowView {
        socket_timestamp: packet.socket_timestamp,
        frame_len: packet.frame_len,
        direction: packet.direction,
        flow: packet.flow,
        ip_identification: packet.ip_identification,
        total_len: None,
        covered: Set::empty(),
        chunks: Map::empty(),
    }
}

/// A datagram after one more fragment. The earliest timestamp and the greatest frame
/// length are kept.
pub open spec fn absorbed(
    state: FlowView,
    packet: IpPacketView,
    fragment: IpFragmentInfo,
) -> FlowView {
    let end = fragment.offset_bytes + packet.ip_payload.len();
    FlowView {
        socket_timestamp: if packet.socket_timestamp.unix_nanos
            < state.socket_timestamp.unix_nanos {
            packet.socket_timestamp
        } else {
            state.socket_timestamp
        },
        frame_len: if packet.frame_len > state.frame_len {
            packet.frame_len
        } else {
            state.frame_len
        },
        total_len: if fragment.more_fragments {
            state.total_len
        } else {
            Some(end as usize)
        },
        covered: state.covered.union(block(fragment.offset_bytes as int, end)),
        chunks: state.chunks.insert(fragment.offset_bytes, packet.ip_payload),
        ..state
    }
}

/// A datagram is complete once its length is known and what has arrived is one
/// unbroken block from the start to at least that length.
pub open spec fn flow_complete(state: FlowView) -> bool {
    &&& state.total_len matches Some(total_len)
    &&& exists|end: int| 0 < end && total_len <= end && state.covered == #[trigger] block(0, end)
}

/// The chunk at `offset` reaches position `i`.
pub open spec fn chunk_holds(chunks: Map<usize, Seq<u8>>, offset: int, i: int) -> bool {
    &&& 0 <= offset <= usize::MAX
    &&& chunks.contains_key(offset as usize)
    &&& offset <= i < offset + chunks[offset as usize].len()
}

/// The byte at position `i` from the chunks that start at or before `offset`: that of
/// the last such chunk to reach `i`, or zero.
pub open spec fn byte_from(chunks: Map<usize, Seq<u8>>, i: int, offset: int) -> u8
    decreases offset + 1,
{
    if offset < 0 {
        0
    } else if chunk_holds(chunks, offset, i) {
        chunks[offset as usize][i - offset]
    } else {
        byte_from(chunks, i, offset - 1)
    }
}

/// The first `total_len` bytes that the chunks spell. Where chunks overlap, the one
/// that starts later counts.
pub open spec fn assembled(chunks: Map<usize, Seq<u8>>, total_len: nat) -> Seq<u8> {
    Seq::new(total_len, |i: int| byte_from(chunks, i, i))
}

/// The whole datagram that a complete flow holds.
pub open spec fn flow_datagram(state: FlowView) -> IpDatagramView {
    IpDatagramView {
        socket_timestamp: state.socket_timestamp,
        frame_len: state.frame_len,
        direction: state.direction,
        flow: state.flow,
        ip_identification: state.ip_identification,
        ip_payload: assembled(state.chunks, state.total_len->0 as nat),
        fragment_count: if state.chunks.dom().len() <= u32::MAX {
            state.chunks.dom().len() as u32
        } else {
            u32::MAX
        },
        was_fragmented: true,
    }
}

/// The datagram that an unfragmented packet is.
pub open spec fn whole_datagram(packet: IpPacketView) -> IpDatagramView {
    IpDatagramView {
        socket_timestamp: packet.socket_timestamp,
        frame_len: packet.frame_len,
        direction: packet.direction,
        flow: packet.flow,
        ip_identification: packet.ip_identification,
        ip_payload: packet.ip_payload,
        fragment_count: 1,
        was_fragmented: false,
    }
}

struct FragmentFlowState {
    socket_timestamp: Timestamp,
    frame_len: usize,
    direction: PacketDirection,
    flow: FlowTuple,
    ip_identification: u16,
    total_len: Option<usize>,
    ranges: Vec<(usize, usize)>,
    chunks: Vec<(usize, Bytes)>,
}

spec fn chunk_map(chunks: Seq<(usize, Bytes)>) -> Map<usize, Seq<u8>> {
    as_map(chunks).map_values(|bytes: Bytes| payload_bytes(bytes))
}

impl View for FragmentFlowState {
    type V = FlowView;

    closed spec fn view(&self) -> FlowView {
        FlowView {
            socket_timestamp: self.socket_timestamp,
            frame_len: self.frame_len,
            direction: self.direction,
            flow: self.flow,
            ip_identification: self.ip_identification,
            total_len: self.total_len,
            covered: covered(self.ranges@),
            chunks: chunk_map(self.chunks@),
        }
    }
}

impl FragmentFlowState {
    spec fn wf(&self) -> bool {
        &&& ranges_wf(self.ranges@)
        &&& unique_keys(self.chunks@)
        &&& forall|i: int|
            0 <= i < self.chunks@.len() ==> (#[trigger] self.chunks@[i]).0 + payload_bytes(
                self.chunks@[i].1,
            ).len() <= usize::MAX
    }

    fn fresh(packet: &CapturedIpPacket) -> (r: FragmentFlowState)
        ensures
            r.wf(),
            r@ == fresh_flow(packet@),
    {
        let r = FragmentFlowState {
            socket_timestamp: packet.socket_timestamp,
            frame_len: packet.frame_len,
            direction: packet.direction,
            flow: packet.flow,
            ip_identification: packet.ip_identification,
            total_len: None,
            ranges: Vec::new(),
            chunks: Vec::new(),
        };
        assert(covered(r.ranges@) =~= Set::empty());
        assert(chunk_map(r.chunks@) =~= Map::empty());
        r
    }

    /// Puts a chunk at its offset, in place of the chunk that was there.
    fn put_chunk(&mut self, offset: usize, bytes: Bytes)
        requires
            old(self).wf(),
            offset + payload_bytes(bytes).len() <= usize::MAX,
        ensures
            final(self).wf(),
            final(self)@ == (FlowView {
                chunks: old(self)@.chunks.insert(offset, payload_bytes(bytes)),
                ..old(self)@
            }),
    {
        let ghost before = self.chunks@;
        let ghost want = chunk_map(before).insert(offset, payload_bytes(bytes));
        proof {
            lemma_as_map(before);
        }
        let mut at: usize = 0;
        while at < self.chunks.len() && self.chunks[at].0 != offset
            invariant
                at <= self.chunks.len(),
                *self == *old(self),
                forall|i: int| 0 <= i < at ==> (#[trigger] self.chunks@[i]).0 != offset,
            decreases self.chunks.len() - at,
        {
            at += 1;
        }
        if at < self.chunks.len() {
            proof {
                lemma_update(before, at as int, bytes);
            }
            self.chunks.set(at, (offset, bytes));
        } else {
            proof {
                assert(!has_key(before, offset));
                lemma_push(before, offset, bytes);
            }
            self.chunks.push((offset, bytes));
        }
        assert(chunk_map(self.chunks@) =~= want);
    }

    /// Takes in one more fragment.
    fn absorb(&mut self, packet: CapturedIpPacket, fragment: IpFragmentInfo)
        requires
            old(self).wf(),
            fragment.offset_bytes + packet@.ip_payload.len() <= usize::MAX,
        ensures
            final(self).wf(),
            final(self)@ == absorbed(old(self)@, packet@, fragment),
    {
        if packet.socket_timestamp.unix_nanos < self.socket_timestamp.unix_nanos {
            self.socket_timestamp = packet.socket_timestamp;
        }
        if packet.frame_len > self.frame_len {
            self.frame_len = packet.frame_len;
        }
        let fragment_end: usize = fragment.offset_bytes + payload_slice(&packet.ip_payload).len();
        if !fragment.more_fragments {
            self.total_len = Some(fragment_end);
        }
        insert_range(&mut self.ranges, fragment.offset_bytes, fragment_end);
        self.put_chunk(fragment.offset_bytes, packet.ip_payload);
    }
}

/// Whether a datagram is complete.
fn flow_is_complete(state: &FragmentFlowState) -> (r: bool)
    requires
        state.wf(),
    ensures
        r == flow_complete(state@),
{
    let ghost ranges = state.ranges@;
    proof {
        assert forall|end: int| 0 < end && covered(ranges) == #[trigger] block(
            0,
            end,
        ) implies ranges.len() == 1 && ranges[0].0 == 0 && ranges[0].1 == end by {
            lemma_single_block(ranges, end);
        }
        if ranges.len() == 1 && ranges[0].0 == 0 {
            lemma_single_block(ranges, ranges[0].1 as int);
        }
    }
    match state.total_len {
        None => false,
        Some(total_len) => {
            state.ranges.len() == 1 && state.ranges[0].0 == 0 && state.ranges[0].1 >= total_len
        },
    }
}

proof fn lemma_byte_from_skips(chunks: Map<usize, Seq<u8>>, i: int, high: int, low: int)
    requires
        -1 <= low <= high,
        forall|offset: int| low < offset <= high ==> !chunk_holds(chunks, offset, i),
    ensures
        byte_from(chunks, i, high) == byte_from(chunks, i, low),
    decreases high - low,
{
    if low < high {
        assert(!chunk_holds(chunks, high, i));
        lemma_byte_from_skips(chunks, i, high - 1, low);
    }
}

/// The bytes after every chunk that starts at or before `last` has been laid down.
spec fn laid_down(chunks: Map<usize, Seq<u8>>, i: int, last: int) -> u8 {
    byte_from(chunks, i, if i <= last { i } else { last })
}

/// Lays one chunk over the bytes at its offset.
fn lay_chunk(out: &mut Vec<u8>, offset: usize, bytes: &[u8])
    requires
        offset + bytes@.len() <= usize::MAX,
    ensures
        final(out)@.len() == old(out)@.len(),
        forall|i: int|
            0 <= i < old(out)@.len() ==> #[trigger] final(out)@[i] == (if offset <= i < offset
                + bytes@.len() {
                bytes@[i - offset]
            } else {
                old(out)@[i]
            }),
{
    let mut at: usize = 0;
    while at < bytes.len() && offset + at < out.len()
        invariant
            at <= bytes@.len(),
            offset + bytes@.len() <= usize::MAX,
            out@.len() == old(out)@.len(),
            forall|i: int|
                0 <= i < old(out)@.len() ==> #[trigger] out@[i] == (if offset <= i < offset + at {
                    bytes@[i - offset]
                } else {
                    old(out)@[i]
                }),
        decreases bytes@.len() - at,
    {
        out.set(offset + at, bytes[at]);
        at += 1;
    }
}

/// A chunk at `offset` comes after those up to `last`.
spec fn starts_after(last: Option<usize>, offset: usize) -> bool {
    match last {
        None => true,
        Some(l) => l < offset,
    }
}

/// The index of the chunk that starts first among those that start after `last`.
fn next_chunk(chunks: &Vec<(usize, Bytes)>, last: Option<usize>) -> (r: Option<usize>)
    ensures
        match r {
            None => forall|i: int|
                0 <= i < chunks@.len() ==> !starts_after(last, (#[trigger] chunks@[i]).0),
            Some(at) => {
                &&& at < chunks@.len()
                &&& starts_after(last, chunks@[at as int].0)
                &&& forall|i: int|
                    0 <= i < chunks@.len() && starts_after(last, (#[trigger] chunks@[i]).0)
                        ==> chunks@[at as int].0 <= chunks@[i].0
            },
        },
{
    let mut best: Option<usize> = None;
    let mut i: usize = 0;
    while i < chunks.len()
        invariant
            i <= chunks@.len(),
            match best {
                None => forall|j: int|
                    0 <= j < i ==> !starts_after(last, (#[trigger] chunks@[j]).0),
                Some(at) => {
                    &&& at < i
                    &&& starts_after(last, chunks@[at as int].0)
                    &&& forall|j: int|
                        0 <= j < i && starts_after(last, (#[trigger] chunks@[j]).0)
                            ==> chunks@[at as int].0 <= chunks@[j].0
                },
            },
        decreases chunks@.len() - i,
    {
        let offset: usize = chunks[i].0;
        let later = match last {
            None => true,
            Some(l) => l < offset,
        };
        if later {
            let better = match best {
                None => true,
                Some(at) => offset < chunks[at].0,
            };
            if better {
                best = Some(i);
            }
        }
        i += 1;
    }
    best
}

proof fn lemma_laid_chunk(
    chunks: Seq<(usize, Bytes)>,
    at: int,
    last: int,
    before: Seq<u8>,
    after: Seq<u8>,
)
    requires
        unique_keys(chunks),
        0 <= at < chunks.len(),
        -1 <= last < chunks[at].0,
        forall|i: int|
            0 <= i < chunks.len() && last < (#[trigger] chunks[i]).0 ==> chunks[at].0
                <= chunks[i].0,
        before.len() == after.len(),
        forall|i: int|
            0 <= i < before.len() ==> #[trigger] before[i] == laid_down(chunk_map(chunks), i, last),
        forall|i: int|
            0 <= i < before.len() ==> #[trigger] after[i] == (if chunks[at].0 <= i < chunks[at].0
                + payload_bytes(chunks[at].1).len() {
                payload_bytes(chunks[at].1)[i - chunks[at].0]
            } else {
                before[i]
            }),
    ensures
        forall|i: int|
            0 <= i < after.len() ==> #[trigger] after[i] == laid_down(
                chunk_map(chunks),
                i,
                chunks[at].0 as int,
            ),
{
    lemma_as_map(chunks);
    let map = chunk_map(chunks);
    let offset = chunks[at].0 as int;
    assert(map.contains_key(chunks[at].0) && map[chunks[at].0] == payload_bytes(chunks[at].1));
    assert forall|i: int| 0 <= i < after.len() implies #[trigger] after[i] == laid_down(
        map,
        i,
        offset,
    ) by {
        assert(before[i] == laid_down(map, i, last));
        assert forall|o: int| last < o < offset implies !chunk_holds(map, o, i) by {
            if chunk_holds(map, o, i) {
                let key = o as usize;
                let j = choose|j: int| key_at(chunks, j, key);
                assert(chunks[j].0 == o);
            }
        }
        if i < offset {
            if i > last {
                lemma_byte_from_skips(map, i, i, last);
            }
        } else {
            assert(byte_from(map, i, offset) == (if chunk_holds(map, offset, i) {
                map[offset as usize][i - offset]
            } else {
                byte_from(map, i, offset - 1)
            }));
            lemma_byte_from_skips(map, i, offset - 1, last);
        }
    }
}

/// Lays every chunk down, in the order of their offsets.
fn assemble(chunks: &Vec<(usize, Bytes)>, total_len: usize) -> (out: Vec<u8>)
    requires
        unique_keys(chunks@),
        forall|i: int|
            0 <= i < chunks@.len() ==> (#[trigger] chunks@[i]).0 + payload_bytes(chunks@[i].1).len()
                <= usize::MAX,
    ensures
        out@ == assembled(chunk_map(chunks@), total_len as nat),
{
    let ghost map = chunk_map(chunks@);
    let mut out: Vec<u8> = vec![0; total_len];
    let mut last: Option<usize> = None;
    let ghost mut bound: int = -1;
    loop
        invariant
            unique_keys(chunks@),
            forall|i: int|
                0 <= i < chunks@.len() ==> (#[trigger] chunks@[i]).0 + payload_bytes(
                    chunks@[i].1,
                ).len() <= usize::MAX,
            map == chunk_map(chunks@),
            out@.len() == total_len,
            bound == (match last {
                None => -1,
                Some(l) => l as int,
            }),
            forall|i: int| 0 <= i < out@.len() ==> #[trigger] out@[i] == laid_down(map, i, bound),
        ensures
            forall|i: int| 0 <= i < chunks@.len() ==> (#[trigger] chunks@[i]).0 <= bound,
        decreases usize::MAX - bound,
    {
        let next = match next_chunk(chunks, last) {
            None => break,
            Some(next) => next,
        };
        let offset: usize = chunks[next].0;
        let ghost before = out@;
        lay_chunk(&mut out, offset, payload_slice(&chunks[next].1));
        proof {
            lemma_laid_chunk(chunks@, next as int, bound, before, out@);
            bound = offset as int;
        }
        last = Some(offset);
    }
    proof {
        lemma_as_map(chunks@);
        assert forall|i: int| 0 <= i < out@.len() implies #[trigger] out@[i] == byte_from(
            map,
            i,
            i,
        ) by {
            if bound < i {
                assert forall|o: int| bound < o <= i implies !chunk_holds(map, o, i) by {
                    if chunk_holds(map, o, i) {
                        let key = o as usize;
                        let j = choose|j: int| key_at(chunks@, j, key);
                        assert(chunks@[j].0 == o);
                    }
                }
                lemma_byte_from_skips(map, i, i, bound);
            }
        }
        assert(out@ =~= assembled(map, total_len as nat));
    }
    out
}

// All datagrams in the making.

/// What an [`IpFragmentReassembler`] holds.
#[verifier::ext_equal]
pub struct ReassemblerView {
    /// The datagrams of which fragments have arrived.
    pub flows: Map<IpFragmentKey, FlowView>,
    /// The keys in the order in which their datagrams were begun. Those of datagrams
    /// that are whole stay until they reach the front.
    pub order: Seq<IpFragmentKey>,
    /// How many datagrams are kept.
    pub capacity: usize,
}

/// Drops the datagram that was begun first.
pub open spec fn without_oldest(
    flows: Map<IpFragmentKey, FlowView>,
    order: Seq<IpFragmentKey>,
) -> (Map<IpFragmentKey, FlowView>, Seq<IpFragmentKey>)
    decreases order.len(),
{
    if order.len() == 0 {
        (flows, order)
    } else if flows.contains_key(order[0]) {
        (flows.remove(order[0]), order.skip(1))
    } else {
        without_oldest(flows, order.skip(1))
    }
}

/// The reassembler with room for `key`.
pub open spec fn with_room(state: ReassemblerView, key: IpFragmentKey) -> ReassemblerView {
    if state.flows.contains_key(key) {
        state
    } else {
        let (flows, order) = if state.flows.dom().len() == state.capacity {
            without_oldest(state.flows, state.order)
        } else {
            (state.flows, state.order)
        };
        ReassemblerView { flows, order: order.push(key), capacity: state.capacity }
    }
}

/// The datagram that a fragment belongs to, with that fragment.
pub open spec fn grown_flow(
    state: ReassemblerView,
    packet: IpPacketView,
    fragment: IpFragmentInfo,
) -> FlowView {
    absorbed(
        if state.flows.contains_key(fragment.key) {
            state.flows[fragment.key]
        } else {
            fresh_flow(packet)
        },
        packet,
        fragment,
    )
}

/// The reassembler after one more packet.
pub open spec fn accepted(state: ReassemblerView, packet: IpPacketView) -> ReassemblerView {
    match packet.fragment {
        None => state,
        Some(fragment) => {
            let roomy = with_room(state, fragment.key);
            let flow = grown_flow(state, packet, fragment);
            ReassemblerView {
                flows: if flow_complete(flow) {
                    roomy.flows.remove(fragment.key)
                } else {
                    roomy.flows.insert(fragment.key, flow)
                },
                ..roomy
            }
        },
    }
}

/// The datagrams that a packet makes whole: none or one.
pub open spec fn delivered(state: ReassemblerView, packet: IpPacketView) -> Seq<IpDatagramView> {
    match packet.fragment {
        None => seq![whole_datagram(packet)],
        Some(fragment) => {
            let flow = grown_flow(state, packet, fragment);
            if flow_complete(flow) {
                seq![flow_datagram(flow)]
            } else {
                seq![]
            }
        },
    }
}

/// Collects fragments until their datagrams are whole.
pub struct IpFragmentReassembler {
    flows: Vec<(IpFragmentKey, FragmentFlowState)>,
    order: VecDeque<IpFragmentKey>,
    capacity: usize,
}

spec fn flow_map(
    flows: Seq<(IpFragmentKey, FragmentFlowState)>,
) -> Map<IpFragmentKey, FlowView> {
    as_map(flows).map_values(|state: FragmentFlowState| state@)
}

proof fn lemma_flow_map(flows: Seq<(IpFragmentKey, FragmentFlowState)>)
    requires
        unique_keys(flows),
    ensures
        flow_map(flows).dom() == as_map(flows).dom(),
        flow_map(flows).dom().len() == flows.len(),
        forall|key: IpFragmentKey|
            #[trigger] flow_map(flows).contains_key(key) <==> has_key(flows, key),
{
    lemma_as_map(flows);
    assert(flow_map(flows).dom() =~= as_map(flows).dom());
}

proof fn lemma_flow_map_remove(flows: Seq<(IpFragmentKey, FragmentFlowState)>, at: int)
    requires
        unique_keys(flows),
        0 <= at < flows.len(),
    ensures
        unique_keys(flows.remove(at)),
        flow_map(flows.remove(at)) == flow_map(flows).remove(flows[at].0),
        flow_map(flows).contains_key(flows[at].0),
        flow_map(flows)[flows[at].0] == flows[at].1@,
{
    lemma_as_map(flows);
    lemma_remove(flows, at);
    assert(flow_map(flows.remove(at)) =~= flow_map(flows).remove(flows[at].0));
}

proof fn lemma_flow_map_push(
    flows: Seq<(IpFragmentKey, FragmentFlowState)>,
    key: IpFragmentKey,
    state: FragmentFlowState,
)
    requires
        unique_keys(flows),
        !flow_map(flows).contains_key(key),
    ensures
        unique_keys(flows.push((key, state))),
        flow_map(flows.push((key, state))) == flow_map(flows).insert(key, state@),
{
    lemma_flow_map(flows);
    lemma_push(flows, key, state);
    assert(flow_map(flows.push((key, state))) =~= flow_map(flows).insert(key, state@));
}

impl View for IpFragmentReassembler {
    type V = ReassemblerView;

    closed spec fn view(&self) -> ReassemblerView {
        ReassemblerView {
            flows: flow_map(self.flows@),
            order: self.order@,
            capacity: self.capacity,
        }
    }
}

impl IpFragmentReassembler {
    /// The reassembler keeps each datagram once, in good order.
    pub closed spec fn wf(&self) -> bool {
        &&& unique_keys(self.flows@)
        &&& forall|i: int| 0 <= i < self.flows@.len() ==> (#[trigger] self.flows@[i]).1.wf()
    }

    /// A reassembler that keeps up to `capacity` datagrams at a time.
    pub fn new(capacity: usize) -> (r: IpFragmentReassembler)
        ensures
            r.wf(),
            r@ == (ReassemblerView { flows: Map::empty(), order: seq![], capacity }),
    {
        let r = IpFragmentReassembler { flows: Vec::new(), order: VecDeque::new(), capacity };
        assert(flow_map(r.flows@) =~= Map::empty());
        assert(r.order@ =~= seq![]);
        r
    }

    fn find(&self, key: &IpFragmentKey) -> (r: Option<usize>)
        ensures
            match r {
                None => !has_key(self.flows@, *key),
                Some(at) => key_at(self.flows@, at as int, *key),
            },
    {
        let mut at: usize = 0;
        while at < self.flows.len()
            invariant
                at <= self.flows.len(),
                forall|i: int| 0 <= i < at ==> (#[trigger] self.flows@[i]).0 != *key,
            decreases self.flows.len() - at,
        {
            if self.flows[at].0.same(key) {
                return Some(at);
            }
            at += 1;
        }
        None
    }

    /// Takes a datagram out of the list.
    fn take(&mut self, at: usize) -> (r: FragmentFlowState)
        requires
            old(self).wf(),
            at < old(self).flows@.len(),
        ensures
            final(self).wf(),
            r.wf(),
            ({
                let key = old(self).flows@[at as int].0;
                &&& old(self)@.flows.contains_key(key)
                &&& r@ == old(self)@.flows[key]
                &&& final(self)@ == (ReassemblerView {
                    flows: old(self)@.flows.remove(key),
                    ..old(self)@
                })
            }),
    {
        proof {
            lemma_flow_map_remove(self.flows@, at as int);
        }
        let ghost before = self.flows@;
        let (_, state) = self.flows.remove(at);
        assert forall|i: int| 0 <= i < self.flows@.len() implies (
        #[trigger] self.flows@[i]).1.wf() by {
            assert(self.flows@[i] == before[if i < at { i } else { i + 1 }]);
        }
        state
    }

    fn put(&mut self, key: IpFragmentKey, state: FragmentFlowState)
        requires
            old(self).wf(),
            state.wf(),
            !old(self)@.flows.contains_key(key),
        ensures
            final(self).wf(),
            final(self)@ == (ReassemblerView {
                flows: old(self)@.flows.insert(key, state@),
                ..old(self)@
            }),
    {
        proof {
            lemma_flow_map_push(self.flows@, key, state);
        }
        self.flows.push((key, state));
    }

    /// Drops the datagram that was begun first.
    fn drop_oldest(&mut self)
        requires
            old(self).wf(),
        ensures
            final(self).wf(),
            final(self)@.capacity == old(self)@.capacity,
            (final(self)@.flows, final(self)@.order) == without_oldest(
                old(self)@.flows,
                old(self)@.order,
            ),
    {
        loop
            invariant
                self.wf(),
                self@.capacity == old(self)@.capacity,
                without_oldest(self@.flows, self@.order) == without_oldest(
                    old(self)@.flows,
                    old(self)@.order,
                ),
            decreases self.order@.len(),
        {
            let oldest = match self.order.pop_front() {
                None => return,
                Some(oldest) => oldest,
            };
            proof {
                lemma_flow_map(self.flows@);
            }
            match self.find(&oldest) {
                None => {},
                Some(at) => {
                    self.take(at);
                    return;
                },
            }
        }
    }

    /// Takes in a packet and returns the datagrams that are whole now.
    pub fn accept(&mut self, packet: CapturedIpPacket) -> (r: Vec<ReassembledIpDatagram>)
        requires
            old(self).wf(),
            fragment_fits(packet@),
        ensures
            final(self).wf(),
            final(self)@ == accepted(old(self)@, packet@),
            r@.map_values(|datagram: ReassembledIpDatagram| datagram@) == delivered(
                old(self)@,
                packet@,
            ),
    {
        let fragment = match packet.fragment {
            None => {
                let datagram = ReassembledIpDatagram {
                    socket_timestamp: packet.socket_timestamp,
                    frame_len: packet.frame_len,
                    direction: packet.direction,
                    flow: packet.flow,
                    ip_identification: packet.ip_identification,
                    ip_payload: packet.ip_payload,
                    fragment_count: 1,
                    was_fragmented: false,
                };
                let r = vec![datagram];
                assert(r@.map_values(|datagram: ReassembledIpDatagram| datagram@)
                    =~= delivered(old(self)@, packet@));
                return r;
            },
            Some(fragment) => fragment,
        };
        let key = fragment.key;
        let ghost start = self@;
        let ghost view = packet@;
        proof {
            lemma_flow_map(self.flows@);
        }
        let mut state = match self.find(&key) {
            Some(at) => self.take(at),
            None => {
                if self.flows.len() == self.capacity {
                    proof {
                        lemma_without_oldest(self@.flows, self@.order, key);
                    }
                    self.drop_oldest();
                }
                self.order.push_back(key);
                FragmentFlowState::fresh(&packet)
            },
        };
        assert(self@.flows =~= with_room(start, key).flows.remove(key));
        assert(self@.order =~= with_room(start, key).order);
        state.absorb(packet, fragment);
        assert(state@ == grown_flow(start, view, fragment));
        if !flow_is_complete(&state) {
            self.put(key, state);
            assert(self@.flows =~= with_room(start, key).flows.insert(key, state@));
            let r = Vec::new();
            assert(r@.map_values(|datagram: ReassembledIpDatagram| datagram@) =~= delivered(
                start,
                view,
            ));
            return r;
        }
        let total_len: usize = match state.total_len {
            None => 0,
            Some(total_len) => total_len,
        };
        let fragment_count: u32 = if state.chunks.len() <= u32::MAX as usize {
            state.chunks.len() as u32
        } else {
            u32::MAX
        };
        proof {
            lemma_as_map(state.chunks@);
            assert(chunk_map(state.chunks@).dom() =~= as_map(state.chunks@).dom());
        }
        let ip_payload = assemble(&state.chunks, total_len);
        let datagram = ReassembledIpDatagram {
            socket_timestamp: state.socket_timestamp,
            frame_len: state.frame_len,
            direction: state.direction,
            flow: state.flow,
            ip_identification: state.ip_identification,
            ip_payload: payload_from_vec(ip_payload),
            fragment_count,
            was_fragmented: true,
        };
        assert(datagram@ == flow_datagram(state@));
        let r = vec![datagram];
        assert(r@.map_values(|datagram: ReassembledIpDatagram| datagram@) =~= delivered(
            start,
            view,
        ));
        r
    }
}

proof fn lemma_without_oldest(
    flows: Map<IpFragmentKey, FlowView>,
    order: Seq<IpFragmentKey>,
    key: IpFragmentKey,
)
    ensures
        !flows.contains_key(key) ==> !without_oldest(flows, order).0.contains_key(key),
        without_oldest(flows, order).0.dom().subset_of(flows.dom()),
    decreases order.len(),
{
    if order.len() > 0 && !flows.contains_key(order[0]) {
        lemma_without_oldest(flows, order.skip(1), key);
    }
}

} // verus!
