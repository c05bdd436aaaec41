//! The way from batches of frames to a bounded queue of UDP packets.

use crate::capture::ip_frag::{
    fragment_fits, lemma_ipv4_fragment_fits, lemma_ipv6_fragment_fits, parse_ipv4_packet,
    parse_ipv6_packet, parsed_ipv4, parsed_ipv6, IpPacketView,
};
use crate::capture::reassembly::{
    accepted, delivered, udp_payload_error, udp_payload_of, IpDatagramView,
    IpFragmentReassembler, ReassembledIpDatagram, ReassembledUdpPayload, ReassemblerView,
};
use crate::capture::socket::{PacketBatch, PacketDirection, PacketFrame};
use crate::common::{FlowTuple, Timestamp};
use crate::payload::payload_bytes;
use bytes::Bytes;
use std::collections::VecDeque;
use vstd::prelude::*;

verus! {

/// A UDP packet as it was captured.
pub struct CapturedUdpPacket {
    pub socket_timestamp: Timestamp,
    pub frame_len: usize,
    pub direction: PacketDirection,
    pub flow: FlowTuple,
    pub ip_identification: u16,
    pub payload: Bytes,
    pub ip_fragment_count: u32,
    pub was_ip_fragmented: bool,
}

/// What a [`CapturedUdpPacket`] holds.
#[verifier::ext_equal]
pub struct UdpPacketView {
    pub socket_timestamp: Timestamp,
    pub frame_len: usize,
    pub direction: PacketDirection,
    pub flow: FlowTuple,
    pub ip_identification: u16,
    pub payload: Seq<u8>,
    pub ip_fragment_count: u32,
    pub was_ip_fragmented: bool,
}

impl View for CapturedUdpPacket {
    type V = UdpPacketView;

    open spec fn view(&self) -> UdpPacketView {
        UdpPacketView {
            socket_timestamp: self.socket_timestamp,
            frame_len: self.frame_len,
            direction: self.direction,
            flow: self.flow,
            ip_identification: self.ip_identification,
            payload: payload_bytes(self.payload),
            ip_fragment_count: self.ip_fragment_count,
            was_ip_fragmented: self.was_ip_fragmented,
        }
    }
}

impl From<ReassembledUdpPayload> for CapturedUdpPacket {
    fn from(value: ReassembledUdpPayload) -> (r: CapturedUdpPacket) {
        CapturedUdpPacket {
            socket_timestamp: value.socket_timestamp,
            frame_len: value.frame_len,
            direction: value.direction,
            flow: value.flow,
            ip_identification: value.ip_identification,
            payload: value.udp_payload,
            ip_fragment_count: value.fragment_count,
            was_ip_fragmented: value.was_fragmented,
        }
    }
}

impl vstd::std_specs::convert::FromSpecImpl<ReassembledUdpPayload> for CapturedUdpPacket {
    open spec fn obeys_from_spec() -> bool {
        true
    }

    open spec fn from_spec(value: ReassembledUdpPayload) -> CapturedUdpPacket {
        CapturedUdpPacket {
            socket_timestamp: value.socket_timestamp,
            frame_len: value.frame_len,
            direction: value.direction,
            flow: value.flow,
            ip_identification: value.ip_identification,
            payload: value.udp_payload,
            ip_fragment_count: value.fragment_count,
            was_ip_fragmented: value.was_fragmented,
        }
    }
}

// The queue.

/// A queue after one more item. A queue at its greatest depth loses its oldest item
/// first.
pub open spec fn pushed<T>(queue: Seq<T>, item: T, max_depth: usize) -> Seq<T> {
    if queue.len() == max_depth && queue.len() > 0 {
        queue.drop_first().push(item)
    } else {
        queue.push(item)
    }
}

/// A queue after a run of items.
pub open spec fn pushed_all<T>(queue: Seq<T>, items: Seq<T>, max_depth: usize) -> Seq<T>
    decreases items.len(),
{
    if items.len() == 0 {
        queue
    } else {
        pushed(pushed_all(queue, items.drop_last(), max_depth), items.last(), max_depth)
    }
}

/// The newest `depth` items of a sequence.
pub open spec fn newest<T>(items: Seq<T>, depth: usize) -> Seq<T> {
    if items.len() <= depth {
        items
    } else {
        items.skip(items.len() - depth)
    }
}

/// A queue that may hold items holds the newest ones, oldest first, and never more
/// than its depth.
pub proof fn law_queue_keeps_newest<T>(queue: Seq<T>, items: Seq<T>, max_depth: usize)
    requires
        queue.len() <= max_depth,
        max_depth > 0,
    ensures
        pushed_all(queue, items, max_depth) == newest(queue + items, max_depth),
        pushed_all(queue, items, max_depth).len() <= max_depth,
    decreases items.len(),
{
    if items.len() == 0 {
        assert(queue + items =~= queue);
    } else {
        law_queue_keeps_newest(queue, items.drop_last(), max_depth);
        assert(queue + items =~= (queue + items.drop_last()).push(items.last()));
        assert(pushed_all(queue, items, max_depth) =~= newest(queue + items, max_depth));
    }
}

proof fn lemma_pushed_all_concat<T>(
    queue: Seq<T>,
    first: Seq<T>,
    then_items: Seq<T>,
    max_depth: usize,
)
    ensures
        pushed_all(queue, first + then_items, max_depth) == pushed_all(
            pushed_all(queue, first, max_depth),
            then_items,
            max_depth,
        ),
    decreases then_items.len(),
{
    if then_items.len() == 0 {
        assert(first + then_items =~= first);
    } else {
        lemma_pushed_all_concat(queue, first, then_items.drop_last(), max_depth);
        assert((first + then_items).drop_last() =~= first + then_items.drop_last());
    }
}

/// The views of a run of packets.
pub open spec fn packet_views(packets: Seq<CapturedUdpPacket>) -> Seq<UdpPacketView> {
    packets.map_values(|packet: CapturedUdpPacket| packet@)
}

/// Captured packets that wait to be processed.
pub struct CaptureBuffer {
    packets: VecDeque<CapturedUdpPacket>,
    max_depth: usize,
}

impl View for CaptureBuffer {
    type V = Seq<UdpPacketView>;

    closed spec fn view(&self) -> Seq<UdpPacketView> {
        packet_views(self.packets@)
    }
}

impl CaptureBuffer {
    /// How many packets are kept.
    pub closed spec fn max_depth(&self) -> usize {
        self.max_depth
    }

    /// A buffer that keeps the newest `max_depth` packets.
    pub fn new(max_depth: usize) -> (r: CaptureBuffer)
        ensures
            r@ == Seq::<UdpPacketView>::empty(),
            r.max_depth() == max_depth,
    {
        let r = CaptureBuffer { packets: VecDeque::new(), max_depth };
        assert(r@ =~= seq![]);
        r
    }

    /// The packets, oldest first.
    pub fn packets(&self) -> (r: &VecDeque<CapturedUdpPacket>)
        ensures
            packet_views(r@) == self@,
    {
        &self.packets
    }

    /// The packets, oldest first, for changing.
    pub fn packets_mut(&mut self) -> (r: &mut VecDeque<CapturedUdpPacket>)
        ensures
            packet_views(r@) == old(self)@,
            final(self)@ == packet_views(final(r)@),
            final(self).max_depth() == old(self).max_depth(),
    {
        &mut self.packets
    }

    /// Takes the oldest packet out.
    pub fn pop(&mut self) -> (r: Option<CapturedUdpPacket>)
        ensures
            final(self).max_depth() == old(self).max_depth(),
            match r {
                None => old(self)@.len() == 0 && final(self)@ == old(self)@,
                Some(packet) => old(self)@.len() > 0 && packet@ == old(self)@[0] && final(self)@
                    == old(self)@.drop_first(),
            },
    {
        let r = self.packets.pop_front();
        assert(r is Some ==> self@ =~= old(self)@.drop_first());
        r
    }

    /// Adds a packet behind the others.
    pub fn push(&mut self, packet: CapturedUdpPacket)
        ensures
            final(self).max_depth() == old(self).max_depth(),
            final(self)@ == pushed(old(self)@, packet@, old(self).max_depth()),
    {
        push_bounded(&mut self.packets, packet, self.max_depth);
        assert(self@ =~= pushed(old(self)@, packet@, old(self).max_depth()));
    }
}

/// Adds a packet to a queue. A queue at its greatest depth loses its oldest packet first.
fn push_bounded(
    queue: &mut VecDeque<CapturedUdpPacket>,
    packet: CapturedUdpPacket,
    max_depth: usize,
)
    ensures
        final(queue)@ == pushed(old(queue)@, packet, max_depth),
{
    if queue.len() == max_depth {
        let _ = queue.pop_front();
    }
    queue.push_back(packet);
    assert(queue@ =~= pushed(old(queue)@, packet, max_depth));
}

// From frames to packets.

/// The UDP packet that a whole datagram carries, if any.
pub open spec fn datagram_packet(datagram: IpDatagramView) -> Option<UdpPacketView> {
    match udp_payload_error(datagram.ip_payload) {
        Some(_) => None,
        None => Some(
            UdpPacketView {
                socket_timestamp: datagram.socket_timestamp,
                frame_len: datagram.frame_len,
                direction: datagram.direction,
                flow: datagram.flow,
                ip_identification: datagram.ip_identification,
                payload: udp_payload_of(datagram.ip_payload),
                ip_fragment_count: datagram.fragment_count,
                was_ip_fragmented: datagram.was_fragmented,
            },
        ),
    }
}

/// The UDP packets among whole datagrams, in order.
pub open spec fn datagram_packets(datagrams: Seq<IpDatagramView>) -> Seq<UdpPacketView>
    decreases datagrams.len(),
{
    if datagrams.len() == 0 {
        seq![]
    } else {
        let before = datagram_packets(datagrams.drop_last());
        match datagram_packet(datagrams.last()) {
            Some(packet) => before.push(packet),
            None => before,
        }
    }
}

/// The IP packet that a frame carries. IPv6 counts only where it is asked for, and
/// only if the frame holds no IPv4 packet.
pub open spec fn frame_packet(frame: PacketFrame<'_>, with_ipv6: bool) -> Option<IpPacketView> {
    match parsed_ipv4(frame.data@, frame.original_len, frame.direction, frame.socket_timestamp) {
        Ok(packet) => Some(packet),
        Err(_) => if with_ipv6 {
            match parsed_ipv6(
                frame.data@,
                frame.original_len,
                frame.direction,
                frame.socket_timestamp,
            ) {
                Ok(packet) => Some(packet),
                Err(_) => None,
            }
        } else {
            None
        },
    }
}

/// The reassembler after one frame.
pub open spec fn frame_state(
    state: ReassemblerView,
    frame: PacketFrame<'_>,
    with_ipv6: bool,
) -> ReassemblerView {
    match frame_packet(frame, with_ipv6) {
        Some(packet) => accepted(state, packet),
        None => state,
    }
}

/// The UDP packets that one frame makes whole.
pub open spec fn frame_packets(
    state: ReassemblerView,
    frame: PacketFrame<'_>,
    with_ipv6: bool,
) -> Seq<UdpPacketView> {
    match frame_packet(frame, with_ipv6) {
        Some(packet) => datagram_packets(delivered(state, packet)),
        None => seq![],
    }
}

/// The reassembler after a run of frames.
pub open spec fn frames_state(
    state: ReassemblerView,
    frames: Seq<PacketFrame<'_>>,
    with_ipv6: bool,
) -> ReassemblerView
    decreases frames.len(),
{
    if frames.len() == 0 {
        state
    } else {
        frame_state(frames_state(state, frames.drop_last(), with_ipv6), frames.last(), with_ipv6)
    }
}

/// The UDP packets that a run of frames makes whole, in order.
pub open spec fn frames_packets(
    state: ReassemblerView,
    frames: Seq<PacketFrame<'_>>,
    with_ipv6: bool,
) -> Seq<UdpPacketView>
    decreases frames.len(),
{
    if frames.len() == 0 {
        seq![]
    } else {
        frames_packets(state, frames.drop_last(), with_ipv6) + frame_packets(
            frames_state(state, frames.drop_last(), with_ipv6),
            frames.last(),
            with_ipv6,
        )
    }
}

/// A fragment that a frame can carry ends within machine limits.
proof fn lemma_frame_fragment_fits(frame: PacketFrame<'_>, with_ipv6: bool)
    ensures
        frame_packet(frame, with_ipv6) matches Some(packet) ==> fragment_fits(packet),
{
    lemma_ipv4_fragment_fits(
        frame.data@,
        frame.original_len,
        frame.direction,
        frame.socket_timestamp,
    );
    lemma_ipv6_fragment_fits(
        frame.data@,
        frame.original_len,
        frame.direction,
        frame.socket_timestamp,
    );
}

/// Turns whole datagrams into UDP packets. Those that hold none are passed over.
fn udp_packets(datagrams: Vec<ReassembledIpDatagram>) -> (r: Vec<CapturedUdpPacket>)
    ensures
        packet_views(r@) == datagram_packets(
            datagrams@.map_values(|datagram: ReassembledIpDatagram| datagram@),
        ),
{
    let ghost views = datagrams@.map_values(|datagram: ReassembledIpDatagram| datagram@);
    let mut rest = datagrams;
    let mut r: Vec<CapturedUdpPacket> = Vec::new();
    let ghost mut done: int = 0;
    assert(packet_views(r@) =~= datagram_packets(views.take(0)));
    while rest.len() > 0
        invariant
            0 <= done <= views.len(),
            rest@.len() == views.len() - done,
            rest@.map_values(|datagram: ReassembledIpDatagram| datagram@) == views.skip(done),
            packet_views(r@) == datagram_packets(views.take(done)),
        decreases rest.len(),
    {
        let ghost before = rest@;
        let datagram = rest.remove(0);
        proof {
            assert(before.map_values(|datagram: ReassembledIpDatagram| datagram@)[0]
                == views[done]);
            assert(views.take(done + 1).drop_last() =~= views.take(done));
            assert(rest@.map_values(|datagram: ReassembledIpDatagram| datagram@)
                =~= views.skip(done + 1)) by {
                assert(rest@.map_values(|datagram: ReassembledIpDatagram| datagram@)
                    =~= before.map_values(|datagram: ReassembledIpDatagram| datagram@).skip(1));
            }
            done = done + 1;
        }
        match datagram.into_udp_payload() {
            Ok(payload) => {
                let ghost earlier = packet_views(r@);
                let packet = CapturedUdpPacket::from(payload);
                r.push(packet);
                assert(packet_views(r@) =~= earlier.push(packet@));
            },
            Err(_) => {},
        }
    }
    assert(views.take(done) =~= views);
    r
}

/// Takes one frame in and returns the UDP packets that it makes whole.
fn take_frame(ip_frag: &mut IpFragmentReassembler, frame: &PacketFrame<'_>, with_ipv6: bool) -> (r:
    Vec<CapturedUdpPacket>)
    requires
        old(ip_frag).wf(),
    ensures
        final(ip_frag).wf(),
        final(ip_frag)@ == frame_state(old(ip_frag)@, *frame, with_ipv6),
        packet_views(r@) == frame_packets(old(ip_frag)@, *frame, with_ipv6),
{
    proof {
        lemma_frame_fragment_fits(*frame, with_ipv6);
    }
    let parsed = match parse_ipv4_packet(
        frame.data(),
        frame.original_len(),
        frame.direction(),
        frame.socket_timestamp(),
    ) {
        Ok(packet) => Some(packet),
        Err(_) => if with_ipv6 {
            match parse_ipv6_packet(
                frame.data(),
                frame.original_len(),
                frame.direction(),
                frame.socket_timestamp(),
            ) {
                Ok(packet) => Some(packet),
                Err(_) => None,
            }
        } else {
            None
        },
    };
    match parsed {
        None => {
            let r: Vec<CapturedUdpPacket> = Vec::new();
            assert(packet_views(r@) =~= seq![]);
            r
        },
        Some(packet) => udp_packets(ip_frag.accept(packet)),
    }
}

/// Adds packets to a buffer, in order.
fn push_packets(buffer: &mut CaptureBuffer, packets: Vec<CapturedUdpPacket>)
    ensures
        final(buffer).max_depth() == old(buffer).max_depth(),
        final(buffer)@ == pushed_all(
            old(buffer)@,
            packet_views(packets@),
            old(buffer).max_depth(),
        ),
{
    let ghost views = packet_views(packets@);
    let mut rest = packets;
    let ghost mut done: int = 0;
    while rest.len() > 0
        invariant
            0 <= done <= views.len(),
            rest@.len() == views.len() - done,
            packet_views(rest@) == views.skip(done),
            buffer.max_depth() == old(buffer).max_depth(),
            buffer@ == pushed_all(old(buffer)@, views.take(done), old(buffer).max_depth()),
        decreases rest.len(),
    {
        let ghost before = rest@;
        let packet = rest.remove(0);
        proof {
            assert(packet_views(before)[0] == views[done]);
            assert(views.take(done + 1).drop_last() =~= views.take(done));
            assert(packet_views(rest@) =~= packet_views(before).skip(1));
            assert(packet_views(rest@) =~= views.skip(done + 1));
            done = done + 1;
        }
        buffer.push(packet);
    }
    assert(views.take(done) =~= views);
}

/// Takes a batch of frames in and adds the UDP packets that they make whole to the
/// buffer.
pub fn pump_from_batch(
    ip_frag: &mut IpFragmentReassembler,
    batch: Option<PacketBatch<'_>>,
    buffer: &mut CaptureBuffer,
)
    requires
        old(ip_frag).wf(),
    ensures
        final(ip_frag).wf(),
        final(buffer).max_depth() == old(buffer).max_depth(),
        match batch {
            None => final(ip_frag)@ == old(ip_frag)@ && final(buffer)@ == old(buffer)@,
            Some(batch) => {
                &&& final(ip_frag)@ == frames_state(old(ip_frag)@, batch.frames@, true)
                &&& final(buffer)@ == pushed_all(
                    old(buffer)@,
                    frames_packets(old(ip_frag)@, batch.frames@, true),
                    old(buffer).max_depth(),
                )
            },
        },
{
    let batch = match batch {
        None => return,
        Some(batch) => batch,
    };
    let mut at: usize = 0;
    let ghost frames = batch.frames@;
    while at < batch.frames().len()
        invariant
            frames == batch.frames@,
            at <= frames.len(),
            ip_frag.wf(),
            ip_frag@ == frames_state(old(ip_frag)@, frames.take(at as int), true),
            buffer.max_depth() == old(buffer).max_depth(),
            buffer@ == pushed_all(
                old(buffer)@,
                frames_packets(old(ip_frag)@, frames.take(at as int), true),
                old(buffer).max_depth(),
            ),
        decreases frames.len() - at,
    {
        let ghost state = ip_frag@;
        let packets = take_frame(ip_frag, &batch.frames()[at], true);
        proof {
            assert(frames.take(at + 1).drop_last() =~= frames.take(at as int));
            lemma_pushed_all_concat(
                old(buffer)@,
                frames_packets(old(ip_frag)@, frames.take(at as int), true),
                packet_views(packets@),
                old(buffer).max_depth(),
            );
        }
        push_packets(buffer, packets);
        at += 1;
    }
    assert(frames.take(at as int) =~= frames);
}

/// Takes a batch of frames in and returns the UDP packets that their IPv4 packets make
/// whole.
pub fn capture_batch(ip_frag: &mut IpFragmentReassembler, batch: Option<PacketBatch<'_>>) -> (r:
    Vec<CapturedUdpPacket>)
    requires
        old(ip_frag).wf(),
    ensures
        final(ip_frag).wf(),
        match batch {
            None => final(ip_frag)@ == old(ip_frag)@ && packet_views(r@) == Seq::<
                UdpPacketView,
            >::empty(),
            Some(batch) => {
                &&& final(ip_frag)@ == frames_state(old(ip_frag)@, batch.frames@, false)
                &&& packet_views(r@) == frames_packets(old(ip_frag)@, batch.frames@, false)
            },
        },
{
    let mut r: Vec<CapturedUdpPacket> = Vec::new();
    assert(packet_views(r@) =~= seq![]);
    let batch = match batch {
        None => return r,
        Some(batch) => batch,
    };
    let mut at: usize = 0;
    let ghost frames = batch.frames@;
    while at < batch.frames().len()
        invariant
            frames == batch.frames@,
            at <= frames.len(),
            ip_frag.wf(),
            ip_frag@ == frames_state(old(ip_frag)@, frames.take(at as int), false),
            packet_views(r@) == frames_packets(old(ip_frag)@, frames.take(at as int), false),
        decreases frames.len() - at,
    {
        let ghost earlier = r@;
        let mut packets = take_frame(ip_frag, &batch.frames()[at], false);
        let ghost added = packets@;
        assert(frames.take(at + 1).drop_last() =~= frames.take(at as int));
        r.append(&mut packets);
        assert(packet_views(r@) =~= packet_views(earlier) + packet_views(added));
        at += 1;
    }
    assert(frames.take(at as int) =~= frames);
    r
}

} // verus!
