//! From frames to datagrams.

use bytes::Bytes;
use ros2probe::capture::capture::{
    capture_batch, pump_from_batch, CaptureBuffer, CapturedUdpPacket,
};
use ros2probe::capture::ip_frag::{
    parse_ipv4_l3_offset, parse_ipv4_packet, parse_ipv6_l3_offset, parse_ipv6_packet,
    CapturedIpPacket, IpFragmentInfo, IpFragmentKey, IpParseError,
};
use ros2probe::capture::ranges::insert_range;
use ros2probe::capture::reassembly::{
    IpFragmentReassembler, ReassembledIpDatagram, UdpPayloadError,
};
use ros2probe::capture::socket::{PacketBatch, PacketDirection, PacketFrame};
use ros2probe::common::{FlowTuple, IpAddr, Timestamp};

const NOW: Timestamp = Timestamp { unix_nanos: 5 };

fn ethernet(ethertype: u16) -> Vec<u8> {
    let mut frame = vec![0; 12];
    frame.extend(ethertype.to_be_bytes());
    frame
}

fn ipv4(identification: u16, fragment_bits: u16, protocol: u8, payload: &[u8]) -> Vec<u8> {
    let mut packet = vec![0x45, 0];
    packet.extend(((20 + payload.len()) as u16).to_be_bytes());
    packet.extend(identification.to_be_bytes());
    packet.extend(fragment_bits.to_be_bytes());
    packet.extend([64, protocol, 0, 0]);
    packet.extend([10, 0, 0, 1]);
    packet.extend([10, 0, 0, 2]);
    packet.extend(payload);
    packet
}

fn udp(src: u16, dst: u16, data: &[u8]) -> Vec<u8> {
    let mut payload = Vec::new();
    payload.extend(src.to_be_bytes());
    payload.extend(dst.to_be_bytes());
    payload.extend(((8 + data.len()) as u16).to_be_bytes());
    payload.extend([0, 0]);
    payload.extend(data);
    payload
}

fn ipv4_frame(identification: u16, fragment_bits: u16, payload: &[u8]) -> Vec<u8> {
    let mut frame = ethernet(0x0800);
    frame.extend(ipv4(identification, fragment_bits, 17, payload));
    frame
}

fn parse4(frame: &[u8]) -> Result<CapturedIpPacket, IpParseError> {
    parse_ipv4_packet(frame, frame.len(), PacketDirection::Host, NOW)
}

fn parse6(frame: &[u8]) -> Result<CapturedIpPacket, IpParseError> {
    parse_ipv6_packet(frame, frame.len(), PacketDirection::Host, NOW)
}

#[test]
fn ipv4_packet_is_taken_apart() {
    let payload = udp(7400, 7401, b"hello");
    let frame = ipv4_frame(9, 0, &payload);
    let packet = parse4(&frame).ok().unwrap();
    assert_eq!(packet.ip_payload.to_vec(), payload);
    assert_eq!(packet.ip_identification, 9);
    assert_eq!(packet.frame_len, frame.len());
    assert_eq!(packet.flow.src_ip.bytes[..4].to_vec(), vec![10, 0, 0, 1]);
    assert_eq!(packet.flow.dst_ip.bytes[..4].to_vec(), vec![10, 0, 0, 2]);
    assert!(packet.fragment.is_none());
}

#[test]
fn vlan_tags_are_skipped() {
    let mut tagged = ethernet(0x8100);
    tagged.extend([0, 1, 0x08, 0x00]);
    assert_eq!(parse_ipv4_l3_offset(&tagged), Ok(18));
    let mut twice = ethernet(0x88a8);
    twice.extend([0, 1, 0x81, 0x00, 0, 2, 0x86, 0xdd]);
    assert_eq!(parse_ipv6_l3_offset(&twice), Ok(22));
}

#[test]
fn broken_frames_are_refused() {
    assert_eq!(parse_ipv4_l3_offset(&[0; 13]), Err(IpParseError::ShortEthernet));
    assert_eq!(parse_ipv4_l3_offset(&ethernet(0x8100)), Err(IpParseError::ShortVlan));
    assert_eq!(
        parse_ipv4_l3_offset(&ethernet(0x86dd)),
        Err(IpParseError::NotIpv4 { ethertype: 0x86dd })
    );
    assert_eq!(
        parse_ipv6_l3_offset(&ethernet(0x0800)),
        Err(IpParseError::NotIpv6 { ethertype: 0x0800 })
    );
}

#[test]
fn broken_ipv4_packets_are_refused() {
    let good = ipv4_frame(1, 0, &udp(1, 2, b"x"));
    assert_eq!(parse4(&good[..30]).err(), Some(IpParseError::ShortIpv4));
    let mut frame = good.clone();
    frame[14] = 0x65;
    assert_eq!(parse4(&frame).err(), Some(IpParseError::Ipv4Version { version: 6 }));
    frame[14] = 0x44;
    assert_eq!(parse4(&frame).err(), Some(IpParseError::Ipv4HeaderLength { words: 4 }));
    frame[14] = 0x4f;
    assert_eq!(parse4(&frame).err(), Some(IpParseError::TruncatedIpv4Header));
    let mut frame = good.clone();
    frame[23] = 6;
    assert_eq!(parse4(&frame).err(), Some(IpParseError::Ipv4NotUdp));
    let mut frame = good;
    frame[16] = 0;
    frame[17] = 19;
    assert_eq!(parse4(&frame).err(), Some(IpParseError::Ipv4TotalLength));
}

fn ipv6_frame(next_header: u8, body: &[u8]) -> Vec<u8> {
    let mut frame = ethernet(0x86dd);
    frame.extend([0x60, 0, 0, 0]);
    frame.extend((body.len() as u16).to_be_bytes());
    frame.extend([next_header, 64]);
    frame.extend([1; 16]);
    frame.extend([2; 16]);
    frame.extend(body);
    frame
}

#[test]
fn ipv6_packet_is_taken_apart() {
    let payload = udp(7400, 7401, b"hi");
    let packet = parse6(&ipv6_frame(17, &payload)).ok().unwrap();
    assert_eq!(packet.ip_payload.to_vec(), payload);
    assert_eq!(packet.flow.src_ip.bytes, [1; 16]);
    assert!(packet.fragment.is_none());
    let mut behind_options = vec![17, 0, 0, 0, 0, 0, 0, 0];
    behind_options.extend(&payload);
    let packet = parse6(&ipv6_frame(0, &behind_options)).ok().unwrap();
    assert_eq!(packet.ip_payload.to_vec(), payload);
}

#[test]
fn broken_ipv6_packets_are_refused() {
    let good = ipv6_frame(17, &udp(1, 2, b"x"));
    assert_eq!(parse6(&good[..40]).err(), Some(IpParseError::ShortIpv6));
    let mut frame = good;
    frame[14] = 0x40;
    assert_eq!(parse6(&frame).err(), Some(IpParseError::Ipv6Version { version: 4 }));
    assert_eq!(parse6(&ipv6_frame(0, &[17])).err(), Some(IpParseError::ShortExtension));
    assert_eq!(parse6(&ipv6_frame(44, &[17, 0, 0])).err(), Some(IpParseError::ShortFragment));
    assert_eq!(parse6(&ipv6_frame(51, &[17])).err(), Some(IpParseError::ShortAuthentication));
    assert_eq!(parse6(&ipv6_frame(50, &[0; 16])).err(), Some(IpParseError::Esp));
    assert_eq!(parse6(&ipv6_frame(59, &[0; 16])).err(), Some(IpParseError::NoNextHeader));
    assert_eq!(
        parse6(&ipv6_frame(6, &[0; 16])).err(),
        Some(IpParseError::UnsupportedNextHeader { next_header: 6 })
    );
}

#[test]
fn datagram_gives_its_payload() {
    let packet = parse4(&ipv4_frame(9, 0, &udp(7400, 7401, b"hello"))).ok().unwrap();
    let mut reassembler = IpFragmentReassembler::new(4);
    let mut whole = reassembler.accept(packet);
    assert_eq!(whole.len(), 1);
    let udp = whole.remove(0).into_udp_payload().ok().unwrap();
    assert_eq!(udp.udp_payload.to_vec(), b"hello".to_vec());
    assert_eq!(udp.flow.src_ip, IpAddr::from_v4(0x0a00_0001));
    assert_eq!((udp.flow.src_port, udp.flow.dst_port), (0, 0));
    assert!(!udp.was_fragmented);
    assert_eq!(udp.fragment_count, 1);
}

fn datagram(ip_payload: &[u8]) -> ReassembledIpDatagram {
    ReassembledIpDatagram {
        socket_timestamp: NOW,
        frame_len: 0,
        direction: PacketDirection::Host,
        flow: FlowTuple::new(IpAddr::from_v4(1), IpAddr::from_v4(2), 0, 0),
        ip_identification: 0,
        ip_payload: Bytes::copy_from_slice(ip_payload),
        fragment_count: 1,
        was_fragmented: false,
    }
}

#[test]
fn broken_udp_payloads_are_refused() {
    let short = datagram(&[0; 7]).into_udp_payload();
    assert_eq!(short.err(), Some(UdpPayloadError::ShortPayload));
    let length = datagram(&[0, 1, 0, 2, 0, 7, 0, 0]).into_udp_payload();
    assert_eq!(length.err(), Some(UdpPayloadError::UdpLength));
}

#[test]
fn fragments_give_back_the_datagram_in_any_order() {
    let data: Vec<u8> = (0..40).collect();
    let whole = udp(1, 2, &data);
    let pieces = [(0usize, 16usize, true), (16, 32, true), (32, 48, false)];
    for order in [[0, 1, 2], [2, 1, 0], [1, 0, 2], [2, 0, 1]] {
        let mut reassembler = IpFragmentReassembler::new(4);
        let mut out = Vec::new();
        for index in order {
            let (start, end, more) = pieces[index];
            let bits = (start as u16 / 8) | if more { 0x2000 } else { 0 };
            let packet = parse4(&ipv4_frame(5, bits, &whole[start..end])).ok().unwrap();
            out.extend(reassembler.accept(packet));
        }
        assert_eq!(out.len(), 1);
        assert!(out[0].was_fragmented);
        assert_eq!(out[0].fragment_count, 3);
        assert_eq!(out[0].ip_payload.to_vec(), whole);
    }
}

#[test]
fn ipv6_fragment_is_taken_apart() {
    let mut body = vec![17, 0, 0x05, 0xa9, 0, 0, 0, 7];
    body.extend([9; 8]);
    let frame = ipv6_frame(44, &body);
    assert_eq!(frame.len(), 70);
    let epoch = Timestamp { unix_nanos: 0 };
    let packet = parse_ipv6_packet(&frame, 70, PacketDirection::Host, epoch).ok().unwrap();
    assert_eq!(packet.ip_payload.to_vec(), vec![9; 8]);
    assert_eq!(packet.ip_identification, 7);
    let fragment = packet.fragment.unwrap();
    assert_eq!(fragment.offset_bytes, 1448);
    assert!(fragment.more_fragments);
    assert_eq!(fragment.key.identification, 7);
    assert_eq!(fragment.key.protocol, 17);
    assert_eq!((fragment.key.src_ip.bytes, fragment.key.dst_ip.bytes), ([1; 16], [2; 16]));
}

#[test]
fn ipv6_fragments_give_back_the_datagram() {
    let data: Vec<u8> = (0..40).collect();
    let whole = udp(1, 2, &data);
    let pieces = [(0usize, 16usize, true), (16, 32, true), (32, 48, false)];
    for order in [[0, 1, 2], [2, 1, 0], [1, 0, 2]] {
        let mut reassembler = IpFragmentReassembler::new(4);
        let mut out = Vec::new();
        for index in order {
            let (start, end, more) = pieces[index];
            let mut body = vec![17, 0];
            body.extend((start as u16 | u16::from(more)).to_be_bytes());
            body.extend([0, 1, 0, 5]);
            body.extend(&whole[start..end]);
            out.extend(reassembler.accept(parse6(&ipv6_frame(44, &body)).ok().unwrap()));
        }
        assert_eq!(out.len(), 1);
        assert_eq!(out[0].fragment_count, 3);
        assert_eq!(out[0].ip_payload.to_vec(), whole);
        let udp = out.remove(0).into_udp_payload().ok().unwrap();
        assert_eq!(udp.udp_payload.to_vec(), data);
    }
}

#[test]
fn repeated_fragments_count_once() {
    let mut reassembler = IpFragmentReassembler::new(4);
    assert!(reassembler.accept(fragment(1, 0, true, &[1; 8])).is_empty());
    assert!(reassembler.accept(fragment(1, 0, true, &[1; 8])).is_empty());
    let out = reassembler.accept(fragment(1, 8, false, &[2; 8]));
    assert_eq!(out[0].fragment_count, 2);
    assert_eq!(out[0].ip_payload.to_vec(), [[1u8; 8], [2; 8]].concat());
}

#[test]
fn datagram_describes_its_fragments() {
    let mut first = fragment(1, 8, false, &[2; 8]);
    first.socket_timestamp = Timestamp { unix_nanos: 9 };
    first.frame_len = 100;
    first.direction = PacketDirection::Outgoing;
    let mut second = fragment(1, 0, true, &[1; 8]);
    second.socket_timestamp = Timestamp { unix_nanos: 3 };
    second.frame_len = 90;
    let mut reassembler = IpFragmentReassembler::new(4);
    assert!(reassembler.accept(first).is_empty());
    assert!(reassembler.accept(fragment(2, 0, true, &[7; 8])).is_empty());
    let out = reassembler.accept(second);
    assert_eq!(out[0].socket_timestamp, Timestamp { unix_nanos: 3 });
    assert_eq!(out[0].frame_len, 100);
    assert!(out[0].direction == PacketDirection::Outgoing);
    assert_eq!(out[0].ip_identification, 1);
    assert_eq!(out[0].fragment_count, 2);
}

#[test]
fn missing_fragment_delivers_nothing() {
    let whole = udp(1, 2, &[7; 40]);
    let mut reassembler = IpFragmentReassembler::new(4);
    let first = parse4(&ipv4_frame(5, 0x2000, &whole[..16])).ok().unwrap();
    let last = parse4(&ipv4_frame(5, 4, &whole[32..])).ok().unwrap();
    assert!(reassembler.accept(first).is_empty());
    assert!(reassembler.accept(last).is_empty());
}

fn fragment(identification: u32, offset_bytes: usize, more: bool, data: &[u8]) -> CapturedIpPacket {
    let flow = FlowTuple::new(IpAddr::from_v4(1), IpAddr::from_v4(2), 0, 0);
    CapturedIpPacket {
        socket_timestamp: NOW,
        frame_len: data.len(),
        direction: PacketDirection::Host,
        flow,
        ip_identification: identification as u16,
        ip_payload: Bytes::copy_from_slice(data),
        fragment: Some(IpFragmentInfo {
            key: IpFragmentKey {
                src_ip: flow.src_ip,
                dst_ip: flow.dst_ip,
                identification,
                protocol: 17,
            },
            offset_bytes,
            more_fragments: more,
        }),
    }
}

#[test]
fn oldest_datagram_is_given_up() {
    let mut reassembler = IpFragmentReassembler::new(1);
    assert!(reassembler.accept(fragment(1, 0, true, &[1; 8])).is_empty());
    assert!(reassembler.accept(fragment(2, 0, true, &[2; 8])).is_empty());
    assert!(reassembler.accept(fragment(1, 8, false, &[1; 8])).is_empty());
}

#[test]
fn datagram_that_stays_is_given_back() {
    let mut reassembler = IpFragmentReassembler::new(2);
    assert!(reassembler.accept(fragment(1, 0, true, &[1; 8])).is_empty());
    assert!(reassembler.accept(fragment(2, 0, true, &[2; 8])).is_empty());
    assert!(reassembler.accept(fragment(3, 0, true, &[3; 8])).is_empty());
    let out = reassembler.accept(fragment(2, 8, false, &[4; 8]));
    assert_eq!(out[0].ip_payload.to_vec(), [[2u8; 8], [4; 8]].concat());
    assert_eq!(out[0].fragment_count, 2);
    assert!(reassembler.accept(fragment(1, 8, false, &[1; 8])).is_empty());
}

#[test]
fn other_datagrams_are_left_alone() {
    let mut reassembler = IpFragmentReassembler::new(2);
    assert!(reassembler.accept(fragment(1, 0, true, &[1; 8])).is_empty());
    assert!(reassembler.accept(fragment(2, 0, true, &[2; 8])).is_empty());
    let out = reassembler.accept(fragment(2, 8, false, &[3; 8]));
    assert_eq!(out[0].ip_payload.to_vec(), [[2u8; 8], [3; 8]].concat());
    let out = reassembler.accept(fragment(1, 8, false, &[4; 8]));
    assert_eq!(out[0].ip_payload.to_vec(), [[1u8; 8], [4; 8]].concat());
}

#[test]
fn ranges_are_joined() {
    let mut ranges: Vec<(usize, usize)> = Vec::new();
    insert_range(&mut ranges, 16, 24);
    insert_range(&mut ranges, 0, 8);
    assert_eq!(ranges, vec![(0, 8), (16, 24)]);
    insert_range(&mut ranges, 8, 16);
    assert_eq!(ranges, vec![(0, 24)]);
}

fn packet(identification: u16) -> CapturedUdpPacket {
    CapturedUdpPacket {
        socket_timestamp: NOW,
        frame_len: 1,
        direction: PacketDirection::Outgoing,
        flow: FlowTuple::new(IpAddr::from_v4(1), IpAddr::from_v4(2), 3, 4),
        ip_identification: identification,
        payload: Bytes::copy_from_slice(b"p"),
        ip_fragment_count: 1,
        was_ip_fragmented: false,
    }
}

#[test]
fn buffer_keeps_the_newest() {
    let mut buffer = CaptureBuffer::new(2);
    for identification in [1, 2, 3] {
        buffer.push(packet(identification));
    }
    assert_eq!(buffer.packets().len(), 2);
    assert_eq!(buffer.pop().map(|packet| packet.ip_identification), Some(2));
    assert_eq!(buffer.pop().map(|packet| packet.ip_identification), Some(3));
    assert!(buffer.pop().is_none());
}

#[test]
fn batch_becomes_packets() {
    let good = ipv4_frame(9, 0, &udp(7400, 7401, b"hello"));
    let bad = ethernet(0x0806);
    let frame = |data| PacketFrame {
        data,
        socket_timestamp: NOW,
        original_len: 99,
        direction: PacketDirection::Multicast,
    };
    let mut reassembler = IpFragmentReassembler::new(4);
    let batch = PacketBatch { frames: vec![frame(&bad[..]), frame(&good[..])] };
    let packets = capture_batch(&mut reassembler, Some(batch));
    assert_eq!(packets.len(), 1);
    assert_eq!(packets[0].payload.to_vec(), b"hello".to_vec());
    assert_eq!(packets[0].frame_len, 99);
    assert_eq!(packets[0].direction, PacketDirection::Multicast);
    assert!(capture_batch(&mut reassembler, None).is_empty());

    let mut buffer = CaptureBuffer::new(8);
    let batch = PacketBatch { frames: vec![frame(&good[..])] };
    pump_from_batch(&mut reassembler, Some(batch), &mut buffer);
    assert_eq!(buffer.packets().len(), 1);
}
