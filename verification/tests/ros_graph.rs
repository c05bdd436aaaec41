//! Reading the lists of nodes that participants publish.

use ros2probe::discovery::ros_graph::{
    is_ros_discovery_info, parse_participant_entities_info, parse_participant_entities_info_body,
    ros_discovery_info_type, CdrError, EntitiesError, SequenceItem, ROS_GID_LEN,
    ROS_GID_LEN_LEGACY,
};

fn sample_payload(gid_len: usize) -> Vec<u8> {
    let mut payload = vec![0x00, 0x01, 0x00, 0x00];
    push_gid(&mut payload, 0x10, gid_len);
    payload.extend(1u32.to_le_bytes());
    push_cdr_string(&mut payload, "/demo");
    push_cdr_string(&mut payload, "talker");
    align(&mut payload);
    payload.extend(1u32.to_le_bytes());
    push_gid(&mut payload, 0x20, gid_len);
    align(&mut payload);
    payload.extend(1u32.to_le_bytes());
    push_gid(&mut payload, 0x30, gid_len);
    payload
}

fn push_gid(payload: &mut Vec<u8>, first: u8, gid_len: usize) {
    payload.extend(first..first + 16);
    payload.extend(std::iter::repeat(0).take(gid_len - 16));
}

fn push_cdr_string(payload: &mut Vec<u8>, value: &str) {
    align(payload);
    let len = value.len() + 1;
    payload.extend((len as u32).to_le_bytes());
    payload.extend(value.as_bytes());
    payload.push(0);
}

fn align(payload: &mut Vec<u8>) {
    while payload.len() % 4 != 0 {
        payload.push(0);
    }
}

#[test]
fn parses_jazzy_ros_discovery_info_with_16_byte_gids() {
    let info = parse_participant_entities_info(&sample_payload(ROS_GID_LEN)).unwrap();

    assert_eq!(info.nodes.len(), 1);
    assert_eq!(info.nodes[0].node_namespace, "/demo");
    assert_eq!(info.nodes[0].node_name, "talker");
    assert_eq!(info.nodes[0].reader_gids.len(), 1);
    assert_eq!(info.nodes[0].writer_gids.len(), 1);
}

#[test]
fn parses_humble_ros_discovery_info_with_24_byte_gids() {
    let info = parse_participant_entities_info(&sample_payload(ROS_GID_LEN_LEGACY)).unwrap();

    assert_eq!(info.nodes.len(), 1);
    assert_eq!(info.nodes[0].node_namespace, "/demo");
    assert_eq!(info.nodes[0].node_name, "talker");
    assert_eq!(info.nodes[0].reader_gids.len(), 1);
    assert_eq!(info.nodes[0].writer_gids.len(), 1);
}

#[test]
fn identifiers_are_read_back() {
    for gid_len in [ROS_GID_LEN, ROS_GID_LEN_LEGACY] {
        let info = parse_participant_entities_info(&sample_payload(gid_len)).unwrap();
        let bytes = |first: u8| -> Vec<u8> { (first..first + 16).collect() };
        assert_eq!(info.participant_gid.bytes.to_vec(), bytes(0x10));
        assert_eq!(info.nodes[0].participant_gid, info.participant_gid);
        assert_eq!(info.nodes[0].reader_gids[0].bytes.to_vec(), bytes(0x20));
        assert_eq!(info.nodes[0].writer_gids[0].bytes.to_vec(), bytes(0x30));
    }
}

#[test]
fn payload_without_header_is_refused() {
    let error = parse_participant_entities_info(&[0, 1, 0]).err();
    assert_eq!(error, Some(EntitiesError::ShortPayload));
}

#[test]
fn unknown_encapsulation_is_refused() {
    let error = parse_participant_entities_info(&[0, 7, 0, 0]).err();
    assert_eq!(error, Some(EntitiesError::UnsupportedEncapsulation { kind: 7 }));
}

#[test]
fn truncated_identifier_is_refused() {
    let error = parse_participant_entities_info(&[0, 1, 0, 0, 1, 2, 3]).err();
    assert_eq!(
        error,
        Some(EntitiesError::Unreadable {
            current: CdrError::GidOutOfBounds,
            legacy: CdrError::GidOutOfBounds,
        })
    );
}

fn read_error(tail: &[u8]) -> CdrError {
    let mut payload = vec![0x00, 0x01, 0x00, 0x00];
    push_gid(&mut payload, 0x10, ROS_GID_LEN);
    payload.extend(tail);
    match parse_participant_entities_info(&payload) {
        Err(EntitiesError::Unreadable { current, .. }) => current,
        _ => panic!("the payload reads"),
    }
}

#[test]
fn broken_bodies_are_refused() {
    assert_eq!(read_error(&[1, 0]), CdrError::U32OutOfBounds);
    assert!(matches!(
        read_error(&[200, 0, 0, 0]),
        CdrError::SequenceTooLong { item: SequenceItem::Node, len: 200, .. }
    ));
    let mut tail = vec![1, 0, 0, 0, 200, 0, 0, 0];
    tail.extend([b'a'; 20]);
    assert_eq!(read_error(&tail), CdrError::StringOutOfBounds);
    let mut tail = vec![1, 0, 0, 0, 2, 0, 0, 0, b'a', b'b', 0, 0];
    tail.extend([0; 20]);
    assert_eq!(read_error(&tail), CdrError::MissingNull);
    let mut tail = vec![1, 0, 0, 0, 2, 0, 0, 0, 0xff, 0, 0, 0];
    tail.extend([0; 20]);
    assert_eq!(read_error(&tail), CdrError::InvalidUtf8);
}

#[test]
fn padding_changes_nothing() {
    for gid_len in [ROS_GID_LEN, ROS_GID_LEN_LEGACY] {
        let payload = sample_payload(gid_len);
        let plain = parse_participant_entities_info(&payload).unwrap();
        for zeros in 1..9 {
            let mut padded = payload.clone();
            padded.extend(vec![0; zeros]);
            let info = parse_participant_entities_info(&padded).unwrap();
            assert_eq!(info.participant_gid, plain.participant_gid);
            assert_eq!(info.nodes.len(), 1);
            assert_eq!(info.nodes[0].node_name, plain.nodes[0].node_name);
            assert_eq!(info.nodes[0].reader_gids, plain.nodes[0].reader_gids);
            assert_eq!(info.nodes[0].writer_gids, plain.nodes[0].writer_gids);
        }
    }
}

#[test]
fn bodies_read_with_their_length_of_identifiers() {
    for gid_len in [ROS_GID_LEN, ROS_GID_LEN_LEGACY, 32] {
        let mut body = sample_payload(gid_len).split_off(4);
        let read = |body: &[u8]| parse_participant_entities_info_body(body, true, gid_len);
        let plain = read(&body).ok().unwrap();
        assert!(plain.nodes.iter().all(|node| node.participant_gid == plain.participant_gid));
        body.push(0);
        let padded = read(&body).ok().unwrap();
        assert_eq!(padded.participant_gid, plain.participant_gid);
        assert_eq!(padded.nodes[0].writer_gids, plain.nodes[0].writer_gids);
        body.push(3);
        assert_eq!(read(&body).err(), Some(CdrError::TrailingBytes));
    }
}

#[test]
fn one_trailing_byte_is_refused() {
    for tail in [vec![1], vec![0, 0, 1], vec![1, 0, 0, 0]] {
        let mut payload = sample_payload(ROS_GID_LEN);
        payload.extend(tail);
        match parse_participant_entities_info(&payload) {
            Err(EntitiesError::Unreadable { current, .. }) => {
                assert_eq!(current, CdrError::TrailingBytes)
            }
            _ => panic!("a trailing byte was accepted"),
        }
    }
}

#[test]
fn trailing_bytes_are_refused() {
    let mut payload = sample_payload(ROS_GID_LEN);
    payload.extend([9, 9, 9, 9]);
    match parse_participant_entities_info(&payload) {
        Err(EntitiesError::Unreadable { current, .. }) => {
            assert_eq!(current, CdrError::TrailingBytes)
        }
        _ => panic!("trailing bytes were accepted"),
    }
}

#[test]
fn discovery_topic_is_known_by_both_names() {
    assert!(is_ros_discovery_info("/ros_discovery_info"));
    assert!(is_ros_discovery_info("rt/ros_discovery_info"));
    assert!(!is_ros_discovery_info("/chatter"));
    assert!(ros_discovery_info_type().contains("ParticipantEntitiesInfo"));
}
