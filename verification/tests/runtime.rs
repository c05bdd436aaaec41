//! The running probe: recordings, observers, commands and captured events.

use bytes::Bytes;
use ros2probe::command::protocol::{
    BagRecordRequest, BagSetPausedRequest, CompressionFormat, TopicEchoStartRequest,
    TopicStartRequest,
};
use ros2probe::common::{IpAddr, Timestamp, TopicGid};
use ros2probe::runtime::bag::{
    bag_options_with_output, default_bag_output_path, normalize_topics, record_message,
    record_topic, set_paused, stamped_bag_path, CompressionConfig, TopicReach,
};
use ros2probe::runtime::command::{
    handle_runtime_command, recorder_started, recorder_stopped, CommandStep, RuntimeCommand,
    RuntimeReply,
};
use ros2probe::runtime::config::{RuntimeConfig, RECENT_SAMPLE_CACHE_CAPACITY};
use ros2probe::runtime::delay::{
    delay_build_stats_response, delay_build_status_response, delay_observe_message,
    delay_start_session, parse_cdr_stamp_nanos,
};
use ros2probe::runtime::echo::{
    echo_observe_message, echo_reply_or_defer_status, echo_start_session, echo_stop_session,
};
use ros2probe::runtime::events::{
    handle_rtps_event, is_external_interface, is_interrupted_syscall, resolve_capture_interfaces,
    sweep_changed, DiscoveryChange, ExpireStats, FailureCause, InterfaceFacts, RtpsEvent,
};
use ros2probe::runtime::filter::{
    recording_filter, sync_shadow_subs, sync_topic_filter, topic_has_shm_publisher, ShadowCandidate,
    TopicFilter,
};
use ros2probe::runtime::observers::{
    bw_build_status_response, bw_observe_message, bw_start_session, bw_stop_session,
    hz_build_status_response, hz_observe_message, hz_start_session, DataMessage, TopicMetadata,
};
use ros2probe::runtime::samples::{LocalIps, RecentSampleCache, SampleIdentity};
use ros2probe::runtime::sessions::Sessions;

fn gid(first: u8) -> TopicGid {
    let mut bytes = [0; 16];
    bytes[0] = first;
    TopicGid { bytes }
}

fn sequence(number: u32) -> [u8; 8] {
    let mut bytes = [0; 8];
    bytes[4..].copy_from_slice(&number.to_le_bytes());
    bytes
}

fn message(number: u32, payload: &[u8]) -> DataMessage {
    DataMessage {
        writer_gid: gid(1),
        reader_gid: gid(2),
        sequence_number: sequence(number),
        payload: Bytes::copy_from_slice(payload),
        socket_timestamp: Timestamp { unix_nanos: 10_000_000_000 },
    }
}

fn metadata(topic: &str) -> TopicMetadata {
    TopicMetadata { topic_name: topic.to_string(), ros_type: Some("a/msg/B".to_string()) }
}

fn start(topic: &str, window_size: usize) -> TopicStartRequest {
    TopicStartRequest { topic_name: topic.to_string(), window_size }
}

fn texts(list: &[&str]) -> Vec<String> {
    list.iter().map(|text| text.to_string()).collect()
}

fn record(all: bool, topics: &[&str]) -> BagRecordRequest {
    BagRecordRequest {
        all,
        topics: texts(topics),
        output: None,
        compression_format: None,
        no_discovery: false,
        start_paused: false,
    }
}

#[test]
fn topics_to_record_are_checked() {
    assert_eq!(normalize_topics(&texts(&["ALL"]), "x"), Ok(vec![]));
    assert_eq!(normalize_topics(&texts(&["/a", "/b"]), "x"), Ok(texts(&["/a", "/b"])));
    assert_eq!(
        normalize_topics(&texts(&["all", "/b"]), "x").unwrap_err(),
        "x: topics must be either ['all'] or a list of absolute topic names like ['/chatter']"
    );
    assert_eq!(
        normalize_topics(&texts(&["b"]), "x").unwrap_err(),
        "x: explicit topic 'b' must start with '/'; use ['/chatter'] instead of ['chatter']"
    );
}

#[test]
fn bag_options_follow_the_request() {
    let options = |request| bag_options_with_output(request, "d.mcap".to_string());
    let plain = options(record(false, &["/a"])).ok().unwrap();
    assert_eq!(plain.topics, texts(&["/a"]));
    assert_eq!(plain.output, "d.mcap");
    assert_eq!(plain.compression, CompressionConfig::Uncompressed);
    let mut request = record(true, &[]);
    request.output = Some("mine".to_string());
    request.compression_format = Some(CompressionFormat::Lz4);
    let all = options(request).ok().unwrap();
    assert!(all.topics.is_empty());
    assert_eq!(all.output, "mine");
    assert_eq!(all.compression, CompressionConfig::Lz4);
    assert_eq!(
        options(record(true, &["/a"])).err().unwrap(),
        "--all cannot be combined with explicit topic names"
    );
    assert_eq!(
        options(record(false, &[])).err().unwrap(),
        "pass one or more topics, or use --all"
    );
}

#[test]
fn default_output_has_a_time_stamp() {
    assert_eq!(stamped_bag_path("2024_01_02-03_04_05"), "rosbag2_2024_01_02-03_04_05.mcap");
    let path = default_bag_output_path();
    assert!(path.starts_with("rosbag2_2") && path.ends_with(".mcap"));
    assert_eq!(path.len(), "rosbag2_2024_01_02-03_04_05.mcap".len());
    for (c, want) in path.chars().zip("rosbag2_dddd_dd_dd-dd_dd_dd.mcap".chars()) {
        match want {
            'd' => assert!(c.is_ascii_digit(), "{path}"),
            _ => assert_eq!(c, want, "{path}"),
        }
    }
    let field = |at: usize| path[at..at + 2].parse::<u8>().unwrap();
    assert!((1..=12).contains(&field(13)) && (1..=31).contains(&field(16)));
    assert!(field(19) < 24 && field(22) < 60 && field(25) <= 60);
}

#[test]
fn sessions_refuse_bad_requests() {
    let mut session = None;
    let error = |request, session: &mut Option<_>| bw_start_session(request, session).err();
    assert_eq!(
        error(start("chatter", 1), &mut session).as_deref(),
        Some("rp topic bw: topic 'chatter' must start with '/'; use '/chatter' instead of 'chatter'")
    );
    assert_eq!(
        error(start("/chatter", 0), &mut session).as_deref(),
        Some("rp topic bw: --window must be greater than 0")
    );
    assert_eq!(error(start("/chatter", 1), &mut session), None);
    assert_eq!(
        error(start("/chatter", 1), &mut session).as_deref(),
        Some("topic bw is already active")
    );
    let stopped = bw_stop_session(&mut session);
    assert!(stopped.stopped);
    assert_eq!(stopped.topic_name.as_deref(), Some("/chatter"));
    assert!(!bw_stop_session(&mut session).stopped);
}

#[test]
fn bandwidth_is_taken_over_the_window() {
    let mut session = None;
    assert!(!bw_build_status_response(&session, 0).active);
    bw_start_session(start("/a", 2), &mut session).ok().unwrap();
    assert!(bw_build_status_response(&session, 0).stats.is_none());
    bw_observe_message(&mut session, &message(1, &[0; 100]), &metadata("/a"), 1_000);
    bw_observe_message(&mut session, &message(2, &[0; 10]), &metadata("/a"), 2_000);
    bw_observe_message(&mut session, &message(3, &[0; 30]), &metadata("/a"), 5_000);
    bw_observe_message(&mut session, &message(4, &[0; 99]), &metadata("/b"), 6_000);
    let status = bw_build_status_response(&session, 9_000);
    let stats = status.stats.unwrap();
    assert_eq!((stats.sizes.count, stats.sizes.sum), (2, 40));
    assert_eq!((stats.sizes.least, stats.sizes.greatest), (10, 30));
    assert_eq!(stats.elapsed_nanos, 3_000);
    assert_eq!(status.last_message_nanos_ago, Some(4_000));
    assert_eq!((status.message_count, status.window_size), (2, 2));
}

#[test]
fn rate_is_taken_over_periods() {
    let mut session = None;
    hz_start_session(start("/a", 2), &mut session).ok().unwrap();
    hz_observe_message(&mut session, &metadata("/a"), 100);
    assert!(hz_build_status_response(&session, 150).stats.is_none());
    for now in [200, 350, 600] {
        hz_observe_message(&mut session, &metadata("/a"), now);
    }
    let status = hz_build_status_response(&session, 650);
    let stats = status.stats.unwrap();
    assert_eq!(stats.spans, vec![150, 250]);
    assert_eq!((stats.summary.least, stats.summary.greatest, stats.summary.sum), (150, 250, 400));
    assert_eq!(status.last_message_nanos_ago, Some(50));
}

#[test]
fn lost_messages_are_counted() {
    let mut session = None;
    let request = TopicEchoStartRequest { topic_name: "/a".to_string() };
    echo_start_session(request, &mut session).ok().unwrap();
    for number in [5, 6, 9] {
        let payload = [number as u8, 0xff];
        assert!(echo_observe_message(&mut session, &message(number, &payload), &metadata("/a"))
            .is_none());
    }
    let reply = echo_reply_or_defer_status(&mut session, 7).unwrap();
    assert_eq!(reply.reply, 7);
    let lost: Vec<_> = reply.response.messages.iter().map(|echo| echo.lost_before).collect();
    assert_eq!(lost, vec![0, 0, 2]);
    assert_eq!(reply.response.messages[0].payload_base64, "Bf8=");
    assert_eq!(reply.response.messages[0].ros_type.as_deref(), Some("a/msg/B"));
    assert!(echo_reply_or_defer_status(&mut session, 8).is_none());
}

#[test]
fn waiting_client_gets_the_next_message() {
    let mut session = None;
    let request = TopicEchoStartRequest { topic_name: "/a".to_string() };
    echo_start_session(request, &mut session).ok().unwrap();
    assert!(echo_reply_or_defer_status(&mut session, 1).is_none());
    let replaced = echo_reply_or_defer_status(&mut session, 2).unwrap();
    assert_eq!(replaced.reply, 1);
    assert!(replaced.response.active && replaced.response.messages.is_empty());
    let reply = echo_observe_message(&mut session, &message(1, &[1]), &metadata("/a")).unwrap();
    assert_eq!(reply.reply, 2);
    assert_eq!(reply.response.messages.len(), 1);
    assert!(echo_reply_or_defer_status(&mut session, 3).is_none());
    let (stopped, reply) = echo_stop_session(&mut session);
    assert!(stopped.stopped);
    let reply = reply.unwrap();
    assert_eq!(reply.reply, 3);
    assert!(!reply.response.active);
}

#[test]
fn oldest_echo_messages_leave() {
    let mut session = None;
    let request = TopicEchoStartRequest { topic_name: "/a".to_string() };
    echo_start_session(request, &mut session).ok().unwrap();
    for number in 0..40 {
        let _ = echo_observe_message(&mut session, &message(number, &[number as u8]), &metadata("/a"));
    }
    let reply = echo_reply_or_defer_status(&mut session, 1).unwrap();
    assert_eq!(reply.response.messages.len(), 32);
    assert_eq!(reply.response.messages[0].payload_base64, "CA==");
}

fn stamped(seconds: u32, nanos: u32) -> Vec<u8> {
    let mut payload = vec![0, 1, 0, 0];
    payload.extend(seconds.to_le_bytes());
    payload.extend(nanos.to_le_bytes());
    payload
}

#[test]
fn stamps_are_read() {
    assert_eq!(parse_cdr_stamp_nanos(&stamped(2, 5)), Some(2_000_000_005));
    assert_eq!(parse_cdr_stamp_nanos(&stamped(2, 1_000_000_000)), None);
    assert_eq!(parse_cdr_stamp_nanos(&stamped(2, 5)[..11]), None);
    let big = [0, 0, 0, 0, 0, 0, 0, 3, 0, 0, 0, 4];
    assert_eq!(parse_cdr_stamp_nanos(&big), Some(3_000_000_004));
    let bare = [7, 1, 0, 0, 9, 0, 0, 0, 0, 0, 0, 0];
    assert_eq!(parse_cdr_stamp_nanos(&bare), Some(263_000_000_009));
}

#[test]
fn delays_are_taken_from_stamps() {
    let mut session = None;
    delay_start_session(start("/a", 3), &mut session).ok().unwrap();
    assert!(delay_build_stats_response(&session).is_none());
    for (seconds, nanos) in [(9, 0), (10, 250), (200, 0), (9, 999_999_000)] {
        delay_observe_message(&mut session, &message(1, &stamped(seconds, nanos)), &metadata("/a"));
    }
    let stats = delay_build_stats_response(&session).unwrap();
    assert_eq!(stats.spans, vec![1_000_000_000, 250, 1_000]);
    let status = delay_build_status_response(&mut session);
    assert_eq!(status.messages.len(), 4);
    assert_eq!(status.messages[0].received_at_nanos, 10_000_000_000);
    assert_eq!(status.messages[0].payload_base64, "AAEAAAkAAAAAAAAA");
    assert!(delay_build_status_response(&mut session).messages.is_empty());
}

fn reply_of(step: CommandStep) -> RuntimeReply {
    match step {
        CommandStep::Done { mut replies, .. } => replies.pop().unwrap().content,
        _ => panic!("something is left to do"),
    }
}

#[test]
fn recording_starts_and_stops() {
    let mut sessions = Sessions::new();
    let command = RuntimeCommand::BagRecord { request: record(false, &["/a"]), reply: 1 };
    let options = match handle_runtime_command(command, &mut sessions, 0) {
        CommandStep::StartRecorder { options, reply: 1 } => options,
        _ => panic!("the recorder is not started"),
    };
    let step = recorder_started(&mut sessions, options, Ok(()), 1);
    assert!(matches!(reply_of(step), RuntimeReply::BagStarted(info) if !info.all_topics));
    let command = RuntimeCommand::BagRecord { request: record(true, &[]), reply: 2 };
    let reply = reply_of(handle_runtime_command(command, &mut sessions, 0));
    assert!(matches!(reply, RuntimeReply::Error(text) if text == "bag recording is already active"));
    let command = RuntimeCommand::BagSetPaused {
        request: BagSetPausedRequest { paused: true },
        reply: 3,
    };
    let reply = reply_of(handle_runtime_command(command, &mut sessions, 0));
    assert!(matches!(reply, RuntimeReply::BagSetPaused(paused) if paused.active && paused.paused));
    let step = handle_runtime_command(RuntimeCommand::BagStop { reply: 4 }, &mut sessions, 0);
    assert!(matches!(step, CommandStep::StopRecorder { reply: 4 }));
    let step = recorder_stopped(Ok(Some("a.mcap".to_string())), 4);
    assert!(matches!(
        reply_of(step),
        RuntimeReply::BagStopped(stopped) if stopped.output.as_deref() == Some("a.mcap")
    ));
    let step = handle_runtime_command(RuntimeCommand::BagStop { reply: 5 }, &mut sessions, 0);
    assert!(matches!(reply_of(step), RuntimeReply::BagStopped(stopped) if !stopped.stopped));
}

#[test]
fn failed_stop_still_syncs_the_filter() {
    match recorder_stopped(Err("disk full".to_string()), 4) {
        CommandStep::Done { replies, sync } => {
            assert!(sync);
            assert_eq!(replies.len(), 1);
            assert!(matches!(&replies[0].content, RuntimeReply::Error(text) if text == "disk full"));
        }
        _ => panic!("something is left to do"),
    }
}

/// Sessions with a recording that is running.
fn recording(topics: &[&str], no_discovery: bool) -> Sessions {
    let mut sessions = Sessions::new();
    let request = BagRecordRequest { no_discovery, ..record(topics.is_empty(), topics) };
    let options = bag_options_with_output(request, "x".to_string()).ok().unwrap();
    recorder_started(&mut sessions, options, Ok(()), 1);
    sessions
}

#[test]
fn discovery_can_be_left_out_of_a_recording() {
    for topics in [&["/a", "/ros_discovery_info"][..], &[]] {
        let sessions = recording(topics, true);
        assert!(record_message(&sessions.recording, "/a"));
        assert!(!record_message(&sessions.recording, "/ros_discovery_info"));
        assert!(!record_message(&sessions.recording, "rt/ros_discovery_info"));
        let sessions = recording(topics, false);
        assert!(record_message(&sessions.recording, "/ros_discovery_info"));
    }
}

#[test]
fn internal_topics_are_not_recorded() {
    let mut all = recording(&[], false);
    let some = recording(&["/rosout"], false);
    for name in ["/rosout", "/parameter_events", "/tf", "/tf_static", "/a/_hidden"] {
        assert!(!record_message(&all.recording, name), "{name}");
        assert!(!record_message(&some.recording, name), "{name}");
    }
    assert!(record_message(&some.recording, "/chatter"));
    assert!(record_message(&all.recording, "/chatter"));
    set_paused(&mut all.recording, true);
    assert!(!record_message(&all.recording, "/chatter"));
    assert!(!record_message(&None, "/chatter"));
}

#[test]
fn recording_everything_leaves_local_topics_out() {
    let reach = |subscription_count, local_only| {
        Some(TopicReach { subscription_count, local_only })
    };
    let all = recording(&[], false).recording;
    assert!(record_topic(&all, "/a", None));
    assert!(record_topic(&all, "/a", reach(1, false)));
    assert!(!record_topic(&all, "/a", reach(0, false)));
    assert!(!record_topic(&all, "/a", reach(1, true)));
    assert!(!record_topic(&all, "/rosout", reach(1, false)));
    let some = recording(&["/a"], false).recording;
    assert!(record_topic(&some, "/a", reach(0, true)));
}

#[test]
fn recording_filter_passes_what_is_recorded() {
    assert!(matches!(recording_filter(&Vec::new()), TopicFilter::All));
    match recording_filter(&texts(&["/b", "/a"])) {
        TopicFilter::Selected(topics) => assert_eq!(topics, texts(&["/b", "/a"])),
        _ => panic!("nothing is selected"),
    }
}

#[test]
fn sessions_do_not_disturb_each_other() {
    let mut sessions = Sessions::new();
    let command = RuntimeCommand::TopicHzStart { request: start("/a", 3), reply: 1 };
    handle_runtime_command(command, &mut sessions, 0);
    let command = RuntimeCommand::TopicBwStart { request: start("/b", 3), reply: 2 };
    handle_runtime_command(command, &mut sessions, 0);
    handle_runtime_command(RuntimeCommand::TopicBwStop { reply: 3 }, &mut sessions, 0);
    let command = RuntimeCommand::TopicHzStatus { reply: 4 };
    let reply = reply_of(handle_runtime_command(command, &mut sessions, 0));
    assert!(matches!(reply, RuntimeReply::TopicHzStatus(status) if status.active));
}

#[test]
fn filter_passes_what_is_watched() {
    let mut sessions = Sessions::new();
    assert!(matches!(sync_topic_filter(&sessions), TopicFilter::Nothing));
    let command = RuntimeCommand::TopicHzStart { request: start("/b", 3), reply: 1 };
    handle_runtime_command(command, &mut sessions, 0);
    let command = RuntimeCommand::TopicBwStart { request: start("/a", 3), reply: 2 };
    handle_runtime_command(command, &mut sessions, 0);
    match sync_topic_filter(&sessions) {
        TopicFilter::Selected(topics) => assert_eq!(topics, texts(&["/a", "/b"])),
        _ => panic!("nothing is selected"),
    }
    let options = bag_options_with_output(record(true, &[]), "x".to_string()).ok().unwrap();
    recorder_started(&mut sessions, options, Ok(()), 3);
    assert!(matches!(sync_topic_filter(&sessions), TopicFilter::All));
}

#[test]
fn helpers_follow_what_is_watched() {
    let candidate = |topic: &str, needs_shadow| ShadowCandidate {
        topic: Some(topic.to_string()),
        needs_shadow,
    };
    let publications = vec![candidate("/a", true), candidate("/b", false), candidate("/b", true)];
    assert!(topic_has_shm_publisher("/b", &publications));
    assert!(!topic_has_shm_publisher("/c", &publications));
    let mut sessions = Sessions::new();
    let command = RuntimeCommand::TopicHzStart { request: start("/a", 3), reply: 1 };
    handle_runtime_command(command, &mut sessions, 0);
    let plan = sync_shadow_subs(&sessions, &publications, &texts(&["/b"]));
    assert_eq!(plan.start, texts(&["/a"]));
    assert_eq!(plan.stop, texts(&["/b"]));
}

#[test]
fn repeated_samples_are_known() {
    let sample = |number| SampleIdentity { writer_gid: gid(1), sequence_number: sequence(number) };
    let mut cache = RecentSampleCache::new(2);
    assert!(cache.insert(sample(1)));
    assert!(!cache.insert(sample(1)));
    assert!(cache.insert(sample(2)));
    assert!(cache.insert(sample(3)));
    assert!(cache.insert(sample(1)));
    assert!(!cache.insert(sample(3)));
    assert_eq!(RECENT_SAMPLE_CACHE_CAPACITY, 65_536);
    let _config = RuntimeConfig::default();
}

#[test]
fn events_tell_what_to_do() {
    let local = LocalIps { v4: vec![[10, 0, 0, 1]], v6: vec![[9; 16]] };
    let here = IpAddr::from_v4(0x0a00_0001);
    let there = IpAddr::from_v4(0x0a00_0002);
    assert!(local.contains(&here) && !local.contains(&there));
    let mut remote = Vec::new();
    let mut samples = RecentSampleCache::new(8);
    let mut sessions = Sessions::new();
    let mut handle = |participant, src_ip, change, remote: &mut Vec<TopicGid>| {
        let event = RtpsEvent::Discovery { participant, src_ip, change };
        handle_rtps_event(event, &local, remote, &mut samples, &mut sessions, 0)
    };
    let outcome = handle(Some(gid(7)), here, DiscoveryChange::Updated, &mut remote);
    assert!(outcome.refresh && !outcome.sync_filter && remote.is_empty());
    let outcome = handle(Some(gid(7)), there, DiscoveryChange::Inserted, &mut remote);
    assert!(outcome.refresh && outcome.sync_filter);
    assert_eq!(remote, vec![gid(7)]);
    let outcome = handle(None, there, DiscoveryChange::Noop, &mut remote);
    assert!(!outcome.refresh && !outcome.sync_filter);
    let outcome = handle(None, there, DiscoveryChange::RemovedParticipant(gid(7)), &mut remote);
    assert_eq!(outcome.clear_nodes_of, Some(gid(7)));
    assert!(outcome.refresh && outcome.sync_filter);
}

#[test]
fn messages_are_taken_once() {
    let local = LocalIps { v4: vec![], v6: vec![] };
    let mut remote = Vec::new();
    let mut samples = RecentSampleCache::new(8);
    let mut sessions = Sessions::new();
    let command = RuntimeCommand::TopicBwStart { request: start("/a", 3), reply: 2 };
    handle_runtime_command(command, &mut sessions, 0);
    for _ in 0..2 {
        let event = RtpsEvent::Message {
            message: message(1, &[1, 2, 3]),
            metadata: Some(metadata("/a")),
            published_topic: None,
            reach: None,
        };
        handle_rtps_event(event, &local, &mut remote, &mut samples, &mut sessions, 5);
    }
    let status = bw_build_status_response(&sessions.bw, 5);
    assert_eq!(status.message_count, 1);
}

#[test]
fn internal_topics_are_not_watched() {
    let local = LocalIps { v4: vec![], v6: vec![] };
    let mut remote = Vec::new();
    let mut samples = RecentSampleCache::new(8);
    let mut sessions = recording(&[], false);
    for command in [
        RuntimeCommand::TopicBwStart { request: start("/rosout", 3), reply: 2 },
        RuntimeCommand::TopicHzStart { request: start("/rosout", 3), reply: 3 },
    ] {
        handle_runtime_command(command, &mut sessions, 0);
    }
    let mut handle = |number, topic: &str, reach| {
        let event = RtpsEvent::Message {
            message: message(number, &[1, 2, 3]),
            metadata: Some(metadata(topic)),
            published_topic: None,
            reach,
        };
        handle_rtps_event(event, &local, &mut remote, &mut samples, &mut sessions, 5)
            .data
            .unwrap()
            .record
    };
    assert!(!handle(1, "/rosout", None));
    assert!(handle(2, "/chatter", None));
    let leaf = TopicReach { subscription_count: 0, local_only: false };
    assert!(!handle(3, "/chatter", Some(leaf)));
    assert_eq!(bw_build_status_response(&sessions.bw, 5).message_count, 0);
    assert!(hz_build_status_response(&sessions.hz, 5).last_message_nanos_ago.is_none());
}

#[test]
fn interfaces_are_chosen() {
    let facts = |name: &str, path: Option<&str>, state: Option<&str>| InterfaceFacts {
        name: name.to_string(),
        canonical_path: path.map(str::to_string),
        operstate: state.map(str::to_string),
    };
    let pci = Some("/sys/devices/pci0000:00/net/x");
    assert!(is_external_interface(&facts("eth0", pci, Some("up"))));
    assert!(is_external_interface(&facts("eth0", pci, None)));
    assert!(!is_external_interface(&facts("eth0", pci, Some("down"))));
    assert!(!is_external_interface(&facts("eth0", pci, Some("notpresent"))));
    assert!(!is_external_interface(&facts("eth0", None, Some("up"))));
    assert!(!is_external_interface(&facts("veth", Some("/sys/devices/virtual/net/veth"), None)));
    assert!(!is_external_interface(&facts("lo", pci, None)));
    let list = vec![
        facts("wlan0", pci, None),
        facts("lo", pci, None),
        facts("eth0", pci, Some("up")),
        facts("eth1", pci, Some("down")),
    ];
    assert_eq!(resolve_capture_interfaces(&list), texts(&["lo", "eth0", "wlan0"]));
}

#[test]
fn interruptions_are_known() {
    let cause = |interrupted, text: &str| FailureCause { interrupted, text: text.to_string() };
    assert!(is_interrupted_syscall(&vec![cause(false, "x"), cause(true, "y")]));
    assert!(is_interrupted_syscall(&vec![cause(false, "poll: Interrupted system call")]));
    assert!(is_interrupted_syscall(&vec![cause(false, "failed (os error 4)")]));
    assert!(!is_interrupted_syscall(&vec![cause(false, "failed (os error 9)")]));
    assert!(!is_interrupted_syscall(&vec![]));
}

#[test]
fn sweeps_that_remove_something_change_the_graph() {
    let stats = |participants_removed, publications_removed, subscriptions_removed| ExpireStats {
        participants_removed,
        publications_removed,
        subscriptions_removed,
    };
    assert!(!sweep_changed(&stats(0, 0, 0)));
    assert!(sweep_changed(&stats(1, 0, 0)));
    assert!(sweep_changed(&stats(0, 1, 0)));
    assert!(sweep_changed(&stats(0, 0, 1)));
}
