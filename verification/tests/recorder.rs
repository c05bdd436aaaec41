//! The cache of recordings, their schemas and channels.

use ros2probe::command::names::normalize_type_name;
use ros2probe::common::{Timestamp, TimestampError};
use ros2probe::paths::{parse_path, PathPart};
use ros2probe::recorder::actor::{
    handle_command, refusal, ActorStep, RecordCache, RecorderCommand, RecorderFront,
    RECORDER_BATCH_MAX_BYTES, RECORDER_BATCH_MAX_MESSAGES, RECORDER_CACHE_MAX_BYTES,
};
use ros2probe::recorder::recorder::{rosbag2_metadata, Recorder, WriteStep};
use ros2probe::recorder::schema::{
    normalize_schema_name, ordered_prefixes, resolve_schema, schema_candidates, schema_error,
    ParsedTypeName, SchemaEncoding, SchemaNameError,
};
use ros2probe::runtime::bag::CompressionConfig;
use ros2probe::runtime::observers::TopicMetadata;

#[test]
fn cache_is_bounded_by_bytes() {
    let mut front: RecorderFront<u32> = RecorderFront::new();
    assert!(front.try_record(1, RECORDER_CACHE_MAX_BYTES - 10, "/a"));
    assert!(!front.try_record(2, 11, "/b"));
    assert!(front.try_record(3, 10, "/a"));
    assert!(!front.try_record(4, 1, "/a"));
    assert!(!front.try_record(5, usize::MAX, "/b"));
    assert_eq!(
        front.drops.drop_counts(),
        &vec![("/a".to_string(), 1), ("/b".to_string(), 2)]
    );
    assert_eq!(front.drops.dropped_count(), 3);
    front.reset_drop_counts();
    assert!(front.drops.drop_counts().is_empty());
    assert_eq!(front.drops.dropped_count(), 3);
    assert!(front.cache.take_batch().is_empty());
}

#[test]
fn batches_are_bounded_and_in_order() {
    let mut cache: RecordCache<usize> = RecordCache::new();
    for index in 0..RECORDER_BATCH_MAX_MESSAGES + 2 {
        assert!(cache.push(index, 1));
    }
    let first = cache.take_batch();
    assert_eq!(first, (0..RECORDER_BATCH_MAX_MESSAGES).collect::<Vec<_>>());
    let second = cache.take_batch();
    assert_eq!(second, vec![RECORDER_BATCH_MAX_MESSAGES, RECORDER_BATCH_MAX_MESSAGES + 1]);
    assert!(cache.take_batch().is_empty());

    assert!(cache.push(0, RECORDER_BATCH_MAX_BYTES - 1));
    assert!(cache.push(1, 1));
    assert!(cache.push(2, 1));
    assert_eq!(cache.take_batch(), vec![0, 1]);
    assert_eq!(cache.take_batch(), vec![2]);
    assert!(cache.push(3, RECORDER_CACHE_MAX_BYTES));
    cache.clear();
    assert!(cache.push(4, RECORDER_CACHE_MAX_BYTES));
}

#[test]
fn commands_depend_on_the_recording() {
    let plan = handle_command(RecorderCommand::Start, false);
    assert!(plan.clear_cache && !plan.drain_cache);
    assert_eq!(plan.step, ActorStep::Create);
    let plan = handle_command(RecorderCommand::Start, true);
    assert!(plan.clear_cache);
    assert_eq!(
        refusal(plan.step).as_deref(),
        Some("recorder actor already has an active session")
    );
    let plan = handle_command(RecorderCommand::EnsureChannel, false);
    assert_eq!(refusal(plan.step).as_deref(), Some("recorder actor has no active session"));
    let plan = handle_command(RecorderCommand::EnsureChannel, true);
    assert_eq!(plan.step, ActorStep::EnsureChannel);
    assert_eq!(refusal(plan.step), None);
    let plan = handle_command(RecorderCommand::Stop, true);
    assert!(plan.drain_cache);
    assert_eq!(plan.step, ActorStep::Finish);
    assert_eq!(handle_command(RecorderCommand::Stop, false).step, ActorStep::NothingToFinish);
    let plan = handle_command(RecorderCommand::Shutdown, true);
    assert!(plan.drain_cache);
    assert_eq!(plan.step, ActorStep::Exit);
}

#[test]
fn schema_names_settle() {
    assert_eq!(normalize_schema_name("std_msgs::msg::dds_::String_"), "std_msgs/msg/String");
    assert_eq!(normalize_schema_name("std_msgs/msg/String"), "std_msgs/msg/String");
    assert_eq!(normalize_schema_name("a/b"), "a/b");
    let parsed = ParsedTypeName::parse("p::action::dds_::Go_").ok().unwrap();
    assert_eq!((parsed.package, parsed.kind, parsed.base_name), ("p", "action", "Go"));
}

#[test]
fn broken_schema_names_are_refused() {
    let error = |name: &str| ParsedTypeName::parse(name).err().unwrap();
    assert_eq!(error("a/msg"), SchemaNameError::MissingTypeName);
    assert_eq!(error("a/msg/B/c"), SchemaNameError::ExtraSegments);
    assert_eq!(error("a/idl/B"), SchemaNameError::UnsupportedKind);
    assert_eq!(error("String"), SchemaNameError::UnsupportedFormat);
    let text = |name: &str| schema_error(name, error(name));
    assert_eq!(text("a/msg"), "missing type name in schema name");
    assert_eq!(text("a/msg/B/c"), "unexpected extra path segments in schema name a/msg/B/c");
    assert_eq!(text("a/idl/B"), "unsupported schema kind idl in a/idl/B");
    assert_eq!(text("String"), "unsupported schema name format String");
}

#[test]
fn first_schema_file_counts() {
    let prefixes = vec!["/opt/ros/jazzy".to_string(), "/ws/".to_string()];
    let list = schema_candidates("std_msgs/msg/String", &prefixes).ok().unwrap();
    let paths: Vec<_> = list.iter().map(|candidate| candidate.path.as_str()).collect();
    assert_eq!(
        paths,
        vec![
            "/opt/ros/jazzy/share/std_msgs/msg/String.msg",
            "/opt/ros/jazzy/share/std_msgs/msg/String.idl",
            "/ws/share/std_msgs/msg/String.msg",
            "/ws/share/std_msgs/msg/String.idl",
        ]
    );
    let found = resolve_schema("std_msgs/msg/String", &prefixes, &vec![false, true, true, false]);
    let found = found.ok().unwrap();
    assert_eq!(found.path, "/opt/ros/jazzy/share/std_msgs/msg/String.idl");
    assert_eq!(found.encoding, SchemaEncoding::Ros2Idl);
    assert_eq!(found.encoding.as_str(), "ros2idl");
    assert_eq!(found.name, "std_msgs/msg/String");
    assert_eq!(
        resolve_schema("std_msgs/msg/String", &prefixes, &vec![false; 4]).err().unwrap(),
        "unable to resolve schema std_msgs/msg/String from AMENT_PREFIX_PATH; looked for \
         std_msgs/std_msgs/msg/String.[msg|idl] under each prefix"
    );
    assert_eq!(
        resolve_schema("x/msg", &prefixes, &vec![]).err().unwrap(),
        "missing type name in schema name"
    );
}

#[test]
fn messages_go_to_their_channel_in_order() {
    let mut recorder = Recorder::create("a.mcap".to_string(), CompressionConfig::Zstd);
    assert_eq!(recorder.compression(), CompressionConfig::Zstd);
    let dds = "std_msgs::msg::dds_::String_";
    let step = recorder.write_message("/chatter", dds, "qos");
    let name = match step {
        WriteStep::AddSchema { schema_name } => schema_name,
        other => panic!("{other:?}"),
    };
    assert_eq!(name, "std_msgs/msg/String");
    recorder.schema_added(name, 4);
    let step = recorder.write_message("/chatter", dds, "qos");
    match step {
        WriteStep::AddChannel {
            schema_id,
            schema_name,
            message_encoding,
            metadata_key,
            metadata_value,
        } => {
            assert_eq!(schema_id, 4);
            assert_eq!(message_encoding, "cdr");
            assert_eq!(metadata_key, "offered_qos_profiles");
            assert_eq!(metadata_value, "qos");
            recorder.channel_added("/chatter", schema_name, "qos", 11);
        }
        other => panic!("{other:?}"),
    }
    for expected in 0..3 {
        let step = recorder.write_message("/chatter", "std_msgs/msg/String", "qos");
        assert!(matches!(step, WriteStep::Write { channel_id: 11 }));
        let header = recorder.header(11, Timestamp { unix_nanos: 77 }).ok().unwrap();
        assert_eq!(header.sequence, expected);
        assert_eq!((header.log_time, header.publish_time), (77, 77));
        recorder.message_written(11);
    }
    assert!(matches!(
        recorder.write_message("/other", dds, "qos"),
        WriteStep::AddChannel { .. }
    ));
    assert_eq!(recorder.header(12, Timestamp { unix_nanos: 1 }).ok().unwrap().sequence, 0);
    assert_eq!(recorder.finish(), "a.mcap");
}

#[test]
fn failed_writes_are_not_numbered() {
    let mut recorder = Recorder::create("a.mcap".to_string(), CompressionConfig::Zstd);
    recorder.schema_added("a/msg/B".to_string(), 1);
    recorder.channel_added("/a", "a/msg/B".to_string(), "", 1);
    recorder.channel_added("/b", "a/msg/B".to_string(), "", 2);
    let sequence = |recorder: &Recorder, channel_id| {
        recorder.header(channel_id, Timestamp { unix_nanos: 0 }).ok().unwrap().sequence
    };
    for written in [1, 2, 1, 1] {
        recorder.message_written(written);
    }
    assert_eq!((sequence(&recorder, 1), sequence(&recorder, 2)), (3, 1));
    assert!(recorder.header(1, Timestamp { unix_nanos: -1 }).is_err());
    assert_eq!(sequence(&recorder, 1), 3);
    let step = recorder.write_message("/a", "a/msg/B", "");
    assert!(matches!(step, WriteStep::Write { channel_id: 1 }));
    recorder.message_written(1);
    assert_eq!((sequence(&recorder, 1), sequence(&recorder, 2)), (4, 1));
}

#[test]
fn stop_writes_what_was_accepted() {
    let mut front: RecorderFront<usize> = RecorderFront::new();
    let mut written = Vec::new();
    for index in 0..10 {
        assert!(front.try_record(index, 1, "/a"));
    }
    written.extend(front.cache.take_batch());
    for index in 10..3000 {
        assert!(front.try_record(index, 1, "/a"));
    }
    assert!(!front.try_record(3000, RECORDER_CACHE_MAX_BYTES, "/b"));
    assert!(!front.try_record(3001, RECORDER_CACHE_MAX_BYTES, "/a"));
    assert!(!front.try_record(3002, RECORDER_CACHE_MAX_BYTES, "/b"));
    let plan = handle_command(RecorderCommand::Stop, true);
    assert!(plan.drain_cache && plan.step == ActorStep::Finish);
    let recorder = Recorder::create("a.mcap".to_string(), CompressionConfig::Zstd);
    let work = front.stop(Some(&recorder));
    written.extend(work.messages);
    assert_eq!(written, (0..3000).collect::<Vec<_>>());
    assert_eq!(work.output.as_deref(), Some("a.mcap"));
    let drops = vec![("/a".to_string(), 1), ("/b".to_string(), 2)];
    assert_eq!(work.drops, drops);
    assert_eq!(handle_command(RecorderCommand::Stop, false).step, ActorStep::NothingToFinish);
    let again = front.stop(None);
    assert!(again.messages.is_empty());
    assert_eq!(again.output, None);
    assert_eq!(again.drops, drops);
}

#[test]
fn nothing_is_written_without_a_recording() {
    let mut front: RecorderFront<usize> = RecorderFront::new();
    assert!(front.try_record(1, 1, "/a"));
    let work = front.stop(None);
    assert!(work.messages.is_empty() && work.output.is_none() && work.drops.is_empty());
    assert!(front.cache.drain_cache().is_empty());
    for index in 0..5 {
        assert!(front.try_record(index, RECORDER_BATCH_MAX_BYTES, "/a"));
    }
    assert_eq!(front.cache.drain_cache(), vec![0, 1, 2, 3, 4]);
}

#[test]
fn paths_are_taken_apart() {
    let shown = |path: &str| {
        let parts: Vec<String> = parse_path(path)
            .into_iter()
            .map(|part| match part {
                PathPart::Root => "<root>".to_string(),
                PathPart::Here => "<here>".to_string(),
                PathPart::Up => "<up>".to_string(),
                PathPart::Name(name) => name,
            })
            .collect();
        parts.join(" ")
    };
    assert_eq!(shown("/opt/ros/"), "<root> opt ros");
    assert_eq!(shown("//opt/./ros"), "<root> opt ros");
    assert_eq!(shown("./a/../b/."), "<here> a <up> b");
    assert_eq!(shown("a"), "a");
    assert_eq!(shown("/"), "<root>");
    assert_eq!(shown(""), "");
}

#[test]
fn prefixes_are_ordered_like_paths() {
    let given = ["/opt/ros-x", "/opt/ros/jazzy", "/b", "/opt/ros", "/b/", "../c", "/opt/ros/humble"];
    let ordered = ordered_prefixes(given.iter().map(|path| path.to_string()).collect());
    assert_eq!(
        ordered,
        ["/b", "/opt/ros", "/opt/ros/humble", "/opt/ros/jazzy", "/opt/ros-x", "../c"]
    );
    let mut paths: Vec<std::path::PathBuf> = given.iter().map(std::path::PathBuf::from).collect();
    paths.sort();
    paths.dedup();
    assert_eq!(paths, ordered.iter().map(std::path::PathBuf::from).collect::<Vec<_>>());
    assert!(ordered_prefixes(Vec::new()).is_empty());
}

#[test]
fn schemas_are_named_like_types() {
    for name in [
        "std_msgs::msg::dds_::String_",
        "a/msg/B",
        "a/b",
        "a/b/c/d",
        "a::srv::dds_::B_Request_",
        "plain",
        "",
    ] {
        assert_eq!(normalize_schema_name(name), normalize_type_name(name), "{name}");
    }
}

#[test]
fn timestamps_have_limits() {
    let recorder = Recorder::create("a.mcap".to_string(), CompressionConfig::Uncompressed);
    let error = |unix_nanos| recorder.header(0, Timestamp { unix_nanos }).err();
    assert_eq!(error(-1), Some(TimestampError::BeforeEpoch));
    assert_eq!(error(u64::MAX as i128 + 1), Some(TimestampError::TooLarge));
    assert_eq!(error(u64::MAX as i128), None);
}

#[test]
fn unknown_types_are_recorded_as_unknown() {
    let recorder = Recorder::create("a.mcap".to_string(), CompressionConfig::Lz4);
    let metadata = TopicMetadata { topic_name: "/x".to_string(), ros_type: None };
    match recorder.write_rtps_data_message(&metadata) {
        WriteStep::AddSchema { schema_name } => assert_eq!(schema_name, "unknown/Unknown"),
        other => panic!("{other:?}"),
    }
}

#[test]
fn metadata_name_the_distribution() {
    let metadata = rosbag2_metadata(Some("jazzy".to_string()));
    assert_eq!(metadata.name, "rosbag2");
    assert_eq!(metadata.key, "ROS_DISTRO");
    assert_eq!(metadata.value, "jazzy");
    assert_eq!(rosbag2_metadata(None).value, "unknown");
}
