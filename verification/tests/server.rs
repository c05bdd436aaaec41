//! The command server.

use ros2probe::command::protocol::{
    BagSessionInfo, BagSetPausedRequest, BagSetPausedResponse, CompressionFormat, DiscoverRequest,
    TopicInfo, TopicListRequest, TopicStartRequest, TopicStartResponse,
};
use ros2probe::command::server::{
    busy_response, default_socket_path, invalid_request_response, read_failed_response, respond,
    route_request, ClientSlots, CommandRequest, CommandResponse, Route, SnapshotQuery,
    MAX_CONCURRENT_CLIENTS,
};
use ros2probe::command::state::CommandState;
use ros2probe::command::topic::list::is_hidden_topic;
use ros2probe::runtime::command::{RuntimeCommand, RuntimeReply};

fn topic(name: &str, ros_type: &str) -> TopicInfo {
    TopicInfo {
        name: name.to_string(),
        type_names: vec![ros_type.to_string()],
        publisher_count: 1,
        subscription_count: 1,
        local_only: false,
    }
}

fn error_of(response: CommandResponse) -> String {
    match response {
        CommandResponse::Error(error) => error.message,
        _ => panic!("no error"),
    }
}

#[test]
fn socket_path_is_fixed() {
    assert_eq!(default_socket_path(), "/tmp/ros2probe.sock");
}

#[test]
fn clients_are_limited() {
    let mut slots = ClientSlots::new();
    for _ in 0..MAX_CONCURRENT_CLIENTS {
        assert!(slots.enter());
    }
    assert!(!slots.enter());
    slots.release();
    assert!(slots.enter());
    assert!(!slots.enter());
    assert_eq!(error_of(busy_response()), "command server busy; try again");
}

#[test]
fn broken_requests_are_answered() {
    assert_eq!(error_of(read_failed_response("timed out")), "read request failed: timed out");
    assert_eq!(error_of(invalid_request_response("EOF")), "invalid request: EOF");
}

#[test]
fn topics_are_listed_from_the_snapshot() {
    let state = || CommandState {
        topics: vec![
            topic("/chatter", "std_msgs/msg/String"),
            topic("/_hidden", "std_msgs/msg/String"),
            topic("/add", "pkg/srv/Add_Request"),
        ],
        ..CommandState::default()
    };
    let names = |include_hidden| {
        let request = CommandRequest::TopicList(TopicListRequest {
            show_types: false,
            count_only: false,
            verbose: false,
            include_hidden,
        });
        match route_request(request, state(), 0) {
            Route::Answer(CommandResponse::TopicList(response)) => {
                assert_eq!(response.total_count, response.topics.len());
                response.topics.into_iter().map(|topic| topic.name).collect::<Vec<_>>()
            }
            _ => panic!("no list"),
        }
    };
    assert_eq!(names(false), vec!["/chatter"]);
    assert_eq!(names(true), vec!["/chatter", "/_hidden", "/add"]);
    assert!(is_hidden_topic("/a/_b"));
    assert!(is_hidden_topic("_b"));
    assert!(!is_hidden_topic("/a_b"));
}

#[test]
fn requests_go_where_they_belong() {
    let route = |request| route_request(request, CommandState::default(), 42);
    assert!(matches!(
        route(CommandRequest::Discover(DiscoverRequest)),
        Route::Answer(CommandResponse::Discover(response)) if response.triggered
    ));
    assert!(matches!(
        route(CommandRequest::NodeInfo),
        Route::Snapshot(SnapshotQuery::NodeInfo)
    ));
    assert!(matches!(
        route(CommandRequest::TopicGraph),
        Route::Snapshot(SnapshotQuery::TopicGraph)
    ));
    assert!(matches!(
        route(CommandRequest::BagStop),
        Route::Runtime(RuntimeCommand::BagStop { reply: 42 })
    ));
    match route(CommandRequest::TopicHzStart(TopicStartRequest {
        topic_name: "/a".to_string(),
        window_size: 7,
    })) {
        Route::Runtime(RuntimeCommand::TopicHzStart { request, reply }) => {
            assert_eq!((request.topic_name.as_str(), request.window_size, reply), ("/a", 7, 42));
        }
        other => panic!("{other:?}"),
    }
    match route(CommandRequest::BagSetPaused(BagSetPausedRequest { paused: true })) {
        Route::Runtime(RuntimeCommand::BagSetPaused { request, .. }) => assert!(request.paused),
        other => panic!("{other:?}"),
    }
}

#[test]
fn replies_become_responses() {
    let response = respond(RuntimeReply::TopicBwStarted(TopicStartResponse {
        topic_name: "/a".to_string(),
    }));
    assert!(matches!(
        response,
        CommandResponse::TopicBwStart(started) if started.topic_name == "/a"
    ));
    let response = respond(RuntimeReply::BagSetPaused(BagSetPausedResponse {
        active: true,
        paused: false,
    }));
    assert!(matches!(
        response,
        CommandResponse::BagSetPaused(paused) if paused.active && !paused.paused
    ));
    let response = respond(RuntimeReply::BagStarted(BagSessionInfo {
        output: "a.mcap".to_string(),
        paused: false,
        topics: vec![],
        all_topics: true,
        no_discovery: false,
        compression_format: CompressionFormat::Zstd,
    }));
    assert!(matches!(response, CommandResponse::BagRecord(info) if info.output == "a.mcap"));
    assert_eq!(error_of(respond(RuntimeReply::Error("x".to_string()))), "x");
}
