//! What the command-line tool asks and prints.

use ros2probe::cli::discover::{self, DiscoverCommand, DiscoverReply};
use ros2probe::cli::topic::delay::{
    self, DelayAction, DelayEvent, DelayState, DelayWindow, TopicDelayCommand,
};
use ros2probe::cli::topic::echo::{
    self, hex_bytes, raw_line, EchoAction, EchoEvent, EchoState, EchoTurn, TopicEchoCommand,
};
use ros2probe::cli::topic::list::{
    self, classify_topics, format_types, list_lines, list_request, passes_name_filter, pluralize,
    ListStep, TopicListCommand, TopicListReply,
};
use ros2probe::command::protocol::{
    TopicDelayMessage, TopicDelayStatusResponse, TopicEchoMessage, TopicEchoStatusResponse,
    TopicInfo, TopicListResponse,
};

fn texts(list: &[&str]) -> Vec<String> {
    list.iter().map(|text| text.to_string()).collect()
}

fn topic(name: &str, publishers: usize, subscribers: usize) -> TopicInfo {
    TopicInfo {
        name: name.to_string(),
        type_names: texts(&["std_msgs/msg/String"]),
        publisher_count: publishers,
        subscription_count: subscribers,
        local_only: false,
    }
}

fn list_args() -> TopicListCommand {
    TopicListCommand { show_types: false, count_only: false, verbose: false, include_hidden: false }
}

fn listed(topics: Vec<TopicInfo>) -> TopicListReply {
    TopicListReply::TopicList(TopicListResponse { total_count: topics.len(), topics })
}

#[test]
fn discover_reports_its_outcome() {
    let run = |reply| discover::run(DiscoverCommand, reply);
    assert_eq!(run(DiscoverReply::Discover), Ok("Discovery triggered.".to_string()));
    assert_eq!(run(DiscoverReply::Error("x".to_string())), Err("x".to_string()));
    assert_eq!(
        run(DiscoverReply::Other),
        Err("unexpected response for discover request".to_string())
    );
}

#[test]
fn internal_names_are_known() {
    for name in [
        "/tf",
        "/tf_static",
        "/parameter_events",
        "/robot/parameter_events",
        "/rosout",
        "/a/_hidden",
        "/_hidden",
    ] {
        assert!(!passes_name_filter(name), "{name}");
    }
    for name in ["/chatter", "/a/tf", "/a_b"] {
        assert!(passes_name_filter(name), "{name}");
    }
}

#[test]
fn topics_are_parted_and_sorted() {
    let topics = vec![
        topic("/zebra", 1, 1),
        topic("/tf", 1, 1),
        topic("/lonely", 1, 0),
        topic("/shm", 1, 1),
        topic("/apple", 1, 2),
        topic("/unknown", 1, 1),
    ];
    let (candidates, internal) = match list::run(list_args(), listed(topics)) {
        ListStep::FetchDetails(candidates, internal) => (candidates, internal),
        _ => panic!("no details are asked for"),
    };
    let names = |list: &[TopicInfo]| -> Vec<String> {
        list.iter().map(|topic| topic.name.clone()).collect()
    };
    assert_eq!(names(&candidates), texts(&["/zebra", "/shm", "/apple", "/unknown"]));
    assert_eq!(names(&internal), texts(&["/tf", "/lonely"]));
    let local_only = vec![Some(false), Some(true), Some(false), None];
    let (recordable, internal) = classify_topics(candidates, &local_only, internal);
    assert_eq!(names(&recordable), texts(&["/apple", "/unknown", "/zebra"]));
    assert_eq!(names(&internal), texts(&["/lonely", "/shm", "/tf"]));
    assert_eq!(
        list_lines(&recordable, &internal, false),
        texts(&[
            "/apple",
            "/unknown",
            "/zebra",
            "",
            "Internal topics:",
            "  /lonely",
            "  /shm",
            "  /tf",
        ])
    );
    assert_eq!(
        list_lines(&vec![topic("/a", 0, 0)], &vec![], true),
        texts(&["/a [std_msgs/msg/String]"])
    );
}

fn printed(args: TopicListCommand, topics: Vec<TopicInfo>) -> Vec<String> {
    match list::run(args, listed(topics)) {
        ListStep::Print(lines) => lines,
        _ => panic!("nothing is printed"),
    }
}

#[test]
fn list_counts_and_tells_all() {
    let topics = || vec![topic("/a", 1, 0), topic("/b", 0, 2), topic("/c", 3, 1)];
    let count = TopicListCommand { count_only: true, verbose: true, ..list_args() };
    assert_eq!(printed(count, topics()), texts(&["3"]));
    let verbose = TopicListCommand { verbose: true, ..list_args() };
    assert_eq!(
        printed(verbose, topics()),
        texts(&[
            "Published topics:",
            " * /a [std_msgs/msg/String] 1 publisher",
            " * /c [std_msgs/msg/String] 3 publishers",
            "",
            "Subscribed topics:",
            " * /b [std_msgs/msg/String] 2 subscribers",
            " * /c [std_msgs/msg/String] 1 subscriber",
        ])
    );
}

#[test]
fn list_fails_with_a_message() {
    let message = |reply| match list::run(list_args(), reply) {
        ListStep::Fail(message) => message,
        _ => panic!("no failure"),
    };
    assert_eq!(message(TopicListReply::Error("x".to_string())), "x");
    assert_eq!(message(TopicListReply::Other), "unexpected response for topic list request");
}

#[test]
fn list_request_has_the_arguments() {
    let request = list_request(TopicListCommand {
        show_types: true,
        count_only: false,
        verbose: false,
        include_hidden: true,
    });
    assert!(request.show_types && request.include_hidden);
    assert!(!request.count_only && !request.verbose);
}

#[test]
fn types_and_words() {
    assert_eq!(format_types(&vec![]), "-");
    assert_eq!(format_types(&texts(&["a", "b", "c"])), "a, b, c");
    assert_eq!(pluralize(1, "one", "many"), "one");
    assert_eq!(pluralize(0, "one", "many"), "many");
}

fn echo_args(raw: bool, message_type: Option<&str>) -> TopicEchoCommand {
    TopicEchoCommand {
        topic_name: "/chatter".to_string(),
        message_type: message_type.map(str::to_string),
        raw,
        field: None,
        once: false,
        no_arr: false,
        no_str: false,
        truncate_length: 128,
        csv: false,
        no_lost_messages: false,
    }
}

fn echoed(ros_type: Option<&str>, payload_base64: &str, lost_before: usize) -> TopicEchoMessage {
    TopicEchoMessage {
        ros_type: ros_type.map(str::to_string),
        payload_base64: payload_base64.to_string(),
        lost_before,
    }
}

fn status(messages: Vec<TopicEchoMessage>, active: bool) -> EchoEvent {
    EchoEvent::StatusReply(TopicEchoStatusResponse { active, topic_name: None, messages })
}

fn polling(message_type: Option<&str>) -> EchoState {
    EchoState::Polling { message_type: message_type.map(str::to_string) }
}

fn stop_error(turn: EchoTurn) -> Option<String> {
    assert!(matches!(turn.action, EchoAction::SendStop));
    match turn.state {
        EchoState::StopSent { error } => error,
        _ => panic!("the session goes on"),
    }
}

fn end_error(turn: EchoTurn) -> Option<String> {
    assert!(matches!(turn.action, EchoAction::Finish));
    match turn.state {
        EchoState::Finished { error } => error,
        _ => panic!("the command goes on"),
    }
}

#[test]
fn raw_messages_are_printed_in_hexadecimal() {
    let args = echo_args(true, None);
    let turn = echo::begin(&args);
    assert!(matches!(turn.action, EchoAction::SendStart));
    let turn = echo::run(&args, turn.state, EchoEvent::StartReply);
    assert!(matches!(turn.action, EchoAction::Poll));
    let messages = vec![echoed(None, "AAH/", 0), echoed(None, "", 2)];
    let turn = echo::run(&args, turn.state, status(messages, true));
    assert_eq!(turn.lines, texts(&["0001ff", "2 message(s) lost", ""]));
    assert!(matches!(turn.action, EchoAction::Poll));
    let turn = echo::run(&args, turn.state, status(vec![], false));
    assert_eq!(stop_error(turn), None);
}

#[test]
fn broken_payload_ends_the_session() {
    let args = echo_args(true, None);
    let messages = vec![echoed(None, "AA==", 0), echoed(None, "!", 1), echoed(None, "AA==", 0)];
    let turn = echo::run(&args, polling(None), status(messages, true));
    assert_eq!(turn.lines, texts(&["00", "1 message(s) lost"]));
    let error = stop_error(turn);
    assert_eq!(error.as_deref(), Some("decode echoed payload from base64"));
    let turn = echo::run(&args, EchoState::StopSent { error }, EchoEvent::Other);
    assert_eq!(end_error(turn).as_deref(), Some("decode echoed payload from base64"));
}

#[test]
fn hexadecimal_has_two_digits_per_byte() {
    assert_eq!(hex_bytes(&[]), "");
    assert_eq!(hex_bytes(&[0x00, 0x0f, 0xa0, 0xff]), "000fa0ff");
    assert_eq!(raw_line(&Some(vec![1, 2])), Ok("0102".to_string()));
    assert_eq!(raw_line(&None), Err("decode echoed payload from base64".to_string()));
}

#[test]
fn decoded_messages_are_separated() {
    let args = echo_args(false, None);
    let turn = echo::begin(&args);
    assert!(matches!(turn.action, EchoAction::AskType));
    let turn = echo::run(&args, turn.state, EchoEvent::TypeReply(texts(&["a/msg/B"])));
    assert!(matches!(turn.action, EchoAction::SendStart));
    let turn = echo::run(&args, turn.state, EchoEvent::StartReply);
    assert!(matches!(turn.action, EchoAction::SpawnHelper));
    let turn = echo::run(&args, turn.state, EchoEvent::HelperReady);
    assert!(matches!(turn.action, EchoAction::Poll));
    let messages = vec![echoed(Some("c/msg/D"), "AA==", 3), echoed(None, "AQ==", 0)];
    let turn = echo::run(&args, turn.state, status(messages, true));
    assert_eq!(turn.lines, texts(&["3 message(s) lost"]));
    match turn.action {
        EchoAction::Decode { message_type, payload_base64 } => {
            assert_eq!((message_type.as_str(), payload_base64.as_str()), ("a/msg/B", "AA=="));
        }
        _ => panic!("nothing is decoded"),
    }
    let turn = echo::run(&args, turn.state, EchoEvent::Rendered("data: hi".to_string()));
    assert_eq!(turn.lines, texts(&["data: hi", "---"]));
    assert!(matches!(turn.action, EchoAction::Decode { .. }));
    let turn = echo::run(&args, turn.state, EchoEvent::Error("bad".to_string()));
    assert_eq!(stop_error(turn).as_deref(), Some("bad"));
}

#[test]
fn one_message_can_be_enough() {
    let mut args = echo_args(false, Some("a/msg/B"));
    args.once = true;
    args.csv = true;
    let messages = vec![echoed(None, "AA==", 0), echoed(None, "AQ==", 0)];
    let turn = echo::run(&args, polling(Some("a/msg/B")), status(messages.clone(), true));
    let turn = echo::run(&args, turn.state, EchoEvent::Rendered("1".to_string()));
    assert_eq!(turn.lines, texts(&["1"]));
    assert_eq!(stop_error(turn), None);
    args.raw = true;
    let turn = echo::run(&args, polling(None), status(messages, true));
    assert_eq!(turn.lines, texts(&["00"]));
    assert_eq!(stop_error(turn), None);
}

#[test]
fn echo_ends_with_the_right_error() {
    let args = echo_args(false, None);
    let end = |state, event| end_error(echo::run(&args, state, event));
    assert_eq!(
        end(EchoState::TypeAsked, EchoEvent::TypeReply(texts(&["a", "b"]))).as_deref(),
        Some("topic echo found multiple types for /chatter; pass [message_type] explicitly")
    );
    assert_eq!(
        end(EchoState::TypeAsked, EchoEvent::Other).as_deref(),
        Some("unexpected response for topic type request")
    );
    assert_eq!(
        end(EchoState::StartSent { message_type: None }, EchoEvent::StopReply).as_deref(),
        Some("unexpected response for topic echo start request")
    );
    assert_eq!(
        end(EchoState::HelperStarting { message_type: None }, EchoEvent::Other).as_deref(),
        Some("topic echo helper exited unexpectedly")
    );
    assert_eq!(
        end(EchoState::StopSent { error: None }, EchoEvent::StartReply).as_deref(),
        Some("unexpected response for topic echo stop request")
    );
    assert_eq!(end(EchoState::StopSent { error: None }, EchoEvent::StopReply), None);
    assert_eq!(
        end(EchoState::StopSent { error: None }, EchoEvent::Failed("gone".to_string())).as_deref(),
        Some("gone")
    );
    let stop = |event| stop_error(echo::run(&args, polling(None), event));
    assert_eq!(stop(EchoEvent::Interrupted), None);
    assert_eq!(
        stop(EchoEvent::Other).as_deref(),
        Some("unexpected response for topic echo status request")
    );
    assert_eq!(
        stop(status(vec![echoed(None, "AA==", 5)], true)).as_deref(),
        Some("topic echo could not determine the message type; pass [message_type] explicitly")
    );
}

fn delay_args(window: usize) -> TopicDelayCommand {
    TopicDelayCommand { topic_name: "/imu".to_string(), window }
}

fn delayed(ros_type: Option<&str>) -> TopicDelayMessage {
    TopicDelayMessage {
        ros_type: ros_type.map(str::to_string),
        payload_base64: "AA==".to_string(),
        received_at_nanos: 9,
    }
}

fn delay_status(messages: Vec<TopicDelayMessage>) -> DelayEvent {
    DelayEvent::StatusReply(TopicDelayStatusResponse { active: true, topic_name: None, messages })
}

#[test]
fn empty_window_is_refused() {
    match delay::begin(&delay_args(0)).state {
        DelayState::Finished { error } => {
            assert_eq!(error.as_deref(), Some("--window must be greater than 0"))
        }
        _ => panic!("the command goes on"),
    }
}

#[test]
fn delay_watches_message_by_message() {
    let args = delay_args(10);
    let turn = delay::begin(&args);
    assert!(matches!(turn.action, DelayAction::AskType));
    let turn = delay::run(&args, turn.state, DelayEvent::TypeReply(texts(&["a/msg/B"])));
    assert!(matches!(turn.action, DelayAction::SendStart));
    let turn = delay::run(&args, turn.state, DelayEvent::StartReply);
    assert!(matches!(turn.action, DelayAction::SpawnHelper));
    let turn = delay::run(&args, turn.state, DelayEvent::HelperReady);
    assert!(matches!(turn.action, DelayAction::Wait));
    let turn = delay::run(&args, turn.state, DelayEvent::Tick);
    assert!(matches!(turn.action, DelayAction::Poll));
    let turn = delay::run(&args, turn.state, delay_status(vec![delayed(Some("c")), delayed(None)]));
    match &turn.action {
        DelayAction::Extract { message_type, received_at_nanos, .. } => {
            assert_eq!((message_type.as_str(), *received_at_nanos), ("c", 9));
        }
        _ => panic!("no stamp is read"),
    }
    let turn = delay::run(&args, turn.state, DelayEvent::Extracted);
    assert!(!turn.print_stats);
    match &turn.action {
        DelayAction::Extract { message_type, .. } => assert_eq!(message_type, "a/msg/B"),
        _ => panic!("no stamp is read"),
    }
    let turn = delay::run(&args, turn.state, DelayEvent::Extracted);
    assert!(turn.print_stats);
    assert!(matches!(turn.action, DelayAction::Wait));
    let turn = delay::run(&args, turn.state, DelayEvent::Tick);
    let turn = delay::run(&args, turn.state, delay_status(vec![]));
    assert!(!turn.print_stats);
    let turn = delay::run(&args, turn.state, DelayEvent::Interrupted);
    assert!(matches!(turn.action, DelayAction::SendStop));
    let turn = delay::run(&args, turn.state, DelayEvent::StopReply);
    assert!(matches!(turn.state, DelayState::Finished { error: None }));
}

#[test]
fn delay_ends_with_the_right_error() {
    let args = delay_args(10);
    let error = |state, event| match delay::run(&args, state, event).state {
        DelayState::Finished { error } => error,
        DelayState::StopSent { error } => error,
        _ => panic!("the command goes on"),
    };
    let message_type = || "a/msg/B".to_string();
    assert_eq!(
        error(DelayState::TypeAsked, DelayEvent::TypeReply(vec![])).as_deref(),
        Some("topic delay could not determine the message type for /imu")
    );
    assert_eq!(
        error(DelayState::TypeAsked, DelayEvent::TypeReply(texts(&["a", "b"]))).as_deref(),
        Some(
            "topic delay found multiple types for /imu; pass a single message type is not \
             supported yet"
        )
    );
    assert_eq!(
        error(
            DelayState::StartSent { message_type: message_type() },
            DelayEvent::Error("busy".to_string())
        )
        .as_deref(),
        Some("busy")
    );
    assert_eq!(
        error(DelayState::Polling { message_type: message_type() }, DelayEvent::Other).as_deref(),
        Some("unexpected response for topic delay status request")
    );
    let extracting = || DelayState::Extracting {
        message_type: message_type(),
        rest: vec![delayed(None)],
        updated: true,
    };
    assert_eq!(
        error(extracting(), DelayEvent::Other).as_deref(),
        Some("topic delay helper exited unexpectedly")
    );
    let turn = delay::run(&args, extracting(), DelayEvent::MissingHeader);
    assert_eq!(turn.line.as_deref(), Some("msg does not have header"));
    assert!(!turn.print_stats);
    assert!(matches!(turn.state, DelayState::StopSent { error: None }));
    assert_eq!(
        error(
            DelayState::StopSent { error: Some("first".to_string()) },
            DelayEvent::Error("second".to_string())
        )
        .as_deref(),
        Some("first")
    );
}

#[test]
fn delay_window_keeps_the_newest() {
    let mut window = DelayWindow::new(3);
    for value in [0.5, 1.5, 2.5, 3.5, 4.5] {
        window.push(value);
    }
    let values: Vec<f64> = window.values().iter().copied().collect();
    assert_eq!(values, vec![2.5, 3.5, 4.5]);
    let mut none = DelayWindow::new(0);
    none.push(1);
    assert!(none.values().is_empty());
}
