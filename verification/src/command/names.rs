//! Names and types of topics, services and actions, as ROS users know them.

use crate::common::TopicGid;
use crate::discovery::tables::{DurabilityQos, DurationValue, LivelinessQos, ReliabilityQos};
use crate::text::{
    after_prefix, append_hex_byte, before_suffix, contains_text, decimal, decimal_digits,
    decimal_digits_text, decimal_text, ends_with, has_prefix, has_suffix, has_text, hex_byte,
    join2, join3, joined, split_once, split_parts, starts_with, strip_prefix, strip_suffix,
    text_opt,
};
use vstd::prelude::*;
use vstd::string::*;

verus! {

/// The ROS name of a DDS topic: the prefixes of topics, requests and replies give way
/// to a slash. Other names must start with one.
pub open spec fn ros_topic_name(topic_name: Seq<char>) -> Option<Seq<char>> {
    match after_prefix(topic_name, "rt/"@) {
        Some(rest) => Some("/"@ + rest),
        None => match after_prefix(topic_name, "rq/"@) {
            Some(rest) => Some("/"@ + rest),
            None => match after_prefix(topic_name, "rr/"@) {
                Some(rest) => Some("/"@ + rest),
                None => if starts_with(topic_name, "/"@) {
                    Some(topic_name)
                } else {
                    None
                },
            },
        },
    }
}

/// Gives a DDS topic its ROS name.
pub fn normalize_topic_name(topic_name: &str) -> (r: Option<String>)
    ensures
        text_opt(r) == ros_topic_name(topic_name@),
{
    match strip_prefix(topic_name, "rt/") {
        Some(rest) => return Some(join2("/", rest)),
        None => {},
    }
    match strip_prefix(topic_name, "rq/") {
        Some(rest) => return Some(join2("/", rest)),
        None => {},
    }
    match strip_prefix(topic_name, "rr/") {
        Some(rest) => return Some(join2("/", rest)),
        None => {},
    }
    if has_prefix(topic_name, "/") {
        return Some(topic_name.to_owned());
    }
    None
}

/// The package, the kind and the name in a DDS type name such as
/// `std_msgs::msg::dds_::String_`.
pub open spec fn dds_type_parts(ros_type: Seq<char>) -> Option<
    (Seq<char>, Seq<char>, Seq<char>),
> {
    match split_parts(ros_type, "::"@) {
        None => None,
        Some((package, remainder)) => {
            let (kind, rest) = match after_prefix(remainder, "msg::dds_::"@) {
                Some(rest) => ("msg"@, Some(rest)),
                None => match after_prefix(remainder, "srv::dds_::"@) {
                    Some(rest) => ("srv"@, Some(rest)),
                    None => match after_prefix(remainder, "action::dds_::"@) {
                        Some(rest) => ("action"@, Some(rest)),
                        None => ("action"@, None),
                    },
                },
            };
            match rest {
                None => None,
                Some(rest) => Some(
                    (
                        package,
                        kind,
                        match before_suffix(rest, "_"@) {
                            Some(name) => name,
                            None => rest,
                        },
                    ),
                ),
            }
        },
    }
}

/// Takes a DDS type name apart into its package, its kind and its name.
pub fn parse_dds_type_name<'a>(ros_type: &'a str) -> (r: Option<(&'a str, &'static str, &'a str)>)
    ensures
        match (r, dds_type_parts(ros_type@)) {
            (Some((package, kind, name)), Some(parts)) => package@ == parts.0 && kind@ == parts.1
                && name@ == parts.2,
            (None, None) => true,
            _ => false,
        },
{
    let (package, remainder) = match split_once(ros_type, "::") {
        None => return None,
        Some(parts) => parts,
    };
    let (kind, rest) = match strip_prefix(remainder, "msg::dds_::") {
        Some(rest) => ("msg", rest),
        None => match strip_prefix(remainder, "srv::dds_::") {
            Some(rest) => ("srv", rest),
            None => match strip_prefix(remainder, "action::dds_::") {
                Some(rest) => ("action", rest),
                None => return None,
            },
        },
    };
    let name = match strip_suffix(rest, "_") {
        Some(name) => name,
        None => rest,
    };
    Some((package, kind, name))
}

/// Three parts of a name with slashes between them.
pub open spec fn slashed(a: Seq<char>, b: Seq<char>, c: Seq<char>) -> Seq<char> {
    a + "/"@ + b + "/"@ + c
}

/// Joins three parts of a name with slashes.
pub fn slashed_text(a: &str, b: &str, c: &str) -> (r: String)
    ensures
        r@ == slashed(a@, b@, c@),
{
    let mut r = join3(a, "/", b);
    r.append("/");
    r.append(c);
    r
}

/// The ROS name of a DDS type. Names that are no DDS type names stay as they are.
pub open spec fn ros_type_name(ros_type: Seq<char>) -> Seq<char> {
    if contains_text(ros_type, "/"@) {
        ros_type
    } else {
        match dds_type_parts(ros_type) {
            Some((package, kind, name)) => slashed(package, kind, name),
            None => ros_type,
        }
    }
}

/// Gives a DDS type its ROS name.
pub fn normalize_type_name(ros_type: &str) -> (r: String)
    ensures
        r@ == ros_type_name(ros_type@),
{
    if has_text(ros_type, "/") {
        return ros_type.to_owned();
    }
    match parse_dds_type_name(ros_type) {
        Some((package, kind, name)) => slashed_text(package, kind, name),
        None => ros_type.to_owned(),
    }
}

/// The full name of a node.
pub open spec fn node_path(namespace: Seq<char>, name: Seq<char>) -> Seq<char> {
    if namespace == "/"@ {
        "/"@ + name
    } else {
        namespace + "/"@ + name
    }
}

/// Gives a node its full name.
pub fn full_node_name(namespace: &str, name: &str) -> (r: String)
    ensures
        r@ == node_path(namespace@, name@),
{
    if crate::text::same_text(namespace, "/") {
        join2("/", name)
    } else {
        join3(namespace, "/", name)
    }
}

// Services and actions.

/// The side of a service that an endpoint is on.
#[derive(Clone, Copy, Debug, Eq, PartialEq)]
pub enum ServiceRole {
    Server,
    Client,
}

/// The side of an action that an endpoint is on.
#[derive(Clone, Copy, Debug, Eq, PartialEq)]
pub enum ActionRole {
    Server,
    Client,
}

/// The name of the service that a topic carries requests or replies of.
pub open spec fn service_name(topic_name: Seq<char>, is_request: bool) -> Seq<char> {
    if is_request {
        match before_suffix(topic_name, "Request"@) {
            Some(name) => name,
            None => topic_name,
        }
    } else {
        match before_suffix(topic_name, "Reply"@) {
            Some(name) => name,
            None => match before_suffix(topic_name, "Response"@) {
                Some(name) => name,
                None => topic_name,
            },
        }
    }
}

/// Gives the name of the service that a topic carries requests or replies of.
pub fn normalize_service_name(topic_name: &str, is_request: bool) -> (r: String)
    ensures
        r@ == service_name(topic_name@, is_request),
{
    if is_request {
        match strip_suffix(topic_name, "Request") {
            Some(name) => return name.to_owned(),
            None => {},
        }
    } else {
        match strip_suffix(topic_name, "Reply") {
            Some(name) => return name.to_owned(),
            None => {},
        }
        match strip_suffix(topic_name, "Response") {
            Some(name) => return name.to_owned(),
            None => {},
        }
    }
    topic_name.to_owned()
}

/// The service that a topic belongs to: its name, its type and the side that the
/// endpoint is on. Servers read requests and write replies.
pub open spec fn service_endpoint(
    topic_name: Seq<char>,
    ros_type: Seq<char>,
    is_reader: bool,
) -> Option<(Seq<char>, Seq<char>, ServiceRole)> {
    let (service_type, is_request) = match before_suffix(ros_type, "_Request"@) {
        Some(rest) => (Some(rest), true),
        None => (before_suffix(ros_type, "_Response"@), false),
    };
    match service_type {
        None => None,
        Some(service_type) => if contains_text(service_type, "/srv/"@) {
            Some(
                (
                    service_name(topic_name, is_request),
                    service_type,
                    if is_reader == is_request {
                        ServiceRole::Server
                    } else {
                        ServiceRole::Client
                    },
                ),
            )
        } else {
            None
        },
    }
}

/// Tells whether a topic belongs to a service, and to which side.
pub fn classify_service_endpoint(topic_name: &str, ros_type: &str, is_reader: bool) -> (r: Option<
    (String, String, ServiceRole),
>)
    ensures
        match (r, service_endpoint(topic_name@, ros_type@, is_reader)) {
            (Some((name, ros_type, role)), Some(want)) => name@ == want.0 && ros_type@ == want.1
                && role == want.2,
            (None, None) => true,
            _ => false,
        },
{
    let (service_type, is_request) = match strip_suffix(ros_type, "_Request") {
        Some(rest) => (rest, true),
        None => match strip_suffix(ros_type, "_Response") {
            Some(rest) => (rest, false),
            None => return None,
        },
    };
    if !has_text(service_type, "/srv/") {
        return None;
    }
    let service_name = normalize_service_name(topic_name, is_request);
    let role = if is_reader == is_request { ServiceRole::Server } else { ServiceRole::Client };
    Some((service_name, service_type.to_owned(), role))
}

/// A topic name without the ending that marks requests and replies.
pub open spec fn without_call_suffix(topic_name: Seq<char>) -> Seq<char> {
    match before_suffix(topic_name, "Request"@) {
        Some(rest) => rest,
        None => match before_suffix(topic_name, "Reply"@) {
            Some(rest) => rest,
            None => match before_suffix(topic_name, "Response"@) {
                Some(rest) => rest,
                None => topic_name,
            },
        },
    }
}

/// Takes the ending that marks requests and replies off a topic name.
fn strip_call_suffix(topic_name: &str) -> (r: &str)
    ensures
        r@ == without_call_suffix(topic_name@),
{
    match strip_suffix(topic_name, "Request") {
        Some(rest) => return rest,
        None => {},
    }
    match strip_suffix(topic_name, "Reply") {
        Some(rest) => return rest,
        None => {},
    }
    match strip_suffix(topic_name, "Response") {
        Some(rest) => return rest,
        None => {},
    }
    topic_name
}

/// What is left of a text when the first of the given endings that it has is taken off.
pub open spec fn before_first_suffix(text: Seq<char>, suffixes: Seq<Seq<char>>) -> Option<Seq<char>>
    decreases suffixes.len(),
{
    if suffixes.len() == 0 {
        None
    } else {
        match before_suffix(text, suffixes[0]) {
            Some(rest) => Some(rest),
            None => before_first_suffix(text, suffixes.skip(1)),
        }
    }
}

/// The endings of the topics that make up an action.
pub open spec fn action_topic_suffixes() -> Seq<Seq<char>> {
    seq![
        "/_action/send_goal"@,
        "/_action/get_result"@,
        "/_action/cancel_goal"@,
        "/_action/feedback"@,
        "/_action/status"@,
    ]
}

/// The endings of the types that an action is made of.
pub open spec fn action_type_suffixes() -> Seq<Seq<char>> {
    seq![
        "_SendGoal_Request"@,
        "_SendGoal_Response"@,
        "_GetResult_Request"@,
        "_GetResult_Response"@,
        "_FeedbackMessage"@,
        "_Goal"@,
        "_Result"@,
        "_Feedback"@,
    ]
}

/// The views of borrowed texts.
pub open spec fn str_views(list: Seq<&str>) -> Seq<Seq<char>> {
    list.map_values(|text: &str| text@)
}

/// Takes the first of the given endings that it has off a text.
fn strip_first_suffix<'a>(text: &'a str, suffixes: &[&str]) -> (r: Option<&'a str>)
    ensures
        crate::text::str_opt(r) == before_first_suffix(text@, str_views(suffixes@)),
{
    let ghost views = str_views(suffixes@);
    let mut i: usize = 0;
    assert(views.skip(0) =~= views);
    while i < suffixes.len()
        invariant
            views == str_views(suffixes@),
            i <= suffixes@.len(),
            before_first_suffix(text@, views) == before_first_suffix(text@, views.skip(i as int)),
        decreases suffixes@.len() - i,
    {
        assert(views.skip(i as int).skip(1) =~= views.skip(i + 1));
        assert(views.skip(i as int)[0] == suffixes@[i as int]@);
        match strip_suffix(text, suffixes[i]) {
            Some(rest) => return Some(rest),
            None => {},
        }
        i += 1;
    }
    None
}

/// The name of the action that a topic belongs to.
pub open spec fn action_name(topic_name: Seq<char>) -> Option<Seq<char>> {
    before_first_suffix(without_call_suffix(topic_name), action_topic_suffixes())
}

/// Gives the name of the action that a topic belongs to.
pub fn normalize_action_name(topic_name: &str) -> (r: Option<String>)
    ensures
        text_opt(r) == action_name(topic_name@),
{
    let suffixes: [&str; 5] = [
        "/_action/send_goal",
        "/_action/get_result",
        "/_action/cancel_goal",
        "/_action/feedback",
        "/_action/status",
    ];
    assert(str_views(suffixes@) =~= action_topic_suffixes());
    match strip_first_suffix(strip_call_suffix(topic_name), &suffixes) {
        Some(name) => Some(name.to_owned()),
        None => None,
    }
}

/// The type of the action that a type is part of.
pub open spec fn action_type(ros_type: Seq<char>) -> Option<Seq<char>> {
    if !contains_text(ros_type, "/action/"@) || ends_with(
        ros_type,
        "/action/GoalStatusArray"@,
    ) {
        None
    } else {
        match before_first_suffix(ros_type, action_type_suffixes()) {
            Some(rest) => Some(rest),
            None => Some(ros_type),
        }
    }
}

/// Gives the type of the action that a type is part of.
pub fn normalize_action_type(ros_type: &str) -> (r: Option<String>)
    ensures
        text_opt(r) == action_type(ros_type@),
{
    if !has_text(ros_type, "/action/") || has_suffix(ros_type, "/action/GoalStatusArray") {
        return None;
    }
    let suffixes: [&str; 8] = [
        "_SendGoal_Request",
        "_SendGoal_Response",
        "_GetResult_Request",
        "_GetResult_Response",
        "_FeedbackMessage",
        "_Goal",
        "_Result",
        "_Feedback",
    ];
    assert(str_views(suffixes@) =~= action_type_suffixes());
    match strip_first_suffix(ros_type, &suffixes) {
        Some(rest) => Some(rest.to_owned()),
        None => Some(ros_type.to_owned()),
    }
}

/// The action that a topic belongs to: its name, its type and the side that the
/// endpoint is on. Servers write feedback and status, read requests and write replies.
pub open spec fn action_endpoint(
    topic_name: Seq<char>,
    ros_type: Seq<char>,
    is_reader: bool,
) -> Option<(Seq<char>, Option<Seq<char>>, ActionRole)> {
    match action_name(topic_name) {
        None => None,
        Some(name) => {
            let stripped = without_call_suffix(topic_name);
            let is_stream = ends_with(stripped, "/_action/feedback"@) || ends_with(
                stripped,
                "/_action/status"@,
            );
            let is_request = ends_with(topic_name, "Request"@) || ends_with(
                ros_type,
                "_Request"@,
            );
            let is_server = if is_stream {
                !is_reader
            } else {
                is_reader == is_request
            };
            Some(
                (
                    name,
                    action_type(ros_type),
                    if is_server {
                        ActionRole::Server
                    } else {
                        ActionRole::Client
                    },
                ),
            )
        },
    }
}

/// Tells whether a topic belongs to an action, and to which side.
pub fn classify_action_endpoint(topic_name: &str, ros_type: &str, is_reader: bool) -> (r: Option<
    (String, Option<String>, ActionRole),
>)
    ensures
        match (r, action_endpoint(topic_name@, ros_type@, is_reader)) {
            (Some((name, ros_type, role)), Some(want)) => name@ == want.0 && text_opt(ros_type)
                == want.1 && role == want.2,
            (None, None) => true,
            _ => false,
        },
{
    let stripped = strip_call_suffix(topic_name);
    let name = match normalize_action_name(topic_name) {
        None => return None,
        Some(name) => name,
    };
    let action_type = normalize_action_type(ros_type);
    let is_server = if has_suffix(stripped, "/_action/feedback") || has_suffix(
        stripped,
        "/_action/status",
    ) {
        !is_reader
    } else {
        is_reader == (has_suffix(topic_name, "Request") || has_suffix(ros_type, "_Request"))
    };
    let role = if is_server { ActionRole::Server } else { ActionRole::Client };
    Some((name, action_type, role))
}

// Identifiers and QoS.

/// An identifier in hexadecimal: its sixteen bytes and eight zeros, with dots between.
pub open spec fn gid_text(gid: TopicGid) -> Seq<char> {
    joined(gid_digits(gid), "."@)
}

/// The bytes of an identifier, filled up to twenty-four, in hexadecimal.
pub open spec fn gid_digits(gid: TopicGid) -> Seq<Seq<char>> {
    Seq::new(
        24,
        |i: int|
            hex_byte(
                if i < 16 {
                    gid.bytes[i]
                } else {
                    0
                },
            ),
    )
}

/// Writes an identifier in hexadecimal.
pub fn format_gid(gid: &TopicGid) -> (r: String)
    ensures
        r@ == gid_text(*gid),
{
    let ghost digits = gid_digits(*gid);
    let mut r = String::new();
    let mut i: usize = 0;
    assert(r@ =~= joined(digits.take(0), "."@));
    while i < 24
        invariant
            i <= 24,
            digits == gid_digits(*gid),
            r@ == joined(digits.take(i as int), "."@),
        decreases 24 - i,
    {
        let ghost before = digits.take(i as int);
        let ghost after = digits.take(i + 1);
        assert(after.drop_last() =~= before);
        if i > 0 {
            r.append(".");
        }
        append_hex_byte(&mut r, if i < 16 { gid.bytes[i] } else { 0 });
        assert(after.last() == digits[i as int]);
        assert(r@ =~= joined(after, "."@));
        i += 1;
    }
    assert(digits.take(24) =~= digits);
    r
}

/// What is shown for a kind that has no name.
pub open spec fn unknown_kind_text(kind: u32) -> Seq<char> {
    "UNKNOWN ("@ + decimal(kind as nat) + ")"@
}

fn unknown_kind(kind: u32) -> (r: String)
    ensures
        r@ == unknown_kind_text(kind),
{
    let number = decimal_text(kind as u64);
    join3("UNKNOWN (", number.as_str(), ")")
}

/// The name of a reliability.
pub open spec fn reliability_text(qos: ReliabilityQos) -> Seq<char> {
    match qos.kind {
        1 => "BEST_EFFORT"@,
        2 => "RELIABLE"@,
        _ => unknown_kind_text(qos.kind),
    }
}

/// Names a reliability.
pub fn format_reliability(qos: ReliabilityQos) -> (r: String)
    ensures
        r@ == reliability_text(qos),
{
    match qos.kind {
        1 => "BEST_EFFORT".to_owned(),
        2 => "RELIABLE".to_owned(),
        _ => unknown_kind(qos.kind),
    }
}

/// The name of a durability.
pub open spec fn durability_text(qos: DurabilityQos) -> Seq<char> {
    match qos.kind {
        0 => "VOLATILE"@,
        1 => "TRANSIENT_LOCAL"@,
        2 => "TRANSIENT"@,
        3 => "PERSISTENT"@,
        _ => unknown_kind_text(qos.kind),
    }
}

/// Names a durability.
pub fn format_durability(qos: DurabilityQos) -> (r: String)
    ensures
        r@ == durability_text(qos),
{
    match qos.kind {
        0 => "VOLATILE".to_owned(),
        1 => "TRANSIENT_LOCAL".to_owned(),
        2 => "TRANSIENT".to_owned(),
        3 => "PERSISTENT".to_owned(),
        _ => unknown_kind(qos.kind),
    }
}

/// The name of a liveliness.
pub open spec fn liveliness_text(qos: LivelinessQos) -> Seq<char> {
    match qos.kind {
        0 => "AUTOMATIC"@,
        1 => "MANUAL_BY_PARTICIPANT"@,
        2 => "MANUAL_BY_TOPIC"@,
        _ => unknown_kind_text(qos.kind),
    }
}

/// Names a liveliness.
pub fn format_liveliness(qos: LivelinessQos) -> (r: String)
    ensures
        r@ == liveliness_text(qos),
{
    match qos.kind {
        0 => "AUTOMATIC".to_owned(),
        1 => "MANUAL_BY_PARTICIPANT".to_owned(),
        2 => "MANUAL_BY_TOPIC".to_owned(),
        _ => unknown_kind(qos.kind),
    }
}

/// A number with at least nine digits.
pub open spec fn nine_digits(value: u32) -> Seq<char> {
    if value < 1_000_000_000 {
        decimal_digits(value as nat, 9)
    } else {
        decimal(value as nat)
    }
}

/// A span of time. What is negative, or the greatest span that there is, never ends.
pub open spec fn duration_text(value: DurationValue) -> Seq<char> {
    if value.seconds < 0 || (value.seconds == i32::MAX && value.fraction == u32::MAX) {
        "Infinite"@
    } else if value.fraction == 0 {
        decimal(value.seconds as nat) + "s"@
    } else {
        decimal(value.seconds as nat) + "."@ + nine_digits(value.fraction) + "s"@
    }
}

/// Writes a span of time.
pub fn format_duration(value: DurationValue) -> (r: String)
    ensures
        r@ == duration_text(value),
{
    if value.seconds < 0 || (value.seconds == i32::MAX && value.fraction == u32::MAX) {
        "Infinite".to_owned()
    } else if value.fraction == 0 {
        join2(decimal_text(value.seconds as u64).as_str(), "s")
    } else {
        let fraction = if value.fraction < 1_000_000_000 {
            decimal_digits_text(value.fraction as u64, 9)
        } else {
            decimal_text(value.fraction as u64)
        };
        let mut r = join3(decimal_text(value.seconds as u64).as_str(), ".", fraction.as_str());
        r.append("s");
        r
    }
}

// Internal topics.

/// The name tells that a topic is internal: it is about transforms, parameters or logs,
/// or hidden.
pub open spec fn internal_name(name: Seq<char>) -> bool {
    starts_with(name, "/tf"@) || contains_text(name, "/parameter_events"@) || contains_text(
        name,
        "/rosout"@,
    ) || contains_text(name, "/_"@)
}

/// Whether the name of a topic tells that it is internal.
pub fn is_internal_name(name: &str) -> (r: bool)
    ensures
        r == internal_name(name@),
{
    has_prefix(name, "/tf") || has_text(name, "/parameter_events") || has_text(name, "/rosout")
        || has_text(name, "/_")
}

} // verus!
