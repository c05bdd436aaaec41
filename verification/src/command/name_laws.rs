//! What names and roles promise as a whole.

use crate::command::names::{
    action_endpoint, action_topic_suffixes, action_type, action_type_suffixes, before_first_suffix,
    dds_type_parts, durability_text, gid_digits, gid_text, internal_name, liveliness_text,
    node_path, reliability_text, ros_topic_name, ros_type_name, service_endpoint, slashed,
    unknown_kind_text, without_call_suffix, ActionRole, ServiceRole,
};
use crate::common::TopicGid;
use crate::discovery::tables::{DurabilityQos, LivelinessQos, ReliabilityQos};
use crate::text::{
    after_prefix, before_suffix, contains_text, decimal, ends_with, hex_byte, occurs_at,
    split_parts, starts_with,
};
use crate::text_laws::{
    law_decimal_reads_back, law_hexadecimal_tells_bytes_apart, law_joined_texts_stand_in_order,
    law_part_stands_in_text, law_prefix_taken_off, law_suffix_taken_off,
    law_text_split_at_separator,
};
use vstd::prelude::*;
use vstd::string::*;

verus! {

/// Every ROS topic name starts with a slash.
pub proof fn law_ros_topic_names_absolute(topic_name: Seq<char>)
    ensures
        ros_topic_name(topic_name) matches Some(name) ==> starts_with(name, "/"@),
{
    reveal_strlit("/");
    match ros_topic_name(topic_name) {
        Some(name) => {
            assert(name.len() >= 1 && name[0] == '/') by {
                if name == topic_name && starts_with(topic_name, "/"@) {
                    assert(topic_name.subrange(0, 1)[0] == topic_name[0]);
                }
            }
            assert(name.subrange(0, 1) =~= "/"@);
        },
        None => {},
    }
}

/// A name that is a ROS topic name already stays as it is.
pub proof fn law_ros_topic_name_settles(topic_name: Seq<char>)
    ensures
        ros_topic_name(topic_name) matches Some(name) ==> ros_topic_name(name) == Some(name),
{
    law_ros_topic_names_absolute(topic_name);
    reveal_strlit("/");
    reveal_strlit("rt/");
    reveal_strlit("rq/");
    reveal_strlit("rr/");
    match ros_topic_name(topic_name) {
        Some(name) => {
            assert(name.subrange(0, 1)[0] == name[0]);
            if name.len() >= 3 {
                assert(name.subrange(0, 3)[0] == name[0]);
            }
        },
        None => {},
    }
}

/// A name that is a ROS type name already stays as it is.
pub proof fn law_ros_type_name_settles(ros_type: Seq<char>)
    ensures
        ros_type_name(ros_type_name(ros_type)) == ros_type_name(ros_type),
{
    let name = ros_type_name(ros_type);
    if name != ros_type {
        let (package, kind, rest) = crate::command::names::dds_type_parts(ros_type)->0;
        assert(name == slashed(package, kind, rest));
        let at = package.len() as int;
        assert(name.subrange(at, at + "/"@.len()) =~= "/"@);
        assert(occurs_at(name, "/"@, at));
        assert(contains_text(name, "/"@));
    }
}

/// The two ends of one topic of a service see the same service from opposite sides.
pub proof fn law_service_sides_opposite(topic_name: Seq<char>, ros_type: Seq<char>)
    ensures
        match (
            service_endpoint(topic_name, ros_type, true),
            service_endpoint(topic_name, ros_type, false),
        ) {
            (Some(reader), Some(writer)) => reader.0 == writer.0 && reader.1 == writer.1
                && reader.2 != writer.2,
            (None, None) => true,
            _ => false,
        },
{
}

/// The two ends of one topic of an action see the same action from opposite sides.
pub proof fn law_action_sides_opposite(topic_name: Seq<char>, ros_type: Seq<char>)
    ensures
        match (
            action_endpoint(topic_name, ros_type, true),
            action_endpoint(topic_name, ros_type, false),
        ) {
            (Some(reader), Some(writer)) => reader.0 == writer.0 && reader.1 == writer.1
                && reader.2 != writer.2,
            (None, None) => true,
            _ => false,
        },
{
}

// Names as they are written on the wire.

/// Texts that begin differently do not begin with one another.
proof fn lemma_other_beginning(prefix: Seq<char>, rest: Seq<char>, other: Seq<char>, k: int)
    requires
        0 <= k < prefix.len(),
        k < other.len(),
        prefix[k] != other[k],
    ensures
        !starts_with(prefix + rest, other),
        after_prefix(prefix + rest, other) is None,
{
    if starts_with(prefix + rest, other) {
        assert((prefix + rest).subrange(0, other.len() as int)[k] == prefix[k]);
    }
}

/// Texts that end differently do not end with one another.
proof fn lemma_other_ending(rest: Seq<char>, suffix: Seq<char>, other: Seq<char>, k: int)
    requires
        0 <= k < suffix.len(),
        k < other.len(),
        suffix[suffix.len() - 1 - k] != other[other.len() - 1 - k],
    ensures
        !ends_with(rest + suffix, other),
        before_suffix(rest + suffix, other) is None,
{
    let text = rest + suffix;
    if ends_with(text, other) {
        let at = text.len() - other.len();
        assert(text.subrange(at, at + other.len())[other.len() - 1 - k] == text[text.len() - 1
            - k]);
    }
}

/// The topic of a ROS name carries it behind `rt/`, and its requests and replies behind `rq/`
/// and `rr/`. What begins otherwise, and not with a slash, is no ROS topic.
pub proof fn law_topic_name_reads_back(name: Seq<char>, topic: Seq<char>)
    ensures
        ros_topic_name("rt/"@ + name) == Some("/"@ + name),
        ros_topic_name("rq/"@ + name) == Some("/"@ + name),
        ros_topic_name("rr/"@ + name) == Some("/"@ + name),
        ros_topic_name("/"@ + name) == Some("/"@ + name),
        ros_topic_name(topic) is Some <==> starts_with(topic, "rt/"@) || starts_with(topic, "rq/"@)
            || starts_with(topic, "rr/"@) || starts_with(topic, "/"@),
{
    reveal_strlit("/");
    reveal_strlit("rt/");
    reveal_strlit("rq/");
    reveal_strlit("rr/");
    law_prefix_taken_off("rt/"@ + name, "rt/"@, name);
    law_prefix_taken_off("rq/"@ + name, "rq/"@, name);
    law_prefix_taken_off("rr/"@ + name, "rr/"@, name);
    law_prefix_taken_off("/"@ + name, "/"@, name);
    lemma_other_beginning("rq/"@, name, "rt/"@, 1);
    lemma_other_beginning("rr/"@, name, "rt/"@, 1);
    lemma_other_beginning("rr/"@, name, "rq/"@, 1);
    lemma_other_beginning("/"@, name, "rt/"@, 0);
    lemma_other_beginning("/"@, name, "rq/"@, 0);
    lemma_other_beginning("/"@, name, "rr/"@, 0);
}

/// A text without a character has no part with it.
proof fn lemma_no_part(text: Seq<char>, part: Seq<char>, c: char)
    requires
        part.contains(c),
        !text.contains(c),
    ensures
        !contains_text(text, part),
{
    if contains_text(text, part) {
        let at = choose|at: int| occurs_at(text, part, at);
        let i = choose|i: int| 0 <= i < part.len() && part[i] == c;
        assert(text.subrange(at, at + part.len())[i] == text[at + i]);
    }
}

/// The type of a package is written with colons on the wire, and has slashes as a ROS name.
/// A name with slashes stays as it is.
pub proof fn law_type_name_reads_back(
    package: Seq<char>,
    kind: Seq<char>,
    name: Seq<char>,
    ros_name: Seq<char>,
)
    requires
        kind == "msg"@ || kind == "srv"@ || kind == "action"@,
        !package.contains(':'),
        !package.contains('/'),
        !name.contains('/'),
        ros_name.contains('/'),
    ensures
        ros_type_name(package + "::"@ + (kind + "::dds_::"@ + (name + "_"@))) == package + "/"@
            + kind + "/"@ + name,
        ros_type_name(ros_name) == ros_name,
{
    reveal_strlit("/");
    reveal_strlit("::");
    reveal_strlit("::dds_::");
    reveal_strlit("msg");
    reveal_strlit("srv");
    reveal_strlit("action");
    reveal_strlit("_");
    reveal_strlit("msg::dds_::");
    reveal_strlit("srv::dds_::");
    reveal_strlit("action::dds_::");
    let slash = choose|i: int| 0 <= i < ros_name.len() && ros_name[i] == '/';
    assert(ros_name.subrange(slash, slash + 1) =~= "/"@);
    assert(occurs_at(ros_name, "/"@, slash));
    let tail = name + "_"@;
    let remainder = kind + "::dds_::"@ + tail;
    let dds = package + "::"@ + remainder;
    assert(!dds.contains('/')) by {
        if dds.contains('/') {
            let i = choose|i: int| 0 <= i < dds.len() && dds[i] == '/';
            if i < package.len() {
                assert(package[i] == '/');
            } else if i >= package.len() + 2 + kind.len() + 8 && i < package.len() + 2 + kind.len()
                + 8 + name.len() {
                assert(name[i - package.len() - 2 - kind.len() - 8] == '/');
            }
        }
    }
    assert("/"@.contains('/')) by {
        assert("/"@[0] == '/');
    }
    lemma_no_part(dds, "/"@, '/');
    // The first colons are those behind the package.
    law_part_stands_in_text(package, "::"@, remainder, dds);
    law_text_split_at_separator(dds, "::"@);
    assert(occurs_at(dds, "::"@, package.len() as int)) by {
        assert(dds.subrange(package.len() as int, package.len() as int + 2) =~= "::"@);
    }
    let (left, right) = split_parts(dds, "::"@)->0;
    assert(left.len() == package.len()) by {
        if left.len() < package.len() {
            assert(dds[left.len() as int] == (left + "::"@ + right)[left.len() as int]);
            assert(package[left.len() as int] == ':');
        }
    }
    assert(left =~= package) by {
        assert forall|i: int| 0 <= i < left.len() implies left[i] == package[i] by {
            assert((left + "::"@ + right)[i] == dds[i]);
        }
    }
    assert(right =~= remainder) by {
        assert forall|i: int| 0 <= i < right.len() implies right[i] == remainder[i] by {
            assert((left + "::"@ + right)[left.len() + 2 + i] == dds[package.len() + 2 + i]);
        }
    }
    // What follows is the kind.
    let mark = kind + "::dds_::"@;
    assert(remainder =~= mark + tail);
    law_prefix_taken_off(remainder, mark, tail);
    if kind == "msg"@ {
        assert(mark =~= "msg::dds_::"@);
    } else if kind == "srv"@ {
        assert(mark =~= "srv::dds_::"@);
        lemma_other_beginning(mark, tail, "msg::dds_::"@, 0);
    } else {
        assert(mark =~= "action::dds_::"@);
        lemma_other_beginning(mark, tail, "msg::dds_::"@, 0);
        lemma_other_beginning(mark, tail, "srv::dds_::"@, 0);
    }
    law_suffix_taken_off(tail, "_"@, name);
    assert(dds_type_parts(dds) == Some((package, kind, name)));
}

/// A service is known by the topics of its requests and replies. Its server reads requests
/// and writes replies, and its client the other way round.
pub proof fn law_service_reads_back(name: Seq<char>, ros_type: Seq<char>, is_reader: bool)
    requires
        contains_text(ros_type, "/srv/"@),
    ensures
        service_endpoint(name + "Request"@, ros_type + "_Request"@, is_reader) == Some(
            (
                name,
                ros_type,
                if is_reader {
                    ServiceRole::Server
                } else {
                    ServiceRole::Client
                },
            ),
        ),
        service_endpoint(name + "Reply"@, ros_type + "_Response"@, is_reader) == Some(
            (
                name,
                ros_type,
                if is_reader {
                    ServiceRole::Client
                } else {
                    ServiceRole::Server
                },
            ),
        ),
        service_endpoint(name + "Response"@, ros_type + "_Response"@, is_reader) == Some(
            (
                name,
                ros_type,
                if is_reader {
                    ServiceRole::Client
                } else {
                    ServiceRole::Server
                },
            ),
        ),
{
    reveal_strlit("Request");
    reveal_strlit("Reply");
    reveal_strlit("Response");
    reveal_strlit("_Request");
    reveal_strlit("_Response");
    law_suffix_taken_off(ros_type + "_Request"@, "_Request"@, ros_type);
    law_suffix_taken_off(ros_type + "_Response"@, "_Response"@, ros_type);
    lemma_other_ending(ros_type, "_Response"@, "_Request"@, 0);
    law_suffix_taken_off(name + "Request"@, "Request"@, name);
    law_suffix_taken_off(name + "Reply"@, "Reply"@, name);
    law_suffix_taken_off(name + "Response"@, "Response"@, name);
    lemma_other_ending(name, "Response"@, "Reply"@, 0);
}

/// Only the requests and responses of service types make a service.
pub proof fn law_other_types_are_no_services(
    topic_name: Seq<char>,
    ros_type: Seq<char>,
    is_reader: bool,
)
    ensures
        service_endpoint(topic_name, ros_type, is_reader) matches Some((_, service_type, _)) ==> (
        ros_type == service_type + "_Request"@ || ros_type == service_type + "_Response"@)
            && contains_text(service_type, "/srv/"@),
        !ends_with(ros_type, "_Request"@) && !ends_with(ros_type, "_Response"@)
            ==> service_endpoint(topic_name, ros_type, is_reader) is None,
{
    match service_endpoint(topic_name, ros_type, is_reader) {
        Some((_, service_type, _)) => {
            law_suffix_taken_off(ros_type, "_Request"@, service_type);
            law_suffix_taken_off(ros_type, "_Response"@, service_type);
        },
        None => {},
    }
}

// Actions.

/// A topic name that ends like none of the calls has no such ending to take off.
proof fn lemma_call_suffix(rest: Seq<char>)
    ensures
        without_call_suffix(rest + "Request"@) == rest,
        without_call_suffix(rest + "Reply"@) == rest,
        without_call_suffix(rest + "Response"@) == rest,
{
    reveal_strlit("Request");
    reveal_strlit("Reply");
    reveal_strlit("Response");
    law_suffix_taken_off(rest + "Request"@, "Request"@, rest);
    law_suffix_taken_off(rest + "Reply"@, "Reply"@, rest);
    law_suffix_taken_off(rest + "Response"@, "Response"@, rest);
    lemma_other_ending(rest, "Reply"@, "Request"@, 0);
    lemma_other_ending(rest, "Response"@, "Request"@, 0);
    lemma_other_ending(rest, "Response"@, "Reply"@, 0);
}

/// A topic of an action by the part of the action that it is for.
proof fn lemma_action_parts(name: Seq<char>)
    ensures
        before_first_suffix(name + "/_action/send_goal"@, action_topic_suffixes()) == Some(name),
        before_first_suffix(name + "/_action/get_result"@, action_topic_suffixes()) == Some(name),
        before_first_suffix(name + "/_action/cancel_goal"@, action_topic_suffixes()) == Some(name),
        before_first_suffix(name + "/_action/feedback"@, action_topic_suffixes()) == Some(name),
        before_first_suffix(name + "/_action/status"@, action_topic_suffixes()) == Some(name),
        !ends_with(name + "/_action/send_goal"@, "/_action/feedback"@),
        !ends_with(name + "/_action/send_goal"@, "/_action/status"@),
        !ends_with(name + "/_action/get_result"@, "/_action/feedback"@),
        !ends_with(name + "/_action/get_result"@, "/_action/status"@),
        !ends_with(name + "/_action/cancel_goal"@, "/_action/feedback"@),
        !ends_with(name + "/_action/cancel_goal"@, "/_action/status"@),
        without_call_suffix(name + "/_action/feedback"@) == name + "/_action/feedback"@,
        without_call_suffix(name + "/_action/status"@) == name + "/_action/status"@,
        ends_with(name + "/_action/feedback"@, "/_action/feedback"@),
        ends_with(name + "/_action/status"@, "/_action/status"@),
{
    reveal_strlit("/_action/send_goal");
    reveal_strlit("/_action/get_result");
    reveal_strlit("/_action/cancel_goal");
    reveal_strlit("/_action/feedback");
    reveal_strlit("/_action/status");
    reveal_strlit("Request");
    reveal_strlit("Reply");
    reveal_strlit("Response");
    reveal_with_fuel(before_first_suffix, 6);
    let all = action_topic_suffixes();
    assert(all.skip(1)[0] == all[1] && all.skip(1).skip(1)[0] == all[2]);
    assert(all.skip(1).skip(1).skip(1)[0] == all[3]);
    assert(all.skip(1).skip(1).skip(1).skip(1)[0] == all[4]);
    let send = "/_action/send_goal"@;
    let get = "/_action/get_result"@;
    let cancel = "/_action/cancel_goal"@;
    let feedback = "/_action/feedback"@;
    let status = "/_action/status"@;
    law_suffix_taken_off(name + send, send, name);
    law_suffix_taken_off(name + get, get, name);
    law_suffix_taken_off(name + cancel, cancel, name);
    law_suffix_taken_off(name + feedback, feedback, name);
    law_suffix_taken_off(name + status, status, name);
    lemma_other_ending(name, get, send, 0);
    lemma_other_ending(name, cancel, send, 5);
    lemma_other_ending(name, cancel, get, 0);
    lemma_other_ending(name, feedback, send, 0);
    lemma_other_ending(name, feedback, get, 0);
    lemma_other_ending(name, feedback, cancel, 0);
    lemma_other_ending(name, status, send, 0);
    lemma_other_ending(name, status, get, 0);
    lemma_other_ending(name, status, cancel, 0);
    lemma_other_ending(name, status, feedback, 0);
    lemma_other_ending(name, send, feedback, 0);
    lemma_other_ending(name, send, status, 0);
    lemma_other_ending(name, get, feedback, 0);
    lemma_other_ending(name, get, status, 0);
    lemma_other_ending(name, cancel, feedback, 0);
    lemma_other_ending(name, cancel, status, 0);
    lemma_other_ending(name, feedback, "Request"@, 0);
    lemma_other_ending(name, feedback, "Reply"@, 0);
    lemma_other_ending(name, feedback, "Response"@, 0);
    lemma_other_ending(name, status, "Request"@, 0);
    lemma_other_ending(name, status, "Reply"@, 0);
    lemma_other_ending(name, status, "Response"@, 0);
}

/// The side of an action that an end of one of its calls is on.
pub open spec fn call_side(is_request: bool, is_reader: bool) -> ActionRole {
    if is_request == is_reader {
        ActionRole::Server
    } else {
        ActionRole::Client
    }
}

/// The side of an action that an end of one of its streams is on.
pub open spec fn stream_side(is_reader: bool) -> ActionRole {
    if is_reader {
        ActionRole::Client
    } else {
        ActionRole::Server
    }
}

/// An action is known by its topics. Its server reads the requests of its three calls, writes
/// the replies, and writes feedback and status.
pub proof fn law_action_reads_back(name: Seq<char>, ros_type: Seq<char>, is_reader: bool)
    ensures
        forall|call: Seq<char>|
            call == "/_action/send_goal"@ || call == "/_action/get_result"@ || call
                == "/_action/cancel_goal"@ ==> (#[trigger] action_endpoint(
                name + call + "Request"@,
                ros_type,
                is_reader,
            )) == Some((name, action_type(ros_type), call_side(true, is_reader))),
        forall|call: Seq<char>|
            !ends_with(ros_type, "_Request"@) && (call == "/_action/send_goal"@ || call
                == "/_action/get_result"@ || call == "/_action/cancel_goal"@) ==> (
            #[trigger] action_endpoint(name + call + "Reply"@, ros_type, is_reader)) == Some(
                (name, action_type(ros_type), call_side(false, is_reader)),
            ),
        action_endpoint(name + "/_action/feedback"@, ros_type, is_reader) == Some(
            (name, action_type(ros_type), stream_side(is_reader)),
        ),
        action_endpoint(name + "/_action/status"@, ros_type, is_reader) == Some(
            (name, action_type(ros_type), stream_side(is_reader)),
        ),
{
    reveal_strlit("Request");
    reveal_strlit("Reply");
    lemma_action_parts(name);
    assert forall|call: Seq<char>|
        call == "/_action/send_goal"@ || call == "/_action/get_result"@ || call
            == "/_action/cancel_goal"@ implies (#[trigger] action_endpoint(
        name + call + "Request"@,
        ros_type,
        is_reader,
    )) == Some((name, action_type(ros_type), call_side(true, is_reader))) by {
        lemma_call_suffix(name + call);
        law_suffix_taken_off(name + call + "Request"@, "Request"@, name + call);
    }
    assert forall|call: Seq<char>|
        !ends_with(ros_type, "_Request"@) && (call == "/_action/send_goal"@ || call
            == "/_action/get_result"@ || call == "/_action/cancel_goal"@) implies (
    #[trigger] action_endpoint(name + call + "Reply"@, ros_type, is_reader)) == Some(
        (name, action_type(ros_type), call_side(false, is_reader)),
    ) by {
        lemma_call_suffix(name + call);
        lemma_other_ending(name + call, "Reply"@, "Request"@, 0);
    }
}

/// Only topics that end like those of actions make an action.
pub proof fn law_other_topics_are_no_actions(
    topic_name: Seq<char>,
    ros_type: Seq<char>,
    is_reader: bool,
)
    ensures
        action_endpoint(topic_name, ros_type, is_reader) is Some ==> contains_text(
            topic_name,
            "/_action/"@,
        ),
{
    reveal_strlit("/_action/send_goal");
    reveal_strlit("/_action/get_result");
    reveal_strlit("/_action/cancel_goal");
    reveal_strlit("/_action/feedback");
    reveal_strlit("/_action/status");
    reveal_strlit("/_action/");
    match action_endpoint(topic_name, ros_type, is_reader) {
        None => {},
        Some((name, _, _)) => {
            let stripped = without_call_suffix(topic_name);
            reveal_with_fuel(before_first_suffix, 6);
            let all = action_topic_suffixes();
            assert(all.skip(1)[0] == all[1] && all.skip(1).skip(1)[0] == all[2]);
            assert(all.skip(1).skip(1).skip(1)[0] == all[3]);
            assert(all.skip(1).skip(1).skip(1).skip(1)[0] == all[4]);
            law_suffix_taken_off(stripped, all[0], name);
            law_suffix_taken_off(stripped, all[1], name);
            law_suffix_taken_off(stripped, all[2], name);
            law_suffix_taken_off(stripped, all[3], name);
            law_suffix_taken_off(stripped, all[4], name);
            let at = name.len() as int;
            let behind = topic_name.skip(stripped.len() as int);
            assert(topic_name =~= stripped + behind);
            assert(topic_name.subrange(at, at + 9) =~= "/_action/"@);
            assert(occurs_at(topic_name, "/_action/"@, at));
        },
    }
}

/// The type of an action is that of its goal, result and feedback, without their endings. The
/// status of all actions has one type, which is that of no action.
pub proof fn law_action_type_reads_back(ros_type: Seq<char>, package: Seq<char>)
    requires
        contains_text(ros_type, "/action/"@),
    ensures
        action_type(ros_type + "_SendGoal_Request"@) == Some(ros_type),
        action_type(ros_type + "_SendGoal_Response"@) == Some(ros_type),
        action_type(ros_type + "_GetResult_Request"@) == Some(ros_type),
        action_type(ros_type + "_GetResult_Response"@) == Some(ros_type),
        action_type(ros_type + "_FeedbackMessage"@) == Some(ros_type),
        action_type(ros_type + "_Goal"@) == Some(ros_type),
        action_type(ros_type + "_Result"@) == Some(ros_type),
        action_type(ros_type + "_Feedback"@) == Some(ros_type),
        action_type(package + "/action/GoalStatusArray"@) is None,
{
    reveal_strlit("_SendGoal_Request");
    reveal_strlit("_SendGoal_Response");
    reveal_strlit("_GetResult_Request");
    reveal_strlit("_GetResult_Response");
    reveal_strlit("_FeedbackMessage");
    reveal_strlit("_Goal");
    reveal_strlit("_Result");
    reveal_strlit("_Feedback");
    reveal_strlit("/action/GoalStatusArray");
    reveal_with_fuel(before_first_suffix, 9);
    let all = action_type_suffixes();
    let one = all.skip(1);
    let two = one.skip(1);
    let three = two.skip(1);
    let four = three.skip(1);
    let five = four.skip(1);
    let six = five.skip(1);
    let seven = six.skip(1);
    assert(one[0] == all[1] && two[0] == all[2] && three[0] == all[3] && four[0] == all[4]
        && five[0] == all[5] && six[0] == all[6] && seven[0] == all[7]);
    law_suffix_taken_off(
        package + "/action/GoalStatusArray"@,
        "/action/GoalStatusArray"@,
        package,
    );
    let status = "/action/GoalStatusArray"@;
    lemma_type_ending(ros_type, all[0]);
    lemma_type_ending(ros_type, all[1]);
    lemma_type_ending(ros_type, all[2]);
    lemma_type_ending(ros_type, all[3]);
    lemma_type_ending(ros_type, all[4]);
    lemma_type_ending(ros_type, all[5]);
    lemma_type_ending(ros_type, all[6]);
    lemma_type_ending(ros_type, all[7]);
    lemma_other_ending(ros_type, all[0], status, 0);
    lemma_other_ending(ros_type, all[1], status, 0);
    lemma_other_ending(ros_type, all[2], status, 0);
    lemma_other_ending(ros_type, all[3], status, 0);
    lemma_other_ending(ros_type, all[4], status, 0);
    lemma_other_ending(ros_type, all[5], status, 0);
    lemma_other_ending(ros_type, all[6], status, 0);
    lemma_other_ending(ros_type, all[7], status, 0);
    // No earlier ending fits.
    lemma_other_ending(ros_type, all[1], all[0], 0);
    lemma_other_ending(ros_type, all[2], all[0], 8);
    lemma_other_ending(ros_type, all[2], all[1], 0);
    lemma_other_ending(ros_type, all[3], all[0], 0);
    lemma_other_ending(ros_type, all[3], all[1], 9);
    lemma_other_ending(ros_type, all[3], all[2], 0);
    lemma_other_ending(ros_type, all[4], all[0], 0);
    lemma_other_ending(ros_type, all[4], all[1], 1);
    lemma_other_ending(ros_type, all[4], all[2], 0);
    lemma_other_ending(ros_type, all[4], all[3], 1);
    lemma_other_ending(ros_type, all[5], all[0], 0);
    lemma_other_ending(ros_type, all[5], all[1], 0);
    lemma_other_ending(ros_type, all[5], all[2], 0);
    lemma_other_ending(ros_type, all[5], all[3], 0);
    lemma_other_ending(ros_type, all[5], all[4], 0);
    lemma_other_ending(ros_type, all[6], all[0], 1);
    lemma_other_ending(ros_type, all[6], all[1], 0);
    lemma_other_ending(ros_type, all[6], all[2], 1);
    lemma_other_ending(ros_type, all[6], all[3], 0);
    lemma_other_ending(ros_type, all[6], all[4], 0);
    lemma_other_ending(ros_type, all[6], all[5], 0);
    lemma_other_ending(ros_type, all[7], all[0], 0);
    lemma_other_ending(ros_type, all[7], all[1], 0);
    lemma_other_ending(ros_type, all[7], all[2], 0);
    lemma_other_ending(ros_type, all[7], all[3], 0);
    lemma_other_ending(ros_type, all[7], all[4], 0);
    lemma_other_ending(ros_type, all[7], all[5], 0);
    lemma_other_ending(ros_type, all[7], all[6], 0);
}

/// An ending is taken off a type, and does not hide that it is of an action.
proof fn lemma_type_ending(ros_type: Seq<char>, ending: Seq<char>)
    requires
        contains_text(ros_type, "/action/"@),
    ensures
        before_suffix(ros_type + ending, ending) == Some(ros_type),
        contains_text(ros_type + ending, "/action/"@),
{
    law_suffix_taken_off(ros_type + ending, ending, ros_type);
    let at = choose|at: int| occurs_at(ros_type, "/action/"@, at);
    assert((ros_type + ending).subrange(at, at + "/action/"@.len()) =~= ros_type.subrange(
        at,
        at + "/action/"@.len(),
    ));
    assert(occurs_at(ros_type + ending, "/action/"@, at));
}

// Nodes, identifiers and QoS.

/// The full name of a node is its name behind its namespace, with one slash between them.
pub proof fn law_full_name_reads_back(namespace: Seq<char>, name: Seq<char>)
    ensures
        node_path("/"@, name) == "/"@ + name,
        namespace != "/"@ ==> node_path(namespace, name) == namespace + "/"@ + name,
        ends_with(node_path(namespace, name), name),
{
    if namespace == "/"@ {
        law_suffix_taken_off("/"@ + name, name, "/"@);
    } else {
        law_suffix_taken_off(namespace + "/"@ + name, name, namespace + "/"@);
    }
}

/// Identifiers that are written alike are the same.
pub proof fn law_identifiers_written_apart(a: TopicGid, b: TopicGid)
    requires
        gid_text(a) == gid_text(b),
    ensures
        a == b,
{
    reveal_strlit(".");
    assert(a.bytes =~= b.bytes) by {
        assert forall|i: int| 0 <= i < 16 implies a.bytes[i] == b.bytes[i] by {
            law_joined_texts_stand_in_order(gid_digits(a), "."@, 2, i);
            law_joined_texts_stand_in_order(gid_digits(b), "."@, 2, i);
            assert(gid_digits(a)[i] == gid_digits(b)[i]);
            assert(gid_digits(a)[i] == hex_byte(a.bytes[i]));
            assert(gid_digits(b)[i] == hex_byte(b.bytes[i]));
            law_hexadecimal_tells_bytes_apart(a.bytes[i], b.bytes[i]);
        }
    }
}

/// A text with something before and behind it tells what is between.
proof fn lemma_between(before: Seq<char>, a: Seq<char>, b: Seq<char>, behind: Seq<char>)
    requires
        before + a + behind == before + b + behind,
    ensures
        a == b,
{
    let x = before + a + behind;
    let y = before + b + behind;
    assert(x.len() == before.len() + a.len() + behind.len());
    assert(y.len() == before.len() + b.len() + behind.len());
    assert forall|i: int| 0 <= i < a.len() implies a[i] == b[i] by {
        assert(x[before.len() + i] == a[i]);
        assert(y[before.len() + i] == b[i]);
    }
    assert(a =~= b);
}

proof fn lemma_unknown_kinds(a: u32, b: u32)
    requires
        unknown_kind_text(a) == unknown_kind_text(b),
    ensures
        a == b,
{
    lemma_between("UNKNOWN ("@, decimal(a as nat), decimal(b as nat), ")"@);
    law_decimal_reads_back(a as nat);
    law_decimal_reads_back(b as nat);
}

/// An unknown kind is not written like a known one.
proof fn lemma_unknown_begins(kind: u32)
    ensures
        unknown_kind_text(kind).len() > 0,
        unknown_kind_text(kind)[0] == 'U',
{
    reveal_strlit("UNKNOWN (");
}

/// Kinds of QoS that are written alike are the same.
pub proof fn law_qos_written_apart(
    reliability: (ReliabilityQos, ReliabilityQos),
    durability: (DurabilityQos, DurabilityQos),
    liveliness: (LivelinessQos, LivelinessQos),
)
    ensures
        reliability_text(reliability.0) == reliability_text(reliability.1) ==> reliability.0.kind
            == reliability.1.kind,
        durability_text(durability.0) == durability_text(durability.1) ==> durability.0.kind
            == durability.1.kind,
        liveliness_text(liveliness.0) == liveliness_text(liveliness.1) ==> liveliness.0.kind
            == liveliness.1.kind,
{
    reveal_strlit("BEST_EFFORT");
    reveal_strlit("RELIABLE");
    reveal_strlit("VOLATILE");
    reveal_strlit("TRANSIENT_LOCAL");
    reveal_strlit("TRANSIENT");
    reveal_strlit("PERSISTENT");
    reveal_strlit("AUTOMATIC");
    reveal_strlit("MANUAL_BY_PARTICIPANT");
    reveal_strlit("MANUAL_BY_TOPIC");
    assert("BEST_EFFORT"@[0] == 'B' && "RELIABLE"@[0] == 'R');
    assert("VOLATILE"@[0] == 'V' && "TRANSIENT_LOCAL"@[0] == 'T' && "TRANSIENT"@[0] == 'T'
        && "PERSISTENT"@[0] == 'P');
    assert("TRANSIENT_LOCAL"@.len() == 15 && "TRANSIENT"@.len() == 9);
    assert("AUTOMATIC"@[0] == 'A' && "MANUAL_BY_PARTICIPANT"@[0] == 'M' && "MANUAL_BY_TOPIC"@[0]
        == 'M');
    assert("MANUAL_BY_PARTICIPANT"@.len() == 21 && "MANUAL_BY_TOPIC"@.len() == 15);
    lemma_unknown_begins(reliability.0.kind);
    lemma_unknown_begins(reliability.1.kind);
    lemma_unknown_begins(durability.0.kind);
    lemma_unknown_begins(durability.1.kind);
    lemma_unknown_begins(liveliness.0.kind);
    lemma_unknown_begins(liveliness.1.kind);
    if unknown_kind_text(reliability.0.kind) == unknown_kind_text(reliability.1.kind) {
        lemma_unknown_kinds(reliability.0.kind, reliability.1.kind);
    }
    if unknown_kind_text(durability.0.kind) == unknown_kind_text(durability.1.kind) {
        lemma_unknown_kinds(durability.0.kind, durability.1.kind);
    }
    if unknown_kind_text(liveliness.0.kind) == unknown_kind_text(liveliness.1.kind) {
        lemma_unknown_kinds(liveliness.0.kind, liveliness.1.kind);
    }
}

/// Topics about transforms, parameters and logs are internal, and so are hidden ones. No
/// others are.
pub proof fn law_internal_names(before: Seq<char>, behind: Seq<char>, name: Seq<char>)
    ensures
        internal_name("/tf"@ + behind),
        internal_name(before + "/parameter_events"@ + behind),
        internal_name(before + "/rosout"@ + behind),
        internal_name(before + "/_"@ + behind),
        internal_name(name) ==> exists|a: Seq<char>, b: Seq<char>|
            {
                ||| name == #[trigger] (a + "/tf"@ + b) && a.len() == 0
                ||| name == a + "/parameter_events"@ + b
                ||| name == a + "/rosout"@ + b
                ||| name == a + "/_"@ + b
            },
{
    law_prefix_taken_off("/tf"@ + behind, "/tf"@, behind);
    law_part_stands_in_text(before, "/parameter_events"@, behind, name);
    law_part_stands_in_text(before, "/rosout"@, behind, name);
    law_part_stands_in_text(before, "/_"@, behind, name);
    if internal_name(name) {
        if starts_with(name, "/tf"@) {
            let rest = name.skip("/tf"@.len() as int);
            law_prefix_taken_off(name, "/tf"@, rest);
            let a: Seq<char> = seq![];
            assert(name =~= a + "/tf"@ + rest);
        } else {
            let part = if contains_text(name, "/parameter_events"@) {
                "/parameter_events"@
            } else if contains_text(name, "/rosout"@) {
                "/rosout"@
            } else {
                "/_"@
            };
            let (a, b) = choose|a: Seq<char>, b: Seq<char>| name == #[trigger] (a + part + b);
            let other = a + "/tf"@ + b;
            assert(name == a + part + b);
        }
    }
}

} // verus!
