//! What clients are answered, and by whom.

use crate::command::protocol::TopicInfoView;
use crate::command::server::{
    carries, is_routed, CommandRequest, CommandResponse, Route, SnapshotQuery,
};
use crate::command::state::{topic_infos, CommandState};
use crate::command::topic::list::{carries_messages, hidden_name, listed};
use crate::runtime::command::{reply_number, RuntimeCommand, RuntimeReply};
use crate::text::{contains_text, occurs_at, starts_with};
use vstd::prelude::*;
use vstd::string::*;

verus! {

/// A command to the running probe carries what the client asked for, and the number under
/// which the client waits.
pub proof fn law_command_carries_request(
    request: CommandRequest,
    state: CommandState,
    number: u64,
    route: Route,
)
    requires
        is_routed(request, state, number, route),
    ensures
        route matches Route::Runtime(command) ==> {
            &&& reply_number(command) == number
            &&& request matches CommandRequest::BagRecord(asked) ==> (
            command matches RuntimeCommand::BagRecord { request: told, .. } && told == asked)
            &&& request matches CommandRequest::BagSetPaused(asked) ==> (
            command matches RuntimeCommand::BagSetPaused { request: told, .. } && told == asked)
            &&& request matches CommandRequest::TopicBwStart(asked) ==> (
            command matches RuntimeCommand::TopicBwStart { request: told, .. } && told == asked)
            &&& request matches CommandRequest::TopicHzStart(asked) ==> (
            command matches RuntimeCommand::TopicHzStart { request: told, .. } && told == asked)
            &&& request matches CommandRequest::TopicDelayStart(asked) ==> (
            command matches RuntimeCommand::TopicDelayStart { request: told, .. } && told
                == asked)
            &&& request matches CommandRequest::TopicEchoStart(asked) ==> (
            command matches RuntimeCommand::TopicEchoStart { request: told, .. } && told == asked)
            &&& request is BagStatus <==> command is BagStatus
            &&& request is BagStop <==> command is BagStop
            &&& request is TopicBwStatus <==> command is TopicBwStatus
            &&& request is TopicBwStop <==> command is TopicBwStop
            &&& request is TopicHzStatus <==> command is TopicHzStatus
            &&& request is TopicHzBwStatus <==> command is TopicHzBwStatus
            &&& request is TopicHzStop <==> command is TopicHzStop
            &&& request is TopicDelayStatus <==> command is TopicDelayStatus
            &&& request is TopicDelayStop <==> command is TopicDelayStop
            &&& request is TopicEchoStatus <==> command is TopicEchoStatus
            &&& request is TopicEchoStop <==> command is TopicEchoStop
        },
{
}

/// The request is about what is watched or recorded.
pub open spec fn is_about_sessions(request: CommandRequest) -> bool {
    ||| request is BagRecord || request is BagStatus || request is BagSetPaused
    ||| request is BagStop || request is TopicBwStart || request is TopicBwStatus
    ||| request is TopicBwStop || request is TopicHzStart || request is TopicHzStatus
    ||| request is TopicHzBwStatus || request is TopicHzStop || request is TopicDelayStart
    ||| request is TopicDelayStatus || request is TopicDelayStop || request is TopicEchoStart
    ||| request is TopicEchoStatus || request is TopicEchoStop
}

/// What is watched or recorded is asked of the running probe; the graph is asked of the
/// snapshot, each question as it is; and the list of topics and the forced announcement are
/// answered at once.
pub proof fn law_who_answers(
    request: CommandRequest,
    state: CommandState,
    number: u64,
    route: Route,
)
    requires
        is_routed(request, state, number, route),
    ensures
        route is Runtime <==> is_about_sessions(request),
        route is Answer <==> request is Discover || request is TopicList,
        request is ActionInfo ==> route == Route::Snapshot(SnapshotQuery::ActionInfo),
        request is ActionList ==> route == Route::Snapshot(SnapshotQuery::ActionList),
        request is NodeInfo ==> route == Route::Snapshot(SnapshotQuery::NodeInfo),
        request is NodeList ==> route == Route::Snapshot(SnapshotQuery::NodeList),
        request is ServiceList ==> route == Route::Snapshot(SnapshotQuery::ServiceList),
        request is ServiceType ==> route == Route::Snapshot(SnapshotQuery::ServiceType),
        request is TopicInfo ==> route == Route::Snapshot(SnapshotQuery::TopicInfo),
        request is TopicType ==> route == Route::Snapshot(SnapshotQuery::TopicType),
        request is TopicGraph ==> route == Route::Snapshot(SnapshotQuery::TopicGraph),
        request is Discover ==> (route matches Route::Answer(CommandResponse::Discover(response))
            && response.triggered),
{
}

/// What the running probe replies is what the client is answered.
pub proof fn law_reply_is_passed_on(response: CommandResponse, reply: RuntimeReply)
    requires
        carries(response, reply),
    ensures
        reply matches RuntimeReply::BagStarted(told) ==> (
        response matches CommandResponse::BagRecord(got) && got == told),
        reply matches RuntimeReply::BagStatus(told) ==> (
        response matches CommandResponse::BagStatus(got) && got == told),
        reply matches RuntimeReply::BagSetPaused(told) ==> (
        response matches CommandResponse::BagSetPaused(got) && got == told),
        reply matches RuntimeReply::BagStopped(told) ==> (
        response matches CommandResponse::BagStop(got) && got == told),
        reply matches RuntimeReply::TopicBwStarted(told) ==> (
        response matches CommandResponse::TopicBwStart(got) && got == told),
        reply matches RuntimeReply::TopicBwStatus(told) ==> (
        response matches CommandResponse::TopicBwStatus(got) && got == told),
        reply matches RuntimeReply::TopicBwStopped(told) ==> (
        response matches CommandResponse::TopicBwStop(got) && got == told),
        reply matches RuntimeReply::TopicHzStarted(told) ==> (
        response matches CommandResponse::TopicHzStart(got) && got == told),
        reply matches RuntimeReply::TopicHzStatus(told) ==> (
        response matches CommandResponse::TopicHzStatus(got) && got == told),
        reply matches RuntimeReply::TopicHzBwStatus(told) ==> (
        response matches CommandResponse::TopicHzBwStatus(got) && got == told),
        reply matches RuntimeReply::TopicHzStopped(told) ==> (
        response matches CommandResponse::TopicHzStop(got) && got == told),
        reply matches RuntimeReply::TopicDelayStarted(told) ==> (
        response matches CommandResponse::TopicDelayStart(got) && got == told),
        reply matches RuntimeReply::TopicDelayStatus(told) ==> (
        response matches CommandResponse::TopicDelayStatus(got) && got == told),
        reply matches RuntimeReply::TopicDelayStopped(told) ==> (
        response matches CommandResponse::TopicDelayStop(got) && got == told),
        reply matches RuntimeReply::TopicEchoStarted(told) ==> (
        response matches CommandResponse::TopicEchoStart(got) && got == told),
        reply matches RuntimeReply::TopicEchoStatus(told) ==> (
        response matches CommandResponse::TopicEchoStatus(got) && got == told),
        reply matches RuntimeReply::TopicEchoStopped(told) ==> (
        response matches CommandResponse::TopicEchoStop(got) && got == told),
        reply matches RuntimeReply::Error(told) ==> (
        response matches CommandResponse::Error(got) && got.message == told),
{
}

// The list of topics.

/// A part of the name starts with an underscore.
pub open spec fn has_hidden_part(name: Seq<char>) -> bool {
    ||| name.len() > 0 && name[0] == '_'
    ||| exists|i: int| 1 <= i < name.len() && #[trigger] name[i] == '_' && name[i - 1] == '/'
}

/// A topic is hidden if a part of its name starts with an underscore.
pub proof fn law_hidden_topics(name: Seq<char>)
    ensures
        hidden_name(name) <==> has_hidden_part(name),
{
    reveal_strlit("_");
    reveal_strlit("/_");
    if name.len() > 0 && name[0] == '_' {
        assert(name.subrange(0, 1) =~= "_"@);
    }
    if starts_with(name, "_"@) {
        assert(name.subrange(0, 1)[0] == name[0]);
    }
    if exists|i: int| 1 <= i < name.len() && #[trigger] name[i] == '_' && name[i - 1] == '/' {
        let i = choose|i: int| 1 <= i < name.len() && #[trigger] name[i] == '_' && name[i - 1]
            == '/';
        assert(name.subrange(i - 1, i + 1) =~= "/_"@);
        assert(occurs_at(name, "/_"@, i - 1));
    }
    if contains_text(name, "/_"@) {
        let at = choose|at: int| occurs_at(name, "/_"@, at);
        assert(name.subrange(at, at + 2)[0] == name[at]);
        assert(name.subrange(at, at + 2)[1] == name[at + 1]);
        assert(name[at + 1] == '_' && name[at + 1 - 1] == '/');
    }
}

/// All topics are listed if hidden ones are asked for. Else those are that are not hidden and
/// carry messages.
pub proof fn law_which_topics_are_listed(topic: TopicInfoView)
    ensures
        listed(topic, true),
        listed(topic, false) <==> !has_hidden_part(topic.name) && exists|i: int|
            0 <= i < topic.type_names.len() && contains_text(
                #[trigger] topic.type_names[i],
                "/msg/"@,
            ),
{
    law_hidden_topics(topic.name);
    assert(carries_messages(topic.type_names) <==> exists|i: int|
        0 <= i < topic.type_names.len() && contains_text(#[trigger] topic.type_names[i], "/msg/"@));
}

proof fn lemma_kept<T>(list: Seq<T>, keep: spec_fn(T) -> bool, item: T)
    ensures
        list.filter(keep).contains(item) <==> list.contains(item) && keep(item),
    decreases list.len(),
{
    reveal(Seq::filter);
    if list.len() > 0 {
        let before = list.drop_last();
        lemma_kept(before, keep, item);
        let kept = before.filter(keep);
        assert(list[list.len() - 1] == list.last());
        if before.contains(item) {
            let i = choose|i: int| 0 <= i < before.len() && before[i] == item;
            assert(list[i] == item);
        }
        if list.contains(item) {
            let i = choose|i: int| 0 <= i < list.len() && list[i] == item;
            if i < before.len() {
                assert(before[i] == item);
            }
        }
        if keep(list.last()) {
            let all = kept.push(list.last());
            assert(all[kept.len() as int] == list.last());
            if kept.contains(item) {
                let i = choose|i: int| 0 <= i < kept.len() && kept[i] == item;
                assert(all[i] == item);
            }
            if all.contains(item) {
                let i = choose|i: int| 0 <= i < all.len() && all[i] == item;
                if i < kept.len() {
                    assert(kept[i] == item);
                }
            }
        }
    }
}

/// A client that asks for the list of topics is given those of the snapshot that are to be
/// listed, and no others, and how many they are.
pub proof fn law_list_has_the_listed_topics(
    request: CommandRequest,
    state: CommandState,
    number: u64,
    route: Route,
    topic: TopicInfoView,
)
    requires
        is_routed(request, state, number, route),
        request is TopicList,
    ensures
        request matches CommandRequest::TopicList(asked) && (route matches Route::Answer(
            CommandResponse::TopicList(response),
        ) && {
            &&& response.total_count == response.topics@.len()
            &&& topic_infos(response.topics@).contains(topic) <==> topic_infos(
                state.topics@,
            ).contains(topic) && listed(topic, asked.include_hidden)
        }),
{
    match request {
        CommandRequest::TopicList(asked) => {
            lemma_kept(
                topic_infos(state.topics@),
                |topic: TopicInfoView| listed(topic, asked.include_hidden),
                topic,
            );
        },
        _ => {},
    }
}

} // verus!
