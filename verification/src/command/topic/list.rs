//! The list of topics.

use crate::command::protocol::{TopicInfo, TopicInfoView, TopicListRequest, TopicListResponse};
use crate::command::state::{topic_infos, CommandState};
use crate::text::{contains_text, has_prefix, has_text, starts_with, texts};
use vstd::prelude::*;

verus! {

/// A topic is hidden if a part of its name starts with an underscore.
pub open spec fn hidden_name(name: Seq<char>) -> bool {
    starts_with(name, "_"@) || contains_text(name, "/_"@)
}

/// Whether a topic is hidden.
pub fn is_hidden_topic(name: &str) -> (r: bool)
    ensures
        r == hidden_name(name@),
{
    has_prefix(name, "_") || has_text(name, "/_")
}

/// Some type of a topic is a message type.
pub open spec fn carries_messages(type_names: Seq<Seq<char>>) -> bool {
    exists|i: int| 0 <= i < type_names.len() && contains_text(#[trigger] type_names[i], "/msg/"@)
}

/// A topic is listed if hidden ones are asked for, or if it is not hidden and carries
/// messages.
pub open spec fn listed(topic: TopicInfoView, include_hidden: bool) -> bool {
    include_hidden || (!hidden_name(topic.name) && carries_messages(topic.type_names))
}

fn has_message_type(type_names: &Vec<String>) -> (r: bool)
    ensures
        r == carries_messages(texts(type_names@)),
{
    let ghost views = texts(type_names@);
    let mut i: usize = 0;
    while i < type_names.len()
        invariant
            views == texts(type_names@),
            i <= type_names.len(),
            forall|j: int| 0 <= j < i ==> !contains_text(#[trigger] views[j], "/msg/"@),
        decreases type_names.len() - i,
    {
        if has_text(type_names[i].as_str(), "/msg/") {
            assert(contains_text(views[i as int], "/msg/"@));
            return true;
        }
        i += 1;
    }
    false
}

/// Lists the topics of a snapshot.
pub fn build_response(request: TopicListRequest, state: CommandState) -> (r: TopicListResponse)
    ensures
        topic_infos(r.topics@) == topic_infos(state.topics@).filter(
            |topic: TopicInfoView| listed(topic, request.include_hidden),
        ),
        r.total_count == r.topics@.len(),
{
    let ghost views = topic_infos(state.topics@);
    let ghost keep = |topic: TopicInfoView| listed(topic, request.include_hidden);
    let mut rest = state.topics;
    let mut topics: Vec<TopicInfo> = Vec::new();
    let ghost mut done: int = 0;
    proof {
        reveal(Seq::filter);
        assert(topic_infos(topics@) =~= views.take(0).filter(keep));
    }
    while rest.len() > 0
        invariant
            0 <= done <= views.len(),
            rest@.len() == views.len() - done,
            topic_infos(rest@) == views.skip(done),
            keep == (|topic: TopicInfoView| listed(topic, request.include_hidden)),
            topic_infos(topics@) == views.take(done).filter(keep),
        decreases rest.len(),
    {
        let ghost before = rest@;
        let ghost earlier = topic_infos(topics@);
        let topic = rest.remove(0);
        proof {
            reveal(Seq::filter);
            assert(topic_infos(before)[0] == views[done]);
            assert(views.take(done + 1).drop_last() =~= views.take(done));
            assert(topic_infos(rest@) =~= topic_infos(before).skip(1));
            assert(topic_infos(rest@) =~= views.skip(done + 1));
            done = done + 1;
        }
        let kept = request.include_hidden || (!is_hidden_topic(topic.name.as_str())
            && has_message_type(&topic.type_names));
        if kept {
            topics.push(topic);
            assert(topic_infos(topics@) =~= earlier.push(topic@));
        }
    }
    assert(views.take(done) =~= views);
    TopicListResponse { total_count: topics.len(), topics }
}

} // verus!
