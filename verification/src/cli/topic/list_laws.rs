//! What a list of topics prints.

use crate::by_name::sorts;
use crate::cli::topic::list::{
    by_reach, candidate, candidates, end_line, end_lines, is_list_step, list_text, topic_line,
    types_text, verbose_text, ListStep, TopicListCommand, TopicListReply,
};
use crate::command::names::internal_name;
use crate::command::protocol::{TopicInfo, TopicInfoView};
use crate::command::state::topic_infos;
use crate::text::{decimal, joined, texts};
use vstd::prelude::*;
use vstd::string::*;

verus! {

/// A topic may be recorded if it is not internal and has subscribers.
pub proof fn law_candidates(topic: TopicInfoView)
    ensures
        candidate(topic) <==> !internal_name(topic.name) && topic.subscription_count > 0,
{
}

/// A topic is printed with its name, and with its types in brackets where they are asked for.
/// A topic of no known type has a dash for them.
pub proof fn law_line_of_a_topic(topic: TopicInfoView, indent: Seq<char>)
    ensures
        topic_line(topic, indent, false) == indent + topic.name,
        topic.type_names.len() > 0 ==> topic_line(topic, indent, true) == indent + topic.name
            + " ["@ + joined(topic.type_names, ", "@) + "]"@,
        topic.type_names.len() == 0 ==> topic_line(topic, indent, true) == indent + topic.name
            + " ["@ + "-"@ + "]"@,
{
}

/// The topics that can be recorded are printed first, one to a line. Those that cannot follow
/// behind an empty line and a heading, indented. Without any, there is no heading.
pub proof fn law_lines_of_a_list(
    recordable: Seq<TopicInfoView>,
    internal: Seq<TopicInfoView>,
    show_types: bool,
    i: int,
)
    ensures
        ({
            let lines = list_text(recordable, internal, show_types);
            let n = recordable.len() as int;
            &&& internal.len() == 0 ==> lines.len() == n
            &&& internal.len() > 0 ==> lines.len() == n + 2 + internal.len()
            &&& internal.len() > 0 ==> lines[n] == ""@ && lines[n + 1]
                == "Internal topics:"@
            &&& 0 <= i < n ==> lines[i] == topic_line(recordable[i], ""@, show_types)
            &&& 0 <= i < internal.len() ==> lines[n + 2 + i] == topic_line(
                internal[i],
                "  "@,
                show_types,
            )
        }),
{
}

/// A topic with so many publishers or subscribers is printed with its name, its types and how
/// many there are.
pub proof fn law_line_of_an_end(topic: TopicInfoView)
    ensures
        ({
            let head = " * "@ + topic.name + " ["@ + types_text(topic.type_names) + "] "@;
            let published = head + decimal(topic.publisher_count as nat) + " "@;
            let subscribed = head + decimal(topic.subscription_count as nat) + " "@;
            &&& topic.publisher_count == 1 ==> end_line(topic, true) == published + "publisher"@
            &&& topic.publisher_count != 1 ==> end_line(topic, true) == published + "publishers"@
            &&& topic.subscription_count == 1 ==> end_line(topic, false) == subscribed
                + "subscriber"@
            &&& topic.subscription_count != 1 ==> end_line(topic, false) == subscribed
                + "subscribers"@
        }),
{
}

/// The lines of a list are those of its parts, in order. A topic has a line if it has a
/// publisher, or a subscriber.
pub proof fn law_ends_in_order(
    first: Seq<TopicInfoView>,
    second: Seq<TopicInfoView>,
    topic: TopicInfoView,
    published: bool,
)
    ensures
        end_lines(first + second, published) == end_lines(first, published) + end_lines(
            second,
            published,
        ),
        published && topic.publisher_count > 0 ==> end_lines(seq![topic], published) == seq![
            end_line(topic, true),
        ],
        published && topic.publisher_count == 0 ==> end_lines(seq![topic], published).len() == 0,
        !published && topic.subscription_count > 0 ==> end_lines(seq![topic], published) == seq![
            end_line(topic, false),
        ],
        !published && topic.subscription_count == 0 ==> end_lines(seq![topic], published).len()
            == 0,
    decreases second.len(),
{
    reveal_with_fuel(end_lines, 2);
    assert(seq![topic].drop_last() =~= seq![]);
    if second.len() == 0 {
        assert(first + second =~= first);
        assert(end_lines(first, published) + end_lines(second, published) =~= end_lines(
            first,
            published,
        ));
    } else {
        law_ends_in_order(first, second.drop_last(), topic, published);
        assert((first + second).drop_last() =~= first + second.drop_last());
        assert(end_lines(first + second, published) =~= end_lines(first, published) + end_lines(
            second,
            published,
        ));
    }
}

/// In full, the published topics are printed behind a heading, and the subscribed ones behind
/// another, with an empty line between them.
pub proof fn law_lines_in_full(topics: Seq<TopicInfoView>)
    ensures
        ({
            let lines = verbose_text(topics);
            let published = end_lines(topics, true);
            let subscribed = end_lines(topics, false);
            let n = published.len() as int;
            &&& lines.len() == published.len() + subscribed.len() + 3
            &&& lines[0] == "Published topics:"@
            &&& lines.subrange(1, 1 + n) == published
            &&& lines[1 + n] == ""@
            &&& lines[2 + n] == "Subscribed topics:"@
            &&& lines.skip(3 + n) == subscribed
        }),
{
    let lines = verbose_text(topics);
    let published = end_lines(topics, true);
    let n = published.len() as int;
    assert(lines.subrange(1, 1 + n) =~= published);
    assert(lines.skip(3 + n) =~= end_lines(topics, false));
}

/// Where only the count is asked for, it is printed alone. Where all is asked for, that is
/// printed. Else the topics are parted into those that may be recorded, of which more is
/// asked for, and the others. An error is passed on.
pub proof fn law_what_a_list_does(args: TopicListCommand, reply: TopicListReply, step: ListStep)
    requires
        is_list_step(args, reply, step),
    ensures
        reply matches TopicListReply::TopicList(response) ==> {
            &&& args.count_only ==> (step matches ListStep::Print(lines) && lines@.len() == 1
                && lines@[0]@ == decimal(response.total_count as nat))
            &&& !args.count_only && args.verbose ==> (step matches ListStep::Print(lines) && texts(
                lines@,
            ) == verbose_text(topic_infos(response.topics@)))
            &&& !args.count_only && !args.verbose ==> (step matches ListStep::FetchDetails(
                wanted,
                others,
            ) && wanted@ == candidates(response.topics@, true) && others@ == candidates(
                response.topics@,
                false,
            ))
        },
        reply matches TopicListReply::Error(message) ==> (step matches ListStep::Fail(told)
            && told == message),
        reply is Other ==> (step matches ListStep::Fail(told) && told@
            == "unexpected response for topic list request"@),
{
    match (reply, step) {
        (TopicListReply::TopicList(response), ListStep::Print(lines)) => {
            if args.count_only {
                assert(texts(lines@).len() == lines@.len());
                assert(texts(lines@)[0] == lines@[0]@);
            }
        },
        _ => {},
    }
}

proof fn lemma_reached(topics: Seq<TopicInfo>, local_only: Seq<Option<bool>>, local: bool, at: int)
    requires
        topics.len() == local_only.len(),
        0 <= at < topics.len(),
        (local_only[at] == Some(true)) == local,
    ensures
        by_reach(topics, local_only, local).contains(topics[at]),
    decreases topics.len(),
{
    let list = by_reach(topics, local_only, local);
    let earlier = by_reach(topics.drop_last(), local_only.drop_last(), local);
    if at == topics.len() - 1 {
        assert(list[earlier.len() as int] == topics[at]);
    } else {
        lemma_reached(topics.drop_last(), local_only.drop_last(), local, at);
        let i = choose|i: int| 0 <= i < earlier.len() && earlier[i] == topics[at];
        assert(list[i] == topics[at]);
    }
}

proof fn lemma_sorted_has(sorted: Seq<TopicInfo>, list: Seq<TopicInfo>, topic: TopicInfo)
    requires
        sorts(sorted, list),
        list.contains(topic),
    ensures
        sorted.contains(topic),
{
    let name = topic.name@;
    lemma_named(sorted, topic);
    lemma_named(list, topic);
    assert(crate::by_name::with_name(sorted, name) == crate::by_name::with_name(list, name));
}

proof fn lemma_named(list: Seq<TopicInfo>, topic: TopicInfo)
    ensures
        crate::by_name::with_name(list, topic.name@).contains(topic) <==> list.contains(topic),
    decreases list.len(),
{
    reveal(Seq::filter);
    if list.len() > 0 {
        let before = list.drop_last();
        lemma_named(before, topic);
        let kept = crate::by_name::with_name(before, topic.name@);
        let all = crate::by_name::with_name(list, topic.name@);
        assert(list[list.len() - 1] == list.last());
        if before.contains(topic) {
            let i = choose|i: int| 0 <= i < before.len() && before[i] == topic;
            assert(list[i] == topic);
        }
        if list.contains(topic) {
            let i = choose|i: int| 0 <= i < list.len() && list[i] == topic;
            if i < before.len() {
                assert(before[i] == topic);
            }
        }
        if kept.contains(topic) {
            let i = choose|i: int| 0 <= i < kept.len() && kept[i] == topic;
            assert(all[i] == topic);
        }
        if list.last() == topic {
            assert(all[kept.len() as int] == topic);
        }
        if all.contains(topic) {
            let i = choose|i: int| 0 <= i < all.len() && all[i] == topic;
            if i < kept.len() {
                assert(kept[i] == topic);
            }
        }
    }
}

/// Every topic that may be recorded is listed as recordable unless its details say that it
/// stays on this host. Where they cannot be had, it is.
pub proof fn law_recordable_unless_local(
    topics: Seq<TopicInfo>,
    local_only: Seq<Option<bool>>,
    recordable: Seq<TopicInfo>,
    internal: Seq<TopicInfo>,
    at: int,
)
    requires
        local_only.len() == candidates(topics, true).len(),
        sorts(recordable, by_reach(candidates(topics, true), local_only, false)),
        sorts(
            internal,
            candidates(topics, false) + by_reach(candidates(topics, true), local_only, true),
        ),
        0 <= at < local_only.len(),
    ensures
        local_only[at] is None || local_only[at] == Some(false) ==> recordable.contains(
            candidates(topics, true)[at],
        ),
        local_only[at] == Some(true) ==> internal.contains(candidates(topics, true)[at]),
{
    let chosen = candidates(topics, true);
    if local_only[at] == Some(true) {
        lemma_reached(chosen, local_only, true, at);
        let local = by_reach(chosen, local_only, true);
        let others = candidates(topics, false);
        let i = choose|i: int| 0 <= i < local.len() && local[i] == chosen[at];
        assert((others + local)[others.len() + i] == chosen[at]);
        lemma_sorted_has(internal, others + local, chosen[at]);
    } else {
        lemma_reached(chosen, local_only, false, at);
        lemma_sorted_has(recordable, by_reach(chosen, local_only, false), chosen[at]);
    }
}

} // verus!
