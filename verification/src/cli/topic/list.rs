//! Listing topics: those that can be recorded first, the others in a section of their own.

use crate::by_name::{in_order, sort_by_name, sorts, with_name, Named};
use crate::command::names::{internal_name, is_internal_name};
use crate::command::protocol::{TopicInfo, TopicInfoView, TopicListRequest, TopicListResponse};
use crate::command::state::topic_infos;
use crate::text::{decimal, decimal_text, join2, join_texts, joined, texts};
use vstd::prelude::*;
use vstd::string::*;

verus! {

/// The arguments of the command.
#[derive(Clone, Copy, Debug)]
pub struct TopicListCommand {
    /// Show the types of topics, too.
    pub show_types: bool,
    /// Show only how many topics there are.
    pub count_only: bool,
    /// Show all about each topic.
    pub verbose: bool,
    /// Show hidden topics, too.
    pub include_hidden: bool,
}

/// The request that the command sends.
pub fn list_request(args: TopicListCommand) -> (r: TopicListRequest)
    ensures
        r == (TopicListRequest {
            show_types: args.show_types,
            count_only: args.count_only,
            verbose: args.verbose,
            include_hidden: args.include_hidden,
        }),
{
    TopicListRequest {
        show_types: args.show_types,
        count_only: args.count_only,
        verbose: args.verbose,
        include_hidden: args.include_hidden,
    }
}

// Which topics can be recorded.

/// Whether the name of a topic lets it be recorded.
pub fn passes_name_filter(name: &str) -> (r: bool)
    ensures
        r == !internal_name(name@),
{
    !is_internal_name(name)
}

/// A topic may be recorded as far as the list tells: its name lets it, and it has
/// subscribers.
pub open spec fn candidate(topic: TopicInfoView) -> bool {
    !internal_name(topic.name) && topic.subscription_count > 0
}

/// Those topics of a list that may be recorded (or those that may not), in order.
pub open spec fn candidates(topics: Seq<TopicInfo>, wanted: bool) -> Seq<TopicInfo> {
    topics.filter(|topic: TopicInfo| candidate(topic@) == wanted)
}

/// Parts topics that may be recorded from those that may not.
fn split_topics(topics: Vec<TopicInfo>) -> (r: (Vec<TopicInfo>, Vec<TopicInfo>))
    ensures
        r.0@ == candidates(topics@, true),
        r.1@ == candidates(topics@, false),
{
    let ghost all = topics@;
    let mut rest = topics;
    let mut needs_fetch: Vec<TopicInfo> = Vec::new();
    let mut internal: Vec<TopicInfo> = Vec::new();
    let ghost mut done: int = 0;
    proof {
        reveal(Seq::filter);
        assert(all.skip(0) =~= all);
    }
    while rest.len() > 0
        invariant
            0 <= done <= all.len(),
            rest@ == all.skip(done),
            needs_fetch@ == candidates(all.take(done), true),
            internal@ == candidates(all.take(done), false),
        decreases rest.len(),
    {
        let topic = rest.remove(0);
        proof {
            reveal(Seq::filter);
            assert(topic == all[done]);
            assert(all.take(done + 1).drop_last() =~= all.take(done));
            assert(rest@ =~= all.skip(done + 1));
            done = done + 1;
        }
        if passes_name_filter(topic.name.as_str()) && topic.subscription_count > 0 {
            needs_fetch.push(topic);
        } else {
            internal.push(topic);
        }
    }
    assert(all.take(done) =~= all);
    (needs_fetch, internal)
}

/// Those topics that are known to be local only (or the others), in order. `local_only`
/// tells of each topic what its details say, if they could be had.
pub open spec fn by_reach(
    topics: Seq<TopicInfo>,
    local_only: Seq<Option<bool>>,
    local: bool,
) -> Seq<TopicInfo>
    decreases topics.len(),
{
    if topics.len() == 0 {
        seq![]
    } else {
        let earlier = by_reach(topics.drop_last(), local_only.drop_last(), local);
        if (local_only.last() == Some(true)) == local {
            earlier.push(topics.last())
        } else {
            earlier
        }
    }
}

/// The topics that can be recorded and those that cannot, each by name. `needs_fetch`
/// are those that may be recorded as far as the list tells; of these, the ones that are
/// local only cannot.
pub fn classify_topics(
    needs_fetch: Vec<TopicInfo>,
    local_only: &Vec<Option<bool>>,
    internal: Vec<TopicInfo>,
) -> (r: (Vec<TopicInfo>, Vec<TopicInfo>))
    requires
        local_only@.len() == needs_fetch@.len(),
    ensures
        sorts(r.0@, by_reach(needs_fetch@, local_only@, false)),
        sorts(r.1@, internal@ + by_reach(needs_fetch@, local_only@, true)),
{
    let ghost all = needs_fetch@;
    let ghost flags = local_only@;
    let ghost first = internal@;
    let count: usize = local_only.len();
    let mut rest = needs_fetch;
    let mut internal = internal;
    let mut recordable: Vec<TopicInfo> = Vec::new();
    let mut i: usize = 0;
    assert(all.skip(0) =~= all);
    assert(internal@ =~= first + by_reach(all.take(0), flags.take(0), true));
    while rest.len() > 0
        invariant
            flags == local_only@,
            count == flags.len(),
            flags.len() == all.len(),
            i <= all.len(),
            rest@ == all.skip(i as int),
            recordable@ == by_reach(all.take(i as int), flags.take(i as int), false),
            internal@ == first + by_reach(all.take(i as int), flags.take(i as int), true),
        decreases rest.len(),
    {
        let topic = rest.remove(0);
        proof {
            assert(topic == all[i as int]);
            assert(all.take(i + 1).drop_last() =~= all.take(i as int));
            assert(flags.take(i + 1).drop_last() =~= flags.take(i as int));
            assert(rest@ =~= all.skip(i + 1));
        }
        let local = match local_only[i] {
            Some(local) => local,
            None => false,
        };
        if local {
            internal.push(topic);
            assert(internal@ =~= first + by_reach(all.take(i + 1), flags.take(i + 1), true));
        } else {
            recordable.push(topic);
        }
        i += 1;
    }
    assert(all.take(i as int) =~= all);
    assert(flags.take(i as int) =~= flags);
    (sort_by_name(recordable), sort_by_name(internal))
}

// What is printed.

/// The types of a topic as text.
pub open spec fn types_text(type_names: Seq<Seq<char>>) -> Seq<char> {
    if type_names.len() == 0 {
        "-"@
    } else {
        joined(type_names, ", "@)
    }
}

/// Gives the types of a topic as text.
pub fn format_types(type_names: &Vec<String>) -> (r: String)
    ensures
        r@ == types_text(texts(type_names@)),
{
    if type_names.len() == 0 {
        "-".to_owned()
    } else {
        join_texts(type_names, ", ")
    }
}

/// The word for so many.
pub open spec fn plural(count: usize, singular: Seq<char>, many: Seq<char>) -> Seq<char> {
    if count == 1 {
        singular
    } else {
        many
    }
}

/// Chooses the word for so many.
pub fn pluralize<'a>(count: usize, singular: &'a str, plural: &'a str) -> (r: &'a str)
    ensures
        r@ == self::plural(count, singular@, plural@),
{
    if count == 1 {
        singular
    } else {
        plural
    }
}

/// The line of a topic.
pub open spec fn topic_line(topic: TopicInfoView, indent: Seq<char>, show_types: bool) -> Seq<
    char,
> {
    if show_types {
        indent + topic.name + " ["@ + types_text(topic.type_names) + "]"@
    } else {
        indent + topic.name
    }
}

/// The lines of topics.
pub open spec fn topic_lines(
    topics: Seq<TopicInfoView>,
    indent: Seq<char>,
    show_types: bool,
) -> Seq<Seq<char>> {
    topics.map_values(|topic: TopicInfoView| topic_line(topic, indent, show_types))
}

fn push_topic_lines(out: &mut Vec<String>, topics: &Vec<TopicInfo>, indent: &str, show_types: bool)
    ensures
        texts(final(out)@) == texts(old(out)@) + topic_lines(
            topic_infos(topics@),
            indent@,
            show_types,
        ),
{
    let ghost first = texts(out@);
    let ghost views = topic_infos(topics@);
    let mut i: usize = 0;
    assert(texts(out@) =~= first + topic_lines(views.take(0), indent@, show_types));
    while i < topics.len()
        invariant
            views == topic_infos(topics@),
            i <= topics.len(),
            texts(out@) == first + topic_lines(views.take(i as int), indent@, show_types),
        decreases topics.len() - i,
    {
        let ghost before = texts(out@);
        let mut line = join2(indent, topics[i].name.as_str());
        if show_types {
            line.append(" [");
            line.append(format_types(&topics[i].type_names).as_str());
            line.append("]");
        }
        out.push(line);
        proof {
            assert(texts(out@) =~= before.push(line@));
            assert(views[i as int] == topics@[i as int]@);
            assert(topic_lines(views.take(i + 1), indent@, show_types) =~= topic_lines(
                views.take(i as int),
                indent@,
                show_types,
            ).push(line@));
            assert(texts(out@) =~= first + topic_lines(views.take(i + 1), indent@, show_types));
        }
        i += 1;
    }
    assert(views.take(i as int) =~= views);
}

/// What is printed of topics that can be recorded and of those that cannot.
pub open spec fn list_text(
    recordable: Seq<TopicInfoView>,
    internal: Seq<TopicInfoView>,
    show_types: bool,
) -> Seq<Seq<char>> {
    if internal.len() == 0 {
        topic_lines(recordable, ""@, show_types)
    } else {
        topic_lines(recordable, ""@, show_types) + seq![""@, "Internal topics:"@] + topic_lines(
            internal,
            "  "@,
            show_types,
        )
    }
}

/// The lines for topics that can be recorded and for those that cannot.
pub fn list_lines(
    recordable: &Vec<TopicInfo>,
    internal: &Vec<TopicInfo>,
    show_types: bool,
) -> (r: Vec<String>)
    ensures
        texts(r@) == list_text(topic_infos(recordable@), topic_infos(internal@), show_types),
{
    let mut out: Vec<String> = Vec::new();
    assert(texts(out@) =~= seq![]);
    push_topic_lines(&mut out, recordable, "", show_types);
    assert(texts(out@) =~= topic_lines(topic_infos(recordable@), ""@, show_types));
    if internal.len() > 0 {
        let ghost before = texts(out@);
        out.push("".to_owned());
        out.push("Internal topics:".to_owned());
        assert(texts(out@) =~= before + seq![""@, "Internal topics:"@]);
        push_topic_lines(&mut out, internal, "  ", show_types);
    }
    out
}

/// How many publishers or subscribers a topic has.
pub open spec fn end_count(topic: TopicInfoView, published: bool) -> usize {
    if published {
        topic.publisher_count
    } else {
        topic.subscription_count
    }
}

/// The line of a topic with the count of its publishers or subscribers.
pub open spec fn end_line(topic: TopicInfoView, published: bool) -> Seq<char> {
    let count = end_count(topic, published);
    " * "@ + topic.name + " ["@ + types_text(topic.type_names) + "] "@ + decimal(count as nat)
        + " "@ + if published {
        plural(count, "publisher"@, "publishers"@)
    } else {
        plural(count, "subscriber"@, "subscribers"@)
    }
}

/// The lines of the topics that have publishers or subscribers.
pub open spec fn end_lines(topics: Seq<TopicInfoView>, published: bool) -> Seq<Seq<char>>
    decreases topics.len(),
{
    if topics.len() == 0 {
        seq![]
    } else if end_count(topics.last(), published) > 0 {
        end_lines(topics.drop_last(), published).push(end_line(topics.last(), published))
    } else {
        end_lines(topics.drop_last(), published)
    }
}

fn push_end_lines(out: &mut Vec<String>, topics: &Vec<TopicInfo>, published: bool)
    ensures
        texts(final(out)@) == texts(old(out)@) + end_lines(topic_infos(topics@), published),
{
    let ghost first = texts(out@);
    let ghost views = topic_infos(topics@);
    let mut i: usize = 0;
    assert(texts(out@) =~= first + end_lines(views.take(0), published));
    while i < topics.len()
        invariant
            views == topic_infos(topics@),
            i <= topics.len(),
            texts(out@) == first + end_lines(views.take(i as int), published),
        decreases topics.len() - i,
    {
        let ghost before = texts(out@);
        proof {
            assert(views.take(i + 1).drop_last() =~= views.take(i as int));
            assert(views[i as int] == topics@[i as int]@);
        }
        let count: usize = if published {
            topics[i].publisher_count
        } else {
            topics[i].subscription_count
        };
        if count > 0 {
            let mut line = join2(" * ", topics[i].name.as_str());
            line.append(" [");
            line.append(format_types(&topics[i].type_names).as_str());
            line.append("] ");
            line.append(decimal_text(count as u64).as_str());
            line.append(" ");
            line.append(
                if published {
                    pluralize(count, "publisher", "publishers")
                } else {
                    pluralize(count, "subscriber", "subscribers")
                },
            );
            out.push(line);
            assert(texts(out@) =~= before.push(line@));
            assert(texts(out@) =~= first + end_lines(views.take(i + 1), published));
        }
        i += 1;
    }
    assert(views.take(i as int) =~= views);
}

/// What is printed of topics in full.
pub open spec fn verbose_text(topics: Seq<TopicInfoView>) -> Seq<Seq<char>> {
    seq!["Published topics:"@] + end_lines(topics, true) + seq![""@, "Subscribed topics:"@]
        + end_lines(topics, false)
}

/// The lines for topics in full.
pub fn verbose_lines(topics: &Vec<TopicInfo>) -> (r: Vec<String>)
    ensures
        texts(r@) == verbose_text(topic_infos(topics@)),
{
    let ghost views = topic_infos(topics@);
    let mut out: Vec<String> = Vec::new();
    out.push("Published topics:".to_owned());
    assert(texts(out@) =~= seq!["Published topics:"@]);
    push_end_lines(&mut out, topics, true);
    let ghost before = texts(out@);
    out.push("".to_owned());
    out.push("Subscribed topics:".to_owned());
    assert(texts(out@) =~= before + seq![""@, "Subscribed topics:"@]);
    push_end_lines(&mut out, topics, false);
    out
}

/// What comes back of the request.
#[derive(Debug)]
pub enum TopicListReply {
    /// The list.
    TopicList(TopicListResponse),
    /// The server reports an error.
    Error(String),
    /// Another answer.
    Other,
}

/// What the command does with the answer.
pub enum ListStep {
    /// Print these lines.
    Print(Vec<String>),
    /// Ask for the details of the first topics. The second cannot be recorded anyway.
    FetchDetails(Vec<TopicInfo>, Vec<TopicInfo>),
    /// Fail with this message.
    Fail(String),
}

/// `step` is what the command does with the answer: it prints how many topics there are, or
/// all about them, or asks for more of those that may be recorded.
pub open spec fn is_list_step(
    args: TopicListCommand,
    reply: TopicListReply,
    step: ListStep,
) -> bool {
    match reply {
        TopicListReply::TopicList(response) => if args.count_only {
            step matches ListStep::Print(lines) && texts(lines@) == seq![
                decimal(response.total_count as nat),
            ]
        } else if args.verbose {
            step matches ListStep::Print(lines) && texts(lines@) == verbose_text(
                topic_infos(response.topics@),
            )
        } else {
            step matches ListStep::FetchDetails(needs_fetch, internal) && needs_fetch@
                == candidates(response.topics@, true) && internal@ == candidates(
                response.topics@,
                false,
            )
        },
        TopicListReply::Error(message) => step == ListStep::Fail(message),
        TopicListReply::Other => step matches ListStep::Fail(message) && message@
            == "unexpected response for topic list request"@,
    }
}

/// What the command does with the answer.
pub fn run(args: TopicListCommand, reply: TopicListReply) -> (r: ListStep)
    ensures
        is_list_step(args, reply, r),
{
    match reply {
        TopicListReply::TopicList(response) => {
            if args.count_only {
                let mut lines: Vec<String> = Vec::new();
                lines.push(decimal_text(response.total_count as u64));
                assert(texts(lines@) =~= seq![decimal(response.total_count as nat)]);
                return ListStep::Print(lines);
            }
            if args.verbose {
                return ListStep::Print(verbose_lines(&response.topics));
            }
            let (needs_fetch, internal) = split_topics(response.topics);
            ListStep::FetchDetails(needs_fetch, internal)
        },
        TopicListReply::Error(message) => ListStep::Fail(message),
        TopicListReply::Other => ListStep::Fail(
            "unexpected response for topic list request".to_owned(),
        ),
    }
}

// Laws.

proof fn lemma_by_reach_origin(
    topics: Seq<TopicInfo>,
    local_only: Seq<Option<bool>>,
    local: bool,
    i: int,
) -> (at: int)
    requires
        topics.len() == local_only.len(),
        0 <= i < by_reach(topics, local_only, local).len(),
    ensures
        0 <= at < topics.len(),
        by_reach(topics, local_only, local)[i] == topics[at],
        (local_only[at] == Some(true)) == local,
    decreases topics.len(),
{
    let earlier = by_reach(topics.drop_last(), local_only.drop_last(), local);
    if i < earlier.len() {
        lemma_by_reach_origin(topics.drop_last(), local_only.drop_last(), local, i)
    } else {
        topics.len() - 1
    }
}

/// A list holds a topic just where its topics of that name hold it.
proof fn lemma_with_name(list: Seq<TopicInfo>, topic: TopicInfo)
    ensures
        with_name(list, topic.name_view()).contains(topic) == list.contains(topic),
    decreases list.len(),
{
    reveal(Seq::filter);
    if list.len() > 0 {
        let shorter = list.drop_last();
        let name = topic.name_view();
        lemma_with_name(shorter, topic);
        assert(list =~= shorter.push(list.last()));
        lemma_push_contains(shorter, list.last(), topic);
        lemma_push_contains(with_name(shorter, name), list.last(), topic);
    }
}

proof fn lemma_push_contains(list: Seq<TopicInfo>, last: TopicInfo, topic: TopicInfo)
    ensures
        list.push(last).contains(topic) == (list.contains(topic) || topic == last),
{
    let longer = list.push(last);
    if list.contains(topic) {
        let i = choose|i: int| 0 <= i < list.len() && list[i] == topic;
        assert(longer[i] == topic);
    }
    if topic == last {
        assert(longer[list.len() as int] == topic);
    }
    if longer.contains(topic) {
        let i = choose|i: int| 0 <= i < longer.len() && longer[i] == topic;
        if i < list.len() {
            assert(list[i] == topic);
        }
    }
}

/// A sorted list holds what the list holds.
proof fn lemma_sorted_contains(sorted: Seq<TopicInfo>, list: Seq<TopicInfo>, topic: TopicInfo)
    requires
        sorts(sorted, list),
    ensures
        sorted.contains(topic) == list.contains(topic),
{
    lemma_with_name(sorted, topic);
    lemma_with_name(list, topic);
    assert(with_name(sorted, topic.name_view()) == with_name(list, topic.name_view()));
}

/// The candidates of a list are those of its topics that are candidates.
proof fn lemma_candidates_contain(topics: Seq<TopicInfo>, wanted: bool, topic: TopicInfo)
    ensures
        candidates(topics, wanted).contains(topic) == (topics.contains(topic) && candidate(topic@)
            == wanted),
    decreases topics.len(),
{
    reveal(Seq::filter);
    if topics.len() > 0 {
        let shorter = topics.drop_last();
        lemma_candidates_contain(shorter, wanted, topic);
        assert(topics =~= shorter.push(topics.last()));
        lemma_push_contains(shorter, topics.last(), topic);
        lemma_push_contains(candidates(shorter, wanted), topics.last(), topic);
    }
}

/// Every topic is local only or not.
proof fn lemma_by_reach_contains(
    topics: Seq<TopicInfo>,
    local_only: Seq<Option<bool>>,
    topic: TopicInfo,
)
    requires
        topics.len() == local_only.len(),
    ensures
        topics.contains(topic) == (by_reach(topics, local_only, true).contains(topic) || by_reach(
            topics,
            local_only,
            false,
        ).contains(topic)),
    decreases topics.len(),
{
    if topics.len() > 0 {
        let shorter = topics.drop_last();
        let flags = local_only.drop_last();
        lemma_by_reach_contains(shorter, flags, topic);
        assert(topics =~= shorter.push(topics.last()));
        lemma_push_contains(shorter, topics.last(), topic);
        lemma_push_contains(by_reach(shorter, flags, true), topics.last(), topic);
        lemma_push_contains(by_reach(shorter, flags, false), topics.last(), topic);
    }
}

/// Only topics that pass every filter are listed as recordable: the name lets them be
/// recorded, they have subscribers, and they are not known to be local only.
pub proof fn law_recordable_topics_pass_all_filters(
    topics: Seq<TopicInfo>,
    local_only: Seq<Option<bool>>,
    recordable: Seq<TopicInfo>,
    i: int,
)
    requires
        local_only.len() == candidates(topics, true).len(),
        sorts(recordable, by_reach(candidates(topics, true), local_only, false)),
        0 <= i < recordable.len(),
    ensures
        topics.contains(recordable[i]),
        !internal_name(recordable[i]@.name),
        recordable[i].subscription_count > 0,
        exists|at: int|
            0 <= at < local_only.len() && #[trigger] candidates(topics, true)[at] == recordable[i]
                && local_only[at] != Some(true),
{
    let topic = recordable[i];
    let chosen = candidates(topics, true);
    let reached = by_reach(chosen, local_only, false);
    assert(recordable.contains(topic));
    lemma_sorted_contains(recordable, reached, topic);
    let j = choose|j: int| 0 <= j < reached.len() && reached[j] == topic;
    let at = lemma_by_reach_origin(chosen, local_only, false, j);
    assert(chosen[at] == topic);
    assert(chosen.contains(topic));
    lemma_candidates_contain(topics, true, topic);
}

proof fn lemma_by_reach_len(topics: Seq<TopicInfo>, local_only: Seq<Option<bool>>)
    requires
        topics.len() == local_only.len(),
    ensures
        by_reach(topics, local_only, true).len() + by_reach(topics, local_only, false).len()
            == topics.len(),
    decreases topics.len(),
{
    if topics.len() > 0 {
        lemma_by_reach_len(topics.drop_last(), local_only.drop_last());
    }
}

proof fn lemma_candidates_len(topics: Seq<TopicInfo>)
    ensures
        candidates(topics, true).len() + candidates(topics, false).len() == topics.len(),
    decreases topics.len(),
{
    reveal(Seq::filter);
    if topics.len() > 0 {
        lemma_candidates_len(topics.drop_last());
    }
}

/// Every topic is listed, as recordable or not, and nothing else is; there are as many
/// entries as there are topics, each list in the order of names.
pub proof fn law_every_topic_listed(
    topics: Seq<TopicInfo>,
    local_only: Seq<Option<bool>>,
    recordable: Seq<TopicInfo>,
    internal: Seq<TopicInfo>,
    topic: TopicInfo,
)
    requires
        local_only.len() == candidates(topics, true).len(),
        sorts(recordable, by_reach(candidates(topics, true), local_only, false)),
        sorts(
            internal,
            candidates(topics, false) + by_reach(candidates(topics, true), local_only, true),
        ),
    ensures
        recordable.len() + internal.len() == topics.len(),
        topics.contains(topic) == (recordable.contains(topic) || internal.contains(topic)),
        in_order(recordable),
        in_order(internal),
{
    let chosen = candidates(topics, true);
    let others = candidates(topics, false);
    let local = by_reach(chosen, local_only, true);
    lemma_candidates_len(topics);
    lemma_by_reach_len(chosen, local_only);
    lemma_candidates_contain(topics, true, topic);
    lemma_candidates_contain(topics, false, topic);
    lemma_by_reach_contains(chosen, local_only, topic);
    lemma_sorted_contains(recordable, by_reach(chosen, local_only, false), topic);
    lemma_sorted_contains(internal, others + local, topic);
    if others.contains(topic) {
        let i = choose|i: int| 0 <= i < others.len() && others[i] == topic;
        assert((others + local)[i] == topic);
    }
    if local.contains(topic) {
        let i = choose|i: int| 0 <= i < local.len() && local[i] == topic;
        assert((others + local)[others.len() + i] == topic);
    }
    if (others + local).contains(topic) {
        let i = choose|i: int| 0 <= i < (others + local).len() && (others + local)[i] == topic;
        if i < others.len() {
            assert(others[i] == topic);
        } else {
            assert(local[i - others.len()] == topic);
        }
    }
}

} // verus!
