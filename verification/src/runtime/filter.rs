//! Which topics are let through the kernel filter, and which need a helper that reads
//! them from shared memory.

use crate::runtime::sessions::{Sessions, SessionsView};
use crate::sorted::{sorted_list, sorted_texts, text_before, SortKey, SortedTable, TextSet};
use crate::text::{clone_texts, same_text, text_opt, texts};
use vstd::prelude::*;
use vstd::string::*;

verus! {

/// Which topics the kernel filter lets through.
pub enum TopicFilter {
    /// Every topic.
    All,
    /// No topic.
    Nothing,
    /// The given topics.
    Selected(Vec<String>),
}

/// All topics are recorded.
pub open spec fn records_all(sessions: SessionsView) -> bool {
    sessions.recording matches Some(recording) && recording.topics.len() == 0
}

/// The topics that are recorded or watched by name.
pub open spec fn watched(sessions: SessionsView) -> Set<Seq<char>> {
    Set::new(
        |topic: Seq<char>|
            {
                ||| sessions.recording matches Some(recording) && recording.topics.contains(topic)
                ||| sessions.bw matches Some(bw) && bw.topic_name == topic
                ||| sessions.delay matches Some(delay) && delay.topic_name == topic
                ||| sessions.echo matches Some(echo) && echo.topic_name == topic
                ||| sessions.hz matches Some(hz) && hz.topic_name == topic
            },
    )
}

/// `filter` lets through what is recorded or watched, and nothing else.
pub open spec fn is_wanted_filter(filter: TopicFilter, sessions: SessionsView) -> bool {
    if records_all(sessions) {
        filter is All
    } else if watched(sessions) == Set::<Seq<char>>::empty() {
        filter is Nothing
    } else {
        &&& filter matches TopicFilter::Selected(topics)
        &&& sorted_texts(texts(topics@))
        &&& texts(topics@).to_set() == watched(sessions)
    }
}

fn put_text(set: &mut TextSet, text: &str)
    requires
        old(set).wf(),
    ensures
        final(set).wf(),
        final(set)@.dom() == old(set)@.dom().insert(text@),
{
    let key = text.to_owned();
    assert(key.shape() == text@);
    set.put(key, ());
    assert(set@.dom() =~= old(set)@.dom().insert(text@));
}

/// The topics that are recorded or watched by name.
fn watched_topics(sessions: &Sessions) -> (r: TextSet)
    ensures
        r.wf(),
        r@.dom() == watched(sessions@),
{
    let mut set: TextSet = SortedTable::new();
    match &sessions.recording {
        None => {},
        Some(recording) => {
            let ghost names = texts(recording.topics@);
            let mut i: usize = 0;
            while i < recording.topics.len()
                invariant
                    names == texts(recording.topics@),
                    i <= recording.topics.len(),
                    set.wf(),
                    forall|topic: Seq<char>|
                        #[trigger] set@.dom().contains(topic) <==> names.take(i as int).contains(
                            topic,
                        ),
                decreases recording.topics.len() - i,
            {
                put_text(&mut set, recording.topics[i].as_str());
                proof {
                    let before = names.take(i as int);
                    let after = names.take(i + 1);
                    assert(after =~= before.push(names[i as int]));
                    assert forall|topic: Seq<char>| #[trigger] set@.dom().contains(
                        topic,
                    ) <==> after.contains(topic) by {
                        if before.contains(topic) {
                            let j = choose|j: int| 0 <= j < before.len() && before[j] == topic;
                            assert(after[j] == topic);
                        }
                        assert(after[i as int] == names[i as int]);
                        if after.contains(topic) {
                            let j = choose|j: int| 0 <= j < after.len() && after[j] == topic;
                            if j < i {
                                assert(before[j] == topic);
                            }
                        }
                    }
                }
                i += 1;
            }
            assert(names.take(i as int) =~= names);
        },
    }
    match &sessions.bw {
        None => {},
        Some(session) => put_text(&mut set, session.topic_name()),
    }
    match &sessions.delay {
        None => {},
        Some(session) => put_text(&mut set, session.topic_name()),
    }
    match &sessions.echo {
        None => {},
        Some(session) => put_text(&mut set, session.topic_name()),
    }
    match &sessions.hz {
        None => {},
        Some(session) => put_text(&mut set, session.topic_name()),
    }
    assert(set@.dom() =~= watched(sessions@));
    set
}

fn all_recorded(sessions: &Sessions) -> (r: bool)
    ensures
        r == records_all(sessions@),
{
    match &sessions.recording {
        None => false,
        Some(recording) => {
            assert(recording@.topics.len() == recording.topics@.len());
            recording.topics.len() == 0
        },
    }
}

/// Tells which topics the kernel filter is to let through.
pub fn sync_topic_filter(sessions: &Sessions) -> (r: TopicFilter)
    ensures
        is_wanted_filter(r, sessions@),
{
    if all_recorded(sessions) {
        return TopicFilter::All;
    }
    let topics = sorted_list(watched_topics(sessions));
    if topics.len() == 0 {
        assert(texts(topics@).to_set() =~= Set::<Seq<char>>::empty());
        TopicFilter::Nothing
    } else {
        assert(texts(topics@).to_set().contains(texts(topics@)[0]));
        TopicFilter::Selected(topics)
    }
}

/// Tells which topics the kernel filter is to let through for a recording that is about to
/// start.
pub fn recording_filter(topics: &Vec<String>) -> (r: TopicFilter)
    ensures
        if topics@.len() == 0 {
            r is All
        } else {
            r matches TopicFilter::Selected(selected) && texts(selected@) == texts(topics@)
        },
{
    if topics.len() == 0 {
        TopicFilter::All
    } else {
        TopicFilter::Selected(clone_texts(topics))
    }
}

/// A topic is let through.
pub open spec fn passes(filter: TopicFilter, topic: Seq<char>) -> bool {
    match filter {
        TopicFilter::All => true,
        TopicFilter::Nothing => false,
        TopicFilter::Selected(topics) => texts(topics@).contains(topic),
    }
}

/// The filter lets a topic through if and only if it is recorded or watched.
pub proof fn law_filter_passes_what_is_watched(
    filter: TopicFilter,
    sessions: SessionsView,
    topic: Seq<char>,
)
    requires
        is_wanted_filter(filter, sessions),
    ensures
        passes(filter, topic) <==> records_all(sessions) || watched(sessions).contains(topic),
{
    match filter {
        TopicFilter::Selected(topics) => {
            assert(texts(topics@).to_set().contains(topic) <==> texts(topics@).contains(topic));
        },
        _ => {},
    }
}

// Shared memory.

/// A writer: the ROS name of its topic, if it has one, and whether its samples can only
/// be had from shared memory.
pub struct ShadowCandidate {
    pub topic: Option<String>,
    pub needs_shadow: bool,
}

/// Some writer on the topic needs a helper.
pub open spec fn has_shm_publisher(
    publications: Seq<ShadowCandidate>,
    topic: Seq<char>,
) -> bool {
    exists|i: int|
        0 <= i < publications.len() && text_opt((#[trigger] publications[i]).topic) == Some(topic)
            && publications[i].needs_shadow
}

/// The topics that need a helper: those that are recorded or watched and have a writer
/// that needs one.
pub open spec fn shadow_wanted(
    sessions: SessionsView,
    publications: Seq<ShadowCandidate>,
) -> Set<Seq<char>> {
    Set::new(
        |topic: Seq<char>|
            (records_all(sessions) || watched(sessions).contains(topic)) && has_shm_publisher(
                publications,
                topic,
            ),
    )
}

/// Which helpers to start and which to stop.
pub struct ShadowPlan {
    pub start: Vec<String>,
    pub stop: Vec<String>,
}

/// Whether some writer on the topic needs a helper.
pub fn topic_has_shm_publisher(topic: &str, publications: &Vec<ShadowCandidate>) -> (r: bool)
    ensures
        r == has_shm_publisher(publications@, topic@),
{
    let mut i: usize = 0;
    while i < publications.len()
        invariant
            i <= publications.len(),
            forall|j: int|
                0 <= j < i ==> !(text_opt((#[trigger] publications@[j]).topic) == Some(topic@)
                    && publications@[j].needs_shadow),
        decreases publications.len() - i,
    {
        let hit = match &publications[i].topic {
            None => false,
            Some(name) => same_text(name.as_str(), topic) && publications[i].needs_shadow,
        };
        if hit {
            assert(text_opt(publications@[i as int].topic) == Some(topic@));
            return true;
        }
        i += 1;
    }
    false
}

/// The topics of all writers that need a helper.
fn all_shm_topics(publications: &Vec<ShadowCandidate>) -> (r: TextSet)
    ensures
        r.wf(),
        forall|topic: Seq<char>|
            #[trigger] r@.dom().contains(topic) <==> has_shm_publisher(publications@, topic),
{
    let mut set: TextSet = SortedTable::new();
    let ghost all = publications@;
    let mut i: usize = 0;
    while i < publications.len()
        invariant
            all == publications@,
            i <= all.len(),
            set.wf(),
            forall|topic: Seq<char>|
                #[trigger] set@.dom().contains(topic) <==> has_shm_publisher(
                    all.take(i as int),
                    topic,
                ),
        decreases all.len() - i,
    {
        let ghost before = all.take(i as int);
        let ghost after = all.take(i + 1);
        let ghost earlier = set@.dom();
        match &publications[i].topic {
            None => {},
            Some(name) => if publications[i].needs_shadow {
                put_text(&mut set, name.as_str());
            },
        }
        proof {
            assert(after[i as int] == all[i as int]);
            assert forall|topic: Seq<char>| #[trigger] set@.dom().contains(
                topic,
            ) <==> has_shm_publisher(after, topic) by {
                assert(earlier.contains(topic) <==> has_shm_publisher(before, topic));
                if has_shm_publisher(before, topic) {
                    let j = choose|j: int|
                        0 <= j < before.len() && text_opt((#[trigger] before[j]).topic) == Some(
                            topic,
                        ) && before[j].needs_shadow;
                    assert(after[j] == before[j]);
                }
                if has_shm_publisher(after, topic) {
                    let j = choose|j: int|
                        0 <= j < after.len() && text_opt((#[trigger] after[j]).topic) == Some(topic)
                            && after[j].needs_shadow;
                    if j < i {
                        assert(before[j] == after[j]);
                    }
                }
            }
        }
        i += 1;
    }
    assert(all.take(i as int) =~= all);
    set
}

fn wanted_topics(sessions: &Sessions, publications: &Vec<ShadowCandidate>) -> (r: TextSet)
    ensures
        r.wf(),
        r@.dom() == shadow_wanted(sessions@, publications@),
{
    if all_recorded(sessions) {
        let r = all_shm_topics(publications);
        assert(r@.dom() =~= shadow_wanted(sessions@, publications@));
        return r;
    }
    let candidates = sorted_list(watched_topics(sessions));
    let ghost names = texts(candidates@);
    assert(names.to_set() == watched(sessions@));
    let mut set: TextSet = SortedTable::new();
    let mut i: usize = 0;
    while i < candidates.len()
        invariant
            names == texts(candidates@),
            i <= candidates.len(),
            set.wf(),
            forall|topic: Seq<char>|
                #[trigger] set@.dom().contains(topic) <==> names.take(i as int).contains(topic)
                    && has_shm_publisher(publications@, topic),
        decreases candidates.len() - i,
    {
        let ghost before = names.take(i as int);
        let ghost after = names.take(i + 1);
        let ghost earlier = set@.dom();
        if topic_has_shm_publisher(candidates[i].as_str(), publications) {
            put_text(&mut set, candidates[i].as_str());
        }
        proof {
            assert(after[i as int] == names[i as int]);
            assert forall|topic: Seq<char>| #[trigger] set@.dom().contains(
                topic,
            ) <==> after.contains(topic) && has_shm_publisher(publications@, topic) by {
                assert(earlier.contains(topic) <==> before.contains(topic) && has_shm_publisher(
                    publications@,
                    topic,
                ));
                if before.contains(topic) {
                    let j = choose|j: int| 0 <= j < before.len() && before[j] == topic;
                    assert(after[j] == topic);
                }
                if after.contains(topic) {
                    let j = choose|j: int| 0 <= j < after.len() && after[j] == topic;
                    if j < i {
                        assert(before[j] == topic);
                    }
                }
            }
        }
        i += 1;
    }
    proof {
        assert(names.take(i as int) =~= names);
        assert forall|topic: Seq<char>| set@.dom().contains(topic) <==> shadow_wanted(
            sessions@,
            publications@,
        ).contains(topic) by {
            assert(names.to_set().contains(topic) <==> names.contains(topic));
        }
        assert(set@.dom() =~= shadow_wanted(sessions@, publications@));
    }
    set
}

fn has_entry(list: &Vec<String>, text: &str) -> (r: bool)
    ensures
        r == texts(list@).contains(text@),
{
    let ghost views = texts(list@);
    let mut i: usize = 0;
    while i < list.len()
        invariant
            views == texts(list@),
            i <= list.len(),
            forall|j: int| 0 <= j < i ==> #[trigger] views[j] != text@,
        decreases list.len() - i,
    {
        if same_text(list[i].as_str(), text) {
            assert(views[i as int] == text@);
            return true;
        }
        i += 1;
    }
    false
}

/// The entries of one list that are not in another, in order.
fn without(list: &Vec<String>, other: &Vec<String>) -> (r: Vec<String>)
    ensures
        texts(r@) == texts(list@).filter(|text: Seq<char>| !texts(other@).contains(text)),
{
    let ghost views = texts(list@);
    let ghost keep = |text: Seq<char>| !texts(other@).contains(text);
    let mut r: Vec<String> = Vec::new();
    let mut i: usize = 0;
    proof {
        reveal(Seq::filter);
        assert(texts(r@) =~= views.take(0).filter(keep));
    }
    while i < list.len()
        invariant
            views == texts(list@),
            keep == (|text: Seq<char>| !texts(other@).contains(text)),
            i <= list.len(),
            texts(r@) == views.take(i as int).filter(keep),
        decreases list.len() - i,
    {
        let ghost earlier = texts(r@);
        proof {
            reveal(Seq::filter);
            assert(views.take(i + 1).drop_last() =~= views.take(i as int));
        }
        if !has_entry(other, list[i].as_str()) {
            r.push(list[i].clone());
            assert(texts(r@) =~= earlier.push(views[i as int]));
        }
        i += 1;
    }
    assert(views.take(i as int) =~= views);
    r
}

/// Tells which helpers to start, in order, and which of the active ones to stop.
pub fn sync_shadow_subs(
    sessions: &Sessions,
    publications: &Vec<ShadowCandidate>,
    active: &Vec<String>,
) -> (r: ShadowPlan)
    ensures
        ({
            let wanted = shadow_wanted(sessions@, publications@);
            &&& sorted_texts(texts(r.start@))
            &&& texts(r.start@).to_set() == wanted.difference(texts(active@).to_set())
            &&& texts(r.stop@) == texts(active@).filter(
                |text: Seq<char>| !wanted.contains(text),
            )
        }),
{
    let wanted = sorted_list(wanted_topics(sessions, publications));
    let start = without(&wanted, active);
    let stop = without(active, &wanted);
    proof {
        let list = texts(wanted@);
        let set = shadow_wanted(sessions@, publications@);
        assert(list.to_set() == set);
        let by_list = |text: Seq<char>| !list.contains(text);
        let by_set = |text: Seq<char>| !set.contains(text);
        assert forall|text: Seq<char>| #[trigger] by_list(text) == by_set(text) by {
            assert(list.to_set().contains(text) <==> list.contains(text));
        }
        assert(by_list =~= by_set);
        let running = texts(active@);
        let new = |text: Seq<char>| !running.contains(text);
        lemma_filter_sorted(list, new);
        assert forall|text: Seq<char>| texts(start@).to_set().contains(text) <==> set.difference(
            running.to_set(),
        ).contains(text) by {
            lemma_filter_members(list, new, text);
            assert(list.to_set().contains(text) <==> list.contains(text));
            assert(running.to_set().contains(text) <==> running.contains(text));
        }
        assert(texts(start@).to_set() =~= set.difference(running.to_set()));
    }
    ShadowPlan { start, stop }
}

proof fn lemma_filter_members(list: Seq<Seq<char>>, keep: spec_fn(Seq<char>) -> bool, text: Seq<char>)
    ensures
        list.filter(keep).contains(text) <==> list.contains(text) && keep(text),
    decreases list.len(),
{
    reveal(Seq::filter);
    if list.len() > 0 {
        let before = list.drop_last();
        lemma_filter_members(before, keep, text);
        let kept = before.filter(keep);
        if before.contains(text) {
            let i = choose|i: int| 0 <= i < before.len() && before[i] == text;
            assert(list[i] == text);
        }
        if list.contains(text) {
            let i = choose|i: int| 0 <= i < list.len() && list[i] == text;
            if i < before.len() {
                assert(before[i] == text);
            }
        }
        assert(list[list.len() - 1] == list.last());
        if keep(list.last()) {
            let all = kept.push(list.last());
            assert(all[kept.len() as int] == list.last());
            if kept.contains(text) {
                let i = choose|i: int| 0 <= i < kept.len() && kept[i] == text;
                assert(all[i] == text);
            }
            if all.contains(text) {
                let i = choose|i: int| 0 <= i < all.len() && all[i] == text;
                if i < kept.len() {
                    assert(kept[i] == text);
                }
            }
        }
    }
}

proof fn lemma_filter_sorted(list: Seq<Seq<char>>, keep: spec_fn(Seq<char>) -> bool)
    requires
        sorted_texts(list),
    ensures
        sorted_texts(list.filter(keep)),
    decreases list.len(),
{
    reveal(Seq::filter);
    if list.len() > 0 {
        let before = list.drop_last();
        assert(sorted_texts(before)) by {
            assert forall|i: int, j: int| 0 <= i < j < before.len() implies text_before(
                #[trigger] before[i],
                #[trigger] before[j],
            ) by {
                assert(before[i] == list[i] && before[j] == list[j]);
            }
        }
        lemma_filter_sorted(before, keep);
        let kept = before.filter(keep);
        if keep(list.last()) {
            let all = kept.push(list.last());
            assert forall|i: int, j: int| 0 <= i < j < all.len() implies text_before(
                #[trigger] all[i],
                #[trigger] all[j],
            ) by {
                if j == kept.len() {
                    assert(kept.contains(kept[i]));
                    lemma_filter_members(before, keep, kept[i]);
                    let k = choose|k: int| 0 <= k < before.len() && before[k] == kept[i];
                    assert(text_before(list[k], list[list.len() - 1]));
                } else {
                    assert(all[i] == kept[i] && all[j] == kept[j]);
                }
            }
        }
    }
}

/// Once the plan is carried out, exactly the wanted helpers run.
pub proof fn law_plan_reaches_wanted(
    plan: ShadowPlan,
    wanted: Set<Seq<char>>,
    active: Seq<Seq<char>>,
    topic: Seq<char>,
)
    requires
        texts(plan.start@).to_set() == wanted.difference(active.to_set()),
        texts(plan.stop@) == active.filter(|text: Seq<char>| !wanted.contains(text)),
    ensures
        (active.contains(topic) && !texts(plan.stop@).contains(topic)) || texts(
            plan.start@,
        ).contains(topic) <==> wanted.contains(topic),
{
    lemma_filter_members(active, |text: Seq<char>| !wanted.contains(text), topic);
    assert(active.to_set().contains(topic) <==> active.contains(topic));
    assert(texts(plan.start@).to_set().contains(topic) <==> texts(plan.start@).contains(topic));
}

} // verus!
