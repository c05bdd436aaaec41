//! The cache between the probe and the writer of recordings, and what the writer does on
//! a command.

use crate::recorder::recorder::Recorder;
use crate::sorted::{is_listing, shapes, SortKey, SortedTable};
use crate::text::text_opt;
use std::collections::VecDeque;
use vstd::prelude::*;
use vstd::string::*;

verus! {

/// How many bytes the cache holds at most.
pub const RECORDER_CACHE_MAX_BYTES: usize = 268_435_456;

/// How many messages are written in one go at most.
pub const RECORDER_BATCH_MAX_MESSAGES: usize = 1024;

/// After how many bytes no further message is written in one go.
pub const RECORDER_BATCH_MAX_BYTES: usize = 16_777_216;

// The cache.

/// The bytes of a list of messages.
pub open spec fn total_bytes<T>(messages: Seq<(T, usize)>) -> nat
    decreases messages.len(),
{
    if messages.len() == 0 {
        0
    } else {
        total_bytes(messages.drop_last()) + messages.last().1 as nat
    }
}

/// Messages that wait to be written, each with its size.
pub struct RecordCache<T> {
    messages: VecDeque<(T, usize)>,
    bytes: usize,
}

impl<T> View for RecordCache<T> {
    type V = Seq<(T, usize)>;

    /// The messages and their sizes, oldest first.
    closed spec fn view(&self) -> Seq<(T, usize)> {
        self.messages@
    }
}

proof fn lemma_total_concat<T>(a: Seq<(T, usize)>, b: Seq<(T, usize)>)
    ensures
        total_bytes(a + b) == total_bytes(a) + total_bytes(b),
    decreases b.len(),
{
    if b.len() == 0 {
        assert(a + b =~= a);
    } else {
        assert((a + b).drop_last() =~= a + b.drop_last());
        lemma_total_concat(a, b.drop_last());
    }
}

/// The messages of a list, without their sizes.
pub open spec fn messages_of<T>(messages: Seq<(T, usize)>) -> Seq<T> {
    messages.map_values(|entry: (T, usize)| entry.0)
}

/// A batch is full: it has enough messages or enough bytes.
pub open spec fn batch_full<T>(batch: Seq<(T, usize)>) -> bool {
    batch.len() >= RECORDER_BATCH_MAX_MESSAGES || total_bytes(batch) >= RECORDER_BATCH_MAX_BYTES
}

/// `len` messages make up the next batch: no shorter one is full, and it is full or
/// all there is. An empty batch is never full.
pub open spec fn is_batch_len<T>(messages: Seq<(T, usize)>, len: int) -> bool {
    &&& 0 <= len <= messages.len()
    &&& forall|n: int| 0 <= n < len ==> !batch_full(#[trigger] messages.take(n))
    &&& len < messages.len() ==> batch_full(messages.take(len))
}

impl<T> RecordCache<T> {
    /// The cache knows how many bytes it holds, and holds no more than it may.
    pub closed spec fn wf(&self) -> bool {
        &&& self.bytes == total_bytes(self.messages@)
        &&& self.bytes <= RECORDER_CACHE_MAX_BYTES
    }

    /// An empty cache.
    pub fn new() -> (r: RecordCache<T>)
        ensures
            r.wf(),
            r@ == Seq::<(T, usize)>::empty(),
    {
        let r = RecordCache { messages: VecDeque::new(), bytes: 0 };
        assert(r.messages@ =~= seq![]);
        r
    }

    /// Adds a message, if there is room for it.
    pub fn push(&mut self, message: T, bytes: usize) -> (r: bool)
        requires
            old(self).wf(),
        ensures
            final(self).wf(),
            r == (total_bytes(old(self)@) + bytes <= RECORDER_CACHE_MAX_BYTES),
            final(self)@ == (if r {
                old(self)@.push((message, bytes))
            } else {
                old(self)@
            }),
    {
        if bytes > RECORDER_CACHE_MAX_BYTES - self.bytes {
            return false;
        }
        self.bytes += bytes;
        self.messages.push_back((message, bytes));
        assert(self.messages@.drop_last() =~= old(self).messages@);
        true
    }

    /// Takes the next batch out.
    pub fn take_batch(&mut self) -> (r: Vec<T>)
        requires
            old(self).wf(),
        ensures
            final(self).wf(),
            is_batch_len(old(self)@, r@.len() as int),
            final(self)@ == old(self)@.skip(r@.len() as int),
            forall|i: int| 0 <= i < r@.len() ==> #[trigger] r@[i] == old(self)@[i].0,
    {
        let ghost all = self.messages@;
        let mut batch: Vec<T> = Vec::new();
        let mut batch_bytes: usize = 0;
        assert(all.skip(0) =~= all);
        while batch.len() < RECORDER_BATCH_MAX_MESSAGES && batch_bytes < RECORDER_BATCH_MAX_BYTES
            && self.messages.len() > 0
            invariant
                all == old(self).messages@,
                batch@.len() <= all.len(),
                self.messages@ == all.skip(batch@.len() as int),
                self.bytes == total_bytes(self.messages@),
                total_bytes(all) <= RECORDER_CACHE_MAX_BYTES,
                batch_bytes == total_bytes(all.take(batch@.len() as int)),
                batch_bytes + self.bytes == total_bytes(all),
                forall|n: int| 0 <= n < batch@.len() ==> !batch_full(#[trigger] all.take(n)),
                forall|i: int| 0 <= i < batch@.len() ==> #[trigger] batch@[i] == all[i].0,
            decreases self.messages@.len(),
        {
            let ghost n = batch@.len() as int;
            let ghost rest = self.messages@;
            match self.messages.pop_front() {
                None => {},
                Some((message, bytes)) => {
                    proof {
                        assert(!batch_full(all.take(n)));
                        assert(all.take(n + 1).drop_last() =~= all.take(n));
                        assert(rest =~= seq![(message, bytes)] + self.messages@);
                        lemma_total_concat(seq![(message, bytes)], self.messages@);
                        reveal_with_fuel(total_bytes, 2);
                        assert(total_bytes(seq![(message, bytes)]) == bytes);
                    }
                    self.bytes -= bytes;
                    batch_bytes += bytes;
                    batch.push(message);
                    assert(self.messages@ =~= all.skip(n + 1));
                },
            }
        }
        batch
    }

    /// Takes everything out, batch by batch.
    pub fn drain_cache(&mut self) -> (r: Vec<T>)
        requires
            old(self).wf(),
        ensures
            final(self).wf(),
            final(self)@ == Seq::<(T, usize)>::empty(),
            r@ == messages_of(old(self)@),
    {
        let ghost all = self@;
        let mut r: Vec<T> = Vec::new();
        assert(all.skip(0) =~= all);
        loop
            invariant_except_break
                r@.len() <= all.len(),
                self@ == all.skip(r@.len() as int),
            invariant
                self.wf(),
                forall|i: int| 0 <= i < r@.len() ==> #[trigger] r@[i] == all[i].0,
            ensures
                r@.len() == all.len(),
                self@ == Seq::<(T, usize)>::empty(),
            decreases self@.len(),
        {
            let ghost before = self@;
            let ghost taken = r@.len() as int;
            let mut batch = self.take_batch();
            proof {
                if before.len() > 0 {
                    law_batch_makes_progress(before, batch@.len() as int);
                }
                assert(self@ =~= all.skip(taken + batch@.len()));
            }
            if batch.len() == 0 {
                assert(self@ =~= seq![]);
                break;
            }
            assert forall|i: int| 0 <= i < batch@.len() implies #[trigger] batch@[i] == all[taken
                + i].0 by {
                assert(before[i] == all[taken + i]);
            }
            r.append(&mut batch);
        }
        assert(r@ =~= messages_of(all));
        r
    }

    /// Empties the cache.
    pub fn clear(&mut self)
        ensures
            final(self).wf(),
            final(self)@ == Seq::<(T, usize)>::empty(),
    {
        self.messages.clear();
        self.bytes = 0;
        assert(self.messages@ =~= seq![]);
    }
}

/// The messages that are taken out, batch by batch, until nothing is left.
pub open spec fn drained<T>(messages: Seq<(T, usize)>, cuts: Seq<int>) -> Seq<(T, usize)>
    decreases cuts.len(),
{
    if cuts.len() == 0 {
        seq![]
    } else {
        messages.take(cuts[0]) + drained(messages.skip(cuts[0]), cuts.skip(1))
    }
}

/// `cuts` are the lengths of the batches that empty the cache.
pub open spec fn empties<T>(messages: Seq<(T, usize)>, cuts: Seq<int>) -> bool
    decreases cuts.len(),
{
    if cuts.len() == 0 {
        messages.len() == 0
    } else {
        is_batch_len(messages, cuts[0]) && empties(messages.skip(cuts[0]), cuts.skip(1))
    }
}

/// A cache that is not empty gives a batch that is not empty.
pub proof fn law_batch_makes_progress<T>(messages: Seq<(T, usize)>, len: int)
    requires
        messages.len() > 0,
        is_batch_len(messages, len),
    ensures
        len > 0,
{
    if len == 0 {
        assert(messages.take(0).len() == 0);
        assert(total_bytes(messages.take(0)) == 0);
    }
}

/// Taking batches until nothing is left gives every message, once, in the order in
/// which they came.
pub proof fn law_drain_gives_everything_in_order<T>(messages: Seq<(T, usize)>, cuts: Seq<int>)
    requires
        empties(messages, cuts),
    ensures
        drained(messages, cuts) == messages,
    decreases cuts.len(),
{
    if cuts.len() > 0 {
        law_drain_gives_everything_in_order(messages.skip(cuts[0]), cuts.skip(1));
        assert(messages.take(cuts[0]) + messages.skip(cuts[0]) =~= messages);
    } else {
        assert(messages =~= seq![]);
    }
}

// Drops.

/// Messages that found no room: since startup, and by topic since a recording started.
pub struct DropCounts {
    total: usize,
    by_topic: SortedTable<String, usize>,
}

/// What [`DropCounts`] hold.
#[verifier::ext_equal]
pub struct DropsView {
    pub total: usize,
    pub by_topic: Map<Seq<char>, usize>,
}

impl View for DropCounts {
    type V = DropsView;

    closed spec fn view(&self) -> DropsView {
        DropsView { total: self.total, by_topic: self.by_topic@ }
    }
}

/// How many messages of a topic found no room.
pub open spec fn drops_of(view: DropsView, topic: Seq<char>) -> usize {
    if view.by_topic.contains_key(topic) {
        view.by_topic[topic]
    } else {
        0
    }
}

/// The counts with one more drop. The count of all drops stays at its largest value.
pub open spec fn with_drop(view: DropsView, topic: Seq<char>) -> DropsView {
    DropsView {
        total: if view.total == usize::MAX {
            view.total
        } else {
            (view.total + 1) as usize
        },
        by_topic: view.by_topic.insert(topic, (drops_of(view, topic) + 1) as usize),
    }
}

impl DropCounts {
    /// The topics stand in order.
    pub closed spec fn wf(&self) -> bool {
        self.by_topic.wf()
    }

    /// No drops.
    pub fn new() -> (r: DropCounts)
        ensures
            r.wf(),
            r@ == (DropsView { total: 0, by_topic: Map::empty() }),
    {
        DropCounts { total: 0, by_topic: SortedTable::new() }
    }

    /// Counts a drop.
    pub fn record_drop(&mut self, topic_name: &str)
        requires
            old(self).wf(),
            drops_of(old(self)@, topic_name@) < usize::MAX,
        ensures
            final(self).wf(),
            final(self)@ == with_drop(old(self)@, topic_name@),
    {
        self.total = self.total.saturating_add(1);
        let key = topic_name.to_owned();
        assert(key.shape() == topic_name@);
        let count: usize = match self.by_topic.get(&key) {
            None => 0,
            Some(count) => *count,
        };
        self.by_topic.put(key, count + 1);
        assert(self@.by_topic =~= with_drop(old(self)@, topic_name@).by_topic);
    }

    /// Forgets the drops by topic. The count since startup stays.
    pub fn reset(&mut self)
        ensures
            final(self).wf(),
            final(self)@ == (DropsView { total: old(self)@.total, by_topic: Map::empty() }),
    {
        self.by_topic = SortedTable::new();
    }

    /// How many messages found no room since startup.
    pub fn dropped_count(&self) -> (r: usize)
        ensures
            r == self@.total,
    {
        self.total
    }

    /// How many messages found no room, by topic, in the order of names.
    pub fn drop_counts(&self) -> (r: &Vec<(String, usize)>)
        requires
            self.wf(),
        ensures
            is_listing::<String, usize>(shapes::<String, usize>(r@), self@.by_topic),
    {
        self.by_topic.entries()
    }
}

fn clone_counts(list: &Vec<(String, usize)>) -> (r: Vec<(String, usize)>)
    ensures
        shapes::<String, usize>(r@) == shapes::<String, usize>(list@),
{
    let mut r: Vec<(String, usize)> = Vec::new();
    let mut i: usize = 0;
    while i < list.len()
        invariant
            i <= list@.len(),
            r@.len() == i,
            forall|j: int|
                0 <= j < i ==> (#[trigger] r@[j]).0@ == list@[j].0@ && r@[j].1 == list@[j].1,
        decreases list@.len() - i,
    {
        r.push((list[i].0.clone(), list[i].1));
        i += 1;
    }
    assert(shapes::<String, usize>(r@) =~= shapes::<String, usize>(list@));
    r
}

/// What is left to do to stop: write the messages, in order, and finish the file. The reply
/// has the output and the drops.
pub struct StopWork<T> {
    /// The messages that are still to be written.
    pub messages: Vec<T>,
    /// The path of the recording that ends, if there is one.
    pub output: Option<String>,
    /// How many messages found no room since the recording started, by topic, in the order
    /// of names.
    pub drops: Vec<(String, usize)>,
}

/// What a [`StopWork`] holds.
#[verifier::ext_equal]
pub struct StopView<T> {
    pub messages: Seq<T>,
    pub output: Option<Seq<char>>,
    pub drops: Seq<(Seq<char>, usize)>,
}

impl<T> View for StopWork<T> {
    type V = StopView<T>;

    open spec fn view(&self) -> StopView<T> {
        StopView {
            messages: self.messages@,
            output: text_opt(self.output),
            drops: shapes::<String, usize>(self.drops@),
        }
    }
}

/// `work` is what is left to do to stop the recording that goes to `output`, with a cache and
/// counts of drops. Without a recording, nothing is written.
pub open spec fn is_stop<T>(
    work: StopView<T>,
    cache: Seq<(T, usize)>,
    drops: DropsView,
    output: Option<Seq<char>>,
) -> bool {
    &&& work.messages == if output is Some {
        messages_of(cache)
    } else {
        seq![]
    }
    &&& work.output == output
    &&& is_listing::<String, usize>(work.drops, drops.by_topic)
}

/// The path of a recording, if there is one.
pub open spec fn output_of(active: Option<&Recorder>) -> Option<Seq<char>> {
    match active {
        None => None,
        Some(recorder) => Some(recorder@.path),
    }
}

/// `later` is what is cached after a message of so many bytes has been offered, and `counted`
/// the drops: the message is kept if there is room, and counted as dropped if not.
pub open spec fn is_offered<T>(
    cache: Seq<(T, usize)>,
    drops: DropsView,
    message: T,
    bytes: usize,
    topic: Seq<char>,
    kept: bool,
    later: Seq<(T, usize)>,
    counted: DropsView,
) -> bool {
    &&& kept == (total_bytes(cache) + bytes <= RECORDER_CACHE_MAX_BYTES)
    &&& later == (if kept {
        cache.push((message, bytes))
    } else {
        cache
    })
    &&& counted == (if kept {
        drops
    } else {
        with_drop(drops, topic)
    })
}

/// The side of the recorder that the probe sees.
pub struct RecorderFront<T> {
    pub cache: RecordCache<T>,
    pub drops: DropCounts,
}

impl<T> RecorderFront<T> {
    /// Cache and counts are in good order.
    pub open spec fn wf(&self) -> bool {
        self.cache.wf() && self.drops.wf()
    }

    /// Nothing cached, nothing dropped.
    pub fn new() -> (r: RecorderFront<T>)
        ensures
            r.wf(),
            r.cache@ == Seq::<(T, usize)>::empty(),
            r.drops@ == (DropsView { total: 0, by_topic: Map::empty() }),
    {
        RecorderFront { cache: RecordCache::new(), drops: DropCounts::new() }
    }

    /// Caches a message, or counts it as dropped if there is no room.
    pub fn try_record(&mut self, message: T, bytes: usize, topic_name: &str) -> (r: bool)
        requires
            old(self).wf(),
            drops_of(old(self).drops@, topic_name@) < usize::MAX,
        ensures
            final(self).wf(),
            is_offered(
                old(self).cache@,
                old(self).drops@,
                message,
                bytes,
                topic_name@,
                r,
                final(self).cache@,
                final(self).drops@,
            ),
    {
        let kept = self.cache.push(message, bytes);
        if !kept {
            self.drops.record_drop(topic_name);
        }
        kept
    }

    /// Stops the recording that is running, if one is: empties the cache, and tells what is
    /// to be written of it before the file is finished.
    pub fn stop(&mut self, active: Option<&Recorder>) -> (r: StopWork<T>)
        requires
            old(self).wf(),
        ensures
            final(self).wf(),
            final(self).cache@ == Seq::<(T, usize)>::empty(),
            final(self).drops@ == old(self).drops@,
            is_stop(r@, old(self).cache@, old(self).drops@, output_of(active)),
    {
        let drained = self.cache.drain_cache();
        let drops = clone_counts(self.drops.drop_counts());
        match active {
            None => {
                let messages: Vec<T> = Vec::new();
                assert(messages@ =~= seq![]);
                StopWork { messages, output: None, drops }
            },
            Some(recorder) => StopWork {
                messages: drained,
                output: Some(recorder.output()),
                drops,
            },
        }
    }

    /// Forgets what was cached, and the drops by topic. The count since startup stays.
    pub fn reset_drop_counts(&mut self)
        ensures
            final(self).wf(),
            final(self).cache@ == Seq::<(T, usize)>::empty(),
            final(self).drops@ == (DropsView {
                total: old(self).drops@.total,
                by_topic: Map::empty(),
            }),
    {
        self.drops.reset();
        self.cache.clear();
    }
}

// Commands.

/// What the writer of recordings is told.
#[derive(Clone, Copy, Debug, Eq, PartialEq)]
pub enum RecorderCommand {
    EnsureChannel,
    Start,
    Stop,
    Shutdown,
}

/// What the writer does last on a command.
#[derive(Clone, Copy, Debug, Eq, PartialEq)]
pub enum ActorStep {
    /// Find or make the channel and reply with its number.
    EnsureChannel,
    /// Reply that there is no recording.
    RefuseNoSession,
    /// Reply that there is a recording already.
    RefuseActiveSession,
    /// Create the recording and reply how that went.
    Create,
    /// Finish the recording and reply with its path.
    Finish,
    /// Reply that there was nothing to finish.
    NothingToFinish,
    /// Finish the recording, if there is one, and end.
    Exit,
}

/// What the writer does on a command.
#[derive(Clone, Copy, Debug, Eq, PartialEq)]
pub struct ActorPlan {
    /// Whether the cache is emptied first.
    pub clear_cache: bool,
    /// Whether everything in the cache is written first.
    pub drain_cache: bool,
    pub step: ActorStep,
}

/// What the writer does on a command, with or without a recording: before a recording
/// ends, everything that was cached is written.
pub open spec fn actor_plan(command: RecorderCommand, active: bool) -> ActorPlan {
    match command {
        RecorderCommand::EnsureChannel => ActorPlan {
            clear_cache: false,
            drain_cache: false,
            step: if active {
                ActorStep::EnsureChannel
            } else {
                ActorStep::RefuseNoSession
            },
        },
        RecorderCommand::Start => ActorPlan {
            clear_cache: true,
            drain_cache: false,
            step: if active {
                ActorStep::RefuseActiveSession
            } else {
                ActorStep::Create
            },
        },
        RecorderCommand::Stop => ActorPlan {
            clear_cache: false,
            drain_cache: true,
            step: if active {
                ActorStep::Finish
            } else {
                ActorStep::NothingToFinish
            },
        },
        RecorderCommand::Shutdown => ActorPlan {
            clear_cache: false,
            drain_cache: true,
            step: ActorStep::Exit,
        },
    }
}

/// Tells what the writer does on a command.
pub fn handle_command(command: RecorderCommand, active: bool) -> (r: ActorPlan)
    ensures
        r == actor_plan(command, active),
{
    match command {
        RecorderCommand::EnsureChannel => ActorPlan {
            clear_cache: false,
            drain_cache: false,
            step: if active { ActorStep::EnsureChannel } else { ActorStep::RefuseNoSession },
        },
        RecorderCommand::Start => ActorPlan {
            clear_cache: true,
            drain_cache: false,
            step: if active { ActorStep::RefuseActiveSession } else { ActorStep::Create },
        },
        RecorderCommand::Stop => ActorPlan {
            clear_cache: false,
            drain_cache: true,
            step: if active { ActorStep::Finish } else { ActorStep::NothingToFinish },
        },
        RecorderCommand::Shutdown => ActorPlan {
            clear_cache: false,
            drain_cache: true,
            step: ActorStep::Exit,
        },
    }
}

/// The message of a refusal, if the step is one.
pub open spec fn refusal_text(step: ActorStep) -> Option<Seq<char>> {
    match step {
        ActorStep::RefuseNoSession => Some("recorder actor has no active session"@),
        ActorStep::RefuseActiveSession => Some("recorder actor already has an active session"@),
        _ => None,
    }
}

/// Gives the message of a refusal.
pub fn refusal(step: ActorStep) -> (r: Option<String>)
    ensures
        text_opt(r) == refusal_text(step),
{
    match step {
        ActorStep::RefuseNoSession => Some("recorder actor has no active session".to_owned()),
        ActorStep::RefuseActiveSession => Some(
            "recorder actor already has an active session".to_owned(),
        ),
        _ => None,
    }
}

} // verus!
