//! What recording promises as a whole: over all messages of a recording, and up to its end.

use crate::assoc::{has_key, key_at, lemma_as_map};
use crate::recorder::actor::{
    actor_plan, batch_full, drained, drops_of, empties, is_batch_len, is_stop,
    law_batch_makes_progress, law_drain_gives_everything_in_order, messages_of, total_bytes,
    with_drop, ActorStep, DropsView, RecorderCommand, StopView, RECORDER_CACHE_MAX_BYTES,
};
use crate::recorder::recorder::{
    book_written, sequence_of, write_step, BookView, ChannelShape, StepView,
};
use crate::recorder::schema::schema_name;
use crate::sorted::{is_listing, law_listing_unique, lemma_sorted_unique, text_before};
use vstd::prelude::*;

verus! {

// Messages, channels and numbers.

/// How far a call to write a message came.
pub enum Reached {
    /// The schema could not be added.
    Nothing,
    /// The schema is there, but the channel could not be added.
    Schema,
    /// The channel is there, but the message could not be written.
    Channel,
    /// The message was written.
    Written,
}

/// A call to write a message, with the numbers that the file gives to a schema and to a
/// channel if they are added.
pub struct WriteCall {
    pub topic: Seq<char>,
    pub schema: Seq<char>,
    pub qos_profile: Seq<char>,
    pub schema_id: u16,
    pub channel_id: u16,
    pub reached: Reached,
}

/// What tells the channel of a call apart.
pub open spec fn channel_of(call: WriteCall) -> ChannelShape {
    ChannelShape {
        topic: call.topic,
        schema_name: schema_name(call.schema),
        qos_profile: call.qos_profile,
    }
}

/// The book with the schema of a call, which is added where it is asked for.
pub open spec fn with_schema(book: BookView, call: WriteCall) -> BookView {
    match write_step(book, call.topic, call.schema, call.qos_profile) {
        StepView::AddSchema { schema_name } => BookView {
            schema_ids: book.schema_ids.insert(schema_name, call.schema_id),
            ..book
        },
        _ => book,
    }
}

/// The book with the schema and the channel of a call, each added where it is asked for.
pub open spec fn with_channel(book: BookView, call: WriteCall) -> BookView {
    let ready = with_schema(book, call);
    match write_step(ready, call.topic, call.schema, call.qos_profile) {
        StepView::AddChannel { .. } => BookView {
            channel_ids: ready.channel_ids.insert(channel_of(call), call.channel_id),
            ..ready
        },
        _ => ready,
    }
}

/// The book after a call.
pub open spec fn book_called(book: BookView, call: WriteCall) -> BookView {
    match call.reached {
        Reached::Nothing => book,
        Reached::Schema => with_schema(book, call),
        Reached::Channel => with_channel(book, call),
        Reached::Written => book_written(
            with_channel(book, call),
            with_channel(book, call).channel_ids[channel_of(call)],
        ),
    }
}

/// The book after a run of calls.
pub open spec fn book_after_calls(book: BookView, calls: Seq<WriteCall>) -> BookView
    decreases calls.len(),
{
    if calls.len() == 0 {
        book
    } else {
        book_called(book_after_calls(book, calls.drop_last()), calls.last())
    }
}

/// The number of the channel that a call writes to.
pub open spec fn number_of(book: BookView, call: WriteCall) -> u16 {
    with_channel(book, call).channel_ids[channel_of(call)]
}

/// How many calls have written under a channel number.
pub open spec fn writes_under(book: BookView, calls: Seq<WriteCall>, channel_id: u16) -> nat
    decreases calls.len(),
{
    if calls.len() == 0 {
        0
    } else {
        let earlier = book_after_calls(book, calls.drop_last());
        writes_under(book, calls.drop_last(), channel_id) + if calls.last().reached is Written
            && number_of(earlier, calls.last()) == channel_id {
            1nat
        } else {
            0nat
        }
    }
}

/// No other channel has been written to under the number of this one. A file that gives each
/// channel a number of its own, as `mcap::Writer::add_channel` does, keeps to that.
pub open spec fn has_own_number(
    book: BookView,
    calls: Seq<WriteCall>,
    channel: ChannelShape,
    channel_id: u16,
) -> bool
    decreases calls.len(),
{
    calls.len() == 0 || {
        let earlier = book_after_calls(book, calls.drop_last());
        &&& has_own_number(book, calls.drop_last(), channel, channel_id)
        &&& calls.last().reached is Written && number_of(earlier, calls.last()) == channel_id
            ==> channel_of(calls.last()) == channel
    }
}

/// How many calls have written to a channel.
pub open spec fn writes_to(calls: Seq<WriteCall>, channel: ChannelShape) -> nat
    decreases calls.len(),
{
    if calls.len() == 0 {
        0
    } else {
        writes_to(calls.drop_last(), channel) + if calls.last().reached is Written && channel_of(
            calls.last(),
        ) == channel {
            1nat
        } else {
            0nat
        }
    }
}

/// The number of the message behind so many others. The last number stays.
pub open spec fn numbered(count: nat) -> u32 {
    if count <= u32::MAX {
        count as u32
    } else {
        u32::MAX
    }
}

/// Nothing has been added or written.
pub open spec fn is_empty_book(book: BookView) -> bool {
    &&& book.schema_ids == Map::<Seq<char>, u16>::empty()
    &&& book.channel_ids == Map::<ChannelShape, u16>::empty()
    &&& book.next_sequence == Map::<u16, u32>::empty()
}

/// Channels have schemas, and whatever has been written to is a channel.
spec fn is_kept(book: BookView, calls: Seq<WriteCall>) -> bool {
    &&& forall|channel: ChannelShape| #[trigger]
        book.channel_ids.contains_key(channel) ==> book.schema_ids.contains_key(channel.schema_name)
    &&& forall|channel: ChannelShape|
        !book.channel_ids.contains_key(channel) ==> #[trigger] writes_to(calls, channel) == 0
}

/// What a call needs is added, and nothing is lost.
proof fn lemma_added(book: BookView, calls: Seq<WriteCall>, call: WriteCall)
    requires
        is_kept(book, calls),
    ensures
        is_kept(with_schema(book, call), calls),
        is_kept(with_channel(book, call), calls),
        with_channel(book, call).channel_ids.contains_key(channel_of(call)),
        write_step(with_channel(book, call), call.topic, call.schema, call.qos_profile)
            == (StepView::Write { channel_id: number_of(book, call) }),
        book.channel_ids.contains_key(channel_of(call)) ==> with_channel(book, call) == book,
{
    let ready = with_schema(book, call);
    let after = with_channel(book, call);
    assert forall|channel: ChannelShape| #[trigger]
        ready.channel_ids.contains_key(channel) implies ready.schema_ids.contains_key(
        channel.schema_name,
    ) by {
        assert(book.channel_ids.contains_key(channel));
    }
    assert forall|channel: ChannelShape|
        !ready.channel_ids.contains_key(channel) implies #[trigger] writes_to(calls, channel)
        == 0 by {
        assert(!book.channel_ids.contains_key(channel));
    }
    assert forall|channel: ChannelShape| #[trigger]
        after.channel_ids.contains_key(channel) implies after.schema_ids.contains_key(
        channel.schema_name,
    ) by {
        if channel != channel_of(call) {
            assert(ready.channel_ids.contains_key(channel));
        }
    }
    assert forall|channel: ChannelShape|
        !after.channel_ids.contains_key(channel) implies #[trigger] writes_to(calls, channel)
        == 0 by {
        assert(!ready.channel_ids.contains_key(channel));
    }
}

/// What holds of the book after any calls, whatever numbers the file gives.
proof fn lemma_after_calls(book: BookView, calls: Seq<WriteCall>)
    requires
        is_empty_book(book),
    ensures
        is_kept(book_after_calls(book, calls), calls),
        forall|channel_id: u16| #[trigger]
            sequence_of(book_after_calls(book, calls), channel_id) == numbered(
                writes_under(book, calls, channel_id),
            ),
    decreases calls.len(),
{
    if calls.len() > 0 {
        let before = calls.drop_last();
        let call = calls.last();
        let earlier = book_after_calls(book, before);
        let now = book_after_calls(book, calls);
        lemma_after_calls(book, before);
        lemma_added(earlier, before, call);
        assert forall|channel: ChannelShape| #[trigger]
            now.channel_ids.contains_key(channel) implies now.schema_ids.contains_key(
            channel.schema_name,
        ) by {
            assert(earlier.channel_ids.contains_key(channel) || with_channel(
                earlier,
                call,
            ).channel_ids.contains_key(channel));
        }
        assert forall|channel: ChannelShape|
            !now.channel_ids.contains_key(channel) implies #[trigger] writes_to(calls, channel)
            == 0 by {
            assert(!earlier.channel_ids.contains_key(channel));
            assert(writes_to(before, channel) == 0);
        }
        assert forall|channel_id: u16| #[trigger]
            sequence_of(now, channel_id) == numbered(writes_under(book, calls, channel_id)) by {
            assert(sequence_of(earlier, channel_id) == numbered(
                writes_under(book, before, channel_id),
            ));
        }
    }
}

/// A channel with a number of its own has as many messages as there are under its number.
proof fn lemma_same_count(
    book: BookView,
    calls: Seq<WriteCall>,
    channel: ChannelShape,
    channel_id: u16,
)
    requires
        is_empty_book(book),
        has_own_number(book, calls, channel, channel_id),
        book_after_calls(book, calls).channel_ids.contains_key(channel) ==> book_after_calls(
            book,
            calls,
        ).channel_ids[channel] == channel_id,
    ensures
        writes_under(book, calls, channel_id) == writes_to(calls, channel),
    decreases calls.len(),
{
    if calls.len() > 0 {
        let before = calls.drop_last();
        let earlier = book_after_calls(book, before);
        lemma_after_calls(book, before);
        lemma_added(earlier, before, calls.last());
        lemma_same_count(book, before, channel, channel_id);
    }
}

/// After any calls, the next message under a channel number has as its number how many have
/// been written under it.
pub proof fn law_messages_under_a_number_counted(
    book: BookView,
    calls: Seq<WriteCall>,
    channel_id: u16,
)
    requires
        is_empty_book(book),
    ensures
        sequence_of(book_after_calls(book, calls), channel_id) == numbered(
            writes_under(book, calls, channel_id),
        ),
{
    lemma_after_calls(book, calls);
}

/// After any calls, `k` of which have written a message with the topic, the schema and the
/// profile of the next call, the header of the next message has the number `k`: on the
/// channel of those messages, or on a new one if there were none. A channel is asked for only
/// if there were none, and a schema only if nothing was written with it. Channels that the
/// file gave one number count together.
pub proof fn law_messages_of_a_channel_numbered(
    book: BookView,
    calls: Seq<WriteCall>,
    next: WriteCall,
)
    requires
        is_empty_book(book),
        has_own_number(
            book,
            calls,
            channel_of(next),
            number_of(book_after_calls(book, calls), next),
        ),
    ensures
        ({
            let now = book_after_calls(book, calls);
            let ready = with_channel(now, next);
            let channel = channel_of(next);
            let count = writes_to(calls, channel);
            let step = write_step(now, next.topic, next.schema, next.qos_profile);
            &&& ready.channel_ids.contains_key(channel)
            &&& sequence_of(ready, number_of(now, next)) == numbered(count)
            &&& write_step(ready, next.topic, next.schema, next.qos_profile) == StepView::Write {
                channel_id: number_of(now, next),
            }
            &&& count > 0 ==> step == StepView::Write { channel_id: now.channel_ids[channel] }
                && ready == now
            &&& step is AddSchema ==> forall|other: ChannelShape|
                other.schema_name == channel.schema_name ==> #[trigger] writes_to(calls, other)
                    == 0
        }),
{
    let now = book_after_calls(book, calls);
    let channel = channel_of(next);
    lemma_after_calls(book, calls);
    lemma_added(now, calls, next);
    lemma_same_count(book, calls, channel, number_of(now, next));
    assert(sequence_of(now, number_of(now, next)) == numbered(writes_to(calls, channel)));
    if write_step(now, next.topic, next.schema, next.qos_profile) is AddSchema {
        assert forall|other: ChannelShape|
            other.schema_name == channel.schema_name implies #[trigger] writes_to(calls, other)
            == 0 by {
            if now.channel_ids.contains_key(other) {
                assert(now.schema_ids.contains_key(other.schema_name));
            }
        }
    }
    if writes_to(calls, channel) > 0 {
        assert(now.channel_ids.contains_key(channel));
    }
}

/// A call that does not write its message advances the number of no channel.
pub proof fn law_failed_call_advances_nothing(book: BookView, call: WriteCall, channel_id: u16)
    requires
        !(call.reached is Written),
    ensures
        sequence_of(book_called(book, call), channel_id) == sequence_of(book, channel_id),
{
}

/// A channel keeps its number through all later calls, and the recording its path and its
/// compression.
pub proof fn law_channels_keep_their_numbers(
    book: BookView,
    calls: Seq<WriteCall>,
    channel: ChannelShape,
)
    ensures
        book.channel_ids.contains_key(channel) ==> book_after_calls(
            book,
            calls,
        ).channel_ids.contains_key(channel) && book_after_calls(book, calls).channel_ids[channel]
            == book.channel_ids[channel],
        book_after_calls(book, calls).path == book.path,
        book_after_calls(book, calls).compression == book.compression,
    decreases calls.len(),
{
    if calls.len() > 0 {
        law_channels_keep_their_numbers(book, calls.drop_last(), channel);
    }
}

// Up to the end of a recording.

/// What happens to the cache while a recording runs.
pub enum CacheCall<T> {
    /// A message is offered.
    Record { message: T, bytes: usize, topic: Seq<char> },
    /// A batch of the given length is taken out and written.
    Write { len: int },
}

/// There is room for so many bytes more.
pub open spec fn has_room<T>(cache: Seq<(T, usize)>, bytes: usize) -> bool {
    total_bytes(cache) + bytes <= RECORDER_CACHE_MAX_BYTES
}

/// The cache after a run of calls on an empty one.
pub open spec fn cache_after<T>(calls: Seq<CacheCall<T>>) -> Seq<(T, usize)>
    decreases calls.len(),
{
    if calls.len() == 0 {
        seq![]
    } else {
        let cache = cache_after(calls.drop_last());
        match calls.last() {
            CacheCall::Record { message, bytes, topic } => if has_room(cache, bytes) {
                cache.push((message, bytes))
            } else {
                cache
            },
            CacheCall::Write { len } => cache.skip(len),
        }
    }
}

/// The messages that were accepted, in order.
pub open spec fn taken_in<T>(calls: Seq<CacheCall<T>>) -> Seq<(T, usize)>
    decreases calls.len(),
{
    if calls.len() == 0 {
        seq![]
    } else {
        let earlier = taken_in(calls.drop_last());
        match calls.last() {
            CacheCall::Record { message, bytes, topic } => if has_room(
                cache_after(calls.drop_last()),
                bytes,
            ) {
                earlier.push((message, bytes))
            } else {
                earlier
            },
            CacheCall::Write { len } => earlier,
        }
    }
}

/// The messages that were handed to the writer, in order.
pub open spec fn handed_out<T>(calls: Seq<CacheCall<T>>) -> Seq<(T, usize)>
    decreases calls.len(),
{
    if calls.len() == 0 {
        seq![]
    } else {
        let earlier = handed_out(calls.drop_last());
        match calls.last() {
            CacheCall::Record { .. } => earlier,
            CacheCall::Write { len } => earlier + cache_after(calls.drop_last()).take(len),
        }
    }
}

/// Every batch is one that the cache gives.
pub open spec fn are_batches<T>(calls: Seq<CacheCall<T>>) -> bool
    decreases calls.len(),
{
    calls.len() == 0 || {
        &&& are_batches(calls.drop_last())
        &&& match calls.last() {
            CacheCall::Record { .. } => true,
            CacheCall::Write { len } => is_batch_len(cache_after(calls.drop_last()), len),
        }
    }
}

/// At any time, what was accepted is what was handed to the writer, followed by what waits.
pub proof fn law_accepted_is_written_or_waits<T>(calls: Seq<CacheCall<T>>)
    requires
        are_batches(calls),
    ensures
        handed_out(calls) + cache_after(calls) == taken_in(calls),
    decreases calls.len(),
{
    if calls.len() > 0 {
        let before = calls.drop_last();
        let cache = cache_after(before);
        law_accepted_is_written_or_waits(before);
        match calls.last() {
            CacheCall::Record { message, bytes, topic } => {
                assert(handed_out(calls) + cache_after(calls) =~= taken_in(calls));
            },
            CacheCall::Write { len } => {
                assert(cache.take(len) + cache.skip(len) =~= cache);
                assert(handed_out(calls) + cache_after(calls) =~= taken_in(calls));
            },
        }
    } else {
        assert(handed_out(calls) + cache_after(calls) =~= taken_in(calls));
    }
}

proof fn lemma_batch_from<T>(messages: Seq<(T, usize)>, start: int) -> (len: int)
    requires
        0 <= start <= messages.len(),
        forall|n: int| 0 <= n < start ==> !batch_full(#[trigger] messages.take(n)),
    ensures
        is_batch_len(messages, len),
    decreases messages.len() - start,
{
    if start == messages.len() || batch_full(messages.take(start)) {
        start
    } else {
        lemma_batch_from(messages, start + 1)
    }
}

/// Every cache is emptied by some batches, no more of them than there are messages.
pub proof fn law_drain_ends<T>(messages: Seq<(T, usize)>) -> (cuts: Seq<int>)
    ensures
        empties(messages, cuts),
        cuts.len() <= messages.len(),
    decreases messages.len(),
{
    if messages.len() == 0 {
        seq![]
    } else {
        let len = lemma_batch_from(messages, 0);
        law_batch_makes_progress(messages, len);
        let rest = law_drain_ends(messages.skip(len));
        let cuts = seq![len] + rest;
        assert(cuts.skip(1) =~= rest);
        cuts
    }
}

/// Whether there is a recording after a command. `created` tells whether one could be made,
/// if it was to be.
pub open spec fn active_after(command: RecorderCommand, active: bool, created: bool) -> bool {
    match actor_plan(command, active).step {
        ActorStep::Create => created,
        ActorStep::Finish => false,
        ActorStep::Exit => false,
        _ => active,
    }
}

/// After a stop there is nothing to finish: a second stop gives no path, whether or not the
/// first did.
pub proof fn law_second_stop_finds_nothing(active: bool, created: bool)
    ensures
        !active_after(RecorderCommand::Stop, active, created),
        actor_plan(
            RecorderCommand::Stop,
            active_after(RecorderCommand::Stop, active, created),
        ).step is NothingToFinish,
{
}

/// How many messages of a topic found no room.
pub open spec fn turned_away<T>(calls: Seq<CacheCall<T>>, topic: Seq<char>) -> nat
    decreases calls.len(),
{
    if calls.len() == 0 {
        0
    } else {
        let earlier = turned_away(calls.drop_last(), topic);
        match calls.last() {
            CacheCall::Record { message, bytes, topic: of } => if of == topic && !has_room(
                cache_after(calls.drop_last()),
                bytes,
            ) {
                earlier + 1
            } else {
                earlier
            },
            CacheCall::Write { .. } => earlier,
        }
    }
}

proof fn lemma_turned_away_bound<T>(calls: Seq<CacheCall<T>>, topic: Seq<char>)
    ensures
        turned_away(calls, topic) <= calls.len(),
    decreases calls.len(),
{
    if calls.len() > 0 {
        lemma_turned_away_bound(calls.drop_last(), topic);
    }
}

/// The counts of drops after a run of calls.
pub open spec fn drops_after<T>(drops: DropsView, calls: Seq<CacheCall<T>>) -> DropsView
    decreases calls.len(),
{
    if calls.len() == 0 {
        drops
    } else {
        let earlier = drops_after(drops, calls.drop_last());
        match calls.last() {
            CacheCall::Record { message, bytes, topic } => if has_room(
                cache_after(calls.drop_last()),
                bytes,
            ) {
                earlier
            } else {
                with_drop(earlier, topic)
            },
            CacheCall::Write { .. } => earlier,
        }
    }
}

/// The drops of a recording are counted topic by topic. Topics without drops are not listed.
pub proof fn law_drops_are_counted<T>(
    drops: DropsView,
    calls: Seq<CacheCall<T>>,
    topic: Seq<char>,
)
    requires
        drops.by_topic == Map::<Seq<char>, usize>::empty(),
        turned_away(calls, topic) <= usize::MAX,
    ensures
        drops_of(drops_after(drops, calls), topic) == turned_away(calls, topic),
        drops_after(drops, calls).by_topic.contains_key(topic) <==> turned_away(calls, topic) > 0,
    decreases calls.len(),
{
    if calls.len() > 0 {
        law_drops_are_counted(drops, calls.drop_last(), topic);
    }
}

/// In a listing of the drops of a recording the topics rise, and each has been turned away as
/// often as it says, at least once.
pub proof fn law_drops_are_listed<T>(
    drops: DropsView,
    calls: Seq<CacheCall<T>>,
    listing: Seq<(Seq<char>, usize)>,
)
    requires
        drops.by_topic == Map::<Seq<char>, usize>::empty(),
        calls.len() <= usize::MAX,
        is_listing::<String, usize>(listing, drops_after(drops, calls).by_topic),
    ensures
        forall|i: int, j: int|
            0 <= i < j < listing.len() ==> text_before(
                (#[trigger] listing[i]).0,
                (#[trigger] listing[j]).0,
            ),
        forall|i: int|
            0 <= i < listing.len() ==> (#[trigger] listing[i]).1 >= 1 && listing[i].1
                == turned_away(calls, listing[i].0),
{
    lemma_sorted_unique::<String, usize>(listing);
    lemma_as_map(listing);
    assert forall|i: int| 0 <= i < listing.len() implies (#[trigger] listing[i]).1 >= 1
        && listing[i].1 == turned_away(calls, listing[i].0) by {
        lemma_turned_away_bound(calls, listing[i].0);
        law_drops_are_counted(drops, calls, listing[i].0);
        assert(key_at(listing, i, listing[i].0));
        assert(has_key(listing, listing[i].0));
    }
}

/// A recording that goes to `output` is stopped after a run of calls, and stopped again. The
/// first stop has every message that was accepted handed to the writer, once, and in the
/// order in which it was accepted, some while it ran and the others before the file is
/// finished. It gives the path, and the topics of which messages found no room, in order, each
/// with how many those were. The second stop has nothing to write and gives no path, and the
/// same drops.
pub proof fn law_stop_writes_everything<T>(
    calls: Seq<CacheCall<T>>,
    drops: DropsView,
    output: Seq<char>,
    first: StopView<T>,
    second: StopView<T>,
)
    requires
        are_batches(calls),
        calls.len() <= usize::MAX,
        drops.by_topic == Map::<Seq<char>, usize>::empty(),
        is_stop(first, cache_after(calls), drops_after(drops, calls), Some(output)),
        is_stop(second, Seq::<(T, usize)>::empty(), drops_after(drops, calls), None),
    ensures
        actor_plan(RecorderCommand::Stop, true).drain_cache,
        actor_plan(RecorderCommand::Stop, true).step is Finish,
        messages_of(handed_out(calls)) + first.messages == messages_of(taken_in(calls)),
        first.output == Some(output),
        forall|i: int, j: int|
            0 <= i < j < first.drops.len() ==> text_before(
                (#[trigger] first.drops[i]).0,
                (#[trigger] first.drops[j]).0,
            ),
        forall|i: int|
            0 <= i < first.drops.len() ==> (#[trigger] first.drops[i]).1 >= 1 && first.drops[i].1
                == turned_away(calls, first.drops[i].0),
        actor_plan(RecorderCommand::Stop, false).step is NothingToFinish,
        second == (StopView { messages: Seq::<T>::empty(), output: None, drops: first.drops }),
{
    law_accepted_is_written_or_waits(calls);
    assert(messages_of(handed_out(calls)) + messages_of(cache_after(calls)) =~= messages_of(
        handed_out(calls) + cache_after(calls),
    ));
    law_drops_are_listed(drops, calls, first.drops);
    law_listing_unique::<String, usize>(
        first.drops,
        second.drops,
        drops_after(drops, calls).by_topic,
    );
}

/// Batch by batch, a cache is emptied of the very messages that a stop hands out.
pub proof fn law_batches_hand_out_what_a_stop_does<T>(
    cache: Seq<(T, usize)>,
    cuts: Seq<int>,
    drops: DropsView,
    output: Seq<char>,
    work: StopView<T>,
)
    requires
        empties(cache, cuts),
        is_stop(work, cache, drops, Some(output)),
    ensures
        messages_of(drained(cache, cuts)) == work.messages,
{
    law_drain_gives_everything_in_order(cache, cuts);
}

} // verus!
