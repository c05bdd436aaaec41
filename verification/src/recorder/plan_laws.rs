//! What the writer of recordings does on a command, and how it cuts what it writes.

use crate::common::{Timestamp, TimestampError};
use crate::recorder::actor::{
    actor_plan, batch_full, is_batch_len, is_offered, refusal_text, total_bytes, with_drop,
    ActorStep, DropsView, RecorderCommand, RECORDER_CACHE_MAX_BYTES,
};
use crate::recorder::recorder::{
    header_of, schema_or_unknown, sequence_of, write_step, BookView, ChannelShape, RecordHeader,
    StepView,
};
use crate::recorder::schema::schema_name;
use vstd::prelude::*;
use vstd::string::*;

verus! {

/// A recording is created on a start while there is none, and finished on a stop while there
/// is one. A start while there is one and a channel while there is none are refused. What is
/// cached is forgotten on a start alone, and written on a stop and on a shutdown alone.
pub proof fn law_writer_obeys(command: RecorderCommand, active: bool)
    ensures
        ({
            let plan = actor_plan(command, active);
            &&& plan.clear_cache <==> command is Start
            &&& plan.drain_cache <==> command is Stop || command is Shutdown
            &&& plan.step is Create <==> command is Start && !active
            &&& plan.step is RefuseActiveSession <==> command is Start && active
            &&& plan.step is Finish <==> command is Stop && active
            &&& plan.step is NothingToFinish <==> command is Stop && !active
            &&& plan.step is EnsureChannel <==> command is EnsureChannel && active
            &&& plan.step is RefuseNoSession <==> command is EnsureChannel && !active
            &&& plan.step is Exit <==> command is Shutdown
        }),
{
}

/// A refusal says what is wrong, and nothing else is refused.
pub proof fn law_refusals(step: ActorStep)
    ensures
        step is RefuseNoSession ==> refusal_text(step) == Some(
            "recorder actor has no active session"@,
        ),
        step is RefuseActiveSession ==> refusal_text(step) == Some(
            "recorder actor already has an active session"@,
        ),
        refusal_text(step) is Some <==> step is RefuseNoSession || step is RefuseActiveSession,
{
}

/// The bytes of a list are those of its parts, and the bytes of one message are its size.
pub proof fn law_bytes_add_up<T>(first: Seq<(T, usize)>, second: Seq<(T, usize)>, one: (T, usize))
    ensures
        total_bytes(first + second) == total_bytes(first) + total_bytes(second),
        total_bytes(seq![one]) == one.1,
        total_bytes(Seq::<(T, usize)>::empty()) == 0,
    decreases second.len(),
{
    reveal_with_fuel(total_bytes, 2);
    assert(seq![one].drop_last() =~= seq![]);
    if second.len() == 0 {
        assert(first + second =~= first);
    } else {
        law_bytes_add_up(first, second.drop_last(), one);
        assert((first + second).drop_last() =~= first + second.drop_last());
    }
}

/// A batch has at most 1024 messages, and without its last one less than sixteen mebibytes.
/// It stops short of what is cached only where it has 1024 messages or sixteen mebibytes. The
/// cache holds 256 mebibytes.
pub proof fn law_batches_are_bounded<T>(messages: Seq<(T, usize)>, len: int)
    requires
        is_batch_len(messages, len),
    ensures
        len <= 1024,
        len > 0 ==> total_bytes(messages.take(len - 1)) < 16 * 1024 * 1024,
        len < messages.len() ==> len == 1024 || total_bytes(messages.take(len)) >= 16 * 1024 * 1024,
        RECORDER_CACHE_MAX_BYTES == 256 * 1024 * 1024,
{
    if len > 0 {
        assert(!batch_full(messages.take(len - 1)));
        assert(messages.take(len - 1).len() == len - 1);
    }
    if len < messages.len() {
        assert(messages.take(len).len() == len);
    }
}

/// A drop counts for its topic and for all, and for no other topic.
pub proof fn law_one_more_drop(view: DropsView, topic: Seq<char>, other: Seq<char>)
    requires
        view.by_topic.contains_key(topic) ==> view.by_topic[topic] < usize::MAX,
        other != topic,
    ensures
        ({
            let after = with_drop(view, topic);
            &&& after.by_topic.contains_key(topic)
            &&& after.by_topic[topic] == 1 + if view.by_topic.contains_key(topic) {
                view.by_topic[topic] as int
            } else {
                0int
            }
            &&& after.by_topic.contains_key(other) <==> view.by_topic.contains_key(other)
            &&& view.by_topic.contains_key(other) ==> after.by_topic[other] == view.by_topic[other]
            &&& view.total < usize::MAX ==> after.total == view.total + 1
            &&& view.total == usize::MAX ==> after.total == view.total
        }),
{
}

/// A message that is offered is kept behind those that are cached if it still fits into 256
/// mebibytes with them, and nothing is dropped. Else what is cached stays as it is, and the
/// message counts as dropped.
pub proof fn law_message_kept_or_dropped<T>(
    cache: Seq<(T, usize)>,
    drops: DropsView,
    message: T,
    bytes: usize,
    topic: Seq<char>,
    kept: bool,
    later: Seq<(T, usize)>,
    counted: DropsView,
)
    requires
        is_offered(cache, drops, message, bytes, topic, kept, later, counted),
    ensures
        kept <==> total_bytes(cache) + bytes <= 256 * 1024 * 1024,
        kept ==> later == cache + seq![(message, bytes)] && counted == drops,
        kept ==> total_bytes(later) == total_bytes(cache) + bytes,
        !kept ==> later == cache && counted == with_drop(drops, topic),
{
    if kept {
        assert(later =~= cache + seq![(message, bytes)]);
        law_bytes_add_up(cache, seq![(message, bytes)], (message, bytes));
    }
}

/// A message is written under the next number of its channel, with the time at which it was
/// captured both as when it was published and as when it was written. A time before the
/// epoch, or too long after it, is refused.
pub proof fn law_header_of_a_message(book: BookView, channel_id: u16, captured_at: Timestamp)
    ensures
        ({
            let nanos = captured_at.unix_nanos;
            let header = header_of(book, channel_id, captured_at);
            &&& nanos < 0 ==> header == Err::<RecordHeader, TimestampError>(
                TimestampError::BeforeEpoch,
            )
            &&& nanos > u64::MAX ==> header == Err::<RecordHeader, TimestampError>(
                TimestampError::TooLarge,
            )
            &&& 0 <= nanos <= u64::MAX ==> (header matches Ok(told) && told.channel_id == channel_id
                && told.sequence == sequence_of(book, channel_id) && told.log_time == nanos
                && told.publish_time == nanos)
        }),
{
}

/// A message whose schema is not there has that added first, one whose channel is not there
/// has that added next, and any other is written to its channel. A channel takes CDR under
/// the schema of the message, and carries its quality of service.
pub proof fn law_what_a_message_needs(
    book: BookView,
    topic: Seq<char>,
    schema: Seq<char>,
    qos_profile: Seq<char>,
)
    ensures
        ({
            let name = schema_name(schema);
            let key = ChannelShape { topic, schema_name: name, qos_profile };
            let step = write_step(book, topic, schema, qos_profile);
            &&& !book.schema_ids.contains_key(name) ==> (step matches StepView::AddSchema {
                schema_name: wanted,
            } && wanted == name)
            &&& book.schema_ids.contains_key(name) && !book.channel_ids.contains_key(key) ==> (
            step matches StepView::AddChannel {
                schema_id,
                schema_name: wanted,
                message_encoding,
                metadata_key,
                metadata_value,
            } && schema_id == book.schema_ids[name] && wanted == name && message_encoding
                == "cdr"@ && metadata_key == "offered_qos_profiles"@ && metadata_value
                == qos_profile)
            &&& book.schema_ids.contains_key(name) && book.channel_ids.contains_key(key) ==> (
            step matches StepView::Write { channel_id } && channel_id == book.channel_ids[key])
        }),
{
}

/// A message whose type is not known is written as of an unknown type, and any other as of
/// its own.
pub proof fn law_schema_of_message(ros_type: Seq<char>)
    ensures
        schema_or_unknown(None) == "unknown/Unknown"@,
        schema_or_unknown(Some(ros_type)) == ros_type,
{
}

/// A channel to which nothing has been written starts at zero, and any other goes on where it
/// is.
pub proof fn law_next_number_of_channel(book: BookView, channel_id: u16)
    ensures
        !book.next_sequence.contains_key(channel_id) ==> sequence_of(book, channel_id) == 0,
        book.next_sequence.contains_key(channel_id) ==> sequence_of(book, channel_id)
            == book.next_sequence[channel_id],
{
}

} // verus!
