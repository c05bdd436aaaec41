//! What watching a topic tells of the messages on it.

use crate::command::protocol::{DelayMessageView, TopicStartRequest};
use crate::common::Timestamp;
use crate::numbers::{greatest, law_extremes, least, sum, summary};
use crate::runtime::delay::{
    cdr_stamp, delay_stats, delay_status, delay_taken, fresh_delay, DelayView, MAX_DELAY_PENDING,
};
use crate::runtime::observers::{
    bw_observed, bw_status, fresh_bw, fresh_hz, hz_observed, hz_status, start_error, BwView,
    HzView,
};
use crate::text::starts_with;
use crate::text_laws::law_prefix_taken_off;
use vstd::prelude::*;
use vstd::string::*;

verus! {

// Starting.

/// A topic can be watched if its name starts with a slash, the window is not empty and the
/// command does not watch one already. Else what is wrong is said, in this order: that the
/// command is active, the name, the window.
pub proof fn law_when_a_topic_is_watched(
    command: Seq<char>,
    active: bool,
    topic_name: Seq<char>,
    window_size: Option<usize>,
)
    ensures
        ({
            let absolute = topic_name.len() > 0 && topic_name[0] == '/';
            let error = start_error(command, active, topic_name, window_size);
            &&& error is None <==> !active && absolute && window_size != Some(0usize)
            &&& active ==> error == Some("topic "@ + command + " is already active"@)
            &&& !active && !absolute ==> error == Some(
                "rp topic "@ + command + ": topic '"@ + topic_name
                    + "' must start with '/'; use '/chatter' instead of 'chatter'"@,
            )
            &&& !active && absolute && window_size == Some(0usize) ==> error == Some(
                "rp topic "@ + command + ": --window must be greater than 0"@,
            )
        }),
{
    reveal_strlit("/");
    if topic_name.len() > 0 && topic_name[0] == '/' {
        assert(topic_name =~= "/"@ + topic_name.skip(1));
        law_prefix_taken_off(topic_name, "/"@, topic_name.skip(1));
    }
    if starts_with(topic_name, "/"@) {
        assert(topic_name.subrange(0, 1)[0] == topic_name[0]);
    }
}

/// Watching begins with no message, on the topic and with the window that were asked for.
pub proof fn law_watching_begins_empty(request: TopicStartRequest)
    ensures
        fresh_bw(request).topic_name == request.topic_name@,
        fresh_bw(request).window_size == request.window_size,
        fresh_bw(request).observed_at.len() == 0,
        fresh_bw(request).sizes.len() == 0,
        fresh_hz(request).topic_name == request.topic_name@,
        fresh_hz(request).window_size == request.window_size,
        fresh_hz(request).last_message_at is None,
        fresh_hz(request).periods.len() == 0,
        fresh_delay(request).topic_name == request.topic_name@,
        fresh_delay(request).window_size == request.window_size,
        fresh_delay(request).delays.len() == 0,
        fresh_delay(request).pending.len() == 0,
{
}

// Sums.

/// A sum is that of its parts, and one number is its own sum.
pub proof fn law_sum_of_parts(first: Seq<u64>, second: Seq<u64>, value: u64)
    ensures
        sum(seq![]) == 0,
        sum(seq![value]) == value,
        sum(first + second) == sum(first) + sum(second),
    decreases second.len(),
{
    reveal_with_fuel(sum, 2);
    assert(seq![value].drop_last() =~= seq![]);
    if second.len() == 0 {
        assert(first + second =~= first);
    } else {
        law_sum_of_parts(first, second.drop_last(), value);
        assert((first + second).drop_last() =~= first + second.drop_last());
    }
}

proof fn lemma_sum_bound(list: Seq<u64>)
    ensures
        sum(list) <= list.len() * 0xffff_ffff_ffff_ffff,
        sum(list) == 0 <==> forall|i: int| 0 <= i < list.len() ==> #[trigger] list[i] == 0,
    decreases list.len(),
{
    if list.len() > 0 {
        let before = list.drop_last();
        lemma_sum_bound(before);
        assert(list.len() * 0xffff_ffff_ffff_ffff == before.len() * 0xffff_ffff_ffff_ffff
            + 0xffff_ffff_ffff_ffff) by (nonlinear_arith)
            requires
                list.len() == before.len() + 1,
        ;
        if sum(list) == 0 {
            assert forall|i: int| 0 <= i < list.len() implies #[trigger] list[i] == 0 by {
                if i < before.len() {
                    assert(before[i] == list[i]);
                }
            }
        }
        if forall|i: int| 0 <= i < list.len() ==> #[trigger] list[i] == 0 {
            assert forall|i: int| 0 <= i < before.len() implies #[trigger] before[i] == 0 by {
                assert(list[i] == 0);
            }
            assert(list[list.len() - 1] == 0);
        }
    }
}

/// What a list amounts to: how many numbers it has, their sum, and the least and the greatest
/// of them.
pub proof fn law_list_summed_up(list: Seq<u64>)
    requires
        0 < list.len() <= usize::MAX,
    ensures
        summary(list).count == list.len(),
        summary(list).sum == sum(list),
        list.contains(summary(list).least),
        list.contains(summary(list).greatest),
        forall|i: int|
            0 <= i < list.len() ==> summary(list).least <= #[trigger] list[i]
                <= summary(list).greatest,
{
    lemma_sum_bound(list);
    assert(list.len() * 0xffff_ffff_ffff_ffff <= 0xffff_ffff_ffff_ffff * 0xffff_ffff_ffff_ffff)
        by (nonlinear_arith)
        requires
            0 <= list.len() <= 0xffff_ffff_ffff_ffff,
    ;
    law_extremes(list);
    assert(summary(list).least == least(list));
    assert(summary(list).greatest == greatest(list));
}

// Windows.

/// `kept` are the last `window` of `all`, or all of them where there are fewer.
pub open spec fn last_of<T>(kept: Seq<T>, all: Seq<T>, window: int) -> bool {
    let count = if all.len() < window {
        all.len() as int
    } else {
        window
    };
    &&& kept.len() == count
    &&& forall|i: int| 0 <= i < count ==> #[trigger] kept[i] == all[all.len() - count + i]
}

// Bandwidth.

/// A message as a watcher sees it: its topic, its size and when it came.
pub struct SeenMessage {
    pub topic_name: Seq<char>,
    pub size: u64,
    pub at: u64,
}

/// What a watched bandwidth is after a run of messages.
pub open spec fn bw_after(view: BwView, messages: Seq<SeenMessage>) -> BwView
    decreases messages.len(),
{
    if messages.len() == 0 {
        view
    } else {
        let message = messages.last();
        bw_observed(
            bw_after(view, messages.drop_last()),
            message.topic_name,
            message.size,
            message.at,
        )
    }
}

/// The messages of a run that are on a topic.
pub open spec fn on_topic(messages: Seq<SeenMessage>, topic_name: Seq<char>) -> Seq<SeenMessage>
    decreases messages.len(),
{
    if messages.len() == 0 {
        seq![]
    } else {
        let before = on_topic(messages.drop_last(), topic_name);
        if messages.last().topic_name == topic_name {
            before.push(messages.last())
        } else {
            before
        }
    }
}

/// The sizes of messages.
pub open spec fn sizes_of(messages: Seq<SeenMessage>) -> Seq<u64> {
    Seq::new(messages.len(), |i: int| messages[i].size)
}

/// When messages came.
pub open spec fn times_of(messages: Seq<SeenMessage>) -> Seq<u64> {
    Seq::new(messages.len(), |i: int| messages[i].at)
}

/// After any run of messages, the window holds the sizes of the last messages on the topic
/// and when they came.
pub proof fn law_bandwidth_window(view: BwView, messages: Seq<SeenMessage>)
    requires
        view.sizes.len() == 0,
        view.observed_at.len() == 0,
    ensures
        ({
            let after = bw_after(view, messages);
            let seen = on_topic(messages, view.topic_name);
            &&& last_of(after.sizes, sizes_of(seen), view.window_size as int)
            &&& last_of(after.observed_at, times_of(seen), view.window_size as int)
            &&& after.topic_name == view.topic_name
            &&& after.window_size == view.window_size
        }),
    decreases messages.len(),
{
    if messages.len() > 0 {
        law_bandwidth_window(view, messages.drop_last());
        let before = on_topic(messages.drop_last(), view.topic_name);
        let seen = on_topic(messages, view.topic_name);
        if messages.last().topic_name == view.topic_name {
            assert(seen =~= before.push(messages.last()));
            assert(sizes_of(seen) =~= sizes_of(before).push(messages.last().size));
            assert(times_of(seen) =~= times_of(before).push(messages.last().at));
        }
    }
}

/// What clients are told of a bandwidth: the topic and the window, how many messages are in
/// it, what their sizes amount to, over how long they came, and how long ago the last was.
pub proof fn law_bandwidth_told(view: BwView, now: u64)
    requires
        view.sizes.len() == view.observed_at.len(),
        view.sizes.len() <= usize::MAX,
    ensures
        ({
            let none = bw_status(None, now);
            &&& !none.active && none.topic_name is None && none.stats is None
            &&& none.message_count == 0 && none.window_size == 0
            &&& none.last_message_nanos_ago is None
        }),
        ({
            let told = bw_status(Some(view), now);
            &&& told.active
            &&& told.topic_name == Some(view.topic_name)
            &&& told.window_size == view.window_size
            &&& told.message_count == view.sizes.len()
            &&& view.sizes.len() == 0 ==> told.stats is None && told.last_message_nanos_ago is None
            &&& view.sizes.len() > 0 ==> {
                let first = view.observed_at[0];
                let last = view.observed_at[view.observed_at.len() - 1];
                &&& told.stats matches Some(stats) && {
                    &&& stats.sizes.count == view.sizes.len()
                    &&& stats.sizes.sum == sum(view.sizes)
                    &&& view.sizes.contains(stats.sizes.least)
                    &&& view.sizes.contains(stats.sizes.greatest)
                    &&& forall|i: int|
                        0 <= i < view.sizes.len() ==> stats.sizes.least <= #[trigger] view.sizes[i]
                            <= stats.sizes.greatest
                    &&& first <= last ==> stats.elapsed_nanos == last - first
                    &&& last < first ==> stats.elapsed_nanos == 0
                }
                &&& told.last_message_nanos_ago matches Some(ago) && {
                    &&& last <= now ==> ago == now - last
                    &&& now < last ==> ago == 0
                }
            }
        }),
{
    if view.sizes.len() > 0 {
        law_list_summed_up(view.sizes);
    }
}

// Rate.

/// What a watched rate is after a run of messages.
pub open spec fn hz_after(view: HzView, messages: Seq<SeenMessage>) -> HzView
    decreases messages.len(),
{
    if messages.len() == 0 {
        view
    } else {
        hz_observed(
            hz_after(view, messages.drop_last()),
            messages.last().topic_name,
            messages.last().at,
        )
    }
}

/// The spans between one point in time and the next.
pub open spec fn spans_of(times: Seq<u64>) -> Seq<u64> {
    Seq::new(
        if times.len() == 0 {
            0
        } else {
            (times.len() - 1) as nat
        },
        |i: int|
            if times[i] <= times[i + 1] {
                (times[i + 1] - times[i]) as u64
            } else {
                0
            },
    )
}

/// After any run of messages, the window holds the last spans between messages on the topic,
/// and the time of the last of them is known.
pub proof fn law_rate_window(view: HzView, messages: Seq<SeenMessage>)
    requires
        view.periods.len() == 0,
        view.last_message_at is None,
    ensures
        ({
            let after = hz_after(view, messages);
            let times = times_of(on_topic(messages, view.topic_name));
            &&& last_of(after.periods, spans_of(times), view.window_size as int)
            &&& times.len() == 0 ==> after.last_message_at is None
            &&& times.len() > 0 ==> after.last_message_at == Some(times[times.len() - 1])
            &&& after.topic_name == view.topic_name
            &&& after.window_size == view.window_size
        }),
    decreases messages.len(),
{
    if messages.len() > 0 {
        law_rate_window(view, messages.drop_last());
        let before = on_topic(messages.drop_last(), view.topic_name);
        let seen = on_topic(messages, view.topic_name);
        if messages.last().topic_name == view.topic_name {
            let at = messages.last().at;
            assert(seen =~= before.push(messages.last()));
            assert(times_of(seen) =~= times_of(before).push(at));
            if before.len() > 0 {
                let last = times_of(before)[before.len() - 1];
                assert(spans_of(times_of(seen)) =~= spans_of(times_of(before)).push(
                    if last <= at {
                        (at - last) as u64
                    } else {
                        0
                    },
                ));
            } else {
                assert(spans_of(times_of(seen)) =~= spans_of(times_of(before)));
            }
        }
    }
}

/// What clients are told of a rate: the topic, the spans of the window and what they amount
/// to unless that is nothing, and how long ago the last message was.
pub proof fn law_rate_told(view: HzView, now: u64)
    requires
        view.periods.len() <= usize::MAX,
    ensures
        ({
            let none = hz_status(None, now);
            !none.active && none.topic_name is None && none.stats is None
                && none.last_message_nanos_ago is None
        }),
        ({
            let told = hz_status(Some(view), now);
            &&& told.active
            &&& told.topic_name == Some(view.topic_name)
            &&& told.stats is None <==> forall|i: int|
                0 <= i < view.periods.len() ==> #[trigger] view.periods[i] == 0
            &&& told.stats matches Some((spans, amount)) ==> {
                &&& spans == view.periods
                &&& amount.count == view.periods.len()
                &&& amount.sum == sum(view.periods)
                &&& view.periods.contains(amount.least)
                &&& view.periods.contains(amount.greatest)
                &&& forall|i: int|
                    0 <= i < view.periods.len() ==> amount.least <= #[trigger] view.periods[i]
                        <= amount.greatest
            }
            &&& view.last_message_at is None ==> told.last_message_nanos_ago is None
            &&& view.last_message_at matches Some(last) ==> (
            told.last_message_nanos_ago matches Some(ago) && {
                &&& last <= now ==> ago == now - last
                &&& now < last ==> ago == 0
            })
        }),
{
    lemma_sum_bound(view.periods);
    if view.periods.len() > 0 {
        law_list_summed_up(view.periods);
    }
}

/// Spans between points in time that do not go back add up to the span between the first and
/// the last.
pub proof fn law_spans_add_up(times: Seq<u64>)
    requires
        times.len() > 0,
        forall|i: int, j: int|
            0 <= i <= j < times.len() ==> #[trigger] times[i] <= #[trigger] times[j],
    ensures
        sum(spans_of(times)) == times[times.len() - 1] - times[0],
    decreases times.len(),
{
    if times.len() > 1 {
        let before = times.drop_last();
        law_spans_add_up(before);
        assert(spans_of(times).drop_last() =~= spans_of(before));
    }
}

// Delay.

/// Four bytes spell a number, most significant first.
pub open spec fn spell_big(bytes: Seq<u8>, value: int) -> bool {
    bytes.len() == 4 && bytes[0] * 0x100_0000 + bytes[1] * 0x1_0000 + bytes[2] * 0x100 + bytes[3]
        == value
}

/// Four bytes spell a number, least significant first.
pub open spec fn spell_little(bytes: Seq<u8>, value: int) -> bool {
    bytes.len() == 4 && bytes[3] * 0x100_0000 + bytes[2] * 0x1_0000 + bytes[1] * 0x100 + bytes[0]
        == value
}

/// A stamp is read back from behind a header, in the byte order that the header gives, and
/// from the very start, least significant byte first, where there is none. A stamp with a
/// second or more of nanoseconds is no stamp.
pub proof fn law_stamp_reads_back(
    seconds: int,
    nanos: int,
    first: Seq<u8>,
    second: Seq<u8>,
    options: Seq<u8>,
    rest: Seq<u8>,
)
    requires
        options.len() == 2,
        first.len() == 4,
        second.len() == 4,
    ensures
        ({
            let stamp = if nanos < 1_000_000_000 {
                Some((seconds * 1_000_000_000 + nanos) as u64)
            } else {
                None
            };
            &&& spell_big(first, seconds) && spell_big(second, nanos) ==> cdr_stamp(
                seq![0u8, 0u8] + options + first + second + rest,
            ) == stamp
            &&& spell_little(first, seconds) && spell_little(second, nanos) ==> cdr_stamp(
                seq![0u8, 1u8] + options + first + second + rest,
            ) == stamp
            &&& spell_little(first, seconds) && spell_little(second, nanos) && (first[0] > 0
                || first[1] > 1) && rest.len() >= 4 ==> cdr_stamp(first + second + rest) == stamp
        }),
{
    let big = seq![0u8, 0u8] + options + first + second + rest;
    let little = seq![0u8, 1u8] + options + first + second + rest;
    let bare = first + second + rest;
    assert(big[0] == 0 && big[1] == 0);
    assert(little[0] == 0 && little[1] == 1);
    assert(big[4] == first[0] && big[5] == first[1] && big[6] == first[2] && big[7] == first[3]);
    assert(big[8] == second[0] && big[9] == second[1] && big[10] == second[2] && big[11]
        == second[3]);
    assert(little[4] == first[0] && little[5] == first[1] && little[6] == first[2] && little[7]
        == first[3]);
    assert(little[8] == second[0] && little[9] == second[1] && little[10] == second[2] && little[11]
        == second[3]);
    assert(bare[0] == first[0] && bare[1] == first[1] && bare[2] == first[2] && bare[3]
        == first[3]);
    assert(bare[4] == second[0] && bare[5] == second[1] && bare[6] == second[2] && bare[7]
        == second[3]);
}

/// Fewer bytes than a header and a stamp have no stamp.
pub proof fn law_short_payload_has_no_stamp(payload: Seq<u8>)
    requires
        payload.len() < 12,
    ensures
        cdr_stamp(payload) is None,
{
}

/// A message on the topic that came at a time that can be told waits for the client, behind
/// those that wait already, of which the oldest goes where there is no room. How far its
/// stamp is from its arrival is the last of the delays, of which the oldest goes where the
/// window is full, unless that is a minute or more. A message on another topic changes
/// nothing.
pub proof fn law_delay_taken_in(
    view: DelayView,
    topic_name: Seq<char>,
    ros_type: Option<Seq<char>>,
    arrival: u64,
    payload: Seq<u8>,
    payload_base64: Seq<char>,
)
    ensures
        ({
            let at = Timestamp { unix_nanos: arrival as i128 };
            let after = delay_taken(view, topic_name, ros_type, at, payload, payload_base64);
            let message = DelayMessageView {
                ros_type,
                payload_base64,
                received_at_nanos: arrival,
            };
            let apart = if cdr_stamp(payload) is None {
                60_000_000_000
            } else if cdr_stamp(payload)->0 <= arrival {
                arrival - cdr_stamp(payload)->0
            } else {
                cdr_stamp(payload)->0 - arrival
            };
            &&& topic_name != view.topic_name ==> after == view
            &&& topic_name == view.topic_name ==> {
                &&& after.topic_name == view.topic_name
                &&& after.window_size == view.window_size
                &&& view.pending.len() < 128 ==> after.pending == view.pending.push(message)
                &&& view.pending.len() == 128 ==> after.pending == view.pending.skip(1).push(
                    message,
                )
                &&& apart >= 60_000_000_000 ==> after.delays == view.delays
                &&& apart < 60_000_000_000 && view.delays.len() < view.window_size
                    ==> after.delays == view.delays.push(apart as u64)
                &&& apart < 60_000_000_000 && view.delays.len() == view.window_size
                    && view.window_size > 0 ==> after.delays == view.delays.skip(1).push(
                    apart as u64,
                )
            }
        }),
{
    assert(MAX_DELAY_PENDING == 128);
    if view.pending.len() > 0 {
        assert(view.pending.drop_first() =~= view.pending.skip(1));
    }
    let apart = if cdr_stamp(payload) is None {
        60_000_000_000
    } else if cdr_stamp(payload)->0 <= arrival {
        arrival - cdr_stamp(payload)->0
    } else {
        cdr_stamp(payload)->0 - arrival
    };
    if view.delays.len() == view.window_size && view.window_size > 0 {
        assert(view.delays.push(apart as u64).skip(1) =~= view.delays.skip(1).push(apart as u64));
    }
}

/// A message that came before the epoch, or too long after it, is not taken in.
pub proof fn law_untold_arrival_not_taken_in(
    view: DelayView,
    ros_type: Option<Seq<char>>,
    timestamp: Timestamp,
    payload: Seq<u8>,
    payload_base64: Seq<char>,
)
    requires
        timestamp.unix_nanos < 0 || timestamp.unix_nanos > u64::MAX,
    ensures
        ({
            let after = delay_taken(
                view,
                view.topic_name,
                ros_type,
                timestamp,
                payload,
                payload_base64,
            );
            &&& after.delays == view.delays
            &&& view.pending.len() < 128 ==> after.pending == view.pending
            &&& view.pending.len() == 128 ==> after.pending == view.pending.skip(1)
        }),
{
    assert(MAX_DELAY_PENDING == 128);
    if view.pending.len() > 0 {
        assert(view.pending.drop_first() =~= view.pending.skip(1));
    }
}

/// What clients are told of delays: the topic and the messages that wait, and the delays of
/// the window with what they amount to, once there are any.
pub proof fn law_delays_told(view: DelayView)
    requires
        view.delays.len() <= usize::MAX,
    ensures
        !delay_status(None).active,
        delay_status(None).topic_name is None,
        delay_status(None).messages.len() == 0,
        delay_status(Some(view)).active,
        delay_status(Some(view)).topic_name == Some(view.topic_name),
        delay_status(Some(view)).messages == view.pending,
        delay_stats(None) is None,
        delay_stats(Some(view)) is None <==> view.delays.len() == 0,
        delay_stats(Some(view)) matches Some((delays, amount)) ==> {
            &&& delays == view.delays
            &&& amount.count == view.delays.len()
            &&& amount.sum == sum(view.delays)
            &&& view.delays.contains(amount.least)
            &&& view.delays.contains(amount.greatest)
            &&& forall|i: int|
                0 <= i < view.delays.len() ==> amount.least <= #[trigger] view.delays[i]
                    <= amount.greatest
        },
{
    if view.delays.len() > 0 {
        law_list_summed_up(view.delays);
    }
}

} // verus!
