//! What an echoed topic gives its clients over a run of messages and requests.

use crate::command::protocol::EchoMessageView;
use crate::common::TopicGid;
use crate::runtime::echo::{
    echo_asked, echo_taken, fresh_echo, rising, sequence_value, EchoView, MAX_ECHO_PENDING,
};
use vstd::prelude::*;

verus! {

/// What happens to an echoed topic: a message comes, or a client asks.
pub enum EchoEvent {
    Message {
        ros_type: Option<Seq<char>>,
        writer_gid: TopicGid,
        number: i64,
        payload_base64: Seq<char>,
    },
    Asked { reply: u64 },
}

/// What the session becomes, and the messages that are handed out.
pub open spec fn echo_step(view: EchoView, event: EchoEvent) -> (EchoView, Seq<EchoMessageView>) {
    match event {
        EchoEvent::Message { ros_type, writer_gid, number, payload_base64 } => {
            let (after, answer) = echo_taken(
                view,
                view.topic_name,
                ros_type,
                writer_gid,
                number,
                payload_base64,
            );
            (
                after,
                match answer {
                    Some((_, status)) => status.messages,
                    None => seq![],
                },
            )
        },
        EchoEvent::Asked { reply } => {
            let (after, answer) = echo_asked(Some(view), reply);
            (
                after->0,
                match answer {
                    Some((_, status)) => status.messages,
                    None => seq![],
                },
            )
        },
    }
}

/// What the session is after a run.
pub open spec fn echo_after(view: EchoView, events: Seq<EchoEvent>) -> EchoView
    decreases events.len(),
{
    if events.len() == 0 {
        view
    } else {
        echo_step(echo_after(view, events.drop_last()), events.last()).0
    }
}

/// All messages that are handed out over a run, in order.
pub open spec fn handed_out(view: EchoView, events: Seq<EchoEvent>) -> Seq<EchoMessageView>
    decreases events.len(),
{
    if events.len() == 0 {
        seq![]
    } else {
        handed_out(view, events.drop_last()) + echo_step(
            echo_after(view, events.drop_last()),
            events.last(),
        ).1
    }
}

/// The numbers of a writer's messages in a run.
pub open spec fn numbers_of(events: Seq<EchoEvent>, writer: TopicGid) -> Seq<i64>
    decreases events.len(),
{
    if events.len() == 0 {
        seq![]
    } else {
        let before = numbers_of(events.drop_last(), writer);
        match events.last() {
            EchoEvent::Message { writer_gid, number, .. } => if writer_gid == writer {
                before.push(number)
            } else {
                before
            },
            EchoEvent::Asked { .. } => before,
        }
    }
}

/// The number that the next message of a writer is compared with.
pub open spec fn compared_with(start: EchoView, events: Seq<EchoEvent>, writer: TopicGid) -> Option<
    i64,
> {
    let numbers = numbers_of(events, writer);
    if numbers.len() > 0 {
        Some(numbers.last())
    } else if start.last_numbers.contains_key(writer) {
        Some(start.last_numbers[writer])
    } else {
        None
    }
}

/// The messages of a run, in order, each with how many of its writer's are missing before it.
pub open spec fn messages_of(start: EchoView, events: Seq<EchoEvent>) -> Seq<EchoMessageView>
    decreases events.len(),
{
    if events.len() == 0 {
        seq![]
    } else {
        let before = messages_of(start, events.drop_last());
        match events.last() {
            EchoEvent::Message { ros_type, writer_gid, number, payload_base64 } => before.push(
                EchoMessageView {
                    ros_type,
                    payload_base64,
                    lost_before: match compared_with(start, events.drop_last(), writer_gid) {
                        None => 0,
                        Some(last) => if number <= last {
                            0
                        } else if number - last > usize::MAX {
                            usize::MAX
                        } else {
                            (number - last - 1) as usize
                        },
                    },
                },
            ),
            EchoEvent::Asked { .. } => before,
        }
    }
}

/// No message of a run finds as many waiting as may wait.
pub open spec fn none_pushed_out(view: EchoView, events: Seq<EchoEvent>) -> bool {
    forall|n: int|
        0 <= n < events.len() && #[trigger] events[n] is Message ==> echo_after(
            view,
            events.take(n),
        ).pending.len() < MAX_ECHO_PENDING
}

proof fn lemma_numbers_noted(view: EchoView, events: Seq<EchoEvent>, writer: TopicGid)
    ensures
        echo_after(view, events).topic_name == view.topic_name,
        echo_after(view, events).last_numbers.contains_key(writer) <==> compared_with(
            view,
            events,
            writer,
        ) is Some,
        compared_with(view, events, writer) matches Some(number) ==> echo_after(
            view,
            events,
        ).last_numbers[writer] == number,
    decreases events.len(),
{
    if events.len() > 0 {
        lemma_numbers_noted(view, events.drop_last(), writer);
    }
}

proof fn lemma_prefix_not_pushed_out(view: EchoView, events: Seq<EchoEvent>)
    requires
        events.len() > 0,
        none_pushed_out(view, events),
    ensures
        none_pushed_out(view, events.drop_last()),
        events.last() is Message ==> echo_after(view, events.drop_last()).pending.len()
            < MAX_ECHO_PENDING,
{
    let before = events.drop_last();
    assert(events.take(events.len() - 1) =~= before);
    assert(events[events.len() - 1] == events.last());
    assert forall|n: int| 0 <= n < before.len() && #[trigger] before[n] is Message implies echo_after(
        view,
        before.take(n),
    ).pending.len() < MAX_ECHO_PENDING by {
        assert(before.take(n) =~= events.take(n));
        assert(events[n] == before[n]);
    }
}

/// Whatever the order of messages and requests, the messages that are handed out and those
/// that wait are those that came, in order, each once, and each with how many of its
/// writer's are missing before it, as long as none is pushed out.
pub proof fn law_messages_reach_clients_in_order(view: EchoView, events: Seq<EchoEvent>)
    requires
        none_pushed_out(view, events),
        view.waiting is Some ==> view.pending.len() == 0,
    ensures
        handed_out(view, events) + echo_after(view, events).pending == view.pending + messages_of(
            view,
            events,
        ),
        echo_after(view, events).waiting is Some ==> echo_after(view, events).pending.len() == 0,
    decreases events.len(),
{
    if events.len() == 0 {
        assert(handed_out(view, events) + view.pending =~= view.pending + messages_of(
            view,
            events,
        ));
    } else {
        let before = events.drop_last();
        lemma_prefix_not_pushed_out(view, events);
        law_messages_reach_clients_in_order(view, before);
        let between = echo_after(view, before);
        match events.last() {
            EchoEvent::Message { ros_type, writer_gid, number, payload_base64 } => {
                lemma_numbers_noted(view, before, writer_gid);
                assert(between.last_numbers.contains_key(writer_gid) <==> compared_with(
                    view,
                    before,
                    writer_gid,
                ) is Some);
                assert(messages_of(view, events) =~= messages_of(view, before).push(
                    messages_of(view, events).last(),
                ));
                let (after, out) = echo_step(between, events.last());
                assert(out + after.pending =~= between.pending.push(
                    messages_of(view, events).last(),
                ));
                assert(handed_out(view, events) + after.pending =~= handed_out(view, before) + (
                out + after.pending));
                assert(handed_out(view, before) + between.pending.push(
                    messages_of(view, events).last(),
                ) =~= (handed_out(view, before) + between.pending).push(
                    messages_of(view, events).last(),
                ));
                assert((view.pending + messages_of(view, before)).push(
                    messages_of(view, events).last(),
                ) =~= view.pending + messages_of(view, events));
            },
            EchoEvent::Asked { reply } => {
                let (after, out) = echo_step(between, events.last());
                assert(out + after.pending =~= between.pending);
                assert(handed_out(view, events) + after.pending =~= handed_out(view, before) + (
                out + after.pending));
            },
        }
    }
}

/// The newest message that is handed out or waits once a message has come.
pub open spec fn newest_told(view: EchoView, event: EchoEvent) -> EchoMessageView {
    let (after, out) = echo_step(view, event);
    (out + after.pending).last()
}

/// All that clients are told to be missing of a writer over a run.
pub open spec fn told_missing(view: EchoView, events: Seq<EchoEvent>, writer: TopicGid) -> nat
    decreases events.len(),
{
    if events.len() == 0 {
        0
    } else {
        let before = told_missing(view, events.drop_last(), writer);
        match events.last() {
            EchoEvent::Message { writer_gid, .. } => if writer_gid == writer {
                before + newest_told(
                    echo_after(view, events.drop_last()),
                    events.last(),
                ).lost_before as nat
            } else {
                before
            },
            EchoEvent::Asked { .. } => before,
        }
    }
}

/// Over any run of messages and requests, and whether a client waits or not, as many messages
/// of a writer with rising numbers are told to be missing as numbers were skipped.
pub proof fn law_missing_messages_told(view: EchoView, events: Seq<EchoEvent>, writer: TopicGid)
    requires
        !view.last_numbers.contains_key(writer),
        numbers_of(events, writer).len() > 0,
        rising(numbers_of(events, writer)),
        numbers_of(events, writer).last() - numbers_of(events, writer)[0] <= usize::MAX,
    ensures
        told_missing(view, events, writer) == numbers_of(events, writer).last() - numbers_of(
            events,
            writer,
        )[0] - (numbers_of(events, writer).len() - 1),
    decreases events.len(),
{
    let before = events.drop_last();
    let all = numbers_of(events, writer);
    let fewer = numbers_of(before, writer);
    lemma_numbers_noted(view, before, writer);
    if fewer.len() > 0 {
        assert(all[0] == fewer[0]);
        assert(forall|i: int| 0 <= i < fewer.len() ==> #[trigger] fewer[i] == all[i]);
        assert(rising(fewer));
        if fewer.len() < all.len() {
            assert(all[fewer.len() - 1] < all[all.len() - 1]);
        }
        law_missing_messages_told(view, before, writer);
    } else {
        lemma_nothing_missing_yet(view, before, writer);
    }
}

proof fn lemma_nothing_missing_yet(view: EchoView, events: Seq<EchoEvent>, writer: TopicGid)
    requires
        numbers_of(events, writer).len() == 0,
    ensures
        told_missing(view, events, writer) == 0,
    decreases events.len(),
{
    if events.len() > 0 {
        lemma_nothing_missing_yet(view, events.drop_last(), writer);
    }
}

/// Up to thirty-two messages wait for a client, and the oldest goes to make room for one more.
pub proof fn law_thirty_two_messages_wait(
    view: EchoView,
    ros_type: Option<Seq<char>>,
    writer_gid: TopicGid,
    number: i64,
    payload_base64: Seq<char>,
)
    requires
        view.waiting is None,
        view.pending.len() <= 32,
    ensures
        ({
            let after = echo_taken(
                view,
                view.topic_name,
                ros_type,
                writer_gid,
                number,
                payload_base64,
            ).0;
            let n = after.pending.len();
            &&& n > 0
            &&& after.pending[n - 1].payload_base64 == payload_base64
            &&& after.pending[n - 1].ros_type == ros_type
            &&& view.pending.len() < 32 ==> after.pending.drop_last() == view.pending
            &&& view.pending.len() == 32 ==> after.pending.drop_last() == view.pending.skip(1)
        }),
{
    let after = echo_taken(
        view,
        view.topic_name,
        ros_type,
        writer_gid,
        number,
        payload_base64,
    ).0;
    assert(MAX_ECHO_PENDING == 32);
    if view.pending.len() < 32 {
        assert(after.pending.drop_last() =~= view.pending);
    } else {
        assert(after.pending.drop_last() =~= view.pending.skip(1));
    }
}

/// A message on another topic changes nothing and answers nobody.
pub proof fn law_other_topics_not_echoed(
    view: EchoView,
    topic_name: Seq<char>,
    ros_type: Option<Seq<char>>,
    writer_gid: TopicGid,
    number: i64,
    payload_base64: Seq<char>,
)
    requires
        topic_name != view.topic_name,
    ensures
        ({
            let (after, answer) = echo_taken(
                view,
                topic_name,
                ros_type,
                writer_gid,
                number,
                payload_base64,
            );
            after == view && answer is None
        }),
{
}

/// A client that asks is answered at once if messages wait or nothing is echoed. Else it
/// waits, and one that waited before it is answered with no message. Whoever is answered
/// while a topic is echoed is told so and told the topic.
pub proof fn law_who_is_answered(view: EchoView, reply: u64)
    ensures
        echo_asked(None, reply) matches (None, Some((answered, status))) && answered == reply
            && !status.active && status.topic_name is None && status.messages.len() == 0,
        ({
            let (after, answer) = echo_asked(Some(view), reply);
            &&& after matches Some(after) && {
                &&& after.pending.len() == 0
                &&& after.topic_name == view.topic_name
                &&& after.last_numbers == view.last_numbers
                &&& view.pending.len() == 0 ==> after.waiting == Some(reply)
                &&& view.pending.len() > 0 ==> after.waiting == view.waiting
            }
            &&& view.pending.len() > 0 ==> answer is Some
            &&& view.pending.len() == 0 && view.waiting is None ==> answer is None
            &&& answer matches Some((answered, status)) ==> {
                &&& view.pending.len() > 0 ==> answered == reply && status.messages
                    == view.pending
                &&& view.pending.len() == 0 ==> Some(answered) == view.waiting
                    && status.messages.len() == 0
                &&& status.active
                &&& status.topic_name == Some(view.topic_name)
            }
        }),
{
}

/// A session begins with no message, no client and no writer.
pub proof fn law_session_begins_empty(topic_name: Seq<char>, writer: TopicGid)
    ensures
        fresh_echo(topic_name).topic_name == topic_name,
        fresh_echo(topic_name).pending.len() == 0,
        fresh_echo(topic_name).waiting is None,
        !fresh_echo(topic_name).last_numbers.contains_key(writer),
{
}

/// The number of a message is read from its two words, each with its lowest byte first: the
/// high word, which has the sign, and the low word.
pub proof fn law_number_reads_back(bytes: [u8; 8], high: int, low: int)
    requires
        -0x8000_0000 <= high < 0x8000_0000,
        0 <= low < 0x1_0000_0000,
        bytes[0] + bytes[1] * 0x100 + bytes[2] * 0x1_0000 + bytes[3] * 0x100_0000 == high || bytes[0]
            + bytes[1] * 0x100 + bytes[2] * 0x1_0000 + bytes[3] * 0x100_0000 == high
            + 0x1_0000_0000,
        bytes[4] + bytes[5] * 0x100 + bytes[6] * 0x1_0000 + bytes[7] * 0x100_0000 == low,
    ensures
        sequence_value(bytes) == high * 0x1_0000_0000 + low,
{
}

} // verus!
