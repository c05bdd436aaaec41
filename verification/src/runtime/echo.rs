//! Echoing a topic: handing its messages to a client, one batch at a time.

use crate::assoc::{as_map, has_key, lemma_as_map, lemma_push, lemma_update, unique_keys};
use crate::base64_text::{base64_decoded, base64_encoded, encodable, encode_base64};
use crate::capture::capture::{newest, pushed};
use crate::command::protocol::{
    echo_views, EchoMessageView, EchoStatusView, TopicEchoMessage, TopicEchoStartRequest,
    TopicEchoStatusResponse, TopicStartResponse, TopicStopResponse,
};
use crate::common::TopicGid;
use crate::payload::{payload_bytes, payload_slice};
use crate::runtime::observers::{
    check_start, is_started, is_stopped, start_error, DataMessage, TopicMetadata,
};
use crate::text::{clone_text_opt, same_text, text_opt};
use crate::wire::{le32, read_u32_at};
use std::collections::VecDeque;
use vstd::prelude::*;

verus! {

/// How many messages wait for the client at most.
pub const MAX_ECHO_PENDING: usize = 32;

/// Hands the messages of a topic to a client.
pub struct TopicEchoSession {
    topic_name: String,
    pending_messages: VecDeque<TopicEchoMessage>,
    waiting_reply: Option<u64>,
    writer_seq_nums: Vec<(TopicGid, i64)>,
}

/// What a [`TopicEchoSession`] holds.
#[verifier::ext_equal]
pub struct EchoView {
    pub topic_name: Seq<char>,
    /// The messages that wait for the client, oldest first.
    pub pending: Seq<EchoMessageView>,
    /// The request that waits for a message.
    pub waiting: Option<u64>,
    /// The number of the last message of each writer.
    pub last_numbers: Map<TopicGid, i64>,
}

impl View for TopicEchoSession {
    type V = EchoView;

    closed spec fn view(&self) -> EchoView {
        EchoView {
            topic_name: self.topic_name@,
            pending: echo_views(self.pending_messages@),
            waiting: self.waiting_reply,
            last_numbers: as_map(self.writer_seq_nums@),
        }
    }
}

/// The view of a session that may be missing.
pub open spec fn echo_opt(session: Option<TopicEchoSession>) -> Option<EchoView> {
    match session {
        Some(session) => Some(session@),
        None => None,
    }
}

/// A session that is missing or in good order.
pub open spec fn echo_wf(session: Option<TopicEchoSession>) -> bool {
    session matches Some(session) ==> session.wf()
}

/// A session that has seen no message.
pub open spec fn fresh_echo(topic_name: Seq<char>) -> EchoView {
    EchoView { topic_name, pending: seq![], waiting: None, last_numbers: Map::empty() }
}

/// An answer to a request that has been waiting, or that has just come.
pub struct EchoReply {
    pub reply: u64,
    pub response: TopicEchoStatusResponse,
}

/// The request that is answered, and the answer.
pub open spec fn echo_reply_view(reply: Option<EchoReply>) -> Option<(u64, EchoStatusView)> {
    match reply {
        Some(reply) => Some((reply.reply, reply.response@)),
        None => None,
    }
}

/// What clients are told when nothing is echoed.
pub open spec fn no_echo() -> EchoStatusView {
    EchoStatusView { active: false, topic_name: None, messages: seq![] }
}

/// What clients are told while a topic is echoed.
pub open spec fn echo_status(view: EchoView, messages: Seq<EchoMessageView>) -> EchoStatusView {
    EchoStatusView { active: true, topic_name: Some(view.topic_name), messages }
}

fn inactive_response() -> (r: TopicEchoStatusResponse)
    ensures
        r@ == no_echo(),
{
    let r = TopicEchoStatusResponse { active: false, topic_name: None, messages: Vec::new() };
    assert(r@ =~= no_echo());
    r
}

/// Starts echoing a topic.
pub fn echo_start_session(
    request: TopicEchoStartRequest,
    session: &mut Option<TopicEchoSession>,
) -> (r: Result<TopicStartResponse, String>)
    requires
        echo_wf(*old(session)),
    ensures
        echo_wf(*final(session)),
        ({
            let error = start_error("echo"@, *old(session) is Some, request.topic_name@, None);
            &&& is_started(r, error, request.topic_name@)
            &&& echo_opt(*final(session)) == (if error is Some {
                echo_opt(*old(session))
            } else {
                Some(fresh_echo(request.topic_name@))
            })
        }),
{
    match check_start("echo", session.is_some(), request.topic_name.as_str(), None) {
        Some(message) => return Err(message),
        None => {},
    }
    let fresh = TopicEchoSession {
        topic_name: request.topic_name.clone(),
        pending_messages: VecDeque::new(),
        waiting_reply: None,
        writer_seq_nums: Vec::new(),
    };
    assert(fresh@ =~= fresh_echo(request.topic_name@));
    *session = Some(fresh);
    Ok(TopicStartResponse { topic_name: request.topic_name })
}

impl TopicEchoSession {
    /// Each writer has one last number, no more messages wait than may, and no request
    /// waits while messages do.
    pub closed spec fn wf(&self) -> bool {
        &&& unique_keys(self.writer_seq_nums@)
        &&& self.pending_messages@.len() <= MAX_ECHO_PENDING
        &&& self.waiting_reply is Some ==> self.pending_messages@.len() == 0
    }

    /// The topic that is echoed.
    pub fn topic_name(&self) -> (r: &str)
        ensures
            r@ == self@.topic_name,
    {
        self.topic_name.as_str()
    }

    /// Takes out all messages that wait for the client.
    fn drain(&mut self) -> (r: TopicEchoStatusResponse)
        requires
            unique_keys(old(self).writer_seq_nums@),
        ensures
            r@ == echo_status(old(self)@, old(self)@.pending),
            final(self)@ == (EchoView { pending: seq![], ..old(self)@ }),
            unique_keys(final(self).writer_seq_nums@),
            final(self).waiting_reply == old(self).waiting_reply,
            final(self).pending_messages@.len() == 0,
    {
        let ghost views = self@.pending;
        let mut messages: Vec<TopicEchoMessage> = Vec::new();
        let ghost all = self.pending_messages@;
        while self.pending_messages.len() > 0
            invariant
                self.topic_name == old(self).topic_name,
                self.waiting_reply == old(self).waiting_reply,
                self.writer_seq_nums == old(self).writer_seq_nums,
                messages@ + self.pending_messages@ =~= all,
            decreases self.pending_messages@.len(),
        {
            match self.pending_messages.pop_front() {
                Some(message) => messages.push(message),
                None => {},
            }
        }
        assert(messages@ =~= all);
        let r = TopicEchoStatusResponse {
            active: true,
            topic_name: Some(self.topic_name.clone()),
            messages,
        };
        assert(self@.pending =~= seq![]);
        r
    }

    /// Notes the number of a writer's message and returns the one before it.
    fn note_number(&mut self, writer_gid: TopicGid, number: i64) -> (r: Option<i64>)
        requires
            old(self).wf(),
        ensures
            final(self).wf(),
            r == (if old(self)@.last_numbers.contains_key(writer_gid) {
                Some(old(self)@.last_numbers[writer_gid])
            } else {
                None
            }),
            final(self)@ == (EchoView {
                last_numbers: old(self)@.last_numbers.insert(writer_gid, number),
                ..old(self)@
            }),
    {
        let ghost pairs = self.writer_seq_nums@;
        proof {
            lemma_as_map(pairs);
        }
        let mut at: usize = 0;
        while at < self.writer_seq_nums.len() && !self.writer_seq_nums[at].0.same(&writer_gid)
            invariant
                *self == *old(self),
                at <= self.writer_seq_nums@.len(),
                forall|i: int|
                    0 <= i < at ==> (#[trigger] self.writer_seq_nums@[i]).0 != writer_gid,
            decreases self.writer_seq_nums@.len() - at,
        {
            at += 1;
        }
        if at < self.writer_seq_nums.len() {
            let last: i64 = self.writer_seq_nums[at].1;
            proof {
                lemma_update(pairs, at as int, number);
                assert(as_map(pairs)[pairs[at as int].0] == pairs[at as int].1);
            }
            self.writer_seq_nums.set(at, (writer_gid, number));
            Some(last)
        } else {
            proof {
                assert(!has_key(pairs, writer_gid));
                lemma_push(pairs, writer_gid, number);
            }
            self.writer_seq_nums.push((writer_gid, number));
            None
        }
    }
}

/// Hands out all messages that wait for the client.
pub fn echo_build_status_response(session: &mut Option<TopicEchoSession>) -> (r:
    TopicEchoStatusResponse)
    requires
        echo_wf(*old(session)),
    ensures
        echo_wf(*final(session)),
        match echo_opt(*old(session)) {
            None => r@ == no_echo() && *final(session) is None,
            Some(view) => {
                &&& r@ == echo_status(view, view.pending)
                &&& echo_opt(*final(session)) == Some(EchoView { pending: seq![], ..view })
            },
        },
{
    match session.take() {
        None => inactive_response(),
        Some(mut inner) => {
            let r = inner.drain();
            *session = Some(inner);
            r
        },
    }
}

/// What a session becomes when a client asks, and who is answered what: the client at
/// once if messages wait for it or nothing is echoed, else the client that has been
/// waiting so far.
pub open spec fn echo_asked(session: Option<EchoView>, reply: u64) -> (
    Option<EchoView>,
    Option<(u64, EchoStatusView)>,
) {
    match session {
        None => (None, Some((reply, no_echo()))),
        Some(view) => if view.pending.len() > 0 {
            (
                Some(EchoView { pending: seq![], ..view }),
                Some((reply, echo_status(view, view.pending))),
            )
        } else {
            (
                Some(EchoView { waiting: Some(reply), ..view }),
                match view.waiting {
                    None => None,
                    Some(previous) => Some((previous, echo_status(view, seq![]))),
                },
            )
        },
    }
}

/// Answers a client that asks for messages, or lets it wait for the next one.
pub fn echo_reply_or_defer_status(session: &mut Option<TopicEchoSession>, reply: u64) -> (r: Option<
    EchoReply,
>)
    requires
        echo_wf(*old(session)),
    ensures
        echo_wf(*final(session)),
        (echo_opt(*final(session)), echo_reply_view(r)) == echo_asked(
            echo_opt(*old(session)),
            reply,
        ),
{
    match session.take() {
        None => Some(EchoReply { reply, response: inactive_response() }),
        Some(mut inner) => {
            let ghost view = inner@;
            if inner.pending_messages.len() > 0 {
                let response = inner.drain();
                *session = Some(inner);
                return Some(EchoReply { reply, response });
            }
            assert(view.pending =~= seq![]);
            let previous = inner.waiting_reply;
            inner.waiting_reply = Some(reply);
            let r = match previous {
                None => None,
                Some(previous) => {
                    let response = TopicEchoStatusResponse {
                        active: true,
                        topic_name: Some(inner.topic_name.clone()),
                        messages: Vec::new(),
                    };
                    assert(response@ =~= echo_status(view, seq![]));
                    Some(EchoReply { reply: previous, response })
                },
            };
            *session = Some(inner);
            r
        },
    }
}

/// Stops echoing. A client that has been waiting is told so.
pub fn echo_stop_session(session: &mut Option<TopicEchoSession>) -> (r: (
    TopicStopResponse,
    Option<EchoReply>,
))
    ensures
        *final(session) is None,
        match echo_opt(*old(session)) {
            None => is_stopped(r.0, None) && r.1 is None,
            Some(view) => {
                &&& is_stopped(r.0, Some(view.topic_name))
                &&& echo_reply_view(r.1) == (match view.waiting {
                    None => None::<(u64, EchoStatusView)>,
                    Some(reply) => Some((reply, no_echo())),
                })
            },
        },
{
    match session.take() {
        None => (TopicStopResponse { stopped: false, topic_name: None }, None),
        Some(inner) => {
            let answer = match inner.waiting_reply {
                None => None,
                Some(reply) => Some(EchoReply { reply, response: inactive_response() }),
            };
            (TopicStopResponse { stopped: true, topic_name: Some(inner.topic_name) }, answer)
        },
    }
}

/// The number of a message: a signed high word and a low word, both little-endian.
pub open spec fn sequence_value(bytes: [u8; 8]) -> int {
    let high = le32(bytes[0], bytes[1], bytes[2], bytes[3]) as int;
    let low = le32(bytes[4], bytes[5], bytes[6], bytes[7]) as int;
    (if high < 0x8000_0000 {
        high
    } else {
        high - 0x1_0000_0000
    }) * 0x1_0000_0000 + low
}

/// Reads the number of a message.
pub fn rtps_seq_num(bytes: &[u8; 8]) -> (r: i64)
    ensures
        r == sequence_value(*bytes),
{
    let words = bytes.as_slice();
    let high: i64 = read_u32_at(words, 0, true) as i64;
    let low: i64 = read_u32_at(words, 4, true) as i64;
    let signed: i64 = if high < 0x8000_0000 { high } else { high - 0x1_0000_0000 };
    signed * 0x1_0000_0000 + low
}

/// How many messages are missing between the last number and this one.
pub open spec fn lost_between(last: Option<i64>, number: i64) -> usize {
    match last {
        None => 0,
        Some(last) => if number - last - 1 <= 0 {
            0
        } else if number - last - 1 <= usize::MAX {
            (number - last - 1) as usize
        } else {
            usize::MAX
        },
    }
}

fn count_lost(last: Option<i64>, number: i64) -> (r: usize)
    ensures
        r == lost_between(last, number),
{
    match last {
        None => 0,
        Some(last) => {
            let gap: i128 = number as i128 - last as i128 - 1;
            if gap <= 0 {
                0
            } else if gap <= usize::MAX as i128 {
                gap as usize
            } else {
                usize::MAX
            }
        },
    }
}

/// What a session becomes with one more message, and who is answered what. Messages on
/// other topics leave it alone. Too many messages push the oldest out.
pub open spec fn echo_taken(
    view: EchoView,
    topic_name: Seq<char>,
    ros_type: Option<Seq<char>>,
    writer_gid: TopicGid,
    number: i64,
    payload_base64: Seq<char>,
) -> (EchoView, Option<(u64, EchoStatusView)>) {
    if topic_name != view.topic_name {
        (view, None)
    } else {
        let last = if view.last_numbers.contains_key(writer_gid) {
            Some(view.last_numbers[writer_gid])
        } else {
            None
        };
        let message = EchoMessageView {
            ros_type,
            payload_base64,
            lost_before: lost_between(last, number),
        };
        let pending = pushed(view.pending, message, MAX_ECHO_PENDING);
        let last_numbers = view.last_numbers.insert(writer_gid, number);
        match view.waiting {
            None => (EchoView { pending, last_numbers, ..view }, None),
            Some(reply) => (
                EchoView { pending: seq![], waiting: None, last_numbers, ..view },
                Some((reply, echo_status(view, pending))),
            ),
        }
    }
}

/// Takes in a message whose payload has been turned into text.
pub fn echo_take_message(
    session: &mut Option<TopicEchoSession>,
    message: &DataMessage,
    metadata: &TopicMetadata,
    payload_base64: String,
) -> (r: Option<EchoReply>)
    requires
        echo_wf(*old(session)),
    ensures
        echo_wf(*final(session)),
        match echo_opt(*old(session)) {
            None => r is None && *final(session) is None,
            Some(view) => ({
                let (after, reply) = echo_taken(
                    view,
                    metadata.topic_name@,
                    text_opt(metadata.ros_type),
                    message.writer_gid,
                    sequence_value(message.sequence_number) as i64,
                    payload_base64@,
                );
                echo_opt(*final(session)) == Some(after) && echo_reply_view(r) == reply
            }),
        },
{
    match session.take() {
        None => None,
        Some(mut inner) => {
            let ghost start = inner@;
            if !same_text(metadata.topic_name.as_str(), inner.topic_name.as_str()) {
                *session = Some(inner);
                return None;
            }
            let number: i64 = rtps_seq_num(&message.sequence_number);
            let last = inner.note_number(message.writer_gid, number);
            let ghost noted = inner@;
            let echoed = TopicEchoMessage {
                ros_type: clone_text_opt(&metadata.ros_type),
                payload_base64,
                lost_before: count_lost(last, number),
            };
            let ghost view = echoed@;
            if inner.pending_messages.len() == MAX_ECHO_PENDING {
                let _ = inner.pending_messages.pop_front();
            }
            inner.pending_messages.push_back(echoed);
            assert(inner@.pending =~= pushed(start.pending, view, MAX_ECHO_PENDING));
            let waiting = inner.waiting_reply;
            inner.waiting_reply = None;
            let r = match waiting {
                None => None,
                Some(reply) => Some(EchoReply { reply, response: inner.drain() }),
            };
            assert(inner@.last_numbers == noted.last_numbers);
            *session = Some(inner);
            r
        },
    }
}

/// Takes in a message. The text that stands for its payload decodes to the payload.
pub fn echo_observe_message(
    session: &mut Option<TopicEchoSession>,
    message: &DataMessage,
    metadata: &TopicMetadata,
) -> (r: Option<EchoReply>)
    requires
        echo_wf(*old(session)),
        encodable(payload_bytes(message.payload).len()),
    ensures
        echo_wf(*final(session)),
        match echo_opt(*old(session)) {
            None => r is None && *final(session) is None,
            Some(view) => ({
                let (after, reply) = echo_taken(
                    view,
                    metadata.topic_name@,
                    text_opt(metadata.ros_type),
                    message.writer_gid,
                    sequence_value(message.sequence_number) as i64,
                    base64_encoded(payload_bytes(message.payload)),
                );
                &&& echo_opt(*final(session)) == Some(after)
                &&& echo_reply_view(r) == reply
                &&& base64_decoded(base64_encoded(payload_bytes(message.payload))) == Some(
                    payload_bytes(message.payload),
                )
            }),
        },
{
    if session.is_none() {
        return None;
    }
    let payload_base64 = encode_base64(payload_slice(&message.payload));
    echo_take_message(session, message, metadata, payload_base64)
}

// Laws.

/// However many messages come and however clients ask, no more messages wait than may.
pub proof fn law_echo_session_bounded(session: TopicEchoSession)
    requires
        session.wf(),
    ensures
        session@.pending.len() <= MAX_ECHO_PENDING,
{
}

/// A message on the topic that no client waits for is the newest of those that wait. With
/// it wait the newest of those before it, in the order in which they came, and the next
/// message of its writer is compared with it.
pub proof fn law_newest_messages_wait(
    view: EchoView,
    ros_type: Option<Seq<char>>,
    writer_gid: TopicGid,
    number: i64,
    payload_base64: Seq<char>,
)
    requires
        view.waiting is None,
        view.pending.len() <= MAX_ECHO_PENDING,
    ensures
        ({
            let (after, answer) = echo_taken(
                view,
                view.topic_name,
                ros_type,
                writer_gid,
                number,
                payload_base64,
            );
            let last = if view.last_numbers.contains_key(writer_gid) {
                Some(view.last_numbers[writer_gid])
            } else {
                None
            };
            let message = EchoMessageView {
                ros_type,
                payload_base64,
                lost_before: lost_between(last, number),
            };
            &&& answer is None
            &&& after.pending == newest(view.pending.push(message), MAX_ECHO_PENDING)
            &&& after.pending.len() <= MAX_ECHO_PENDING
            &&& after.pending.last() == message
            &&& after.last_numbers == view.last_numbers.insert(writer_gid, number)
        }),
{
    let last = if view.last_numbers.contains_key(writer_gid) {
        Some(view.last_numbers[writer_gid])
    } else {
        None
    };
    let message = EchoMessageView {
        ros_type,
        payload_base64,
        lost_before: lost_between(last, number),
    };
    assert(pushed(view.pending, message, MAX_ECHO_PENDING) =~= newest(
        view.pending.push(message),
        MAX_ECHO_PENDING,
    ));
}

/// The numbers rise.
pub open spec fn rising(numbers: Seq<i64>) -> bool {
    forall|i: int, j: int|
        0 <= i < j < numbers.len() ==> #[trigger] numbers[i] < #[trigger] numbers[j]
}

/// All messages that are reported lost over a run of numbers.
pub open spec fn lost_in_run(numbers: Seq<i64>) -> nat
    decreases numbers.len(),
{
    if numbers.len() < 2 {
        0
    } else {
        lost_in_run(numbers.drop_last()) + lost_between(
            Some(numbers[numbers.len() - 2]),
            numbers.last(),
        ) as nat
    }
}

/// Over a writer's messages with rising numbers, as many are reported lost as numbers
/// were skipped.
pub proof fn law_lost_messages_counted(numbers: Seq<i64>)
    requires
        numbers.len() > 0,
        rising(numbers),
        numbers.last() - numbers[0] <= usize::MAX,
    ensures
        lost_in_run(numbers) == numbers.last() - numbers[0] - (numbers.len() - 1),
    decreases numbers.len(),
{
    if numbers.len() >= 2 {
        let before = numbers.drop_last();
        assert(before.last() == numbers[numbers.len() - 2]);
        assert(before[0] == numbers[0]);
        assert(numbers[numbers.len() - 2] < numbers[numbers.len() - 1]);
        if before.len() > 1 {
            assert(numbers[0] < numbers[numbers.len() - 2]);
        }
        law_lost_messages_counted(before);
    }
}

/// A client that waits is answered by the next message on the topic, with that message and
/// with how many of its writer's are missing before it. Nothing else changes but that the
/// writer's next message is compared with it.
pub proof fn law_waiting_client_gets_next_message(
    view: EchoView,
    ros_type: Option<Seq<char>>,
    writer_gid: TopicGid,
    number: i64,
    payload_base64: Seq<char>,
)
    requires
        view.waiting is Some,
        view.pending.len() == 0,
    ensures
        ({
            let (after, answer) = echo_taken(
                view,
                view.topic_name,
                ros_type,
                writer_gid,
                number,
                payload_base64,
            );
            &&& answer matches Some((reply, status))
            &&& Some(reply) == view.waiting
            &&& status.messages.len() == 1
            &&& status.messages[0].payload_base64 == payload_base64
            &&& status.messages[0].ros_type == ros_type
            &&& !view.last_numbers.contains_key(writer_gid) ==> status.messages[0].lost_before == 0
            &&& view.last_numbers.contains_key(writer_gid) && number
                <= view.last_numbers[writer_gid] + 1 ==> status.messages[0].lost_before == 0
            &&& view.last_numbers.contains_key(writer_gid) && 0 <= number
                - view.last_numbers[writer_gid] - 1 <= usize::MAX
                ==> status.messages[0].lost_before == number - view.last_numbers[writer_gid] - 1
            &&& status.active
            &&& status.topic_name == Some(view.topic_name)
            &&& after.waiting is None
            &&& after.pending.len() == 0
            &&& after.topic_name == view.topic_name
            &&& after.last_numbers == view.last_numbers.insert(writer_gid, number)
        }),
{
}

/// Each message is handed out once: a client that asks again right away gets none of
/// those it was given.
pub proof fn law_messages_handed_out_once(view: EchoView, first: u64, second: u64)
    requires
        view.pending.len() > 0,
        view.waiting is None,
    ensures
        ({
            let (between, answer) = echo_asked(Some(view), first);
            let (after, later) = echo_asked(between, second);
            &&& answer == Some((first, echo_status(view, view.pending)))
            &&& later is None
            &&& after == Some(EchoView { pending: seq![], waiting: Some(second), ..view })
        }),
{
}

} // verus!
