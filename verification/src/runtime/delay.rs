//! Watching the delay between the stamp of a message and its arrival.

use crate::base64_text::{base64_decoded, base64_encoded, encodable, encode_base64};
use crate::capture::capture::newest;
use crate::command::protocol::{
    delay_views, span_view, DelayMessageView, DelayStatusView, SpanStats, TopicDelayMessage,
    TopicDelayStatusResponse, TopicStartRequest, TopicStartResponse, TopicStopResponse,
};
use crate::common::{system_time_to_nanos, Timestamp};
use crate::numbers::{summarize, summary, Summary};
use crate::payload::{payload_bytes, payload_slice};
use crate::runtime::observers::{
    check_start, copy_queue, is_started, is_stopped, push_windowed, start_error, DataMessage,
    TopicMetadata,
};
use crate::text::{clone_text_opt, same_text, text_opt};
use crate::wire::{be16, read_be16, read_u32_at, u32_at};
use std::collections::VecDeque;
use vstd::prelude::*;

verus! {

/// How many messages wait for the client at most.
pub const MAX_DELAY_PENDING: usize = 128;

/// Delays from here on are not believed: one minute.
pub const MAX_DELAY_NANOS: u64 = 60_000_000_000;

/// Watches the delay of a topic.
pub struct TopicDelaySession {
    topic_name: String,
    delays: VecDeque<u64>,
    window_size: usize,
    pending_messages: VecDeque<TopicDelayMessage>,
}

/// What a [`TopicDelaySession`] holds.
#[verifier::ext_equal]
pub struct DelayView {
    pub topic_name: Seq<char>,
    /// The delays in the window, in nanoseconds, oldest first.
    pub delays: Seq<u64>,
    pub window_size: usize,
    /// The messages that wait for the client, oldest first.
    pub pending: Seq<DelayMessageView>,
}

impl View for TopicDelaySession {
    type V = DelayView;

    closed spec fn view(&self) -> DelayView {
        DelayView {
            topic_name: self.topic_name@,
            delays: self.delays@,
            window_size: self.window_size,
            pending: delay_views(self.pending_messages@),
        }
    }
}

/// The view of a session that may be missing.
pub open spec fn delay_opt(session: Option<TopicDelaySession>) -> Option<DelayView> {
    match session {
        Some(session) => Some(session@),
        None => None,
    }
}

/// A session that has seen no message.
pub open spec fn fresh_delay(request: TopicStartRequest) -> DelayView {
    DelayView {
        topic_name: request.topic_name@,
        delays: seq![],
        window_size: request.window_size,
        pending: seq![],
    }
}

/// Starts watching the delay of a topic.
pub fn delay_start_session(
    request: TopicStartRequest,
    session: &mut Option<TopicDelaySession>,
) -> (r: Result<TopicStartResponse, String>)
    ensures
        ({
            let error = start_error(
                "delay"@,
                *old(session) is Some,
                request.topic_name@,
                Some(request.window_size),
            );
            &&& is_started(r, error, request.topic_name@)
            &&& delay_opt(*final(session)) == (if error is Some {
                delay_opt(*old(session))
            } else {
                Some(fresh_delay(request))
            })
        }),
{
    match check_start(
        "delay",
        session.is_some(),
        request.topic_name.as_str(),
        Some(request.window_size),
    ) {
        Some(message) => return Err(message),
        None => {},
    }
    let fresh = TopicDelaySession {
        topic_name: request.topic_name.clone(),
        delays: VecDeque::new(),
        window_size: request.window_size,
        pending_messages: VecDeque::new(),
    };
    assert(fresh@ =~= fresh_delay(request));
    *session = Some(fresh);
    Ok(TopicStartResponse { topic_name: request.topic_name })
}

/// Stops watching the delay of a topic.
pub fn delay_stop_session(session: &mut Option<TopicDelaySession>) -> (r: TopicStopResponse)
    ensures
        *final(session) is None,
        is_stopped(
            r,
            match delay_opt(*old(session)) {
                Some(view) => Some(view.topic_name),
                None => None,
            },
        ),
{
    match session.take() {
        None => TopicStopResponse { stopped: false, topic_name: None },
        Some(session) => TopicStopResponse { stopped: true, topic_name: Some(session.topic_name) },
    }
}

/// What clients are told of the messages that wait for them.
pub open spec fn delay_status(session: Option<DelayView>) -> DelayStatusView {
    match session {
        None => DelayStatusView { active: false, topic_name: None, messages: seq![] },
        Some(view) => DelayStatusView {
            active: true,
            topic_name: Some(view.topic_name),
            messages: view.pending,
        },
    }
}

/// Hands out all messages that wait for the client.
pub fn delay_build_status_response(session: &mut Option<TopicDelaySession>) -> (r:
    TopicDelayStatusResponse)
    ensures
        r@ == delay_status(delay_opt(*old(session))),
        delay_opt(*final(session)) == (match delay_opt(*old(session)) {
            None => None::<DelayView>,
            Some(view) => Some(DelayView { pending: seq![], ..view }),
        }),
{
    match session.take() {
        None => {
            let r = TopicDelayStatusResponse {
                active: false,
                topic_name: None,
                messages: Vec::new(),
            };
            assert(r@ =~= delay_status(None));
            r
        },
        Some(mut inner) => {
            let ghost view = inner@;
            let mut messages: Vec<TopicDelayMessage> = Vec::new();
            let ghost all = inner.pending_messages@;
            let ghost start = inner;
            while inner.pending_messages.len() > 0
                invariant
                    inner.topic_name == start.topic_name,
                    inner.delays == start.delays,
                    inner.window_size == start.window_size,
                    messages@ + inner.pending_messages@ =~= all,
                decreases inner.pending_messages@.len(),
            {
                match inner.pending_messages.pop_front() {
                    Some(message) => messages.push(message),
                    None => {},
                }
            }
            assert(messages@ =~= all);
            assert(inner@.pending =~= seq![]);
            let r = TopicDelayStatusResponse {
                active: true,
                topic_name: Some(inner.topic_name.clone()),
                messages,
            };
            *session = Some(inner);
            r
        },
    }
}

/// The delays of a window and what they amount to, once there are any.
pub open spec fn delay_stats(session: Option<DelayView>) -> Option<(Seq<u64>, Summary)> {
    match session {
        None => None,
        Some(view) => if view.delays.len() == 0 {
            None
        } else {
            Some((view.delays, summary(view.delays)))
        },
    }
}

/// Tells what the delays of a topic amount to.
pub fn delay_build_stats_response(session: &Option<TopicDelaySession>) -> (r: Option<SpanStats>)
    ensures
        span_view(r) == delay_stats(delay_opt(*session)),
{
    match session {
        None => None,
        Some(session) => if session.delays.len() == 0 {
            None
        } else {
            let spans = copy_queue(&session.delays);
            let summary = summarize(&spans);
            Some(SpanStats { spans, summary })
        },
    }
}

/// The stamp that a message starts with, in nanoseconds: seconds and nanoseconds in
/// the byte order of the encapsulation header, or little-endian where there is none.
pub open spec fn cdr_stamp(payload: Seq<u8>) -> Option<u64> {
    if payload.len() < 12 {
        None
    } else {
        let encapsulation = be16(payload[0], payload[1]);
        let le = encapsulation != 0;
        let at = if encapsulation <= 1 {
            4int
        } else {
            0int
        };
        let nanos = u32_at(payload, at + 4, le);
        if nanos >= 1_000_000_000 {
            None
        } else {
            Some((u32_at(payload, at, le) * 1_000_000_000 + nanos) as u64)
        }
    }
}

/// Reads the stamp that a message starts with.
pub fn parse_cdr_stamp_nanos(payload: &[u8]) -> (r: Option<u64>)
    ensures
        r == cdr_stamp(payload@),
{
    if payload.len() < 12 {
        return None;
    }
    let encapsulation: u16 = read_be16(payload[0], payload[1]);
    let le = encapsulation != 0;
    let at: usize = if encapsulation <= 1 { 4 } else { 0 };
    let seconds: u32 = read_u32_at(payload, at, le);
    let nanos: u32 = read_u32_at(payload, at + 4, le);
    if nanos >= 1_000_000_000 {
        return None;
    }
    Some(seconds as u64 * 1_000_000_000 + nanos as u64)
}

/// How far two points in time are apart.
pub open spec fn distance(a: u64, b: u64) -> u64 {
    if a >= b {
        (a - b) as u64
    } else {
        (b - a) as u64
    }
}

/// The time of arrival in nanoseconds, if it can be told.
pub open spec fn arrival_nanos(timestamp: Timestamp) -> Option<u64> {
    if 0 <= timestamp.unix_nanos <= u64::MAX {
        Some(timestamp.unix_nanos as u64)
    } else {
        None
    }
}

/// The messages that wait for the client, with room for one more.
pub open spec fn with_pending_room(pending: Seq<DelayMessageView>) -> Seq<DelayMessageView> {
    if pending.len() == MAX_DELAY_PENDING {
        pending.drop_first()
    } else {
        pending
    }
}

/// A session after a message. Messages on other topics leave it alone. A message whose
/// time of arrival cannot be told only makes room. A stamp a minute or more from the
/// arrival is not believed.
pub open spec fn delay_taken(
    view: DelayView,
    topic_name: Seq<char>,
    ros_type: Option<Seq<char>>,
    timestamp: Timestamp,
    payload: Seq<u8>,
    payload_base64: Seq<char>,
) -> DelayView {
    if topic_name != view.topic_name {
        view
    } else {
        let roomy = DelayView { pending: with_pending_room(view.pending), ..view };
        match arrival_nanos(timestamp) {
            None => roomy,
            Some(received_at_nanos) => DelayView {
                pending: roomy.pending.push(
                    DelayMessageView { ros_type, payload_base64, received_at_nanos },
                ),
                delays: match cdr_stamp(payload) {
                    None => view.delays,
                    Some(stamp) => if distance(received_at_nanos, stamp) < MAX_DELAY_NANOS {
                        newest(
                            view.delays.push(distance(received_at_nanos, stamp)),
                            view.window_size,
                        )
                    } else {
                        view.delays
                    },
                },
                ..view
            },
        }
    }
}

/// Takes in a message whose payload has been turned into text.
pub fn delay_take_message(
    session: &mut Option<TopicDelaySession>,
    message: &DataMessage,
    metadata: &TopicMetadata,
    payload_base64: String,
)
    ensures
        delay_opt(*final(session)) == (match delay_opt(*old(session)) {
            None => None::<DelayView>,
            Some(view) => Some(
                delay_taken(
                    view,
                    metadata.topic_name@,
                    text_opt(metadata.ros_type),
                    message.socket_timestamp,
                    payload_bytes(message.payload),
                    payload_base64@,
                ),
            ),
        }),
{
    match session.take() {
        None => {},
        Some(mut inner) => {
            let ghost start = inner@;
            if !same_text(metadata.topic_name.as_str(), inner.topic_name.as_str()) {
                *session = Some(inner);
                return;
            }
            if inner.pending_messages.len() == MAX_DELAY_PENDING {
                let _ = inner.pending_messages.pop_front();
            }
            assert(inner@.pending =~= with_pending_room(start.pending));
            let received_at_nanos: u64 = match system_time_to_nanos(message.socket_timestamp) {
                Err(_) => {
                    *session = Some(inner);
                    return;
                },
                Ok(nanos) => nanos,
            };
            let pending = TopicDelayMessage {
                ros_type: clone_text_opt(&metadata.ros_type),
                payload_base64,
                received_at_nanos,
            };
            let ghost view = pending@;
            let ghost roomy = inner@.pending;
            inner.pending_messages.push_back(pending);
            assert(inner@.pending =~= roomy.push(view));
            match parse_cdr_stamp_nanos(payload_slice(&message.payload)) {
                None => {},
                Some(stamp) => {
                    let delay: u64 = if received_at_nanos >= stamp {
                        received_at_nanos - stamp
                    } else {
                        stamp - received_at_nanos
                    };
                    if delay < MAX_DELAY_NANOS {
                        push_windowed(&mut inner.delays, delay, inner.window_size);
                    }
                },
            }
            *session = Some(inner);
        },
    }
}

/// Takes in a message. The text that stands for its payload decodes to the payload.
pub fn delay_observe_message(
    session: &mut Option<TopicDelaySession>,
    message: &DataMessage,
    metadata: &TopicMetadata,
)
    requires
        encodable(payload_bytes(message.payload).len()),
    ensures
        match delay_opt(*old(session)) {
            None => *final(session) is None,
            Some(view) => {
                &&& delay_opt(*final(session)) == Some(
                    delay_taken(
                        view,
                        metadata.topic_name@,
                        text_opt(metadata.ros_type),
                        message.socket_timestamp,
                        payload_bytes(message.payload),
                        base64_encoded(payload_bytes(message.payload)),
                    ),
                )
                &&& base64_decoded(base64_encoded(payload_bytes(message.payload))) == Some(
                    payload_bytes(message.payload),
                )
            },
        },
{
    if session.is_none() {
        return;
    }
    let payload_base64 = encode_base64(payload_slice(&message.payload));
    delay_take_message(session, message, metadata, payload_base64);
}

impl TopicDelaySession {
    /// The topic that is watched.
    pub fn topic_name(&self) -> (r: &str)
        ensures
            r@ == self@.topic_name,
    {
        self.topic_name.as_str()
    }
}

/// However many messages come, the window and the waiting messages keep their bounds.
pub proof fn law_delay_session_bounded(
    view: DelayView,
    topic_name: Seq<char>,
    ros_type: Option<Seq<char>>,
    timestamp: Timestamp,
    payload: Seq<u8>,
    payload_base64: Seq<char>,
)
    requires
        view.delays.len() <= view.window_size,
        view.pending.len() <= MAX_DELAY_PENDING,
    ensures
        ({
            let after = delay_taken(
                view,
                topic_name,
                ros_type,
                timestamp,
                payload,
                payload_base64,
            );
            &&& after.delays.len() <= after.window_size
            &&& after.pending.len() <= MAX_DELAY_PENDING
        }),
{
}

/// Every delay in the window is less than a minute.
pub proof fn law_delays_under_a_minute(
    view: DelayView,
    topic_name: Seq<char>,
    ros_type: Option<Seq<char>>,
    timestamp: Timestamp,
    payload: Seq<u8>,
    payload_base64: Seq<char>,
)
    requires
        forall|i: int| 0 <= i < view.delays.len() ==> #[trigger] view.delays[i] < MAX_DELAY_NANOS,
    ensures
        ({
            let after = delay_taken(
                view,
                topic_name,
                ros_type,
                timestamp,
                payload,
                payload_base64,
            );
            forall|i: int|
                0 <= i < after.delays.len() ==> #[trigger] after.delays[i] < MAX_DELAY_NANOS
        }),
{
}

} // verus!
