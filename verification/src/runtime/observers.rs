//! Watching a topic: its bandwidth, its rate, its messages and their delay.

use crate::capture::capture::newest;
use crate::command::protocol::{
    BwStats, BwStatusView, HzStatusView, SpanStats, TopicBwStatusResponse, TopicHzStatusResponse,
    TopicStartRequest, TopicStartResponse, TopicStopResponse,
};
use crate::common::{Timestamp, TopicGid};
use crate::numbers::{sum, summarize, summary, Summary};
use crate::payload::{payload_bytes, payload_slice};
use crate::text::{has_prefix, join3, same_text, starts_with, text_opt};
use bytes::Bytes;
use std::collections::VecDeque;
use vstd::prelude::*;
use vstd::string::*;

verus! {

/// A message that was captured on its way.
pub struct DataMessage {
    pub writer_gid: TopicGid,
    pub reader_gid: TopicGid,
    pub sequence_number: [u8; 8],
    pub payload: Bytes,
    pub socket_timestamp: Timestamp,
}

/// What is known of the topic of a message.
pub struct TopicMetadata {
    pub topic_name: String,
    pub ros_type: Option<String>,
}

// Starting.

/// Why a topic cannot be watched, if so: the command is active already, the name does
/// not start with a slash, or the window is empty.
pub open spec fn start_error(
    command: Seq<char>,
    active: bool,
    topic_name: Seq<char>,
    window_size: Option<usize>,
) -> Option<Seq<char>> {
    if active {
        Some("topic "@ + command + " is already active"@)
    } else if !starts_with(topic_name, "/"@) {
        Some(
            "rp topic "@ + command + ": topic '"@ + topic_name
                + "' must start with '/'; use '/chatter' instead of 'chatter'"@,
        )
    } else if window_size == Some(0usize) {
        Some("rp topic "@ + command + ": --window must be greater than 0"@)
    } else {
        None
    }
}

pub(crate) fn check_start(command: &str, active: bool, topic_name: &str, window_size: Option<usize>) -> (r:
    Option<String>)
    ensures
        text_opt(r) == start_error(command@, active, topic_name@, window_size),
{
    if active {
        return Some(join3("topic ", command, " is already active"));
    }
    if !has_prefix(topic_name, "/") {
        let mut message = join3("rp topic ", command, ": topic '");
        message.append(topic_name);
        message.append("' must start with '/'; use '/chatter' instead of 'chatter'");
        return Some(message);
    }
    match window_size {
        Some(size) => if size == 0 {
            return Some(join3("rp topic ", command, ": --window must be greater than 0"));
        },
        None => {},
    }
    None
}

/// `r` refuses with `error`, or starts watching the topic.
pub open spec fn is_started(
    r: Result<TopicStartResponse, String>,
    error: Option<Seq<char>>,
    topic_name: Seq<char>,
) -> bool {
    match (r, error) {
        (Err(message), Some(wanted)) => message@ == wanted,
        (Ok(response), None) => response.topic_name@ == topic_name,
        _ => false,
    }
}

/// `r` says whether a topic was being watched, and which.
pub open spec fn is_stopped(r: TopicStopResponse, topic_name: Option<Seq<char>>) -> bool {
    r.stopped == topic_name is Some && text_opt(r.topic_name) == topic_name
}

/// Adds an item and drops the oldest ones beyond the window.
pub(crate) fn push_windowed(queue: &mut VecDeque<u64>, item: u64, window_size: usize)
    ensures
        final(queue)@ == newest(old(queue)@.push(item), window_size),
{
    let ghost all = queue@.push(item);
    queue.push_back(item);
    assert(queue@ =~= all.skip(0));
    let ghost mut dropped: int = 0;
    while queue.len() > window_size
        invariant
            0 <= dropped <= all.len(),
            queue@ == all.skip(dropped),
            dropped > 0 ==> queue@.len() >= window_size,
        decreases queue.len(),
    {
        let _ = queue.pop_front();
        proof {
            assert(queue@ =~= all.skip(dropped + 1));
            dropped = dropped + 1;
        }
    }
    assert(queue@ =~= newest(all, window_size));
}

pub(crate) fn copy_queue(queue: &VecDeque<u64>) -> (r: Vec<u64>)
    ensures
        r@ == queue@,
{
    let mut r: Vec<u64> = Vec::new();
    let mut i: usize = 0;
    while i < queue.len()
        invariant
            i <= queue@.len(),
            r@ == queue@.take(i as int),
        decreases queue@.len() - i,
    {
        r.push(queue[i]);
        assert(r@ =~= queue@.take(i + 1));
        i += 1;
    }
    assert(r@ =~= queue@);
    r
}

/// How long ago a point in time was.
pub open spec fn nanos_since(now: u64, then: u64) -> u64 {
    if now >= then {
        (now - then) as u64
    } else {
        0
    }
}

fn elapsed_nanos(now: u64, then: u64) -> (r: u64)
    ensures
        r == nanos_since(now, then),
{
    if now >= then {
        now - then
    } else {
        0
    }
}

// Bandwidth.

/// Watches how much a topic carries.
pub struct TopicBwSession {
    topic_name: String,
    window_size: usize,
    observed_at: VecDeque<u64>,
    sizes: VecDeque<u64>,
}

/// What a [`TopicBwSession`] holds: when the messages in its window came, and how
/// large they are.
#[verifier::ext_equal]
pub struct BwView {
    pub topic_name: Seq<char>,
    pub window_size: usize,
    pub observed_at: Seq<u64>,
    pub sizes: Seq<u64>,
}

impl View for TopicBwSession {
    type V = BwView;

    closed spec fn view(&self) -> BwView {
        BwView {
            topic_name: self.topic_name@,
            window_size: self.window_size,
            observed_at: self.observed_at@,
            sizes: self.sizes@,
        }
    }
}

/// The view of a session that may be missing.
pub open spec fn bw_opt(session: Option<TopicBwSession>) -> Option<BwView> {
    match session {
        Some(session) => Some(session@),
        None => None,
    }
}

/// A session that has seen no message.
pub open spec fn fresh_bw(request: TopicStartRequest) -> BwView {
    BwView {
        topic_name: request.topic_name@,
        window_size: request.window_size,
        observed_at: seq![],
        sizes: seq![],
    }
}

/// Starts watching the bandwidth of a topic.
pub fn bw_start_session(request: TopicStartRequest, session: &mut Option<TopicBwSession>) -> (r:
    Result<TopicStartResponse, String>)
    requires
        *old(session) matches Some(session) ==> session.wf(),
    ensures
        *final(session) matches Some(session) ==> session.wf(),
        ({
            let error = start_error(
                "bw"@,
                *old(session) is Some,
                request.topic_name@,
                Some(request.window_size),
            );
            &&& is_started(r, error, request.topic_name@)
            &&& bw_opt(*final(session)) == (if error is Some {
                bw_opt(*old(session))
            } else {
                Some(fresh_bw(request))
            })
        }),
{
    match check_start(
        "bw",
        session.is_some(),
        request.topic_name.as_str(),
        Some(request.window_size),
    ) {
        Some(message) => return Err(message),
        None => {},
    }
    let fresh = TopicBwSession {
        topic_name: request.topic_name.clone(),
        window_size: request.window_size,
        observed_at: VecDeque::new(),
        sizes: VecDeque::new(),
    };
    assert(fresh@ =~= fresh_bw(request));
    *session = Some(fresh);
    Ok(TopicStartResponse { topic_name: request.topic_name })
}

/// Stops watching the bandwidth of a topic.
pub fn bw_stop_session(session: &mut Option<TopicBwSession>) -> (r: TopicStopResponse)
    ensures
        *final(session) is None,
        is_stopped(
            r,
            match bw_opt(*old(session)) {
                Some(view) => Some(view.topic_name),
                None => None,
            },
        ),
{
    match session.take() {
        None => TopicStopResponse { stopped: false, topic_name: None },
        Some(session) => TopicStopResponse { stopped: true, topic_name: Some(session.topic_name) },
    }
}

/// What the messages of a window amount to.
pub open spec fn bw_stats(view: BwView) -> Option<BwStats> {
    if view.sizes.len() == 0 {
        None
    } else {
        Some(
            BwStats {
                sizes: summary(view.sizes),
                elapsed_nanos: nanos_since(view.observed_at.last(), view.observed_at[0]),
            },
        )
    }
}

/// What clients are told of the bandwidth of a topic.
pub open spec fn bw_status(session: Option<BwView>, now: u64) -> BwStatusView {
    match session {
        None => BwStatusView {
            active: false,
            topic_name: None,
            stats: None,
            message_count: 0,
            window_size: 0,
            last_message_nanos_ago: None,
        },
        Some(view) => BwStatusView {
            active: true,
            topic_name: Some(view.topic_name),
            stats: bw_stats(view),
            message_count: view.sizes.len() as usize,
            window_size: view.window_size,
            last_message_nanos_ago: if view.observed_at.len() == 0 {
                None
            } else {
                Some(nanos_since(now, view.observed_at.last()))
            },
        },
    }
}

/// Tells the bandwidth of a topic. `now` is on the clock by which messages were seen.
pub fn bw_build_status_response(session: &Option<TopicBwSession>, now: u64) -> (r:
    TopicBwStatusResponse)
    requires
        *session matches Some(session) ==> session.wf(),
    ensures
        r@ == bw_status(bw_opt(*session), now),
{
    match session {
        None => TopicBwStatusResponse {
            active: false,
            topic_name: None,
            stats: None,
            message_count: 0,
            window_size: 0,
            last_message_nanos_ago: None,
        },
        Some(session) => {
            let count: usize = session.sizes.len();
            let (stats, ago) = if count == 0 {
                (None, None)
            } else {
                let last: u64 = session.observed_at[count - 1];
                let sizes = summarize(&copy_queue(&session.sizes));
                let stats = BwStats {
                    sizes,
                    elapsed_nanos: elapsed_nanos(last, session.observed_at[0]),
                };
                (Some(stats), Some(elapsed_nanos(now, last)))
            };
            TopicBwStatusResponse {
                active: true,
                topic_name: Some(session.topic_name.clone()),
                stats,
                message_count: count,
                window_size: session.window_size,
                last_message_nanos_ago: ago,
            }
        },
    }
}

/// A session after a message on a topic: one on another topic leaves it alone.
pub open spec fn bw_observed(view: BwView, topic_name: Seq<char>, size: u64, now: u64) -> BwView {
    if topic_name == view.topic_name {
        BwView {
            observed_at: newest(view.observed_at.push(now), view.window_size),
            sizes: newest(view.sizes.push(size), view.window_size),
            ..view
        }
    } else {
        view
    }
}

/// Takes a message into account.
pub fn bw_observe_message(
    session: &mut Option<TopicBwSession>,
    message: &DataMessage,
    metadata: &TopicMetadata,
    now: u64,
)
    requires
        *old(session) matches Some(session) ==> session.wf(),
    ensures
        *final(session) matches Some(session) ==> session.wf(),
        bw_opt(*final(session)) == (match bw_opt(*old(session)) {
            None => None::<BwView>,
            Some(view) => Some(
                bw_observed(
                    view,
                    metadata.topic_name@,
                    payload_bytes(message.payload).len() as u64,
                    now,
                ),
            ),
        }),
{
    match session.take() {
        None => {},
        Some(mut inner) => {
            if same_text(metadata.topic_name.as_str(), inner.topic_name.as_str()) {
                let size: u64 = payload_slice(&message.payload).len() as u64;
                push_windowed(&mut inner.observed_at, now, inner.window_size);
                push_windowed(&mut inner.sizes, size, inner.window_size);
            }
            *session = Some(inner);
        },
    }
}

impl TopicBwSession {
    /// Each message in the window has a time and a size.
    pub closed spec fn wf(&self) -> bool {
        self.observed_at@.len() == self.sizes@.len()
    }

    /// The topic that is watched.
    pub fn topic_name(&self) -> (r: &str)
        ensures
            r@ == self@.topic_name,
    {
        self.topic_name.as_str()
    }
}

// Rate.

/// Watches how often a topic carries a message.
pub struct TopicHzSession {
    topic_name: String,
    window_size: usize,
    last_message_at: Option<u64>,
    periods: VecDeque<u64>,
}

/// What a [`TopicHzSession`] holds: when the last message came, and the spans between
/// the messages before.
#[verifier::ext_equal]
pub struct HzView {
    pub topic_name: Seq<char>,
    pub window_size: usize,
    pub last_message_at: Option<u64>,
    pub periods: Seq<u64>,
}

impl View for TopicHzSession {
    type V = HzView;

    closed spec fn view(&self) -> HzView {
        HzView {
            topic_name: self.topic_name@,
            window_size: self.window_size,
            last_message_at: self.last_message_at,
            periods: self.periods@,
        }
    }
}

/// The view of a session that may be missing.
pub open spec fn hz_opt(session: Option<TopicHzSession>) -> Option<HzView> {
    match session {
        Some(session) => Some(session@),
        None => None,
    }
}

/// A session that has seen no message.
pub open spec fn fresh_hz(request: TopicStartRequest) -> HzView {
    HzView {
        topic_name: request.topic_name@,
        window_size: request.window_size,
        last_message_at: None,
        periods: seq![],
    }
}

/// Starts watching the rate of a topic.
pub fn hz_start_session(request: TopicStartRequest, session: &mut Option<TopicHzSession>) -> (r:
    Result<TopicStartResponse, String>)
    ensures
        ({
            let error = start_error(
                "hz"@,
                *old(session) is Some,
                request.topic_name@,
                Some(request.window_size),
            );
            &&& is_started(r, error, request.topic_name@)
            &&& hz_opt(*final(session)) == (if error is Some {
                hz_opt(*old(session))
            } else {
                Some(fresh_hz(request))
            })
        }),
{
    match check_start(
        "hz",
        session.is_some(),
        request.topic_name.as_str(),
        Some(request.window_size),
    ) {
        Some(message) => return Err(message),
        None => {},
    }
    let fresh = TopicHzSession {
        topic_name: request.topic_name.clone(),
        window_size: request.window_size,
        last_message_at: None,
        periods: VecDeque::new(),
    };
    assert(fresh@ =~= fresh_hz(request));
    *session = Some(fresh);
    Ok(TopicStartResponse { topic_name: request.topic_name })
}

/// Stops watching the rate of a topic.
pub fn hz_stop_session(session: &mut Option<TopicHzSession>) -> (r: TopicStopResponse)
    ensures
        *final(session) is None,
        is_stopped(
            r,
            match hz_opt(*old(session)) {
                Some(view) => Some(view.topic_name),
                None => None,
            },
        ),
{
    match session.take() {
        None => TopicStopResponse { stopped: false, topic_name: None },
        Some(session) => TopicStopResponse { stopped: true, topic_name: Some(session.topic_name) },
    }
}

/// The spans between messages and what they amount to, once they amount to anything.
pub open spec fn hz_stats(view: HzView) -> Option<(Seq<u64>, Summary)> {
    if sum(view.periods) == 0 {
        None
    } else {
        Some((view.periods, summary(view.periods)))
    }
}

/// What clients are told of the rate of a topic.
pub open spec fn hz_status(session: Option<HzView>, now: u64) -> HzStatusView {
    match session {
        None => HzStatusView {
            active: false,
            topic_name: None,
            stats: None,
            last_message_nanos_ago: None,
        },
        Some(view) => HzStatusView {
            active: true,
            topic_name: Some(view.topic_name),
            stats: hz_stats(view),
            last_message_nanos_ago: match view.last_message_at {
                None => None,
                Some(then) => Some(nanos_since(now, then)),
            },
        },
    }
}

/// Tells the rate of a topic. `now` is on the clock by which messages were seen.
pub fn hz_build_status_response(session: &Option<TopicHzSession>, now: u64) -> (r:
    TopicHzStatusResponse)
    ensures
        r@ == hz_status(hz_opt(*session), now),
{
    match session {
        None => TopicHzStatusResponse {
            active: false,
            topic_name: None,
            stats: None,
            last_message_nanos_ago: None,
        },
        Some(session) => {
            let spans = copy_queue(&session.periods);
            let summary = summarize(&spans);
            let stats = if summary.sum == 0 { None } else { Some(SpanStats { spans, summary }) };
            TopicHzStatusResponse {
                active: true,
                topic_name: Some(session.topic_name.clone()),
                stats,
                last_message_nanos_ago: match session.last_message_at {
                    None => None,
                    Some(then) => Some(elapsed_nanos(now, then)),
                },
            }
        },
    }
}

/// A session after a message on a topic: one on another topic leaves it alone.
pub open spec fn hz_observed(view: HzView, topic_name: Seq<char>, now: u64) -> HzView {
    if topic_name == view.topic_name {
        HzView {
            last_message_at: Some(now),
            periods: match view.last_message_at {
                None => view.periods,
                Some(then) => newest(view.periods.push(nanos_since(now, then)), view.window_size),
            },
            ..view
        }
    } else {
        view
    }
}

/// Takes a message into account.
pub fn hz_observe_message(session: &mut Option<TopicHzSession>, metadata: &TopicMetadata, now: u64)
    ensures
        hz_opt(*final(session)) == (match hz_opt(*old(session)) {
            None => None::<HzView>,
            Some(view) => Some(hz_observed(view, metadata.topic_name@, now)),
        }),
{
    match session.take() {
        None => {},
        Some(mut inner) => {
            if same_text(metadata.topic_name.as_str(), inner.topic_name.as_str()) {
                match inner.last_message_at {
                    None => {},
                    Some(then) => push_windowed(
                        &mut inner.periods,
                        elapsed_nanos(now, then),
                        inner.window_size,
                    ),
                }
                inner.last_message_at = Some(now);
            }
            *session = Some(inner);
        },
    }
}

impl TopicHzSession {
    /// The topic that is watched.
    pub fn topic_name(&self) -> (r: &str)
        ensures
            r@ == self@.topic_name,
    {
        self.topic_name.as_str()
    }
}

} // verus!
