//! Commands to the running probe, and its replies.

use crate::command::protocol::{
    span_view, BagRecordRequest, BagSessionInfo, BagSessionView, BagSetPausedRequest,
    BagSetPausedResponse, BagStatusResponse, BagStopResponse, BwStatusView, DelayStatusView,
    EchoStatusView, HzStatusView, TopicBwStatusResponse, TopicDelayStatusResponse,
    TopicEchoStartRequest, TopicEchoStatusResponse, TopicHzBwStatusResponse,
    TopicHzStatusResponse, TopicStartRequest, TopicStartResponse, TopicStopResponse,
};
use crate::numbers::Summary;
use crate::runtime::bag::{
    bag_options, build_bag_status_response, handle_bag_record_command, is_stamp,
    prepare_bag_record, recording_of, session_info, set_paused, stamped_path, stop_recording,
    take_recording, BagOptionsView, BagRecordOptions, RecordingView,
};
use crate::runtime::delay::{
    delay_build_stats_response, delay_build_status_response, delay_start_session, delay_stats,
    delay_status, delay_stop_session, fresh_delay, DelayView,
};
use crate::runtime::echo::{
    echo_asked, echo_reply_or_defer_status, echo_start_session, echo_stop_session, fresh_echo,
    no_echo,
};
use crate::runtime::observers::{
    bw_build_status_response, bw_start_session, bw_status, bw_stop_session, fresh_bw, fresh_hz,
    hz_build_status_response, hz_start_session, hz_status, hz_stop_session, start_error,
};
use crate::runtime::sessions::{Sessions, SessionsView};
use crate::text::text_opt;
use vstd::prelude::*;

verus! {

/// A command, with the number under which its sender waits for the reply.
#[derive(Debug)]
pub enum RuntimeCommand {
    BagRecord { request: BagRecordRequest, reply: u64 },
    BagStatus { reply: u64 },
    BagSetPaused { request: BagSetPausedRequest, reply: u64 },
    BagStop { reply: u64 },
    TopicBwStart { request: TopicStartRequest, reply: u64 },
    TopicBwStatus { reply: u64 },
    TopicBwStop { reply: u64 },
    TopicDelayStart { request: TopicStartRequest, reply: u64 },
    TopicDelayStatus { reply: u64 },
    TopicDelayStop { reply: u64 },
    TopicEchoStart { request: TopicEchoStartRequest, reply: u64 },
    TopicEchoStatus { reply: u64 },
    TopicEchoStop { reply: u64 },
    TopicHzStart { request: TopicStartRequest, reply: u64 },
    TopicHzBwStatus { reply: u64 },
    TopicHzStatus { reply: u64 },
    TopicHzStop { reply: u64 },
}

/// A reply to a command.
#[derive(Debug)]
pub enum RuntimeReply {
    BagStarted(BagSessionInfo),
    BagStatus(BagStatusResponse),
    BagSetPaused(BagSetPausedResponse),
    BagStopped(BagStopResponse),
    TopicBwStarted(TopicStartResponse),
    TopicBwStatus(TopicBwStatusResponse),
    TopicBwStopped(TopicStopResponse),
    TopicDelayStarted(TopicStartResponse),
    TopicDelayStatus(TopicDelayStatusResponse),
    TopicDelayStopped(TopicStopResponse),
    TopicEchoStarted(TopicStartResponse),
    TopicEchoStatus(TopicEchoStatusResponse),
    TopicEchoStopped(TopicStopResponse),
    TopicHzStarted(TopicStartResponse),
    TopicHzBwStatus(TopicHzBwStatusResponse),
    TopicHzStatus(TopicHzStatusResponse),
    TopicHzStopped(TopicStopResponse),
    Error(String),
}

/// What a [`RuntimeReply`] holds.
pub enum ReplyView {
    BagStarted(BagSessionView),
    BagStatus(bool, Option<BagSessionView>),
    BagSetPaused(BagSetPausedResponse),
    BagStopped(bool, Option<Seq<char>>),
    TopicBwStarted(Seq<char>),
    TopicBwStatus(BwStatusView),
    TopicBwStopped(bool, Option<Seq<char>>),
    TopicDelayStarted(Seq<char>),
    TopicDelayStatus(DelayStatusView),
    TopicDelayStopped(bool, Option<Seq<char>>),
    TopicEchoStarted(Seq<char>),
    TopicEchoStatus(EchoStatusView),
    TopicEchoStopped(bool, Option<Seq<char>>),
    TopicHzStarted(Seq<char>),
    TopicHzBwStatus(HzStatusView, BwStatusView, Option<(Seq<u64>, Summary)>),
    TopicHzStatus(HzStatusView),
    TopicHzStopped(bool, Option<Seq<char>>),
    Error(Seq<char>),
}

/// The view of a described recording that may be missing.
pub open spec fn session_info_opt(info: Option<BagSessionInfo>) -> Option<BagSessionView> {
    match info {
        Some(info) => Some(info@),
        None => None,
    }
}

impl View for RuntimeReply {
    type V = ReplyView;

    open spec fn view(&self) -> ReplyView {
        match self {
            RuntimeReply::BagStarted(r) => ReplyView::BagStarted(r@),
            RuntimeReply::BagStatus(r) => ReplyView::BagStatus(
                r.active,
                session_info_opt(r.session),
            ),
            RuntimeReply::BagSetPaused(r) => ReplyView::BagSetPaused(*r),
            RuntimeReply::BagStopped(r) => ReplyView::BagStopped(r.stopped, text_opt(r.output)),
            RuntimeReply::TopicBwStarted(r) => ReplyView::TopicBwStarted(r.topic_name@),
            RuntimeReply::TopicBwStatus(r) => ReplyView::TopicBwStatus(r@),
            RuntimeReply::TopicBwStopped(r) => ReplyView::TopicBwStopped(
                r.stopped,
                text_opt(r.topic_name),
            ),
            RuntimeReply::TopicDelayStarted(r) => ReplyView::TopicDelayStarted(r.topic_name@),
            RuntimeReply::TopicDelayStatus(r) => ReplyView::TopicDelayStatus(r@),
            RuntimeReply::TopicDelayStopped(r) => ReplyView::TopicDelayStopped(
                r.stopped,
                text_opt(r.topic_name),
            ),
            RuntimeReply::TopicEchoStarted(r) => ReplyView::TopicEchoStarted(r.topic_name@),
            RuntimeReply::TopicEchoStatus(r) => ReplyView::TopicEchoStatus(r@),
            RuntimeReply::TopicEchoStopped(r) => ReplyView::TopicEchoStopped(
                r.stopped,
                text_opt(r.topic_name),
            ),
            RuntimeReply::TopicHzStarted(r) => ReplyView::TopicHzStarted(r.topic_name@),
            RuntimeReply::TopicHzBwStatus(r) => ReplyView::TopicHzBwStatus(
                r.hz@,
                r.bw@,
                span_view(r.delay),
            ),
            RuntimeReply::TopicHzStatus(r) => ReplyView::TopicHzStatus(r@),
            RuntimeReply::TopicHzStopped(r) => ReplyView::TopicHzStopped(
                r.stopped,
                text_opt(r.topic_name),
            ),
            RuntimeReply::Error(message) => ReplyView::Error(message@),
        }
    }
}

/// A reply and the number under which it is waited for.
pub struct AddressedReply {
    pub reply: u64,
    pub content: RuntimeReply,
}

/// The replies, each with its number.
pub open spec fn reply_views(replies: Seq<AddressedReply>) -> Seq<(u64, ReplyView)> {
    replies.map_values(|reply: AddressedReply| (reply.reply, reply.content@))
}

/// What is left to do for a command.
pub enum CommandStep {
    /// Send the replies. Bring the filter and the helpers up to date first, if so asked.
    Done { replies: Vec<AddressedReply>, sync: bool },
    /// Start the recorder and say how that went.
    StartRecorder { options: BagRecordOptions, reply: u64 },
    /// Stop the recorder and say how that went.
    StopRecorder { reply: u64 },
}

/// `step` sends just the given replies.
pub open spec fn sends(step: CommandStep, replies: Seq<(u64, ReplyView)>, sync: bool) -> bool {
    match step {
        CommandStep::Done { replies: got, sync: got_sync } => reply_views(got@) == replies
            && got_sync == sync,
        _ => false,
    }
}

/// A session has been asked to start: an error, or `started`.
pub open spec fn start_reply(error: Option<Seq<char>>, started: ReplyView) -> ReplyView {
    match error {
        Some(message) => ReplyView::Error(message),
        None => started,
    }
}

/// What the probe does on a command: what its sessions become, and what is left to do.
pub open spec fn is_handled(
    command: RuntimeCommand,
    before: SessionsView,
    now: u64,
    after: SessionsView,
    step: CommandStep,
) -> bool {
    match command {
        RuntimeCommand::BagRecord { request, reply } => after == before
            && if before.recording is Some {
            sends(
                step,
                seq![(reply, ReplyView::Error("bag recording is already active"@))],
                false,
            )
        } else {
            exists|stamp: Seq<char>|
                is_stamp(stamp) && match bag_options(request, #[trigger] stamped_path(stamp)) {
                    Err(message) => sends(step, seq![(reply, ReplyView::Error(message))], false),
                    Ok(wanted) => step matches CommandStep::StartRecorder {
                        options,
                        reply: to,
                    } && options@ == wanted && to == reply,
                }
        },
        RuntimeCommand::BagStatus { reply } => {
            &&& after == before
            &&& sends(
                step,
                seq![
                    (
                        reply,
                        ReplyView::BagStatus(
                            before.recording is Some,
                            match before.recording {
                                Some(recording) => Some(session_info(recording)),
                                None => None,
                            },
                        ),
                    ),
                ],
                false,
            )
        },
        RuntimeCommand::BagSetPaused { request, reply } => {
            &&& after == SessionsView {
                recording: match before.recording {
                    Some(recording) => Some(
                        RecordingView { paused: request.paused, ..recording },
                    ),
                    None => None,
                },
                ..before
            }
            &&& sends(
                step,
                seq![
                    (
                        reply,
                        ReplyView::BagSetPaused(
                            BagSetPausedResponse {
                                active: before.recording is Some,
                                paused: request.paused,
                            },
                        ),
                    ),
                ],
                false,
            )
        },
        RuntimeCommand::BagStop { reply } => {
            &&& after == SessionsView { recording: None, ..before }
            &&& if before.recording is Some {
                step matches CommandStep::StopRecorder { reply: to } && to == reply
            } else {
                sends(step, seq![(reply, ReplyView::BagStopped(false, None))], true)
            }
        },
        RuntimeCommand::TopicBwStart { request, reply } => {
            let error = start_error(
                "bw"@,
                before.bw is Some,
                request.topic_name@,
                Some(request.window_size),
            );
            &&& after == (if error is Some {
                before
            } else {
                SessionsView { bw: Some(fresh_bw(request)), ..before }
            })
            &&& sends(
                step,
                seq![(reply, start_reply(error, ReplyView::TopicBwStarted(request.topic_name@)))],
                error is None,
            )
        },
        RuntimeCommand::TopicBwStatus { reply } => {
            &&& after == before
            &&& sends(
                step,
                seq![(reply, ReplyView::TopicBwStatus(bw_status(before.bw, now)))],
                false,
            )
        },
        RuntimeCommand::TopicBwStop { reply } => {
            &&& after == SessionsView { bw: None, ..before }
            &&& sends(
                step,
                seq![
                    (
                        reply,
                        ReplyView::TopicBwStopped(
                            before.bw is Some,
                            match before.bw {
                                Some(view) => Some(view.topic_name),
                                None => None,
                            },
                        ),
                    ),
                ],
                true,
            )
        },
        RuntimeCommand::TopicDelayStart { request, reply } => {
            let error = start_error(
                "delay"@,
                before.delay is Some,
                request.topic_name@,
                Some(request.window_size),
            );
            &&& after == (if error is Some {
                before
            } else {
                SessionsView { delay: Some(fresh_delay(request)), ..before }
            })
            &&& sends(
                step,
                seq![
                    (reply, start_reply(error, ReplyView::TopicDelayStarted(request.topic_name@))),
                ],
                error is None,
            )
        },
        RuntimeCommand::TopicDelayStatus { reply } => {
            &&& after == SessionsView {
                delay: match before.delay {
                    Some(view) => Some(DelayView { pending: seq![], ..view }),
                    None => None,
                },
                ..before
            }
            &&& sends(
                step,
                seq![(reply, ReplyView::TopicDelayStatus(delay_status(before.delay)))],
                false,
            )
        },
        RuntimeCommand::TopicDelayStop { reply } => {
            &&& after == SessionsView { delay: None, ..before }
            &&& sends(
                step,
                seq![
                    (
                        reply,
                        ReplyView::TopicDelayStopped(
                            before.delay is Some,
                            match before.delay {
                                Some(view) => Some(view.topic_name),
                                None => None,
                            },
                        ),
                    ),
                ],
                true,
            )
        },
        RuntimeCommand::TopicEchoStart { request, reply } => {
            let error = start_error("echo"@, before.echo is Some, request.topic_name@, None);
            &&& after == (if error is Some {
                before
            } else {
                SessionsView { echo: Some(fresh_echo(request.topic_name@)), ..before }
            })
            &&& sends(
                step,
                seq![
                    (reply, start_reply(error, ReplyView::TopicEchoStarted(request.topic_name@))),
                ],
                error is None,
            )
        },
        RuntimeCommand::TopicEchoStatus { reply } => {
            let (echo, answer) = echo_asked(before.echo, reply);
            &&& after == SessionsView { echo, ..before }
            &&& sends(
                step,
                match answer {
                    None => seq![],
                    Some((to, status)) => seq![(to, ReplyView::TopicEchoStatus(status))],
                },
                false,
            )
        },
        RuntimeCommand::TopicEchoStop { reply } => {
            let stopped = ReplyView::TopicEchoStopped(
                before.echo is Some,
                match before.echo {
                    Some(view) => Some(view.topic_name),
                    None => None,
                },
            );
            let waiting = match before.echo {
                Some(view) => view.waiting,
                None => None,
            };
            &&& after == SessionsView { echo: None, ..before }
            &&& sends(
                step,
                match waiting {
                    None => seq![(reply, stopped)],
                    Some(to) => seq![(to, ReplyView::TopicEchoStatus(no_echo())), (reply, stopped)],
                },
                true,
            )
        },
        RuntimeCommand::TopicHzStart { request, reply } => {
            let error = start_error(
                "hz"@,
                before.hz is Some,
                request.topic_name@,
                Some(request.window_size),
            );
            &&& after == (if error is Some {
                before
            } else {
                SessionsView { hz: Some(fresh_hz(request)), ..before }
            })
            &&& sends(
                step,
                seq![(reply, start_reply(error, ReplyView::TopicHzStarted(request.topic_name@)))],
                error is None,
            )
        },
        RuntimeCommand::TopicHzBwStatus { reply } => {
            &&& after == before
            &&& sends(
                step,
                seq![
                    (
                        reply,
                        ReplyView::TopicHzBwStatus(
                            hz_status(before.hz, now),
                            bw_status(before.bw, now),
                            delay_stats(before.delay),
                        ),
                    ),
                ],
                false,
            )
        },
        RuntimeCommand::TopicHzStatus { reply } => {
            &&& after == before
            &&& sends(
                step,
                seq![(reply, ReplyView::TopicHzStatus(hz_status(before.hz, now)))],
                false,
            )
        },
        RuntimeCommand::TopicHzStop { reply } => {
            &&& after == SessionsView { hz: None, ..before }
            &&& sends(
                step,
                seq![
                    (
                        reply,
                        ReplyView::TopicHzStopped(
                            before.hz is Some,
                            match before.hz {
                                Some(view) => Some(view.topic_name),
                                None => None,
                            },
                        ),
                    ),
                ],
                true,
            )
        },
    }
}

/// One reply, and whether to bring things up to date.
fn done(reply: u64, content: RuntimeReply, sync: bool) -> (r: CommandStep)
    ensures
        sends(r, seq![(reply, content@)], sync),
{
    let replies = vec![AddressedReply { reply, content }];
    assert(reply_views(replies@) =~= seq![(reply, content@)]);
    CommandStep::Done { replies, sync }
}

/// The reply to a session that was asked to start.
fn started(result: Result<TopicStartResponse, String>) -> (r: (Result<TopicStartResponse, RuntimeReply>, bool))
    ensures
        r.1 == (result is Ok),
        match result {
            Ok(response) => r.0 == Ok::<TopicStartResponse, RuntimeReply>(response),
            Err(message) => r.0 matches Err(reply) && reply@ == ReplyView::Error(message@),
        },
{
    match result {
        Ok(response) => (Ok(response), true),
        Err(message) => (Err(RuntimeReply::Error(message)), false),
    }
}

/// Carries out a command as far as the sessions go. `now` is on the clock by which
/// messages are seen.
pub fn handle_runtime_command(command: RuntimeCommand, sessions: &mut Sessions, now: u64) -> (r:
    CommandStep)
    requires
        old(sessions).wf(),
    ensures
        final(sessions).wf(),
        is_handled(command, old(sessions)@, now, final(sessions)@, r),
{
    match command {
        RuntimeCommand::BagRecord { request, reply } => {
            match prepare_bag_record(request, &sessions.recording) {
                Err(message) => done(reply, RuntimeReply::Error(message), false),
                Ok(options) => CommandStep::StartRecorder { options, reply },
            }
        },
        RuntimeCommand::BagStatus { reply } => {
            let status = build_bag_status_response(&sessions.recording);
            done(reply, RuntimeReply::BagStatus(status), false)
        },
        RuntimeCommand::BagSetPaused { request, reply } => {
            let response = set_paused(&mut sessions.recording, request.paused);
            done(reply, RuntimeReply::BagSetPaused(response), false)
        },
        RuntimeCommand::BagStop { reply } => {
            if take_recording(&mut sessions.recording) {
                CommandStep::StopRecorder { reply }
            } else {
                match stop_recording(None) {
                    Ok(response) => done(reply, RuntimeReply::BagStopped(response), true),
                    Err(message) => done(reply, RuntimeReply::Error(message), false),
                }
            }
        },
        RuntimeCommand::TopicBwStart { request, reply } => {
            let (result, sync) = started(bw_start_session(request, &mut sessions.bw));
            match result {
                Ok(response) => done(reply, RuntimeReply::TopicBwStarted(response), sync),
                Err(error) => done(reply, error, sync),
            }
        },
        RuntimeCommand::TopicBwStatus { reply } => {
            let status = bw_build_status_response(&sessions.bw, now);
            done(reply, RuntimeReply::TopicBwStatus(status), false)
        },
        RuntimeCommand::TopicBwStop { reply } => {
            let response = bw_stop_session(&mut sessions.bw);
            done(reply, RuntimeReply::TopicBwStopped(response), true)
        },
        RuntimeCommand::TopicDelayStart { request, reply } => {
            let (result, sync) = started(delay_start_session(request, &mut sessions.delay));
            match result {
                Ok(response) => done(reply, RuntimeReply::TopicDelayStarted(response), sync),
                Err(error) => done(reply, error, sync),
            }
        },
        RuntimeCommand::TopicDelayStatus { reply } => {
            let status = delay_build_status_response(&mut sessions.delay);
            done(reply, RuntimeReply::TopicDelayStatus(status), false)
        },
        RuntimeCommand::TopicDelayStop { reply } => {
            let response = delay_stop_session(&mut sessions.delay);
            done(reply, RuntimeReply::TopicDelayStopped(response), true)
        },
        RuntimeCommand::TopicEchoStart { request, reply } => {
            let (result, sync) = started(echo_start_session(request, &mut sessions.echo));
            match result {
                Ok(response) => done(reply, RuntimeReply::TopicEchoStarted(response), sync),
                Err(error) => done(reply, error, sync),
            }
        },
        RuntimeCommand::TopicEchoStatus { reply } => {
            match echo_reply_or_defer_status(&mut sessions.echo, reply) {
                None => {
                    let replies: Vec<AddressedReply> = Vec::new();
                    assert(reply_views(replies@) =~= seq![]);
                    CommandStep::Done { replies, sync: false }
                },
                Some(answer) => done(
                    answer.reply,
                    RuntimeReply::TopicEchoStatus(answer.response),
                    false,
                ),
            }
        },
        RuntimeCommand::TopicEchoStop { reply } => {
            let (response, answer) = echo_stop_session(&mut sessions.echo);
            let stopped = RuntimeReply::TopicEchoStopped(response);
            match answer {
                None => done(reply, stopped, true),
                Some(answer) => {
                    let told = RuntimeReply::TopicEchoStatus(answer.response);
                    let replies = vec![
                        AddressedReply { reply: answer.reply, content: told },
                        AddressedReply { reply, content: stopped },
                    ];
                    assert(reply_views(replies@) =~= seq![
                        (answer.reply, told@),
                        (reply, stopped@),
                    ]);
                    CommandStep::Done { replies, sync: true }
                },
            }
        },
        RuntimeCommand::TopicHzStart { request, reply } => {
            let (result, sync) = started(hz_start_session(request, &mut sessions.hz));
            match result {
                Ok(response) => done(reply, RuntimeReply::TopicHzStarted(response), sync),
                Err(error) => done(reply, error, sync),
            }
        },
        RuntimeCommand::TopicHzBwStatus { reply } => {
            let hz = hz_build_status_response(&sessions.hz, now);
            let bw = bw_build_status_response(&sessions.bw, now);
            let delay = delay_build_stats_response(&sessions.delay);
            done(
                reply,
                RuntimeReply::TopicHzBwStatus(TopicHzBwStatusResponse { hz, bw, delay }),
                false,
            )
        },
        RuntimeCommand::TopicHzStatus { reply } => {
            let status = hz_build_status_response(&sessions.hz, now);
            done(reply, RuntimeReply::TopicHzStatus(status), false)
        },
        RuntimeCommand::TopicHzStop { reply } => {
            let response = hz_stop_session(&mut sessions.hz);
            done(reply, RuntimeReply::TopicHzStopped(response), true)
        },
    }
}

/// What comes of a command to record, once the recorder has said whether it started: the
/// recording runs, or nothing has changed.
pub open spec fn is_start_finished(
    started: Result<(), String>,
    options: BagOptionsView,
    reply: u64,
    before: SessionsView,
    after: SessionsView,
    step: CommandStep,
) -> bool {
    match started {
        Ok(()) => {
            &&& after == (SessionsView { recording: Some(recording_of(options)), ..before })
            &&& sends(
                step,
                seq![(reply, ReplyView::BagStarted(session_info(recording_of(options))))],
                true,
            )
        },
        Err(message) => {
            &&& after == before
            &&& sends(step, seq![(reply, ReplyView::Error(message@))], false)
        },
    }
}

/// Finishes a command to record, once the recorder has said whether it started.
pub fn recorder_started(
    sessions: &mut Sessions,
    options: BagRecordOptions,
    started: Result<(), String>,
    reply: u64,
) -> (r: CommandStep)
    requires
        old(sessions).wf(),
        old(sessions).recording is None,
    ensures
        final(sessions).wf(),
        is_start_finished(started, options@, reply, old(sessions)@, final(sessions)@, r),
{
    match handle_bag_record_command(options, started, &mut sessions.recording) {
        Ok(info) => done(reply, RuntimeReply::BagStarted(info), true),
        Err(message) => done(reply, RuntimeReply::Error(message), false),
    }
}

/// What comes of a command to stop recording, once the recorder has said what it wrote.
pub open spec fn is_stop_finished(
    stopped: Result<Option<String>, String>,
    reply: u64,
    step: CommandStep,
) -> bool {
    match stopped {
        Ok(output) => sends(
            step,
            seq![(reply, ReplyView::BagStopped(true, text_opt(output)))],
            true,
        ),
        Err(message) => sends(step, seq![(reply, ReplyView::Error(message@))], true),
    }
}

/// Finishes a command to stop recording, once the recorder has said what it wrote. The
/// recording has ended either way, so its topics leave the filter.
pub fn recorder_stopped(stopped: Result<Option<String>, String>, reply: u64) -> (r: CommandStep)
    ensures
        is_stop_finished(stopped, reply, r),
{
    match stop_recording(Some(stopped)) {
        Ok(response) => done(reply, RuntimeReply::BagStopped(response), true),
        Err(message) => done(reply, RuntimeReply::Error(message), true),
    }
}

// Laws.

/// The number under which the sender of a command waits.
pub open spec fn reply_number(command: RuntimeCommand) -> u64 {
    match command {
        RuntimeCommand::BagRecord { request, reply } => reply,
        RuntimeCommand::BagStatus { reply } => reply,
        RuntimeCommand::BagSetPaused { request, reply } => reply,
        RuntimeCommand::BagStop { reply } => reply,
        RuntimeCommand::TopicBwStart { request, reply } => reply,
        RuntimeCommand::TopicBwStatus { reply } => reply,
        RuntimeCommand::TopicBwStop { reply } => reply,
        RuntimeCommand::TopicDelayStart { request, reply } => reply,
        RuntimeCommand::TopicDelayStatus { reply } => reply,
        RuntimeCommand::TopicDelayStop { reply } => reply,
        RuntimeCommand::TopicEchoStart { request, reply } => reply,
        RuntimeCommand::TopicEchoStatus { reply } => reply,
        RuntimeCommand::TopicEchoStop { reply } => reply,
        RuntimeCommand::TopicHzStart { request, reply } => reply,
        RuntimeCommand::TopicHzBwStatus { reply } => reply,
        RuntimeCommand::TopicHzStatus { reply } => reply,
        RuntimeCommand::TopicHzStop { reply } => reply,
    }
}

/// A reply is of the kind that its command asks for, or an error.
pub open spec fn fits(command: RuntimeCommand, reply: ReplyView) -> bool {
    reply is Error || match command {
        RuntimeCommand::BagRecord { .. } => reply is BagStarted,
        RuntimeCommand::BagStatus { .. } => reply is BagStatus,
        RuntimeCommand::BagSetPaused { .. } => reply is BagSetPaused,
        RuntimeCommand::BagStop { .. } => reply is BagStopped,
        RuntimeCommand::TopicBwStart { .. } => reply is TopicBwStarted,
        RuntimeCommand::TopicBwStatus { .. } => reply is TopicBwStatus,
        RuntimeCommand::TopicBwStop { .. } => reply is TopicBwStopped,
        RuntimeCommand::TopicDelayStart { .. } => reply is TopicDelayStarted,
        RuntimeCommand::TopicDelayStatus { .. } => reply is TopicDelayStatus,
        RuntimeCommand::TopicDelayStop { .. } => reply is TopicDelayStopped,
        RuntimeCommand::TopicEchoStart { .. } => reply is TopicEchoStarted,
        RuntimeCommand::TopicEchoStatus { .. } => reply is TopicEchoStatus,
        RuntimeCommand::TopicEchoStop { .. } => reply is TopicEchoStopped,
        RuntimeCommand::TopicHzStart { .. } => reply is TopicHzStarted,
        RuntimeCommand::TopicHzBwStatus { .. } => reply is TopicHzBwStatus,
        RuntimeCommand::TopicHzStatus { .. } => reply is TopicHzStatus,
        RuntimeCommand::TopicHzStop { .. } => reply is TopicHzStopped,
    }
}

/// The last reply that a command causes goes to its sender and is of the kind that it
/// asks for. Any other goes to a client that waits for echoed messages.
pub proof fn law_replies_fit_commands(
    command: RuntimeCommand,
    before: SessionsView,
    now: u64,
    after: SessionsView,
    step: CommandStep,
    i: int,
)
    requires
        is_handled(command, before, now, after, step),
        step is Done,
        0 <= i < step->replies@.len(),
    ensures
        ({
            let replies = step->replies@;
            if i == replies.len() - 1 && !(command is TopicEchoStatus) {
                replies[i].reply == reply_number(command) && fits(command, replies[i].content@)
            } else {
                replies[i].content@ is TopicEchoStatus
            }
        }),
{
    let views = reply_views(step->replies@);
    assert(views[i] == (step->replies@[i].reply, step->replies@[i].content@));
    assert(views.len() == step->replies@.len());
}

/// A command to watch one thing leaves everything else that is watched or recorded as
/// it is.
pub proof fn law_sessions_independent(
    command: RuntimeCommand,
    before: SessionsView,
    now: u64,
    after: SessionsView,
    step: CommandStep,
)
    requires
        is_handled(command, before, now, after, step),
    ensures
        !(command is BagRecord || command is BagSetPaused || command is BagStop)
            ==> after.recording == before.recording,
        !(command is TopicBwStart || command is TopicBwStop) ==> after.bw == before.bw,
        !(command is TopicDelayStart || command is TopicDelayStatus || command is TopicDelayStop)
            ==> after.delay == before.delay,
        !(command is TopicEchoStart || command is TopicEchoStatus || command is TopicEchoStop)
            ==> after.echo == before.echo,
        !(command is TopicHzStart || command is TopicHzStop) ==> after.hz == before.hz,
{
}

} // verus!
