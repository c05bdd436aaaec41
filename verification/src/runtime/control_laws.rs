//! What commands to the running probe do, one by one.

use crate::command::protocol::{BagSessionInfo, TopicStopResponse};
use crate::runtime::bag::{
    bag_options, is_stamp, session_info, stamped_path, BagOptionsView, RecordingView,
};
use crate::runtime::command::{
    is_handled, is_start_finished, is_stop_finished, reply_views, AddressedReply, CommandStep,
    RuntimeCommand, RuntimeReply,
};
use crate::runtime::delay::{delay_stats, delay_status};
use crate::runtime::observers::{bw_status, hz_status, is_started, is_stopped};
use crate::runtime::sessions::SessionsView;
use crate::runtime::watch_laws::law_when_a_topic_is_watched;
use crate::text::text_opt;
use vstd::prelude::*;
use vstd::string::*;

verus! {

/// The one reply of a step that has one.
pub open spec fn the_reply(step: CommandStep) -> AddressedReply {
    step->replies@[0]
}

/// A step sends one reply, to the given number, and asks for an update or not.
pub open spec fn replies_once(step: CommandStep, to: u64, sync: bool) -> bool {
    &&& step is Done
    &&& step->replies@.len() == 1
    &&& the_reply(step).reply == to
    &&& step->sync == sync
}

proof fn lemma_one_reply(step: CommandStep)
    requires
        step is Done,
        reply_views(step->replies@).len() == 1,
    ensures
        step->replies@.len() == 1,
        reply_views(step->replies@)[0] == (the_reply(step).reply, the_reply(step).content@),
{
    assert(reply_views(step->replies@).len() == step->replies@.len());
}

/// A name that starts with a slash.
pub open spec fn is_absolute(name: Seq<char>) -> bool {
    name.len() > 0 && name[0] == '/'
}

/// A command to watch a topic that starts with a slash, through a window that is not empty,
/// begins to watch it unless the same is watched already. The sender is told the topic, and
/// the filter is brought up to date. Else nothing changes and the sender is told an error.
pub proof fn law_watching_is_started(
    command: RuntimeCommand,
    before: SessionsView,
    now: u64,
    after: SessionsView,
    step: CommandStep,
)
    requires
        is_handled(command, before, now, after, step),
    ensures
        match command {
            RuntimeCommand::TopicBwStart { request, reply } => {
                let ok = before.bw is None && is_absolute(request.topic_name@)
                    && request.window_size > 0;
                &&& replies_once(step, reply, ok)
                &&& !ok ==> after == before && the_reply(step).content is Error
                &&& ok ==> {
                    &&& the_reply(step).content matches RuntimeReply::TopicBwStarted(response)
                    &&& response.topic_name@ == request.topic_name@
                    &&& after.bw matches Some(view)
                    &&& view.topic_name == request.topic_name@
                    &&& view.window_size == request.window_size
                    &&& view.sizes.len() == 0 && view.observed_at.len() == 0
                }
            },
            RuntimeCommand::TopicHzStart { request, reply } => {
                let ok = before.hz is None && is_absolute(request.topic_name@)
                    && request.window_size > 0;
                &&& replies_once(step, reply, ok)
                &&& !ok ==> after == before && the_reply(step).content is Error
                &&& ok ==> {
                    &&& the_reply(step).content matches RuntimeReply::TopicHzStarted(response)
                    &&& response.topic_name@ == request.topic_name@
                    &&& after.hz matches Some(view)
                    &&& view.topic_name == request.topic_name@
                    &&& view.window_size == request.window_size
                    &&& view.periods.len() == 0 && view.last_message_at is None
                }
            },
            RuntimeCommand::TopicDelayStart { request, reply } => {
                let ok = before.delay is None && is_absolute(request.topic_name@)
                    && request.window_size > 0;
                &&& replies_once(step, reply, ok)
                &&& !ok ==> after == before && the_reply(step).content is Error
                &&& ok ==> {
                    &&& the_reply(step).content matches RuntimeReply::TopicDelayStarted(response)
                    &&& response.topic_name@ == request.topic_name@
                    &&& after.delay matches Some(view)
                    &&& view.topic_name == request.topic_name@
                    &&& view.window_size == request.window_size
                    &&& view.delays.len() == 0 && view.pending.len() == 0
                }
            },
            RuntimeCommand::TopicEchoStart { request, reply } => {
                let ok = before.echo is None && is_absolute(request.topic_name@);
                &&& replies_once(step, reply, ok)
                &&& !ok ==> after == before && the_reply(step).content is Error
                &&& ok ==> {
                    &&& the_reply(step).content matches RuntimeReply::TopicEchoStarted(response)
                    &&& response.topic_name@ == request.topic_name@
                    &&& after.echo matches Some(view)
                    &&& view.topic_name == request.topic_name@
                    &&& view.pending.len() == 0 && view.waiting is None
                }
            },
            _ => true,
        },
{
    match command {
        RuntimeCommand::TopicBwStart { request, reply } => {
            lemma_one_reply(step);
            law_when_a_topic_is_watched(
                "bw"@,
                before.bw is Some,
                request.topic_name@,
                Some(request.window_size),
            );
        },
        RuntimeCommand::TopicHzStart { request, reply } => {
            lemma_one_reply(step);
            law_when_a_topic_is_watched(
                "hz"@,
                before.hz is Some,
                request.topic_name@,
                Some(request.window_size),
            );
        },
        RuntimeCommand::TopicDelayStart { request, reply } => {
            lemma_one_reply(step);
            law_when_a_topic_is_watched(
                "delay"@,
                before.delay is Some,
                request.topic_name@,
                Some(request.window_size),
            );
        },
        RuntimeCommand::TopicEchoStart { request, reply } => {
            lemma_one_reply(step);
            law_when_a_topic_is_watched(
                "echo"@,
                before.echo is Some,
                request.topic_name@,
                None,
            );
        },
        _ => {},
    }
}

/// Why a watch is refused: the same is watched already, the name does not start with a slash,
/// or the window is empty.
pub proof fn law_refusal_names_the_command(
    command: RuntimeCommand,
    before: SessionsView,
    now: u64,
    after: SessionsView,
    step: CommandStep,
)
    requires
        is_handled(command, before, now, after, step),
    ensures
        command is TopicBwStart && before.bw is Some ==> (
        the_reply(step).content matches RuntimeReply::Error(message) && message@ == "topic "@
            + "bw"@ + " is already active"@),
        command is TopicHzStart && before.hz is Some ==> (
        the_reply(step).content matches RuntimeReply::Error(message) && message@ == "topic "@
            + "hz"@ + " is already active"@),
        command is TopicDelayStart && before.delay is Some ==> (
        the_reply(step).content matches RuntimeReply::Error(message) && message@ == "topic "@
            + "delay"@ + " is already active"@),
        command is TopicEchoStart && before.echo is Some ==> (
        the_reply(step).content matches RuntimeReply::Error(message) && message@ == "topic "@
            + "echo"@ + " is already active"@),
{
    if command is TopicBwStart || command is TopicHzStart || command is TopicDelayStart
        || command is TopicEchoStart {
        lemma_one_reply(step);
    }
}

/// What a stopped watch is told: whether there was one, and on which topic.
pub open spec fn tells_stop(response: TopicStopResponse, topic: Option<Seq<char>>) -> bool {
    match topic {
        Some(name) => response.stopped && text_opt(response.topic_name) == Some(name),
        None => !response.stopped && response.topic_name is None,
    }
}

/// A command to stop watching stops it, tells whether anything was watched and which topic,
/// and has the filter brought up to date.
pub proof fn law_watching_is_stopped(
    command: RuntimeCommand,
    before: SessionsView,
    now: u64,
    after: SessionsView,
    step: CommandStep,
)
    requires
        is_handled(command, before, now, after, step),
    ensures
        match command {
            RuntimeCommand::TopicBwStop { reply } => {
                &&& after.bw is None
                &&& replies_once(step, reply, true)
                &&& the_reply(step).content matches RuntimeReply::TopicBwStopped(response)
                &&& before.bw matches Some(view) ==> tells_stop(response, Some(view.topic_name))
                &&& before.bw is None ==> tells_stop(response, None)
            },
            RuntimeCommand::TopicHzStop { reply } => {
                &&& after.hz is None
                &&& replies_once(step, reply, true)
                &&& the_reply(step).content matches RuntimeReply::TopicHzStopped(response)
                &&& before.hz matches Some(view) ==> tells_stop(response, Some(view.topic_name))
                &&& before.hz is None ==> tells_stop(response, None)
            },
            RuntimeCommand::TopicDelayStop { reply } => {
                &&& after.delay is None
                &&& replies_once(step, reply, true)
                &&& the_reply(step).content matches RuntimeReply::TopicDelayStopped(response)
                &&& before.delay matches Some(view) ==> tells_stop(
                    response,
                    Some(view.topic_name),
                )
                &&& before.delay is None ==> tells_stop(response, None)
            },
            RuntimeCommand::TopicEchoStop { reply } => {
                let count = step->replies@.len();
                &&& after.echo is None
                &&& step is Done && step->sync
                &&& count == (if before.echo is Some && before.echo->0.waiting is Some {
                    2nat
                } else {
                    1nat
                })
                &&& step->replies@[count - 1].reply == reply
                &&& step->replies@[count - 1].content matches RuntimeReply::TopicEchoStopped(
                    response,
                )
                &&& before.echo matches Some(view) ==> tells_stop(response, Some(view.topic_name))
                &&& before.echo is None ==> tells_stop(response, None)
                &&& count == 2 ==> {
                    &&& Some(step->replies@[0].reply) == before.echo->0.waiting
                    &&& step->replies@[0].content matches RuntimeReply::TopicEchoStatus(status)
                    &&& !status.active
                    &&& status.topic_name is None
                    &&& status.messages@.len() == 0
                }
            },
            _ => true,
        },
{
    match command {
        RuntimeCommand::TopicBwStop { reply } => {
            lemma_one_reply(step);
        },
        RuntimeCommand::TopicHzStop { reply } => {
            lemma_one_reply(step);
        },
        RuntimeCommand::TopicDelayStop { reply } => {
            lemma_one_reply(step);
        },
        RuntimeCommand::TopicEchoStop { reply } => {
            let replies = step->replies@;
            let views = reply_views(replies);
            assert(views.len() == replies.len());
            let count = replies.len() as int;
            assert(views[count - 1] == (
                replies[count - 1].reply,
                replies[count - 1].content@,
            ));
            assert(views[0] == (replies[0].reply, replies[0].content@));
            if count == 2 {
                match replies[0].content {
                    RuntimeReply::TopicEchoStatus(status) => {
                        assert(status@.messages.len() == status.messages@.len());
                    },
                    _ => {},
                }
            }
        },
        _ => {},
    }
}

/// A question after what is watched is answered at once, with what is known, and asks for no
/// update. Only the delayed messages that are handed out change anything: they wait no more.
pub proof fn law_questions_are_answered(
    command: RuntimeCommand,
    before: SessionsView,
    now: u64,
    after: SessionsView,
    step: CommandStep,
)
    requires
        is_handled(command, before, now, after, step),
    ensures
        match command {
            RuntimeCommand::TopicBwStatus { reply } => {
                &&& after == before
                &&& replies_once(step, reply, false)
                &&& the_reply(step).content matches RuntimeReply::TopicBwStatus(response)
                &&& response@ == bw_status(before.bw, now)
            },
            RuntimeCommand::TopicHzStatus { reply } => {
                &&& after == before
                &&& replies_once(step, reply, false)
                &&& the_reply(step).content matches RuntimeReply::TopicHzStatus(response)
                &&& response@ == hz_status(before.hz, now)
            },
            RuntimeCommand::TopicHzBwStatus { reply } => {
                &&& after == before
                &&& replies_once(step, reply, false)
                &&& the_reply(step).content matches RuntimeReply::TopicHzBwStatus(response)
                &&& response.hz@ == hz_status(before.hz, now)
                &&& response.bw@ == bw_status(before.bw, now)
                &&& delay_stats(before.delay) is None <==> response.delay is None
                &&& response.delay matches Some(stats) ==> delay_stats(before.delay) == Some(
                    (stats.spans@, stats.summary),
                )
            },
            RuntimeCommand::TopicDelayStatus { reply } => {
                &&& replies_once(step, reply, false)
                &&& the_reply(step).content matches RuntimeReply::TopicDelayStatus(response)
                &&& response@ == delay_status(before.delay)
                &&& before.delay is None ==> after.delay is None
                &&& before.delay matches Some(view) ==> {
                    &&& after.delay matches Some(later)
                    &&& later.pending.len() == 0
                    &&& later.delays == view.delays
                    &&& later.topic_name == view.topic_name
                    &&& later.window_size == view.window_size
                }
            },
            _ => true,
        },
{
    match command {
        RuntimeCommand::TopicBwStatus { reply } => {
            lemma_one_reply(step);
        },
        RuntimeCommand::TopicHzStatus { reply } => {
            lemma_one_reply(step);
        },
        RuntimeCommand::TopicHzBwStatus { reply } => {
            lemma_one_reply(step);
        },
        RuntimeCommand::TopicDelayStatus { reply } => {
            lemma_one_reply(step);
        },
        _ => {},
    }
}

/// `info` tells what is recorded.
pub open spec fn tells_recording(info: BagSessionInfo, view: RecordingView) -> bool {
    info@ == session_info(view)
}

/// A recording is begun only while none runs, and runs only once the recorder has started. It
/// is paused and resumed without any other change, and is gone once it is stopped. Whoever
/// asks is told whether one runs, and what it records.
pub proof fn law_recording_commands(
    command: RuntimeCommand,
    before: SessionsView,
    now: u64,
    after: SessionsView,
    step: CommandStep,
)
    requires
        is_handled(command, before, now, after, step),
    ensures
        match command {
            RuntimeCommand::BagRecord { request, reply } => {
                &&& after == before
                &&& before.recording is Some ==> replies_once(step, reply, false) && (
                the_reply(step).content matches RuntimeReply::Error(message) && message@
                    == "bag recording is already active"@)
                &&& before.recording is None ==> exists|stamp: Seq<char>| #[trigger]
                    is_stamp(stamp) && match bag_options(request, stamped_path(stamp)) {
                        Ok(wanted) => step matches CommandStep::StartRecorder {
                            options,
                            reply: to,
                        } && options@ == wanted && to == reply,
                        Err(wanted) => replies_once(step, reply, false) && (
                        the_reply(step).content matches RuntimeReply::Error(message) && message@
                            == wanted),
                    }
            },
            RuntimeCommand::BagStatus { reply } => {
                &&& after == before
                &&& replies_once(step, reply, false)
                &&& the_reply(step).content matches RuntimeReply::BagStatus(response)
                &&& response.active == (before.recording is Some)
                &&& before.recording is None <==> response.session is None
                &&& response.session matches Some(info) ==> tells_recording(
                    info,
                    before.recording->0,
                )
            },
            RuntimeCommand::BagSetPaused { request, reply } => {
                &&& replies_once(step, reply, false)
                &&& the_reply(step).content matches RuntimeReply::BagSetPaused(response)
                &&& response.active == (before.recording is Some)
                &&& response.paused == request.paused
                &&& before.recording is None <==> after.recording is None
                &&& before.recording matches Some(view) ==> {
                    &&& after.recording matches Some(later)
                    &&& later.paused == request.paused
                    &&& later.topics == view.topics
                    &&& later.output == view.output
                    &&& later.compression == view.compression
                    &&& later.no_discovery == view.no_discovery
                }
            },
            RuntimeCommand::BagStop { reply } => {
                &&& after.recording is None
                &&& before.recording is Some ==> (step matches CommandStep::StopRecorder {
                    reply: to,
                } && to == reply)
                &&& before.recording is None ==> replies_once(step, reply, true) && (
                the_reply(step).content matches RuntimeReply::BagStopped(response)
                    && !response.stopped && response.output is None)
            },
            _ => true,
        },
{
    match command {
        RuntimeCommand::BagRecord { request, reply } => {
            if before.recording is Some {
                lemma_one_reply(step);
            } else {
                let stamp = choose|stamp: Seq<char>|
                    is_stamp(stamp) && match bag_options(request, #[trigger] stamped_path(stamp)) {
                        Err(message) => crate::runtime::command::sends(
                            step,
                            seq![(reply, crate::runtime::command::ReplyView::Error(message))],
                            false,
                        ),
                        Ok(wanted) => step matches CommandStep::StartRecorder {
                            options,
                            reply: to,
                        } && options@ == wanted && to == reply,
                    };
                assert(is_stamp(stamp));
                if bag_options(request, stamped_path(stamp)) is Err {
                    lemma_one_reply(step);
                }
            }
        },
        RuntimeCommand::BagStatus { reply } => {
            lemma_one_reply(step);
        },
        RuntimeCommand::BagSetPaused { request, reply } => {
            lemma_one_reply(step);
        },
        RuntimeCommand::BagStop { reply } => {
            if before.recording is None {
                lemma_one_reply(step);
            }
        },
        _ => {},
    }
}

/// Once the recorder has started, the recording runs as it was asked for, the sender is told
/// what it records, and the filter is brought up to date. If it has not, nothing runs and the
/// sender is told why.
pub proof fn law_recording_begins_with_recorder(
    started: Result<(), String>,
    options: BagOptionsView,
    reply: u64,
    before: SessionsView,
    after: SessionsView,
    step: CommandStep,
)
    requires
        is_start_finished(started, options, reply, before, after, step),
    ensures
        replies_once(step, reply, started is Ok),
        after.bw == before.bw,
        after.hz == before.hz,
        after.delay == before.delay,
        after.echo == before.echo,
        started is Ok ==> {
            &&& after.recording matches Some(view)
            &&& view.topics == options.topics
            &&& view.output == options.output
            &&& view.compression == options.compression
            &&& view.no_discovery == options.no_discovery
            &&& view.paused == options.start_paused
            &&& the_reply(step).content matches RuntimeReply::BagStarted(info)
            &&& tells_recording(info, view)
        },
        started matches Err(message) ==> after.recording == before.recording && (
        the_reply(step).content matches RuntimeReply::Error(told) && told@ == message@),
{
    lemma_one_reply(step);
}

/// Once the recorder has stopped, the sender is told so, with where the recording went, or
/// why it failed. The filter is brought up to date either way.
pub proof fn law_recording_ends_with_recorder(
    stopped: Result<Option<String>, String>,
    reply: u64,
    step: CommandStep,
)
    requires
        is_stop_finished(stopped, reply, step),
    ensures
        replies_once(step, reply, true),
        stopped matches Ok(output) ==> (
        the_reply(step).content matches RuntimeReply::BagStopped(response) && response.stopped
            && text_opt(response.output) == text_opt(output)),
        stopped matches Err(message) ==> (the_reply(step).content matches RuntimeReply::Error(told)
            && told@ == message@),
{
    lemma_one_reply(step);
}

/// What it means that a topic is watched or is no longer: the answer to the one names it, or
/// tells why not, and the answer to the other names it if there was one.
pub proof fn law_answers_to_start_and_stop(
    started: Result<crate::command::protocol::TopicStartResponse, String>,
    error: Option<Seq<char>>,
    stopped: TopicStopResponse,
    topic: Option<Seq<char>>,
    topic_name: Seq<char>,
)
    ensures
        is_started(started, error, topic_name) && error is None ==> (started matches Ok(response)
            && response.topic_name@ == topic_name),
        is_started(started, error, topic_name) ==> (error matches Some(text) ==> (
        started matches Err(message) && message@ == text)),
        is_stopped(stopped, topic) ==> tells_stop(stopped, topic),
{
}

} // verus!
