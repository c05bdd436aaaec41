//! What watching a delay asks for and prints, as a whole.

use crate::cli::topic::delay::{
    advance, first_turn, turn, DelayActionView, DelayEventView, DelayStateView, DelayTurnView,
    TopicDelayCommand,
};
use crate::command::protocol::{DelayMessageView, DelayStatusView};
use vstd::prelude::*;
use vstd::string::*;

verus! {

/// Without a window the command ends with an error. Else the type is asked for.
pub proof fn law_first_step(args: TopicDelayCommand)
    ensures
        ({
            let first = first_turn(args);
            &&& first.line is None && !first.print_stats
            &&& args.window == 0 ==> first.action is Finish && first.state == (
            DelayStateView::Finished { error: Some("--window must be greater than 0"@) })
            &&& args.window > 0 ==> first.action is AskType && first.state is TypeAsked
        }),
{
}

/// From the type to the first messages: a topic of one type has the session asked for, the
/// helper started, a second waited for and messages asked for. The type stays what it is, and
/// nothing is printed.
pub proof fn law_way_to_the_messages(
    args: TopicDelayCommand,
    types: Seq<Seq<char>>,
    message_type: Seq<char>,
)
    ensures
        ({
            let typed = turn(args, DelayStateView::TypeAsked, DelayEventView::TypeReply(types));
            let started = turn(
                args,
                DelayStateView::StartSent { message_type },
                DelayEventView::StartReply,
            );
            let ready = turn(
                args,
                DelayStateView::HelperStarting { message_type },
                DelayEventView::HelperReady,
            );
            let ticked = turn(
                args,
                DelayStateView::Waiting { message_type },
                DelayEventView::Tick,
            );
            &&& typed.line is None && started.line is None && ready.line is None
                && ticked.line is None
            &&& !typed.print_stats && !started.print_stats && !ready.print_stats
                && !ticked.print_stats
            &&& types.len() == 1 ==> typed.action is SendStart && typed.state == (
            DelayStateView::StartSent { message_type: types[0] })
            &&& types.len() == 0 ==> typed.action is Finish && typed.state == (
            DelayStateView::Finished {
                error: Some(
                    "topic delay could not determine the message type for "@ + args.topic_name@,
                ),
            })
            &&& types.len() > 1 ==> typed.action is Finish && typed.state == (
            DelayStateView::Finished {
                error: Some(
                    "topic delay found multiple types for "@ + args.topic_name@
                        + "; pass a single message type is not supported yet"@,
                ),
            })
            &&& started.action is SpawnHelper && started.state == (
            DelayStateView::HelperStarting { message_type })
            &&& ready.action is Wait && ready.state == (DelayStateView::Waiting { message_type })
            &&& ticked.action is Poll && ticked.state == (DelayStateView::Polling { message_type })
        }),
{
}

/// The stamps of the messages that came are read one by one, in order, the first with its
/// own type or else the topic's, and with when it came. When none is left, a second is waited
/// for, and the figures are printed if a delay was added.
pub proof fn law_stamps_read_in_order(
    message_type: Seq<char>,
    messages: Seq<DelayMessageView>,
    updated: bool,
)
    ensures
        ({
            let next = advance(message_type, messages, updated);
            &&& next.line is None
            &&& messages.len() == 0 ==> {
                &&& next.action is Wait
                &&& next.state == (DelayStateView::Waiting { message_type })
                &&& next.print_stats == updated
            }
            &&& messages.len() > 0 ==> {
                &&& !next.print_stats
                &&& next.action == (DelayActionView::Extract {
                    message_type: if messages[0].ros_type is Some {
                        messages[0].ros_type->0
                    } else {
                        message_type
                    },
                    payload_base64: messages[0].payload_base64,
                    received_at_nanos: messages[0].received_at_nanos,
                })
                &&& next.state == (DelayStateView::Extracting {
                    message_type,
                    rest: messages.skip(1),
                    updated,
                })
            }
        }),
{
}

/// The step after so many more stamps have been read.
pub open spec fn after_stamps(
    args: TopicDelayCommand,
    first: DelayTurnView,
    count: nat,
) -> DelayTurnView
    decreases count,
{
    if count == 0 {
        first
    } else {
        after_stamps(
            args,
            turn(args, first.state, DelayEventView::Extracted),
            (count - 1) as nat,
        )
    }
}

/// Every message that came has its stamp read, in order and once, and after the last the
/// figures are printed, if there was any message.
pub proof fn law_figures_printed_after_messages(
    args: TopicDelayCommand,
    message_type: Seq<char>,
    response: DelayStatusView,
    i: int,
)
    ensures
        ({
            let first = turn(
                args,
                DelayStateView::Polling { message_type },
                DelayEventView::StatusReply(response),
            );
            let last = after_stamps(args, first, response.messages.len());
            &&& last.action is Wait
            &&& last.state == (DelayStateView::Waiting { message_type })
            &&& last.print_stats == (response.messages.len() > 0)
            &&& 0 <= i < response.messages.len() ==> {
                let between = after_stamps(args, first, i as nat);
                &&& !between.print_stats
                &&& between.action matches DelayActionView::Extract {
                    payload_base64,
                    received_at_nanos,
                    ..
                }
                &&& payload_base64 == response.messages[i].payload_base64
                &&& received_at_nanos == response.messages[i].received_at_nanos
            }
        }),
{
    lemma_after_stamps(args, message_type, response.messages, false, i);
}

proof fn lemma_after_stamps(
    args: TopicDelayCommand,
    message_type: Seq<char>,
    messages: Seq<DelayMessageView>,
    updated: bool,
    i: int,
)
    ensures
        after_stamps(args, advance(message_type, messages, updated), messages.len()) == advance(
            message_type,
            seq![],
            updated || messages.len() > 0,
        ),
        0 <= i < messages.len() ==> {
            let between = after_stamps(args, advance(message_type, messages, updated), i as nat);
            &&& !between.print_stats
            &&& between.action matches DelayActionView::Extract {
                payload_base64,
                received_at_nanos,
                ..
            }
            &&& payload_base64 == messages[i].payload_base64
            &&& received_at_nanos == messages[i].received_at_nanos
        },
    decreases messages.len(),
{
    if messages.len() > 0 {
        lemma_after_stamps(args, message_type, messages.skip(1), true, i - 1);
        if i > 0 {
            assert(i < messages.len() ==> messages.skip(1)[i - 1] == messages[i]);
        }
    }
}

/// A stamp that was read lets the next message follow, and counts. A message without a header
/// ends the session, and so does a user who wants to end the command.
pub proof fn law_next_stamp_follows(
    args: TopicDelayCommand,
    message_type: Seq<char>,
    rest: Seq<DelayMessageView>,
    updated: bool,
)
    ensures
        turn(
            args,
            DelayStateView::Extracting { message_type, rest, updated },
            DelayEventView::Extracted,
        ) == advance(message_type, rest, true),
        ({
            let next = turn(
                args,
                DelayStateView::Extracting { message_type, rest, updated },
                DelayEventView::MissingHeader,
            );
            &&& next.line == Some("msg does not have header"@)
            &&& next.action is SendStop
            &&& next.state == (DelayStateView::StopSent { error: None })
        }),
        ({
            let next = turn(
                args,
                DelayStateView::Waiting { message_type },
                DelayEventView::Interrupted,
            );
            &&& next.line is None
            &&& next.action is SendStop
            &&& next.state == (DelayStateView::StopSent { error: None })
        }),
{
}

/// What the command says of an answer that it does not expect.
pub open spec fn surprise(state: DelayStateView) -> Seq<char> {
    match state {
        DelayStateView::TypeAsked => "unexpected response for topic type request"@,
        DelayStateView::StartSent { .. } => "unexpected response for topic delay start request"@,
        DelayStateView::HelperStarting { .. } => "topic delay helper exited unexpectedly"@,
        DelayStateView::Waiting { .. } => "wait for ctrl-c"@,
        DelayStateView::Polling { .. } => "unexpected response for topic delay status request"@,
        DelayStateView::Extracting { .. } => "topic delay helper exited unexpectedly"@,
        DelayStateView::StopSent { .. } => "unexpected response for topic delay stop request"@,
        DelayStateView::Finished { .. } => ""@,
    }
}

/// An error that is reported ends the command with its own words, and an answer that is not
/// expected with words that say so. A session that runs is ended first.
pub proof fn law_errors_end_the_command(
    args: TopicDelayCommand,
    state: DelayStateView,
    message: Seq<char>,
)
    requires
        !(state is Finished),
        !(state is StopSent) || state == (DelayStateView::StopSent { error: None }),
    ensures
        ({
            let reported = turn(args, state, DelayEventView::Error(message));
            let failed = turn(args, state, DelayEventView::Failed(message));
            let other = turn(args, state, DelayEventView::Other);
            let running = state is Waiting || state is Polling || state is Extracting;
            &&& reported == failed
            &&& reported.line is None && other.line is None
            &&& !reported.print_stats && !other.print_stats
            &&& running ==> reported.action is SendStop && reported.state == (
            DelayStateView::StopSent { error: Some(message) })
            &&& running ==> other.action is SendStop && other.state == (DelayStateView::StopSent {
                error: Some(surprise(state)),
            })
            &&& !running ==> reported.action is Finish && reported.state == (
            DelayStateView::Finished { error: Some(message) })
            &&& !running ==> other.action is Finish && other.state == (DelayStateView::Finished {
                error: Some(surprise(state)),
            })
        }),
{
}

/// A session that has ended without an error lets the command end without one.
pub proof fn law_command_ends_well(args: TopicDelayCommand)
    ensures
        ({
            let last = turn(
                args,
                DelayStateView::StopSent { error: None },
                DelayEventView::StopReply,
            );
            last.action is Finish && last.state == (DelayStateView::Finished { error: None })
                && last.line is None
        }),
{
}

} // verus!
