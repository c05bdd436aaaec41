//! What echoing a topic asks for and prints, as a whole.

use crate::base64_text::base64_decoded;
use crate::cli::topic::echo::{
    advance, first_turn, hex_text, turn, EchoActionView, EchoEventView, EchoStateView,
    TopicEchoCommand,
};
use crate::command::protocol::{EchoMessageView, EchoStatusView};
use crate::text::{decimal, text_opt};
use vstd::prelude::*;
use vstd::string::*;

verus! {

/// The type of a topic is asked for only where messages are to be decoded and it was not
/// told. Else the session is asked for at once.
pub proof fn law_type_asked_for_if_needed(args: TopicEchoCommand)
    ensures
        ({
            let first = first_turn(args);
            let needed = !args.raw && args.message_type is None;
            &&& first.lines.len() == 0
            &&& needed ==> first.state is TypeAsked && first.action is AskType
            &&& !needed ==> first.action is SendStart && (
            first.state matches EchoStateView::StartSent { message_type } && message_type
                == text_opt(args.message_type))
        }),
{
}

/// From the type to the first messages: the session is asked for with the one type that was
/// found, or with none; the helper is started unless bytes are printed; and messages are
/// asked for. The type stays what it is, and nothing is printed.
pub proof fn law_way_to_the_messages(
    args: TopicEchoCommand,
    types: Seq<Seq<char>>,
    message_type: Option<Seq<char>>,
)
    ensures
        ({
            let typed = turn(args, EchoStateView::TypeAsked, EchoEventView::TypeReply(types));
            let started = turn(
                args,
                EchoStateView::StartSent { message_type },
                EchoEventView::StartReply,
            );
            let ready = turn(
                args,
                EchoStateView::HelperStarting { message_type },
                EchoEventView::HelperReady,
            );
            &&& types.len() <= 1 ==> typed.action is SendStart && typed.lines.len() == 0 && (
            typed.state matches EchoStateView::StartSent { message_type: found } && found == (
            if types.len() == 1 {
                Some(types[0])
            } else {
                None
            }))
            &&& types.len() > 1 ==> typed.action is Finish && (
            typed.state matches EchoStateView::Finished { error } && error == Some(
                "topic echo found multiple types for "@ + args.topic_name@
                    + "; pass [message_type] explicitly"@,
            ))
            &&& started.lines.len() == 0
            &&& args.raw ==> started.action is Poll && started.state == (EchoStateView::Polling {
                message_type,
            })
            &&& !args.raw ==> started.action is SpawnHelper && started.state == (
            EchoStateView::HelperStarting { message_type })
            &&& ready.lines.len() == 0
            &&& ready.action is Poll && ready.state == (EchoStateView::Polling { message_type })
        }),
{
}

/// The line on lost messages, where there is one.
pub open spec fn lost_line(args: TopicEchoCommand, message: EchoMessageView) -> Seq<Seq<char>> {
    if message.lost_before > 0 && !args.no_lost_messages {
        seq![decimal(message.lost_before as nat) + " message(s) lost"@]
    } else {
        seq![]
    }
}

/// The lines of messages whose bytes are printed.
pub open spec fn raw_lines(args: TopicEchoCommand, messages: Seq<EchoMessageView>) -> Seq<Seq<char>>
    decreases messages.len(),
{
    if messages.len() == 0 {
        seq![]
    } else {
        lost_line(args, messages[0]) + seq![
            hex_text(base64_decoded(messages[0].payload_base64)->0),
        ] + raw_lines(args, messages.skip(1))
    }
}

/// All messages that came are printed in order, each with a line on those that were lost
/// before it and one with its bytes. Behind them more are asked for as long as the session
/// lasts, and the session is ended otherwise.
pub proof fn law_all_bytes_printed(
    args: TopicEchoCommand,
    message_type: Option<Seq<char>>,
    messages: Seq<EchoMessageView>,
    active: bool,
    lines: Seq<Seq<char>>,
)
    requires
        args.raw,
        !args.once,
        forall|i: int|
            0 <= i < messages.len() ==> base64_decoded((#[trigger] messages[i]).payload_base64) is Some,
    ensures
        ({
            let next = advance(args, message_type, messages, active, lines);
            &&& next.lines == lines + raw_lines(args, messages)
            &&& active ==> next.action is Poll && next.state == (EchoStateView::Polling {
                message_type,
            })
            &&& !active ==> next.action is SendStop && next.state == (EchoStateView::StopSent {
                error: None,
            })
        }),
    decreases messages.len(),
{
    if messages.len() > 0 {
        let message = messages[0];
        let told = lines + lost_line(args, message);
        let line = hex_text(base64_decoded(message.payload_base64)->0);
        let rest = messages.skip(1);
        assert forall|i: int| 0 <= i < rest.len() implies base64_decoded(
            (#[trigger] rest[i]).payload_base64,
        ) is Some by {
            assert(rest[i] == messages[i + 1]);
        }
        law_all_bytes_printed(args, message_type, rest, active, told.push(line));
        assert(told =~= crate::cli::topic::echo::with_lost(
            lines,
            message.lost_before,
            args.no_lost_messages,
        ));
        assert(told.push(line) + raw_lines(args, rest) =~= lines + raw_lines(args, messages));
    } else {
        assert(lines + raw_lines(args, messages) =~= lines);
    }
}

/// One message is enough where only one is asked for, and a payload that cannot be read ends
/// the session with an error.
pub proof fn law_bytes_printed_once(
    args: TopicEchoCommand,
    message_type: Option<Seq<char>>,
    messages: Seq<EchoMessageView>,
    active: bool,
    lines: Seq<Seq<char>>,
)
    requires
        args.raw,
        messages.len() > 0,
    ensures
        ({
            let next = advance(args, message_type, messages, active, lines);
            let decoded = base64_decoded(messages[0].payload_base64);
            &&& decoded is None ==> next.action is SendStop && next.state == (
            EchoStateView::StopSent { error: Some("decode echoed payload from base64"@) })
                && next.lines == lines + lost_line(args, messages[0])
            &&& decoded is Some && args.once ==> next.action is SendStop && next.state == (
            EchoStateView::StopSent { error: None }) && next.lines == lines + lost_line(
                args,
                messages[0],
            ) + seq![hex_text(decoded->0)]
        }),
{
    let told = lines + lost_line(args, messages[0]);
    assert(told =~= crate::cli::topic::echo::with_lost(
        lines,
        messages[0].lost_before,
        args.no_lost_messages,
    ));
    if base64_decoded(messages[0].payload_base64) is Some {
        let line = hex_text(base64_decoded(messages[0].payload_base64)->0);
        assert(told.push(line) =~= told + seq![line]);
    }
}

/// Messages that are to be decoded go to the helper one by one, in order: the first of them
/// with the type that was told or found, or else its own, behind a line on those that were
/// lost before it. The others wait. A message of no known type ends the session with an
/// error.
pub proof fn law_messages_decoded_in_order(
    args: TopicEchoCommand,
    message_type: Option<Seq<char>>,
    messages: Seq<EchoMessageView>,
    active: bool,
    lines: Seq<Seq<char>>,
)
    requires
        !args.raw,
    ensures
        ({
            let next = advance(args, message_type, messages, active, lines);
            let own = if messages.len() > 0 && message_type is None {
                messages[0].ros_type
            } else {
                message_type
            };
            &&& messages.len() == 0 && active ==> next.action is Poll && next.state == (
            EchoStateView::Polling { message_type }) && next.lines == lines
            &&& messages.len() == 0 && !active ==> next.action is SendStop && next.state == (
            EchoStateView::StopSent { error: None }) && next.lines == lines
            &&& messages.len() > 0 && own is Some ==> {
                &&& next.lines == lines + lost_line(args, messages[0])
                &&& next.action == (EchoActionView::Decode {
                    message_type: own->0,
                    payload_base64: messages[0].payload_base64,
                })
                &&& next.state == (EchoStateView::Decoding {
                    message_type,
                    rest: messages.skip(1),
                    active,
                })
            }
            &&& messages.len() > 0 && own is None ==> {
                &&& next.lines == lines
                &&& next.action is SendStop
                &&& next.state == (EchoStateView::StopSent {
                    error: Some(
                        "topic echo could not determine the message type; pass [message_type] explicitly"@,
                    ),
                })
            }
        }),
{
    if messages.len() > 0 {
        assert(lines + lost_line(args, messages[0]) =~= crate::cli::topic::echo::with_lost(
            lines,
            messages[0].lost_before,
            args.no_lost_messages,
        ));
    }
}

/// What the helper has made of a message is printed, with a line behind it that parts it from
/// the next unless fields are separated by commas. The next message follows, unless one is
/// enough.
pub proof fn law_decoded_message_printed(
    args: TopicEchoCommand,
    message_type: Option<Seq<char>>,
    rest: Seq<EchoMessageView>,
    active: bool,
    rendered: Seq<char>,
)
    ensures
        ({
            let next = turn(
                args,
                EchoStateView::Decoding { message_type, rest, active },
                EchoEventView::Rendered(rendered),
            );
            let shown = if args.csv {
                seq![rendered]
            } else {
                seq![rendered, "---"@]
            };
            &&& args.once ==> next.lines == shown && next.action is SendStop && next.state == (
            EchoStateView::StopSent { error: None })
            &&& !args.once ==> next == advance(args, message_type, rest, active, shown)
        }),
{
}

/// Messages that come are taken up, in order, from the first. A user who wants to end the
/// command ends the session.
pub proof fn law_messages_taken_up(
    args: TopicEchoCommand,
    message_type: Option<Seq<char>>,
    response: EchoStatusView,
)
    ensures
        turn(
            args,
            EchoStateView::Polling { message_type },
            EchoEventView::StatusReply(response),
        ) == advance(args, message_type, response.messages, response.active, seq![]),
        ({
            let next = turn(
                args,
                EchoStateView::Polling { message_type },
                EchoEventView::Interrupted,
            );
            next.action is SendStop && next.state == (EchoStateView::StopSent { error: None })
                && next.lines.len() == 0
        }),
{
}

/// What the command says of an answer that it does not expect.
pub open spec fn surprise(state: EchoStateView) -> Seq<char> {
    match state {
        EchoStateView::TypeAsked => "unexpected response for topic type request"@,
        EchoStateView::StartSent { .. } => "unexpected response for topic echo start request"@,
        EchoStateView::HelperStarting { .. } => "topic echo helper exited unexpectedly"@,
        EchoStateView::Polling { .. } => "unexpected response for topic echo status request"@,
        EchoStateView::Decoding { .. } => "topic echo helper exited unexpectedly"@,
        EchoStateView::StopSent { .. } => "unexpected response for topic echo stop request"@,
        EchoStateView::Finished { .. } => ""@,
    }
}

/// An error that is reported ends the command with its own words, and an answer that is not
/// expected with words that say so. A session that runs is ended first.
pub proof fn law_errors_end_the_command(
    args: TopicEchoCommand,
    state: EchoStateView,
    message: Seq<char>,
)
    requires
        state is TypeAsked || state is StartSent || state is HelperStarting || state is Polling
            || state is Decoding || state == (EchoStateView::StopSent { error: None }),
    ensures
        ({
            let reported = turn(args, state, EchoEventView::Error(message));
            let failed = turn(args, state, EchoEventView::Failed(message));
            let other = turn(args, state, EchoEventView::Other);
            let running = state is Polling || state is Decoding;
            &&& reported == failed
            &&& reported.lines.len() == 0 && other.lines.len() == 0
            &&& running ==> reported.action is SendStop && reported.state == (
            EchoStateView::StopSent { error: Some(message) })
            &&& running ==> other.action is SendStop && other.state == (EchoStateView::StopSent {
                error: Some(surprise(state)),
            })
            &&& !running ==> reported.action is Finish && reported.state == (
            EchoStateView::Finished { error: Some(message) })
            &&& !running ==> other.action is Finish && other.state == (EchoStateView::Finished {
                error: Some(surprise(state)),
            })
        }),
{
}

/// A session that has ended without an error lets the command end without one.
pub proof fn law_command_ends_well(args: TopicEchoCommand)
    ensures
        ({
            let last = turn(
                args,
                EchoStateView::StopSent { error: None },
                EchoEventView::StopReply,
            );
            last.action is Finish && last.state == (EchoStateView::Finished { error: None })
                && last.lines.len() == 0
        }),
{
}

} // verus!
