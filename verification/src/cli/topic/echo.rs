//! Echoing the messages of a topic: what is asked and printed, step by step.

use crate::base64_text::{base64_decoded, decode_base64};
use crate::command::protocol::{
    echo_views, EchoMessageView, EchoStatusView, TopicEchoMessage, TopicEchoStatusResponse,
};
use crate::text::{
    append_hex_byte, clone_text_opt, decimal, decimal_text, hex_byte, join2, join3, text_opt, texts,
};
use vstd::prelude::*;
use vstd::string::*;

verus! {

/// The arguments of the command.
#[derive(Debug)]
pub struct TopicEchoCommand {
    /// The topic to echo.
    pub topic_name: String,
    /// The type of its messages, if it is told.
    pub message_type: Option<String>,
    /// Print the bytes of messages.
    pub raw: bool,
    /// Print only this field of messages.
    pub field: Option<String>,
    /// Print one message and end.
    pub once: bool,
    /// Leave arrays out.
    pub no_arr: bool,
    /// Leave strings out.
    pub no_str: bool,
    /// How much of arrays, bytes and strings is printed.
    pub truncate_length: usize,
    /// Print fields separated by commas.
    pub csv: bool,
    /// Do not tell of lost messages.
    pub no_lost_messages: bool,
}

// Printing.

/// Bytes in hexadecimal.
pub open spec fn hex_text(bytes: Seq<u8>) -> Seq<char>
    decreases bytes.len(),
{
    if bytes.len() == 0 {
        seq![]
    } else {
        hex_text(bytes.drop_last()) + hex_byte(bytes.last())
    }
}

/// Writes bytes in hexadecimal.
pub fn hex_bytes(bytes: &[u8]) -> (r: String)
    ensures
        r@ == hex_text(bytes@),
{
    let mut out = String::new();
    let mut i: usize = 0;
    assert(out@ =~= hex_text(bytes@.take(0)));
    while i < bytes.len()
        invariant
            i <= bytes.len(),
            out@ == hex_text(bytes@.take(i as int)),
        decreases bytes.len() - i,
    {
        assert(bytes@.take(i + 1).drop_last() =~= bytes@.take(i as int));
        append_hex_byte(&mut out, bytes[i]);
        i += 1;
    }
    assert(bytes@.take(i as int) =~= bytes@);
    out
}

/// The line of a payload, or why there is none.
pub open spec fn raw_text(decoded: Option<Seq<u8>>) -> Result<Seq<char>, Seq<char>> {
    match decoded {
        Some(bytes) => Ok(hex_text(bytes)),
        None => Err("decode echoed payload from base64"@),
    }
}

/// Gives the line of a payload that was read from base64, if it could be.
pub fn raw_line(decoded: &Option<Vec<u8>>) -> (r: Result<String, String>)
    ensures
        match (r, *decoded) {
            (Ok(line), Some(bytes)) => raw_text(Some(bytes@)) == Ok::<_, Seq<char>>(line@),
            (Err(message), None) => raw_text(None) == Err::<Seq<char>, _>(message@),
            _ => false,
        },
{
    match decoded {
        Some(bytes) => Ok(hex_bytes(bytes.as_slice())),
        None => Err("decode echoed payload from base64".to_owned()),
    }
}

/// Lines with one on lost messages, if there are any to tell of.
pub open spec fn with_lost(
    lines: Seq<Seq<char>>,
    lost_before: usize,
    no_lost_messages: bool,
) -> Seq<Seq<char>> {
    if !no_lost_messages && lost_before > 0 {
        lines.push(decimal(lost_before as nat) + " message(s) lost"@)
    } else {
        lines
    }
}

/// The type of a message: the one that was told or found, or the one it came with.
pub open spec fn effective_type(
    message_type: Option<Seq<char>>,
    ros_type: Option<Seq<char>>,
) -> Option<Seq<char>> {
    match message_type {
        Some(message_type) => Some(message_type),
        None => ros_type,
    }
}

// Steps.

/// How far the command has come.
pub enum EchoState {
    /// The type of the topic was asked for.
    TypeAsked,
    /// The session was asked for.
    StartSent { message_type: Option<String> },
    /// The helper that decodes messages is starting.
    HelperStarting { message_type: Option<String> },
    /// Messages were asked for.
    Polling { message_type: Option<String> },
    /// The helper decodes a message. Others wait.
    Decoding { message_type: Option<String>, rest: Vec<TopicEchoMessage>, active: bool },
    /// The end of the session was asked for, perhaps because of an error.
    StopSent { error: Option<String> },
    /// The command has ended, perhaps with an error.
    Finished { error: Option<String> },
}

/// What an [`EchoState`] holds.
pub enum EchoStateView {
    TypeAsked,
    StartSent { message_type: Option<Seq<char>> },
    HelperStarting { message_type: Option<Seq<char>> },
    Polling { message_type: Option<Seq<char>> },
    Decoding { message_type: Option<Seq<char>>, rest: Seq<EchoMessageView>, active: bool },
    StopSent { error: Option<Seq<char>> },
    Finished { error: Option<Seq<char>> },
}

impl View for EchoState {
    type V = EchoStateView;

    open spec fn view(&self) -> EchoStateView {
        match self {
            EchoState::TypeAsked => EchoStateView::TypeAsked,
            EchoState::StartSent { message_type } => EchoStateView::StartSent {
                message_type: text_opt(*message_type),
            },
            EchoState::HelperStarting { message_type } => EchoStateView::HelperStarting {
                message_type: text_opt(*message_type),
            },
            EchoState::Polling { message_type } => EchoStateView::Polling {
                message_type: text_opt(*message_type),
            },
            EchoState::Decoding { message_type, rest, active } => EchoStateView::Decoding {
                message_type: text_opt(*message_type),
                rest: echo_views(rest@),
                active: *active,
            },
            EchoState::StopSent { error } => EchoStateView::StopSent { error: text_opt(*error) },
            EchoState::Finished { error } => EchoStateView::Finished { error: text_opt(*error) },
        }
    }
}

/// What happened.
pub enum EchoEvent {
    /// The types of the topic.
    TypeReply(Vec<String>),
    /// The session has started.
    StartReply,
    /// Messages.
    StatusReply(TopicEchoStatusResponse),
    /// The session has ended.
    StopReply,
    /// The server or the helper reports an error.
    Error(String),
    /// The server gave another answer, or the helper none.
    Other,
    /// The request could not be made.
    Failed(String),
    /// The helper has started.
    HelperReady,
    /// The helper has decoded a message.
    Rendered(String),
    /// The user wants the command to end.
    Interrupted,
}

/// What an [`EchoEvent`] holds.
pub enum EchoEventView {
    TypeReply(Seq<Seq<char>>),
    StartReply,
    StatusReply(EchoStatusView),
    StopReply,
    Error(Seq<char>),
    Other,
    Failed(Seq<char>),
    HelperReady,
    Rendered(Seq<char>),
    Interrupted,
}

impl View for EchoEvent {
    type V = EchoEventView;

    open spec fn view(&self) -> EchoEventView {
        match self {
            EchoEvent::TypeReply(type_names) => EchoEventView::TypeReply(texts(type_names@)),
            EchoEvent::StartReply => EchoEventView::StartReply,
            EchoEvent::StatusReply(response) => EchoEventView::StatusReply(response@),
            EchoEvent::StopReply => EchoEventView::StopReply,
            EchoEvent::Error(message) => EchoEventView::Error(message@),
            EchoEvent::Other => EchoEventView::Other,
            EchoEvent::Failed(message) => EchoEventView::Failed(message@),
            EchoEvent::HelperReady => EchoEventView::HelperReady,
            EchoEvent::Rendered(rendered) => EchoEventView::Rendered(rendered@),
            EchoEvent::Interrupted => EchoEventView::Interrupted,
        }
    }
}

/// What is done next.
pub enum EchoAction {
    /// Ask for the type of the topic.
    AskType,
    /// Ask for the session.
    SendStart,
    /// Start the helper.
    SpawnHelper,
    /// Ask for messages.
    Poll,
    /// Let the helper decode a message.
    Decode { message_type: String, payload_base64: String },
    /// Ask for the end of the session.
    SendStop,
    /// Nothing.
    Finish,
}

/// What an [`EchoAction`] holds.
pub enum EchoActionView {
    AskType,
    SendStart,
    SpawnHelper,
    Poll,
    Decode { message_type: Seq<char>, payload_base64: Seq<char> },
    SendStop,
    Finish,
}

impl View for EchoAction {
    type V = EchoActionView;

    open spec fn view(&self) -> EchoActionView {
        match self {
            EchoAction::AskType => EchoActionView::AskType,
            EchoAction::SendStart => EchoActionView::SendStart,
            EchoAction::SpawnHelper => EchoActionView::SpawnHelper,
            EchoAction::Poll => EchoActionView::Poll,
            EchoAction::Decode { message_type, payload_base64 } => EchoActionView::Decode {
                message_type: message_type@,
                payload_base64: payload_base64@,
            },
            EchoAction::SendStop => EchoActionView::SendStop,
            EchoAction::Finish => EchoActionView::Finish,
        }
    }
}

/// A step of the command: print the lines, do the action, come back with what happened.
pub struct EchoTurn {
    pub state: EchoState,
    pub lines: Vec<String>,
    pub action: EchoAction,
}

/// What an [`EchoTurn`] holds.
#[verifier::ext_equal]
pub struct EchoTurnView {
    pub state: EchoStateView,
    pub lines: Seq<Seq<char>>,
    pub action: EchoActionView,
}

impl View for EchoTurn {
    type V = EchoTurnView;

    open spec fn view(&self) -> EchoTurnView {
        EchoTurnView { state: self.state@, lines: texts(self.lines@), action: self.action@ }
    }
}

/// A step that prints nothing.
pub open spec fn silent(state: EchoStateView, action: EchoActionView) -> EchoTurnView {
    EchoTurnView { state, lines: seq![], action }
}

/// The command ends.
pub open spec fn finished(error: Option<Seq<char>>) -> EchoTurnView {
    silent(EchoStateView::Finished { error }, EchoActionView::Finish)
}

/// The session is to end.
pub open spec fn stopping(lines: Seq<Seq<char>>, error: Option<Seq<char>>) -> EchoTurnView {
    EchoTurnView {
        state: EchoStateView::StopSent { error },
        lines,
        action: EchoActionView::SendStop,
    }
}

/// The messages that came are printed one by one. Each is followed by the next, unless
/// one is enough. When none is left, more are asked for as long as the session lasts.
pub open spec fn advance(
    args: TopicEchoCommand,
    message_type: Option<Seq<char>>,
    rest: Seq<EchoMessageView>,
    active: bool,
    lines: Seq<Seq<char>>,
) -> EchoTurnView
    decreases rest.len(),
{
    if rest.len() == 0 {
        if active {
            EchoTurnView {
                state: EchoStateView::Polling { message_type },
                lines,
                action: EchoActionView::Poll,
            }
        } else {
            stopping(lines, None)
        }
    } else {
        let message = rest[0];
        let told = with_lost(lines, message.lost_before, args.no_lost_messages);
        if args.raw {
            match raw_text(base64_decoded(message.payload_base64)) {
                Err(error) => stopping(told, Some(error)),
                Ok(line) => if args.once {
                    stopping(told.push(line), None)
                } else {
                    advance(args, message_type, rest.skip(1), active, told.push(line))
                },
            }
        } else {
            match effective_type(message_type, message.ros_type) {
                None => stopping(lines, Some(NO_TYPE@)),
                Some(decoded_type) => EchoTurnView {
                    state: EchoStateView::Decoding { message_type, rest: rest.skip(1), active },
                    lines: told,
                    action: EchoActionView::Decode {
                        message_type: decoded_type,
                        payload_base64: message.payload_base64,
                    },
                },
            }
        }
    }
}

/// What the command says if it does not know the type of a message.
pub const NO_TYPE: &'static str =
    "topic echo could not determine the message type; pass [message_type] explicitly";

/// What the command says if its helper is gone.
pub const HELPER_GONE: &'static str = "topic echo helper exited unexpectedly";

/// Prints the messages that came, as far as that goes without the helper.
fn print_messages(
    args: &TopicEchoCommand,
    message_type: Option<String>,
    messages: Vec<TopicEchoMessage>,
    active: bool,
    printed: Vec<String>,
) -> (r: EchoTurn)
    ensures
        r@ == advance(
            *args,
            text_opt(message_type),
            echo_views(messages@),
            active,
            texts(printed@),
        ),
{
    let mut rest = messages;
    let mut lines = printed;
    while rest.len() > 0
        invariant
            advance(
                *args,
                text_opt(message_type),
                echo_views(messages@),
                active,
                texts(printed@),
            ) == advance(
                *args,
                text_opt(message_type),
                echo_views(rest@),
                active,
                texts(lines@),
            ),
        decreases rest.len(),
    {
        let ghost views = echo_views(rest@);
        let ghost before = texts(lines@);
        let message = rest.remove(0);
        proof {
            assert(views[0] == message@);
            assert(echo_views(rest@) =~= views.skip(1));
        }
        if !args.raw && message_type.is_none() && message.ros_type.is_none() {
            return EchoTurn {
                state: EchoState::StopSent { error: Some(NO_TYPE.to_owned()) },
                lines,
                action: EchoAction::SendStop,
            };
        }
        if !args.no_lost_messages && message.lost_before > 0 {
            let line = join2(
                decimal_text(message.lost_before as u64).as_str(),
                " message(s) lost",
            );
            lines.push(line);
            assert(texts(lines@) =~= before.push(line@));
        }
        let ghost told = texts(lines@);
        assert(told == with_lost(before, message.lost_before, args.no_lost_messages));
        if args.raw {
            let decoded = decode_base64(message.payload_base64.as_str());
            match raw_line(&decoded) {
                Err(error) => {
                    return EchoTurn {
                        state: EchoState::StopSent { error: Some(error) },
                        lines,
                        action: EchoAction::SendStop,
                    };
                },
                Ok(line) => {
                    lines.push(line);
                    assert(texts(lines@) =~= told.push(line@));
                    if args.once {
                        return EchoTurn {
                            state: EchoState::StopSent { error: None },
                            lines,
                            action: EchoAction::SendStop,
                        };
                    }
                },
            }
        } else {
            let decoded_type = match &message_type {
                Some(message_type) => message_type.clone(),
                None => match &message.ros_type {
                    Some(ros_type) => ros_type.clone(),
                    None => String::new(),
                },
            };
            return EchoTurn {
                state: EchoState::Decoding { message_type, rest, active },
                lines,
                action: EchoAction::Decode {
                    message_type: decoded_type,
                    payload_base64: message.payload_base64,
                },
            };
        }
    }
    if active {
        EchoTurn { state: EchoState::Polling { message_type }, lines, action: EchoAction::Poll }
    } else {
        EchoTurn {
            state: EchoState::StopSent { error: None },
            lines,
            action: EchoAction::SendStop,
        }
    }
}

/// The first step: the type is asked for if it is needed and was not told.
pub open spec fn first_turn(args: TopicEchoCommand) -> EchoTurnView {
    if args.raw || args.message_type is Some {
        silent(
            EchoStateView::StartSent { message_type: text_opt(args.message_type) },
            EchoActionView::SendStart,
        )
    } else {
        silent(EchoStateView::TypeAsked, EchoActionView::AskType)
    }
}

/// Takes the first step.
pub fn begin(args: &TopicEchoCommand) -> (r: EchoTurn)
    ensures
        r@ == first_turn(*args),
{
    let lines: Vec<String> = Vec::new();
    assert(texts(lines@) =~= seq![]);
    if args.raw || args.message_type.is_some() {
        EchoTurn {
            state: EchoState::StartSent { message_type: clone_text_opt(&args.message_type) },
            lines,
            action: EchoAction::SendStart,
        }
    } else {
        EchoTurn { state: EchoState::TypeAsked, lines, action: EchoAction::AskType }
    }
}

/// What went wrong if something else than the expected happened.
pub open spec fn failure(event: EchoEventView, unexpected: Seq<char>) -> Option<Seq<char>> {
    match event {
        EchoEventView::Error(message) => Some(message),
        EchoEventView::Failed(message) => Some(message),
        _ => Some(unexpected),
    }
}

/// The step that follows on what happened.
pub open spec fn turn(
    args: TopicEchoCommand,
    state: EchoStateView,
    event: EchoEventView,
) -> EchoTurnView {
    match state {
        EchoStateView::TypeAsked => match event {
            EchoEventView::TypeReply(type_names) => if type_names.len() > 1 {
                finished(
                    Some(
                        "topic echo found multiple types for "@ + args.topic_name@
                            + "; pass [message_type] explicitly"@,
                    ),
                )
            } else {
                silent(
                    EchoStateView::StartSent {
                        message_type: if type_names.len() == 1 {
                            Some(type_names[0])
                        } else {
                            None
                        },
                    },
                    EchoActionView::SendStart,
                )
            },
            _ => finished(failure(event, "unexpected response for topic type request"@)),
        },
        EchoStateView::StartSent { message_type } => match event {
            EchoEventView::StartReply => if args.raw {
                silent(EchoStateView::Polling { message_type }, EchoActionView::Poll)
            } else {
                silent(EchoStateView::HelperStarting { message_type }, EchoActionView::SpawnHelper)
            },
            _ => finished(failure(event, "unexpected response for topic echo start request"@)),
        },
        EchoStateView::HelperStarting { message_type } => match event {
            EchoEventView::HelperReady => silent(
                EchoStateView::Polling { message_type },
                EchoActionView::Poll,
            ),
            _ => finished(failure(event, HELPER_GONE@)),
        },
        EchoStateView::Polling { message_type } => match event {
            EchoEventView::StatusReply(response) => advance(
                args,
                message_type,
                response.messages,
                response.active,
                seq![],
            ),
            EchoEventView::Interrupted => stopping(seq![], None),
            _ => stopping(
                seq![],
                failure(event, "unexpected response for topic echo status request"@),
            ),
        },
        EchoStateView::Decoding { message_type, rest, active } => match event {
            EchoEventView::Rendered(rendered) => {
                let lines = if args.csv {
                    seq![rendered]
                } else {
                    seq![rendered, "---"@]
                };
                if args.once {
                    stopping(lines, None)
                } else {
                    advance(args, message_type, rest, active, lines)
                }
            },
            _ => stopping(seq![], failure(event, HELPER_GONE@)),
        },
        EchoStateView::StopSent { error } => match error {
            Some(error) => finished(Some(error)),
            None => match event {
                EchoEventView::StopReply => finished(None),
                _ => finished(failure(event, "unexpected response for topic echo stop request"@)),
            },
        },
        EchoStateView::Finished { error } => finished(error),
    }
}

fn failed(event: EchoEvent, unexpected: &str) -> (r: String)
    ensures
        Some(r@) == failure(event@, unexpected@),
{
    match event {
        EchoEvent::Error(message) => message,
        EchoEvent::Failed(message) => message,
        _ => unexpected.to_owned(),
    }
}

fn end(error: Option<String>) -> (r: EchoTurn)
    ensures
        r@ == finished(text_opt(error)),
{
    let lines: Vec<String> = Vec::new();
    assert(texts(lines@) =~= seq![]);
    EchoTurn { state: EchoState::Finished { error }, lines, action: EchoAction::Finish }
}

fn stop(lines: Vec<String>, error: Option<String>) -> (r: EchoTurn)
    ensures
        r@ == stopping(texts(lines@), text_opt(error)),
{
    EchoTurn { state: EchoState::StopSent { error }, lines, action: EchoAction::SendStop }
}

/// Takes the step that follows on what happened.
pub fn run(args: &TopicEchoCommand, state: EchoState, event: EchoEvent) -> (r: EchoTurn)
    ensures
        r@ == turn(*args, state@, event@),
{
    let none: Vec<String> = Vec::new();
    assert(texts(none@) =~= seq![]);
    match state {
        EchoState::TypeAsked => match event {
            EchoEvent::TypeReply(type_names) => {
                if type_names.len() > 1 {
                    return end(
                        Some(
                            join3(
                                "topic echo found multiple types for ",
                                args.topic_name.as_str(),
                                "; pass [message_type] explicitly",
                            ),
                        ),
                    );
                }
                let message_type = if type_names.len() == 1 {
                    assert(texts(type_names@)[0] == type_names@[0]@);
                    Some(type_names[0].clone())
                } else {
                    None
                };
                EchoTurn {
                    state: EchoState::StartSent { message_type },
                    lines: none,
                    action: EchoAction::SendStart,
                }
            },
            event => end(Some(failed(event, "unexpected response for topic type request"))),
        },
        EchoState::StartSent { message_type } => match event {
            EchoEvent::StartReply => if args.raw {
                EchoTurn {
                    state: EchoState::Polling { message_type },
                    lines: none,
                    action: EchoAction::Poll,
                }
            } else {
                EchoTurn {
                    state: EchoState::HelperStarting { message_type },
                    lines: none,
                    action: EchoAction::SpawnHelper,
                }
            },
            event => end(Some(failed(event, "unexpected response for topic echo start request"))),
        },
        EchoState::HelperStarting { message_type } => match event {
            EchoEvent::HelperReady => EchoTurn {
                state: EchoState::Polling { message_type },
                lines: none,
                action: EchoAction::Poll,
            },
            event => end(Some(failed(event, HELPER_GONE))),
        },
        EchoState::Polling { message_type } => match event {
            EchoEvent::StatusReply(response) => print_messages(
                args,
                message_type,
                response.messages,
                response.active,
                none,
            ),
            EchoEvent::Interrupted => stop(none, None),
            event => stop(
                none,
                Some(failed(event, "unexpected response for topic echo status request")),
            ),
        },
        EchoState::Decoding { message_type, rest, active } => match event {
            EchoEvent::Rendered(rendered) => {
                let ghost shown = rendered@;
                let mut lines = none;
                lines.push(rendered);
                assert(texts(lines@) =~= seq![shown]);
                if !args.csv {
                    lines.push("---".to_owned());
                    assert(texts(lines@) =~= seq![shown, "---"@]);
                }
                if args.once {
                    return stop(lines, None);
                }
                print_messages(args, message_type, rest, active, lines)
            },
            event => stop(none, Some(failed(event, HELPER_GONE))),
        },
        EchoState::StopSent { error } => match error {
            Some(error) => end(Some(error)),
            None => match event {
                EchoEvent::StopReply => end(None),
                event => end(
                    Some(failed(event, "unexpected response for topic echo stop request")),
                ),
            },
        },
        EchoState::Finished { error } => end(error),
    }
}

// Laws.

/// The session has started, and its end was not asked for.
pub open spec fn in_session(state: EchoStateView) -> bool {
    state is Polling || state is Decoding
}

proof fn lemma_advance_in_session(
    args: TopicEchoCommand,
    message_type: Option<Seq<char>>,
    rest: Seq<EchoMessageView>,
    active: bool,
    lines: Seq<Seq<char>>,
)
    ensures
        in_session(advance(args, message_type, rest, active, lines).state) || advance(
            args,
            message_type,
            rest,
            active,
            lines,
        ).state is StopSent,
    decreases rest.len(),
{
    if rest.len() > 0 {
        let message = rest[0];
        let told = with_lost(lines, message.lost_before, args.no_lost_messages);
        match raw_text(base64_decoded(message.payload_base64)) {
            Err(_) => {},
            Ok(line) => {
                lemma_advance_in_session(
                    args,
                    message_type,
                    rest.skip(1),
                    active,
                    told.push(line),
                );
            },
        }
    }
}

/// Once messages have been asked for, the command does not end without having asked for
/// the end of the session, whatever happens.
pub proof fn law_session_is_stopped(
    args: TopicEchoCommand,
    state: EchoStateView,
    event: EchoEventView,
)
    requires
        in_session(state),
    ensures
        in_session(turn(args, state, event).state) || (turn(args, state, event).state is StopSent
            && turn(args, state, event).action is SendStop),
{
    match state {
        EchoStateView::Polling { message_type } => match event {
            EchoEventView::StatusReply(response) => {
                lemma_advance_in_session(
                    args,
                    message_type,
                    response.messages,
                    response.active,
                    seq![],
                );
                lemma_stop_is_sent(args, message_type, response.messages, response.active, seq![]);
            },
            _ => {},
        },
        EchoStateView::Decoding { message_type, rest, active } => match event {
            EchoEventView::Rendered(rendered) => {
                let lines = if args.csv {
                    seq![rendered]
                } else {
                    seq![rendered, "---"@]
                };
                lemma_advance_in_session(args, message_type, rest, active, lines);
                lemma_stop_is_sent(args, message_type, rest, active, lines);
            },
            _ => {},
        },
        _ => {},
    }
}

proof fn lemma_stop_is_sent(
    args: TopicEchoCommand,
    message_type: Option<Seq<char>>,
    rest: Seq<EchoMessageView>,
    active: bool,
    lines: Seq<Seq<char>>,
)
    ensures
        advance(args, message_type, rest, active, lines).state is StopSent ==> advance(
            args,
            message_type,
            rest,
            active,
            lines,
        ).action is SendStop,
    decreases rest.len(),
{
    if rest.len() > 0 {
        let told = with_lost(lines, rest[0].lost_before, args.no_lost_messages);
        match raw_text(base64_decoded(rest[0].payload_base64)) {
            Err(_) => {},
            Ok(line) => {
                lemma_stop_is_sent(args, message_type, rest.skip(1), active, told.push(line));
            },
        }
    }
}

/// Bytes in hexadecimal can be told apart: each has two digits, in its own place.
pub proof fn law_hexadecimal_shows_each_byte(bytes: Seq<u8>, i: int)
    requires
        0 <= i < bytes.len(),
    ensures
        hex_text(bytes).len() == 2 * bytes.len(),
        hex_text(bytes).subrange(2 * i, 2 * i + 2) == hex_byte(bytes[i]),
    decreases bytes.len(),
{
    let shorter = bytes.drop_last();
    if shorter.len() > 0 {
        let at = if i < shorter.len() {
            i
        } else {
            0
        };
        law_hexadecimal_shows_each_byte(shorter, at);
    } else {
        assert(hex_text(shorter) =~= seq![]);
    }
    if i < shorter.len() {
        assert(hex_text(bytes).subrange(2 * i, 2 * i + 2) =~= hex_text(shorter).subrange(
            2 * i,
            2 * i + 2,
        ));
    } else {
        assert(hex_text(bytes).subrange(2 * i, 2 * i + 2) =~= hex_byte(bytes[i]));
    }
}

/// An error that ended the session is the error that the command ends with, whatever the
/// server answers to the end of the session.
pub proof fn law_first_error_is_reported(
    args: TopicEchoCommand,
    error: Seq<char>,
    event: EchoEventView,
)
    ensures
        turn(args, EchoStateView::StopSent { error: Some(error) }, event) == finished(Some(error)),
{
}

/// If one message is enough, no second one is printed: after the first, the session ends.
pub proof fn law_once_prints_one_message(
    args: TopicEchoCommand,
    message_type: Option<Seq<char>>,
    rest: Seq<EchoMessageView>,
    active: bool,
    rendered: Seq<char>,
)
    requires
        args.once,
        rest.len() > 0,
    ensures
        advance(args, message_type, rest, active, seq![]).state is StopSent || advance(
            args,
            message_type,
            rest,
            active,
            seq![],
        ).state is Decoding,
        turn(
            args,
            EchoStateView::Decoding { message_type, rest, active },
            EchoEventView::Rendered(rendered),
        ).state is StopSent,
        advance(args, message_type, rest, active, seq![]).lines.len() <= 2,
{
}

} // verus!
