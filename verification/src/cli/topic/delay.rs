//! Watching the delay of the messages of a topic: what is asked and printed, step by step.

use crate::capture::capture::newest;
use crate::command::protocol::{
    delay_views, DelayMessageView, DelayStatusView, TopicDelayMessage, TopicDelayStatusResponse,
};
use crate::text::{join2, join3, text_opt, texts};
use std::collections::VecDeque;
use vstd::prelude::*;
use vstd::string::*;

verus! {

/// The arguments of the command.
#[derive(Debug)]
pub struct TopicDelayCommand {
    /// The topic to watch.
    pub topic_name: String,
    /// Over how many messages the figures are taken.
    pub window: usize,
}

// The window.

/// The newest delays.
pub struct DelayWindow<T> {
    values: VecDeque<T>,
    capacity: usize,
}

impl<T> View for DelayWindow<T> {
    type V = Seq<T>;

    /// The delays, oldest first.
    closed spec fn view(&self) -> Seq<T> {
        self.values@
    }
}

impl<T> DelayWindow<T> {
    /// How many delays are kept.
    pub closed spec fn room(&self) -> usize {
        self.capacity
    }

    /// No more delays are kept than there is room for.
    pub open spec fn wf(&self) -> bool {
        self@.len() <= self.room()
    }

    /// A window with room for so many delays.
    pub fn new(capacity: usize) -> (r: DelayWindow<T>)
        ensures
            r.wf(),
            r.room() == capacity,
            r@ == Seq::<T>::empty(),
    {
        let r = DelayWindow { values: VecDeque::new(), capacity };
        assert(r.values@ =~= seq![]);
        r
    }

    /// Adds a delay. The oldest leave if there is no room for them.
    pub fn push(&mut self, value: T)
        requires
            old(self).wf(),
        ensures
            final(self).wf(),
            final(self).room() == old(self).room(),
            final(self)@ == newest(old(self)@.push(value), old(self).room()),
    {
        let ghost all = self.values@.push(value);
        self.values.push_back(value);
        if self.values.len() > self.capacity {
            let _ = self.values.pop_front();
        }
        assert(self.values@ =~= newest(all, self.capacity));
    }

    /// The delays, oldest first.
    pub fn values(&self) -> (r: &VecDeque<T>)
        ensures
            r@ == self@,
    {
        &self.values
    }
}

/// What a window holds after the given delays.
pub open spec fn window_after<T>(values: Seq<T>, capacity: usize) -> Seq<T>
    decreases values.len(),
{
    if values.len() == 0 {
        seq![]
    } else {
        newest(window_after(values.drop_last(), capacity).push(values.last()), capacity)
    }
}

/// A window holds the newest delays, as many as there is room for.
pub proof fn law_window_keeps_newest<T>(values: Seq<T>, capacity: usize)
    ensures
        window_after(values, capacity) == newest(values, capacity),
    decreases values.len(),
{
    if values.len() > 0 {
        law_window_keeps_newest(values.drop_last(), capacity);
        assert(values =~= values.drop_last().push(values.last()));
        assert(window_after(values, capacity) =~= newest(values, capacity));
    } else {
        assert(newest(values, capacity) =~= seq![]);
    }
}

// Steps.

/// How far the command has come.
pub enum DelayState {
    /// The type of the topic was asked for.
    TypeAsked,
    /// The session was asked for.
    StartSent { message_type: String },
    /// The helper that reads stamps is starting.
    HelperStarting { message_type: String },
    /// A second is to pass.
    Waiting { message_type: String },
    /// Messages were asked for.
    Polling { message_type: String },
    /// The helper reads the stamp of a message. Others wait. `updated` tells whether a
    /// delay has been added since the messages came.
    Extracting { message_type: String, rest: Vec<TopicDelayMessage>, updated: bool },
    /// The end of the session was asked for, perhaps because of an error.
    StopSent { error: Option<String> },
    /// The command has ended, perhaps with an error.
    Finished { error: Option<String> },
}

/// What a [`DelayState`] holds.
pub enum DelayStateView {
    TypeAsked,
    StartSent { message_type: Seq<char> },
    HelperStarting { message_type: Seq<char> },
    Waiting { message_type: Seq<char> },
    Polling { message_type: Seq<char> },
    Extracting { message_type: Seq<char>, rest: Seq<DelayMessageView>, updated: bool },
    StopSent { error: Option<Seq<char>> },
    Finished { error: Option<Seq<char>> },
}

impl View for DelayState {
    type V = DelayStateView;

    open spec fn view(&self) -> DelayStateView {
        match self {
            DelayState::TypeAsked => DelayStateView::TypeAsked,
            DelayState::StartSent { message_type } => DelayStateView::StartSent {
                message_type: message_type@,
            },
            DelayState::HelperStarting { message_type } => DelayStateView::HelperStarting {
                message_type: message_type@,
            },
            DelayState::Waiting { message_type } => DelayStateView::Waiting {
                message_type: message_type@,
            },
            DelayState::Polling { message_type } => DelayStateView::Polling {
                message_type: message_type@,
            },
            DelayState::Extracting { message_type, rest, updated } => DelayStateView::Extracting {
                message_type: message_type@,
                rest: delay_views(rest@),
                updated: *updated,
            },
            DelayState::StopSent { error } => DelayStateView::StopSent { error: text_opt(*error) },
            DelayState::Finished { error } => DelayStateView::Finished { error: text_opt(*error) },
        }
    }
}

/// What happened.
pub enum DelayEvent {
    /// The types of the topic.
    TypeReply(Vec<String>),
    /// The session has started.
    StartReply,
    /// A second has passed.
    Tick,
    /// Messages.
    StatusReply(TopicDelayStatusResponse),
    /// The session has ended.
    StopReply,
    /// The server or the helper reports an error.
    Error(String),
    /// The server gave another answer, or the helper none.
    Other,
    /// The request could not be made.
    Failed(String),
    /// The helper has started.
    HelperReady,
    /// The helper has read a stamp, and the delay was added to the window.
    Extracted,
    /// The message has no header.
    MissingHeader,
    /// The user wants the command to end.
    Interrupted,
}

/// What a [`DelayEvent`] holds.
pub enum DelayEventView {
    TypeReply(Seq<Seq<char>>),
    StartReply,
    Tick,
    StatusReply(DelayStatusView),
    StopReply,
    Error(Seq<char>),
    Other,
    Failed(Seq<char>),
    HelperReady,
    Extracted,
    MissingHeader,
    Interrupted,
}

impl View for DelayEvent {
    type V = DelayEventView;

    open spec fn view(&self) -> DelayEventView {
        match self {
            DelayEvent::TypeReply(type_names) => DelayEventView::TypeReply(texts(type_names@)),
            DelayEvent::StartReply => DelayEventView::StartReply,
            DelayEvent::Tick => DelayEventView::Tick,
            DelayEvent::StatusReply(response) => DelayEventView::StatusReply(response@),
            DelayEvent::StopReply => DelayEventView::StopReply,
            DelayEvent::Error(message) => DelayEventView::Error(message@),
            DelayEvent::Other => DelayEventView::Other,
            DelayEvent::Failed(message) => DelayEventView::Failed(message@),
            DelayEvent::HelperReady => DelayEventView::HelperReady,
            DelayEvent::Extracted => DelayEventView::Extracted,
            DelayEvent::MissingHeader => DelayEventView::MissingHeader,
            DelayEvent::Interrupted => DelayEventView::Interrupted,
        }
    }
}

/// What is done next.
pub enum DelayAction {
    /// Ask for the type of the topic.
    AskType,
    /// Ask for the session.
    SendStart,
    /// Start the helper.
    SpawnHelper,
    /// Let a second pass.
    Wait,
    /// Ask for messages.
    Poll,
    /// Let the helper read the stamp of a message, and add the delay to the window.
    Extract { message_type: String, payload_base64: String, received_at_nanos: u64 },
    /// Ask for the end of the session.
    SendStop,
    /// Nothing.
    Finish,
}

/// What a [`DelayAction`] holds.
pub enum DelayActionView {
    AskType,
    SendStart,
    SpawnHelper,
    Wait,
    Poll,
    Extract { message_type: Seq<char>, payload_base64: Seq<char>, received_at_nanos: u64 },
    SendStop,
    Finish,
}

impl View for DelayAction {
    type V = DelayActionView;

    open spec fn view(&self) -> DelayActionView {
        match self {
            DelayAction::AskType => DelayActionView::AskType,
            DelayAction::SendStart => DelayActionView::SendStart,
            DelayAction::SpawnHelper => DelayActionView::SpawnHelper,
            DelayAction::Wait => DelayActionView::Wait,
            DelayAction::Poll => DelayActionView::Poll,
            DelayAction::Extract { message_type, payload_base64, received_at_nanos } =>
                DelayActionView::Extract {
                message_type: message_type@,
                payload_base64: payload_base64@,
                received_at_nanos: *received_at_nanos,
            },
            DelayAction::SendStop => DelayActionView::SendStop,
            DelayAction::Finish => DelayActionView::Finish,
        }
    }
}

/// A step of the command: print the line, print the figures of the window if so told, do
/// the action, come back with what happened.
pub struct DelayTurn {
    pub state: DelayState,
    pub line: Option<String>,
    pub print_stats: bool,
    pub action: DelayAction,
}

/// What a [`DelayTurn`] holds.
pub struct DelayTurnView {
    pub state: DelayStateView,
    pub line: Option<Seq<char>>,
    pub print_stats: bool,
    pub action: DelayActionView,
}

impl View for DelayTurn {
    type V = DelayTurnView;

    open spec fn view(&self) -> DelayTurnView {
        DelayTurnView {
            state: self.state@,
            line: text_opt(self.line),
            print_stats: self.print_stats,
            action: self.action@,
        }
    }
}

/// What the command says if its helper is gone.
pub const HELPER_GONE: &'static str = "topic delay helper exited unexpectedly";

/// A step that prints nothing.
pub open spec fn silent(state: DelayStateView, action: DelayActionView) -> DelayTurnView {
    DelayTurnView { state, line: None, print_stats: false, action }
}

/// The command ends.
pub open spec fn finished(error: Option<Seq<char>>) -> DelayTurnView {
    silent(DelayStateView::Finished { error }, DelayActionView::Finish)
}

/// The session is to end.
pub open spec fn stopping(line: Option<Seq<char>>, error: Option<Seq<char>>) -> DelayTurnView {
    DelayTurnView {
        state: DelayStateView::StopSent { error },
        line,
        print_stats: false,
        action: DelayActionView::SendStop,
    }
}

/// The stamps of the messages that came are read one by one. When none is left, the
/// figures are printed if they have changed, and a second is to pass.
pub open spec fn advance(
    message_type: Seq<char>,
    rest: Seq<DelayMessageView>,
    updated: bool,
) -> DelayTurnView {
    if rest.len() == 0 {
        DelayTurnView {
            state: DelayStateView::Waiting { message_type },
            line: None,
            print_stats: updated,
            action: DelayActionView::Wait,
        }
    } else {
        silent(
            DelayStateView::Extracting { message_type, rest: rest.skip(1), updated },
            DelayActionView::Extract {
                message_type: match rest[0].ros_type {
                    Some(ros_type) => ros_type,
                    None => message_type,
                },
                payload_base64: rest[0].payload_base64,
                received_at_nanos: rest[0].received_at_nanos,
            },
        )
    }
}

fn next_message(message_type: String, rest: Vec<TopicDelayMessage>, updated: bool) -> (r: DelayTurn)
    ensures
        r@ == advance(message_type@, delay_views(rest@), updated),
{
    let ghost views = delay_views(rest@);
    let mut rest = rest;
    if rest.len() == 0 {
        return DelayTurn {
            state: DelayState::Waiting { message_type },
            line: None,
            print_stats: updated,
            action: DelayAction::Wait,
        };
    }
    let message = rest.remove(0);
    proof {
        assert(views[0] == message@);
        assert(delay_views(rest@) =~= views.skip(1));
    }
    let read_type = match message.ros_type {
        Some(ros_type) => ros_type,
        None => message_type.clone(),
    };
    DelayTurn {
        state: DelayState::Extracting { message_type, rest, updated },
        line: None,
        print_stats: false,
        action: DelayAction::Extract {
            message_type: read_type,
            payload_base64: message.payload_base64,
            received_at_nanos: message.received_at_nanos,
        },
    }
}

/// The first step: the type is asked for, if there is a window at all.
pub open spec fn first_turn(args: TopicDelayCommand) -> DelayTurnView {
    if args.window == 0 {
        finished(Some("--window must be greater than 0"@))
    } else {
        silent(DelayStateView::TypeAsked, DelayActionView::AskType)
    }
}

/// Takes the first step.
pub fn begin(args: &TopicDelayCommand) -> (r: DelayTurn)
    ensures
        r@ == first_turn(*args),
{
    if args.window == 0 {
        end(Some("--window must be greater than 0".to_owned()))
    } else {
        quiet(DelayState::TypeAsked, DelayAction::AskType)
    }
}

/// What went wrong if something else than the expected happened.
pub open spec fn failure(event: DelayEventView, unexpected: Seq<char>) -> Option<Seq<char>> {
    match event {
        DelayEventView::Error(message) => Some(message),
        DelayEventView::Failed(message) => Some(message),
        _ => Some(unexpected),
    }
}

/// The step that follows on what happened.
pub open spec fn turn(
    args: TopicDelayCommand,
    state: DelayStateView,
    event: DelayEventView,
) -> DelayTurnView {
    match state {
        DelayStateView::TypeAsked => match event {
            DelayEventView::TypeReply(type_names) => if type_names.len() == 0 {
                finished(
                    Some(
                        "topic delay could not determine the message type for "@
                            + args.topic_name@,
                    ),
                )
            } else if type_names.len() == 1 {
                silent(
                    DelayStateView::StartSent { message_type: type_names[0] },
                    DelayActionView::SendStart,
                )
            } else {
                finished(
                    Some(
                        "topic delay found multiple types for "@ + args.topic_name@
                            + "; pass a single message type is not supported yet"@,
                    ),
                )
            },
            _ => finished(failure(event, "unexpected response for topic type request"@)),
        },
        DelayStateView::StartSent { message_type } => match event {
            DelayEventView::StartReply => silent(
                DelayStateView::HelperStarting { message_type },
                DelayActionView::SpawnHelper,
            ),
            _ => finished(failure(event, "unexpected response for topic delay start request"@)),
        },
        DelayStateView::HelperStarting { message_type } => match event {
            DelayEventView::HelperReady => silent(
                DelayStateView::Waiting { message_type },
                DelayActionView::Wait,
            ),
            _ => finished(failure(event, HELPER_GONE@)),
        },
        DelayStateView::Waiting { message_type } => match event {
            DelayEventView::Tick => silent(
                DelayStateView::Polling { message_type },
                DelayActionView::Poll,
            ),
            DelayEventView::Interrupted => stopping(None, None),
            _ => stopping(None, failure(event, "wait for ctrl-c"@)),
        },
        DelayStateView::Polling { message_type } => match event {
            DelayEventView::StatusReply(response) => advance(
                message_type,
                response.messages,
                false,
            ),
            _ => stopping(
                None,
                failure(event, "unexpected response for topic delay status request"@),
            ),
        },
        DelayStateView::Extracting { message_type, rest, updated } => match event {
            DelayEventView::Extracted => advance(message_type, rest, true),
            DelayEventView::MissingHeader => stopping(Some("msg does not have header"@), None),
            _ => stopping(None, failure(event, HELPER_GONE@)),
        },
        DelayStateView::StopSent { error } => match error {
            Some(error) => finished(Some(error)),
            None => match event {
                DelayEventView::StopReply => finished(None),
                _ => finished(failure(event, "unexpected response for topic delay stop request"@)),
            },
        },
        DelayStateView::Finished { error } => finished(error),
    }
}

fn failed(event: DelayEvent, unexpected: &str) -> (r: String)
    ensures
        Some(r@) == failure(event@, unexpected@),
{
    match event {
        DelayEvent::Error(message) => message,
        DelayEvent::Failed(message) => message,
        _ => unexpected.to_owned(),
    }
}

fn quiet(state: DelayState, action: DelayAction) -> (r: DelayTurn)
    ensures
        r@ == silent(state@, action@),
{
    DelayTurn { state, line: None, print_stats: false, action }
}

fn end(error: Option<String>) -> (r: DelayTurn)
    ensures
        r@ == finished(text_opt(error)),
{
    quiet(DelayState::Finished { error }, DelayAction::Finish)
}

fn stop(line: Option<String>, error: Option<String>) -> (r: DelayTurn)
    ensures
        r@ == stopping(text_opt(line), text_opt(error)),
{
    DelayTurn {
        state: DelayState::StopSent { error },
        line,
        print_stats: false,
        action: DelayAction::SendStop,
    }
}

/// Takes the step that follows on what happened.
pub fn run(args: &TopicDelayCommand, state: DelayState, event: DelayEvent) -> (r: DelayTurn)
    ensures
        r@ == turn(*args, state@, event@),
{
    match state {
        DelayState::TypeAsked => match event {
            DelayEvent::TypeReply(type_names) => {
                if type_names.len() == 0 {
                    end(
                        Some(
                            join2(
                                "topic delay could not determine the message type for ",
                                args.topic_name.as_str(),
                            ),
                        ),
                    )
                } else if type_names.len() == 1 {
                    assert(texts(type_names@)[0] == type_names@[0]@);
                    quiet(
                        DelayState::StartSent { message_type: type_names[0].clone() },
                        DelayAction::SendStart,
                    )
                } else {
                    end(
                        Some(
                            join3(
                                "topic delay found multiple types for ",
                                args.topic_name.as_str(),
                                "; pass a single message type is not supported yet",
                            ),
                        ),
                    )
                }
            },
            event => end(Some(failed(event, "unexpected response for topic type request"))),
        },
        DelayState::StartSent { message_type } => match event {
            DelayEvent::StartReply => quiet(
                DelayState::HelperStarting { message_type },
                DelayAction::SpawnHelper,
            ),
            event => end(Some(failed(event, "unexpected response for topic delay start request"))),
        },
        DelayState::HelperStarting { message_type } => match event {
            DelayEvent::HelperReady => quiet(
                DelayState::Waiting { message_type },
                DelayAction::Wait,
            ),
            event => end(Some(failed(event, HELPER_GONE))),
        },
        DelayState::Waiting { message_type } => match event {
            DelayEvent::Tick => quiet(DelayState::Polling { message_type }, DelayAction::Poll),
            DelayEvent::Interrupted => stop(None, None),
            event => stop(None, Some(failed(event, "wait for ctrl-c"))),
        },
        DelayState::Polling { message_type } => match event {
            DelayEvent::StatusReply(response) => next_message(
                message_type,
                response.messages,
                false,
            ),
            event => stop(
                None,
                Some(failed(event, "unexpected response for topic delay status request")),
            ),
        },
        DelayState::Extracting { message_type, rest, updated } => match event {
            DelayEvent::Extracted => next_message(message_type, rest, true),
            DelayEvent::MissingHeader => stop(Some("msg does not have header".to_owned()), None),
            event => stop(None, Some(failed(event, HELPER_GONE))),
        },
        DelayState::StopSent { error } => match error {
            Some(error) => end(Some(error)),
            None => match event {
                DelayEvent::StopReply => end(None),
                event => end(
                    Some(failed(event, "unexpected response for topic delay stop request")),
                ),
            },
        },
        DelayState::Finished { error } => end(error),
    }
}

// Laws.

/// The session has started, and its end was not asked for.
pub open spec fn in_session(state: DelayStateView) -> bool {
    state is Waiting || state is Polling || state is Extracting
}

/// Once the helper has started, the command does not end without having asked for the end
/// of the session, whatever happens.
pub proof fn law_session_is_stopped(
    args: TopicDelayCommand,
    state: DelayStateView,
    event: DelayEventView,
)
    requires
        in_session(state),
    ensures
        in_session(turn(args, state, event).state) || (turn(args, state, event).state is StopSent
            && turn(args, state, event).action is SendStop),
{
}

/// An error that ended the session is the error that the command ends with, whatever the
/// server answers to the end of the session.
pub proof fn law_first_error_is_reported(
    args: TopicDelayCommand,
    error: Seq<char>,
    event: DelayEventView,
)
    ensures
        turn(args, DelayStateView::StopSent { error: Some(error) }, event) == finished(Some(error)),
{
}

} // verus!
