//! The command server: which clients it serves, and how requests become answers.

use crate::command::discover::run;
use crate::command::protocol::{
    BagRecordRequest, BagSessionInfo, BagSetPausedRequest, BagSetPausedResponse,
    BagStatusResponse, BagStopResponse, DiscoverRequest, DiscoverResponse, TopicBwStatusResponse,
    TopicDelayStatusResponse, TopicEchoStartRequest, TopicEchoStatusResponse,
    TopicHzBwStatusResponse, TopicHzStatusResponse, TopicInfoView, TopicListRequest,
    TopicListResponse, TopicStartRequest, TopicStartResponse, TopicStopResponse,
};
use crate::command::state::{topic_infos, CommandState};
use crate::command::topic::list::{build_response, listed};
use crate::runtime::command::{fits, RuntimeCommand, RuntimeReply};
use crate::text::join2;
use vstd::prelude::*;
use vstd::string::*;

verus! {

/// How many clients are served at a time.
pub const MAX_CONCURRENT_CLIENTS: usize = 32;

/// Where the server listens, unless it is told otherwise.
pub fn default_socket_path() -> (r: String)
    ensures
        r@ == "/tmp/ros2probe.sock"@,
{
    "/tmp/ros2probe.sock".to_owned()
}

// Clients.

/// The clients that are being served.
pub struct ClientSlots {
    in_flight: usize,
}

impl View for ClientSlots {
    type V = nat;

    /// How many clients are being served.
    closed spec fn view(&self) -> nat {
        self.in_flight as nat
    }
}

impl ClientSlots {
    /// No more clients are served than may be.
    pub open spec fn wf(&self) -> bool {
        self@ <= MAX_CONCURRENT_CLIENTS
    }

    /// Nobody is being served.
    pub fn new() -> (r: ClientSlots)
        ensures
            r.wf(),
            r@ == 0,
    {
        ClientSlots { in_flight: 0 }
    }

    /// A client has come: it is served if there is room, and declined if not.
    pub fn enter(&mut self) -> (r: bool)
        requires
            old(self).wf(),
        ensures
            final(self).wf(),
            r == (old(self)@ < MAX_CONCURRENT_CLIENTS),
            final(self)@ == (if r {
                old(self)@ + 1
            } else {
                old(self)@
            }),
    {
        if self.in_flight >= MAX_CONCURRENT_CLIENTS {
            return false;
        }
        self.in_flight += 1;
        true
    }

    /// A client that was served has gone.
    pub fn release(&mut self)
        requires
            old(self).wf(),
            old(self)@ > 0,
        ensures
            final(self).wf(),
            final(self)@ == old(self)@ - 1,
    {
        self.in_flight -= 1;
    }
}

// Requests.

/// What a client asks for. Of questions that are answered from the snapshot by other
/// means, only the kind is told.
#[derive(Debug)]
pub enum CommandRequest {
    ActionInfo,
    ActionList,
    BagRecord(BagRecordRequest),
    BagStatus,
    BagSetPaused(BagSetPausedRequest),
    BagStop,
    NodeInfo,
    NodeList,
    TopicBwStart(TopicStartRequest),
    TopicBwStatus,
    TopicBwStop,
    TopicDelayStart(TopicStartRequest),
    TopicDelayStatus,
    TopicDelayStop,
    TopicEchoStart(TopicEchoStartRequest),
    TopicEchoStatus,
    TopicEchoStop,
    TopicHzBwStatus,
    TopicHzStart(TopicStartRequest),
    TopicHzStatus,
    TopicHzStop,
    ServiceList,
    ServiceType,
    Discover(DiscoverRequest),
    TopicInfo,
    TopicList(TopicListRequest),
    TopicType,
    TopicGraph,
}

/// A question that is answered from the snapshot by other means.
#[derive(Clone, Copy, Debug, Eq, PartialEq)]
pub enum SnapshotQuery {
    ActionInfo,
    ActionList,
    NodeInfo,
    NodeList,
    ServiceList,
    ServiceType,
    TopicInfo,
    TopicType,
    TopicGraph,
}

/// An error that is told to a client.
#[derive(Debug)]
pub struct ErrorResponse {
    pub message: String,
}

/// What a client is answered.
#[derive(Debug)]
pub enum CommandResponse {
    BagRecord(BagSessionInfo),
    BagStatus(BagStatusResponse),
    BagSetPaused(BagSetPausedResponse),
    BagStop(BagStopResponse),
    TopicBwStart(TopicStartResponse),
    TopicBwStatus(TopicBwStatusResponse),
    TopicBwStop(TopicStopResponse),
    TopicDelayStart(TopicStartResponse),
    TopicDelayStatus(TopicDelayStatusResponse),
    TopicDelayStop(TopicStopResponse),
    TopicEchoStart(TopicStartResponse),
    TopicEchoStatus(TopicEchoStatusResponse),
    TopicEchoStop(TopicStopResponse),
    TopicHzBwStatus(TopicHzBwStatusResponse),
    TopicHzStart(TopicStartResponse),
    TopicHzStatus(TopicHzStatusResponse),
    TopicHzStop(TopicStopResponse),
    Discover(DiscoverResponse),
    TopicList(TopicListResponse),
    Error(ErrorResponse),
}

/// Who answers a request.
#[derive(Debug)]
pub enum Route {
    /// The answer is there already.
    Answer(CommandResponse),
    /// The running probe answers to this command.
    Runtime(RuntimeCommand),
    /// The snapshot answers this question.
    Snapshot(SnapshotQuery),
}

/// Who answers a request, and what it is told. `reply` is the number under which the
/// client waits.
pub open spec fn is_routed(
    request: CommandRequest,
    state: CommandState,
    reply: u64,
    route: Route,
) -> bool {
    match request {
        CommandRequest::BagRecord(request) => route == Route::Runtime(
            RuntimeCommand::BagRecord { request, reply },
        ),
        CommandRequest::BagStatus => route == Route::Runtime(RuntimeCommand::BagStatus { reply }),
        CommandRequest::BagSetPaused(request) => route == Route::Runtime(
            RuntimeCommand::BagSetPaused { request, reply },
        ),
        CommandRequest::BagStop => route == Route::Runtime(RuntimeCommand::BagStop { reply }),
        CommandRequest::TopicBwStart(request) => route == Route::Runtime(
            RuntimeCommand::TopicBwStart { request, reply },
        ),
        CommandRequest::TopicBwStatus => route == Route::Runtime(
            RuntimeCommand::TopicBwStatus { reply },
        ),
        CommandRequest::TopicBwStop => route == Route::Runtime(
            RuntimeCommand::TopicBwStop { reply },
        ),
        CommandRequest::TopicDelayStart(request) => route == Route::Runtime(
            RuntimeCommand::TopicDelayStart { request, reply },
        ),
        CommandRequest::TopicDelayStatus => route == Route::Runtime(
            RuntimeCommand::TopicDelayStatus { reply },
        ),
        CommandRequest::TopicDelayStop => route == Route::Runtime(
            RuntimeCommand::TopicDelayStop { reply },
        ),
        CommandRequest::TopicEchoStart(request) => route == Route::Runtime(
            RuntimeCommand::TopicEchoStart { request, reply },
        ),
        CommandRequest::TopicEchoStatus => route == Route::Runtime(
            RuntimeCommand::TopicEchoStatus { reply },
        ),
        CommandRequest::TopicEchoStop => route == Route::Runtime(
            RuntimeCommand::TopicEchoStop { reply },
        ),
        CommandRequest::TopicHzBwStatus => route == Route::Runtime(
            RuntimeCommand::TopicHzBwStatus { reply },
        ),
        CommandRequest::TopicHzStart(request) => route == Route::Runtime(
            RuntimeCommand::TopicHzStart { request, reply },
        ),
        CommandRequest::TopicHzStatus => route == Route::Runtime(
            RuntimeCommand::TopicHzStatus { reply },
        ),
        CommandRequest::TopicHzStop => route == Route::Runtime(
            RuntimeCommand::TopicHzStop { reply },
        ),
        CommandRequest::ActionInfo => route == Route::Snapshot(SnapshotQuery::ActionInfo),
        CommandRequest::ActionList => route == Route::Snapshot(SnapshotQuery::ActionList),
        CommandRequest::NodeInfo => route == Route::Snapshot(SnapshotQuery::NodeInfo),
        CommandRequest::NodeList => route == Route::Snapshot(SnapshotQuery::NodeList),
        CommandRequest::ServiceList => route == Route::Snapshot(SnapshotQuery::ServiceList),
        CommandRequest::ServiceType => route == Route::Snapshot(SnapshotQuery::ServiceType),
        CommandRequest::TopicInfo => route == Route::Snapshot(SnapshotQuery::TopicInfo),
        CommandRequest::TopicType => route == Route::Snapshot(SnapshotQuery::TopicType),
        CommandRequest::TopicGraph => route == Route::Snapshot(SnapshotQuery::TopicGraph),
        CommandRequest::Discover(_) => route matches Route::Answer(
            CommandResponse::Discover(response),
        ) && response.triggered,
        CommandRequest::TopicList(request) => route matches Route::Answer(
            CommandResponse::TopicList(response),
        ) && topic_infos(response.topics@) == topic_infos(state.topics@).filter(
            |topic: TopicInfoView| listed(topic, request.include_hidden),
        ) && response.total_count == response.topics@.len(),
    }
}

/// Tells who answers a request.
pub fn route_request(request: CommandRequest, state: CommandState, reply: u64) -> (r: Route)
    ensures
        is_routed(request, state, reply, r),
{
    match request {
        CommandRequest::BagRecord(request) => Route::Runtime(
            RuntimeCommand::BagRecord { request, reply },
        ),
        CommandRequest::BagStatus => Route::Runtime(RuntimeCommand::BagStatus { reply }),
        CommandRequest::BagSetPaused(request) => Route::Runtime(
            RuntimeCommand::BagSetPaused { request, reply },
        ),
        CommandRequest::BagStop => Route::Runtime(RuntimeCommand::BagStop { reply }),
        CommandRequest::TopicBwStart(request) => Route::Runtime(
            RuntimeCommand::TopicBwStart { request, reply },
        ),
        CommandRequest::TopicBwStatus => Route::Runtime(RuntimeCommand::TopicBwStatus { reply }),
        CommandRequest::TopicBwStop => Route::Runtime(RuntimeCommand::TopicBwStop { reply }),
        CommandRequest::TopicDelayStart(request) => Route::Runtime(
            RuntimeCommand::TopicDelayStart { request, reply },
        ),
        CommandRequest::TopicDelayStatus => Route::Runtime(RuntimeCommand::TopicDelayStatus { reply }),
        CommandRequest::TopicDelayStop => Route::Runtime(RuntimeCommand::TopicDelayStop { reply }),
        CommandRequest::TopicEchoStart(request) => Route::Runtime(
            RuntimeCommand::TopicEchoStart { request, reply },
        ),
        CommandRequest::TopicEchoStatus => Route::Runtime(RuntimeCommand::TopicEchoStatus { reply }),
        CommandRequest::TopicEchoStop => Route::Runtime(RuntimeCommand::TopicEchoStop { reply }),
        CommandRequest::TopicHzBwStatus => Route::Runtime(RuntimeCommand::TopicHzBwStatus { reply }),
        CommandRequest::TopicHzStart(request) => Route::Runtime(
            RuntimeCommand::TopicHzStart { request, reply },
        ),
        CommandRequest::TopicHzStatus => Route::Runtime(RuntimeCommand::TopicHzStatus { reply }),
        CommandRequest::TopicHzStop => Route::Runtime(RuntimeCommand::TopicHzStop { reply }),
        CommandRequest::ActionInfo => Route::Snapshot(SnapshotQuery::ActionInfo),
        CommandRequest::ActionList => Route::Snapshot(SnapshotQuery::ActionList),
        CommandRequest::NodeInfo => Route::Snapshot(SnapshotQuery::NodeInfo),
        CommandRequest::NodeList => Route::Snapshot(SnapshotQuery::NodeList),
        CommandRequest::ServiceList => Route::Snapshot(SnapshotQuery::ServiceList),
        CommandRequest::ServiceType => Route::Snapshot(SnapshotQuery::ServiceType),
        CommandRequest::TopicInfo => Route::Snapshot(SnapshotQuery::TopicInfo),
        CommandRequest::TopicType => Route::Snapshot(SnapshotQuery::TopicType),
        CommandRequest::TopicGraph => Route::Snapshot(SnapshotQuery::TopicGraph),
        CommandRequest::Discover(request) => Route::Answer(
            CommandResponse::Discover(run::build_response(request)),
        ),
        CommandRequest::TopicList(request) => Route::Answer(
            CommandResponse::TopicList(build_response(request, state)),
        ),
    }
}

// Answers.

/// A response carries what a reply of the probe carries.
pub open spec fn carries(response: CommandResponse, reply: RuntimeReply) -> bool {
    match reply {
        RuntimeReply::BagStarted(content) => response == CommandResponse::BagRecord(content),
        RuntimeReply::BagStatus(content) => response == CommandResponse::BagStatus(content),
        RuntimeReply::BagSetPaused(content) => response == CommandResponse::BagSetPaused(content),
        RuntimeReply::BagStopped(content) => response == CommandResponse::BagStop(content),
        RuntimeReply::TopicBwStarted(content) => response == CommandResponse::TopicBwStart(content),
        RuntimeReply::TopicBwStatus(content) => response == CommandResponse::TopicBwStatus(content),
        RuntimeReply::TopicBwStopped(content) => response == CommandResponse::TopicBwStop(content),
        RuntimeReply::TopicDelayStarted(content) => response == CommandResponse::TopicDelayStart(content),
        RuntimeReply::TopicDelayStatus(content) => response == CommandResponse::TopicDelayStatus(content),
        RuntimeReply::TopicDelayStopped(content) => response == CommandResponse::TopicDelayStop(content),
        RuntimeReply::TopicEchoStarted(content) => response == CommandResponse::TopicEchoStart(content),
        RuntimeReply::TopicEchoStatus(content) => response == CommandResponse::TopicEchoStatus(content),
        RuntimeReply::TopicEchoStopped(content) => response == CommandResponse::TopicEchoStop(content),
        RuntimeReply::TopicHzBwStatus(content) => response == CommandResponse::TopicHzBwStatus(content),
        RuntimeReply::TopicHzStarted(content) => response == CommandResponse::TopicHzStart(content),
        RuntimeReply::TopicHzStatus(content) => response == CommandResponse::TopicHzStatus(content),
        RuntimeReply::TopicHzStopped(content) => response == CommandResponse::TopicHzStop(content),
        RuntimeReply::Error(message) => response == CommandResponse::Error(
            ErrorResponse { message },
        ),
    }
}

/// Turns a reply of the probe into a response.
pub fn respond(reply: RuntimeReply) -> (r: CommandResponse)
    ensures
        carries(r, reply),
{
    match reply {
        RuntimeReply::BagStarted(content) => CommandResponse::BagRecord(content),
        RuntimeReply::BagStatus(content) => CommandResponse::BagStatus(content),
        RuntimeReply::BagSetPaused(content) => CommandResponse::BagSetPaused(content),
        RuntimeReply::BagStopped(content) => CommandResponse::BagStop(content),
        RuntimeReply::TopicBwStarted(content) => CommandResponse::TopicBwStart(content),
        RuntimeReply::TopicBwStatus(content) => CommandResponse::TopicBwStatus(content),
        RuntimeReply::TopicBwStopped(content) => CommandResponse::TopicBwStop(content),
        RuntimeReply::TopicDelayStarted(content) => CommandResponse::TopicDelayStart(content),
        RuntimeReply::TopicDelayStatus(content) => CommandResponse::TopicDelayStatus(content),
        RuntimeReply::TopicDelayStopped(content) => CommandResponse::TopicDelayStop(content),
        RuntimeReply::TopicEchoStarted(content) => CommandResponse::TopicEchoStart(content),
        RuntimeReply::TopicEchoStatus(content) => CommandResponse::TopicEchoStatus(content),
        RuntimeReply::TopicEchoStopped(content) => CommandResponse::TopicEchoStop(content),
        RuntimeReply::TopicHzBwStatus(content) => CommandResponse::TopicHzBwStatus(content),
        RuntimeReply::TopicHzStarted(content) => CommandResponse::TopicHzStart(content),
        RuntimeReply::TopicHzStatus(content) => CommandResponse::TopicHzStatus(content),
        RuntimeReply::TopicHzStopped(content) => CommandResponse::TopicHzStop(content),
        RuntimeReply::Error(message) => CommandResponse::Error(ErrorResponse { message }),
    }
}

/// A response is an error with the given message.
pub open spec fn is_error(response: CommandResponse, message: Seq<char>) -> bool {
    response matches CommandResponse::Error(error) && error.message@ == message
}

/// Tells a client that it is declined.
pub fn busy_response() -> (r: CommandResponse)
    ensures
        is_error(r, "command server busy; try again"@),
{
    CommandResponse::Error(
        ErrorResponse { message: "command server busy; try again".to_owned() },
    )
}

/// Tells a client that its request could not be read.
pub fn read_failed_response(error: &str) -> (r: CommandResponse)
    ensures
        is_error(r, "read request failed: "@ + error@),
{
    CommandResponse::Error(ErrorResponse { message: join2("read request failed: ", error) })
}

/// Tells a client that its request makes no sense.
pub fn invalid_request_response(error: &str) -> (r: CommandResponse)
    ensures
        is_error(r, "invalid request: "@ + error@),
{
    CommandResponse::Error(ErrorResponse { message: join2("invalid request: ", error) })
}

// Laws.

/// A response is of the kind that a request asks for, or an error.
pub open spec fn suits(request: CommandRequest, response: CommandResponse) -> bool {
    response is Error || match request {
        CommandRequest::BagRecord(_) => response is BagRecord,
        CommandRequest::BagStatus => response is BagStatus,
        CommandRequest::BagSetPaused(_) => response is BagSetPaused,
        CommandRequest::BagStop => response is BagStop,
        CommandRequest::TopicBwStart(_) => response is TopicBwStart,
        CommandRequest::TopicBwStatus => response is TopicBwStatus,
        CommandRequest::TopicBwStop => response is TopicBwStop,
        CommandRequest::TopicDelayStart(_) => response is TopicDelayStart,
        CommandRequest::TopicDelayStatus => response is TopicDelayStatus,
        CommandRequest::TopicDelayStop => response is TopicDelayStop,
        CommandRequest::TopicEchoStart(_) => response is TopicEchoStart,
        CommandRequest::TopicEchoStatus => response is TopicEchoStatus,
        CommandRequest::TopicEchoStop => response is TopicEchoStop,
        CommandRequest::TopicHzBwStatus => response is TopicHzBwStatus,
        CommandRequest::TopicHzStart(_) => response is TopicHzStart,
        CommandRequest::TopicHzStatus => response is TopicHzStatus,
        CommandRequest::TopicHzStop => response is TopicHzStop,
        CommandRequest::Discover(_) => response is Discover,
        CommandRequest::TopicList(_) => response is TopicList,
        _ => false,
    }
}

/// A client whose request is answered at once or by the running probe is answered what
/// it asked for, or an error.
pub proof fn law_answers_suit_requests(
    request: CommandRequest,
    state: CommandState,
    number: u64,
    route: Route,
    reply: RuntimeReply,
    response: CommandResponse,
)
    requires
        is_routed(request, state, number, route),
        match route {
            Route::Runtime(command) => fits(command, reply@) && carries(response, reply),
            Route::Answer(answer) => response == answer,
            Route::Snapshot(_) => false,
        },
    ensures
        suits(request, response),
{
}

} // verus!
