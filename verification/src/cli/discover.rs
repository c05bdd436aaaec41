//! Forcing all participants to announce themselves again.

use vstd::prelude::*;
use vstd::string::*;

verus! {

/// The command has no arguments.
#[derive(Clone, Copy, Debug)]
pub struct DiscoverCommand;

/// What comes back of the request.
#[derive(Debug)]
pub enum DiscoverReply {
    /// The announcement has been forced.
    Discover,
    /// The server reports an error.
    Error(String),
    /// Another answer.
    Other,
}

/// The line to print, or the message to fail with.
pub fn run(_args: DiscoverCommand, reply: DiscoverReply) -> (r: Result<String, String>)
    ensures
        match reply {
            DiscoverReply::Discover => (r matches Ok(line) && line@ == "Discovery triggered."@),
            DiscoverReply::Error(message) => r == Err::<String, String>(message),
            DiscoverReply::Other => (r matches Err(message) && message@
                == "unexpected response for discover request"@),
        },
{
    match reply {
        DiscoverReply::Discover => Ok("Discovery triggered.".to_owned()),
        DiscoverReply::Error(message) => Err(message),
        DiscoverReply::Other => Err("unexpected response for discover request".to_owned()),
    }
}

} // verus!
