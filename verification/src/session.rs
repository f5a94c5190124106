//! What the two halves of a connection do with what happens to them.

use crate::ids::Uuid;
use crate::protocol::{ClientMessage, ServerMessage};
use vstd::prelude::*;
use vstd::string::StringExecFns;

verus! {

/// What a connection has sent.
#[derive(Debug)]
pub enum Incoming {
    /// A text, as far as it could be read as a message, or else why not.
    Text(Result<ClientMessage, String>),
    Close,
    /// Anything that carries no message.
    Other,
    /// Nothing more will come: the connection is gone or the server shuts down.
    End,
}

/// What is done about it.
#[derive(Debug)]
pub enum ReadStep {
    /// The message is queued for the hub.
    Queue(ClientMessage),
    /// The connection is told something.
    Tell(ServerMessage),
    Nothing,
    /// The connection is closed, and the hub hears of it.
    Leave,
}

/// Decides what is done about what a connection has sent. Answers to pings need nothing.
pub fn read_step(incoming: Incoming) -> (res: ReadStep)
    ensures
        match incoming {
            Incoming::Text(Ok(ClientMessage::Pong)) => res is Nothing,
            Incoming::Text(Ok(msg)) => res == ReadStep::Queue(msg),
            Incoming::Text(Err(why)) => {
                &&& res matches ReadStep::Tell(ServerMessage::Error { message })
                &&& message@ == "Bad message: "@ + why@
            },
            Incoming::Close | Incoming::End => res is Leave,
            Incoming::Other => res is Nothing,
        },
{
    match incoming {
        Incoming::Text(Ok(ClientMessage::Pong)) => ReadStep::Nothing,
        Incoming::Text(Ok(msg)) => ReadStep::Queue(msg),
        Incoming::Text(Err(why)) => {
            let message = String::from_str("Bad message: ").concat(why.as_str());
            ReadStep::Tell(ServerMessage::Error { message })
        },
        Incoming::Close | Incoming::End => ReadStep::Leave,
        Incoming::Other => ReadStep::Nothing,
    }
}

/// What the writing half has to deal with.
#[derive(Debug)]
pub enum Outgoing {
    Shutdown,
    Message(ServerMessage),
    /// Nothing more will be sent to this connection.
    End,
    /// It is time for a sign of life.
    Tick,
}

/// What the writing half does.
#[derive(Debug)]
pub enum WriteStep {
    /// Sends a closing frame and stops.
    Close,
    Send(ServerMessage),
    /// Sends a protocol ping, then the given message.
    Ping(ServerMessage),
    Stop,
}

/// Decides what the writing half does.
pub fn write_step(outgoing: Outgoing) -> (res: WriteStep)
    ensures
        match outgoing {
            Outgoing::Shutdown => res is Close,
            Outgoing::Message(msg) => res == WriteStep::Send(msg),
            Outgoing::End => res is Stop,
            Outgoing::Tick => res == WriteStep::Ping(ServerMessage::Ping),
        },
{
    match outgoing {
        Outgoing::Shutdown => WriteStep::Close,
        Outgoing::Message(msg) => WriteStep::Send(msg),
        Outgoing::End => WriteStep::Stop,
        Outgoing::Tick => WriteStep::Ping(ServerMessage::Ping),
    }
}

/// The first message to a connection tells it who it is.
pub fn welcome(player_id: Uuid) -> (res: ServerMessage)
    ensures
        res == (ServerMessage::Welcome { player_id }),
{
    ServerMessage::Welcome { player_id }
}

/// Tells whether the game loop has something to do at once.
pub fn has_pending(
    shutting_down: bool,
    commands: usize,
    disconnects: usize,
    remote_events: usize,
) -> (res: bool)
    ensures
        res == (shutting_down || commands + disconnects + remote_events > 0),
{
    shutting_down || commands > 0 || disconnects > 0 || remote_events > 0
}

} // verus!
