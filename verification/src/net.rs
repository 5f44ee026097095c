//! The server's side of a connection: what the first frames lead to, and what
//! is passed on.

use vstd::prelude::*;
use vstd::string::*;

use crate::text::{decimal, push_decimal};

verus! {

/// A frame from a client who has not said who they are.
#[derive(Debug)]
pub enum FirstFrame {
    /// Nothing came in time, or the connection is gone.
    Nothing,
    /// The client closes.
    Close,
    /// A frame that carries no message.
    Noise,
    /// A frame that is no message, or another message than a greeting.
    NoHello,
    Hello { protocol_version: u32, name: String, token: Option<u128> },
}

/// What a first frame leads to.
#[derive(Debug)]
pub enum Opening {
    /// Wait for the next frame.
    Wait,
    /// Let the connection go.
    Hangup,
    /// Refuse, and say why.
    Refuse(String),
    /// Ask the game to let the player in.
    Join { name: String, token: Option<u128> },
}

/// Why a client of version `client` is refused by a server of version
/// `server`.
pub open spec fn mismatch_text(client: u32, server: u32) -> Seq<char> {
    "protocol version mismatch: client "@ + decimal(client as nat) + ", server "@ + decimal(
        server as nat,
    ) + " — refresh the page"@
}

fn mismatch(client: u32, server: u32) -> (s: String)
    ensures
        s@ == mismatch_text(client, server),
{
    let mut s = String::from_str("protocol version mismatch: client ");
    push_decimal(&mut s, client as u64);
    s.append(", server ");
    push_decimal(&mut s, server as u64);
    s.append(" — refresh the page");
    s
}

/// Decides on a frame of a client who has not said who they are.
pub fn handshake(frame: FirstFrame, server_version: u32) -> (o: Opening)
    ensures
        match frame {
            FirstFrame::Nothing | FirstFrame::Close => o is Hangup,
            FirstFrame::Noise => o is Wait,
            FirstFrame::NoHello => o matches Opening::Refuse(why) && why@
                == "expected a Hello frame"@,
            FirstFrame::Hello { protocol_version, name, token } => if protocol_version
                == server_version {
                o == (Opening::Join { name, token })
            } else {
                o matches Opening::Refuse(why) && why@ == mismatch_text(
                    protocol_version,
                    server_version,
                )
            },
        },
        o is Join <==> frame is Hello && frame->protocol_version == server_version,
        o is Join ==> o->name == frame->name && o->token == frame->token,
        o is Refuse <==> frame is NoHello || (frame is Hello && frame->protocol_version
            != server_version),
        o is Hangup <==> frame is Nothing || frame is Close,
{
    match frame {
        FirstFrame::Nothing => Opening::Hangup,
        FirstFrame::Close => Opening::Hangup,
        FirstFrame::Noise => Opening::Wait,
        FirstFrame::NoHello => Opening::Refuse(String::from_str("expected a Hello frame")),
        FirstFrame::Hello { protocol_version, name, token } => {
            if protocol_version != server_version {
                Opening::Refuse(mismatch(protocol_version, server_version))
            } else {
                Opening::Join { name, token }
            }
        },
    }
}

/// What the game answers a wish to join.
#[derive(Debug)]
pub enum JoinReply {
    Accepted { player_id: u32, epoch: u64 },
    Rejected(String),
    /// The game shuts down.
    Gone,
}

/// How a wish to join ends.
#[derive(Debug)]
pub enum Admission {
    Playing { player_id: u32, epoch: u64 },
    Refuse(String),
    Hangup,
}

/// What a session does with the game's answer.
pub fn admission(reply: JoinReply) -> (a: Admission)
    ensures
        a == (match reply {
            JoinReply::Accepted { player_id, epoch } => Admission::Playing { player_id, epoch },
            JoinReply::Rejected(why) => Admission::Refuse(why),
            JoinReply::Gone => Admission::Hangup,
        }),
        a is Playing <==> reply is Accepted,
        a is Playing ==> a->player_id == reply->player_id && a->epoch == reply->epoch,
        a is Refuse <==> reply is Rejected,
{
    match reply {
        JoinReply::Accepted { player_id, epoch } => Admission::Playing { player_id, epoch },
        JoinReply::Rejected(why) => Admission::Refuse(why),
        JoinReply::Gone => Admission::Hangup,
    }
}

/// A frame of a client in the game.
#[derive(Debug)]
pub enum InFrame<M> {
    Message(M),
    /// It could not be read.
    Garbled,
    Close,
    Noise,
}

/// What a session does with a frame.
#[derive(Debug)]
pub enum PumpStep<M> {
    Forward(M),
    Skip,
    Stop,
}

/// Messages are passed on, a close ends the session, all else is skipped.
pub fn pump<M>(frame: InFrame<M>) -> (s: PumpStep<M>)
    ensures
        match frame {
            InFrame::Message(m) => s == PumpStep::Forward(m),
            InFrame::Close => s is Stop,
            InFrame::Garbled | InFrame::Noise => s is Skip,
        },
        s is Forward <==> frame is Message,
        s is Stop <==> frame is Close,
{
    match frame {
        InFrame::Message(m) => PumpStep::Forward(m),
        InFrame::Close => PumpStep::Stop,
        InFrame::Garbled => PumpStep::Skip,
        InFrame::Noise => PumpStep::Skip,
    }
}

} // verus!
