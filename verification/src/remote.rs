//! The decisions of sending one message to the collector.
//!
//! Sending is a short run of socket operations. Which operation comes
//! next, and what a failed operation means, is decided here; the operations
//! themselves are performed by the caller, who reports whether each
//! succeeded. A failure ends the run at once: nothing is tried again, and
//! nothing is kept for later.
//!
//! Over datagrams a local socket is bound, connected to the collector and
//! the message sent as one datagram. Over a stream a connection is opened
//! for this message alone and the whole message written.

use crate::utils::{LoggerOptions, Proto};
use vstd::prelude::*;

verus! {

/// How an attempt to send one message ended.
#[derive(Debug, PartialEq, Eq, Clone, Copy, Structural)]
pub enum DispatchResult {
    /// The message was handed to the transport.
    Sent,
    /// The local datagram socket could not be bound.
    BindFailed,
    /// The collector could not be connected to.
    ConnectFailed,
    /// The message could not be sent or written in full.
    SendFailed,
}

/// How far an attempt has come: the operation that is under way, or the
/// result.
#[derive(Debug, PartialEq, Eq, Clone, Copy, Structural)]
pub enum Stage {
    /// The local socket is being bound.
    Binding,
    /// The collector is being connected to.
    Connecting,
    /// The message is being sent.
    Sending,
    /// The attempt is over.
    Done(DispatchResult),
}

/// What the caller is to do next, as contracts speak of it.
pub enum SpecAction {
    Bind(Seq<char>),
    Connect(Seq<char>),
    Send,
    Stop(DispatchResult),
}

/// What the caller is to do next.
#[derive(Debug, Clone, PartialEq, Eq)]
pub enum Action {
    /// Bind a datagram socket to this local address and port.
    Bind(String),
    /// Connect to the collector at this address and port: the bound socket
    /// over datagrams, a new connection over a stream.
    Connect(String),
    /// Send the message: as one datagram, or written in full to the stream.
    Send,
    /// Stop, with this result.
    Stop(DispatchResult),
}

impl View for Action {
    type V = SpecAction;

    open spec fn view(&self) -> SpecAction {
        match self {
            Action::Bind(local) => SpecAction::Bind(local@),
            Action::Connect(remote) => SpecAction::Connect(remote@),
            Action::Send => SpecAction::Send,
            Action::Stop(result) => SpecAction::Stop(*result),
        }
    }
}

/// An address and a port as one socket address.
pub open spec fn endpoint_text(ip: Seq<char>, port: Seq<char>) -> Seq<char> {
    ip + ":"@ + port
}

/// The stage that an attempt starts in: datagrams need a bound socket, a
/// stream connects at once.
pub open spec fn first_stage(proto: Proto) -> Stage {
    match proto {
        Proto::Udp => Stage::Binding,
        Proto::Tcp => Stage::Connecting,
    }
}

/// The stage that follows `stage` once its operation has succeeded or
/// failed.
pub open spec fn next_stage(stage: Stage, succeeded: bool) -> Stage {
    match stage {
        Stage::Binding => if succeeded {
            Stage::Connecting
        } else {
            Stage::Done(DispatchResult::BindFailed)
        },
        Stage::Connecting => if succeeded {
            Stage::Sending
        } else {
            Stage::Done(DispatchResult::ConnectFailed)
        },
        Stage::Sending => if succeeded {
            Stage::Done(DispatchResult::Sent)
        } else {
            Stage::Done(DispatchResult::SendFailed)
        },
        Stage::Done(result) => Stage::Done(result),
    }
}

/// What the caller is to do in `stage`.
pub open spec fn action_of(options: &LoggerOptions, stage: Stage) -> SpecAction {
    match stage {
        Stage::Binding => SpecAction::Bind(endpoint_text(options.local_ip@, options.local_port@)),
        Stage::Connecting => SpecAction::Connect(
            endpoint_text(options.syslog_ip@, options.syslog_port@),
        ),
        Stage::Sending => SpecAction::Send,
        Stage::Done(result) => SpecAction::Stop(result),
    }
}

/// The stage that an attempt ends in, given how each operation would go.
pub open spec fn final_stage(proto: Proto, bind: bool, connect: bool, send: bool) -> Stage {
    match first_stage(proto) {
        Stage::Binding => next_stage(
            next_stage(next_stage(Stage::Binding, bind), connect),
            send,
        ),
        first => next_stage(next_stage(first, connect), send),
    }
}

/// An address and a port as one socket address.
pub fn endpoint(ip: &str, port: &str) -> (text: String)
    ensures
        text@ == endpoint_text(ip@, port@),
{
    let mut text = ip.to_owned();
    text.append(":");
    text.append(port);
    text
}

/// What the caller is to do in `stage`.
fn action_in(options: &LoggerOptions, stage: Stage) -> (action: Action)
    ensures
        action@ == action_of(options, stage),
{
    match stage {
        Stage::Binding => Action::Bind(
            endpoint(options.local_ip.as_str(), options.local_port.as_str()),
        ),
        Stage::Connecting => Action::Connect(
            endpoint(options.syslog_ip.as_str(), options.syslog_port.as_str()),
        ),
        Stage::Sending => Action::Send,
        Stage::Done(result) => Action::Stop(result),
    }
}

/// Starts an attempt to send one message: gives the first stage and what
/// the caller is to do in it.
pub fn warning_start(options: &LoggerOptions) -> (first: (Stage, Action))
    ensures
        first.0 == first_stage(options.proto),
        first.1@ == action_of(options, first.0),
{
    let stage = match options.proto {
        Proto::Udp => Stage::Binding,
        Proto::Tcp => Stage::Connecting,
    };
    (stage, action_in(options, stage))
}

/// Goes on with an attempt: moves on from `stage`, whose operation
/// succeeded or failed as `succeeded` says, and gives the stage reached and
/// what the caller is to do in it.
pub fn warning(options: &LoggerOptions, stage: Stage, succeeded: bool) -> (next: (
    Stage,
    Action,
))
    ensures
        next.0 == next_stage(stage, succeeded),
        next.1@ == action_of(options, next.0),
{
    let reached = match stage {
        Stage::Binding => {
            if succeeded {
                Stage::Connecting
            } else {
                Stage::Done(DispatchResult::BindFailed)
            }
        },
        Stage::Connecting => {
            if succeeded {
                Stage::Sending
            } else {
                Stage::Done(DispatchResult::ConnectFailed)
            }
        },
        Stage::Sending => {
            if succeeded {
                Stage::Done(DispatchResult::Sent)
            } else {
                Stage::Done(DispatchResult::SendFailed)
            }
        },
        Stage::Done(result) => Stage::Done(result),
    };
    (reached, action_in(options, reached))
}

/// A failed operation ends the attempt at once and names itself in the
/// result; nothing is tried again.
pub proof fn lemma_failure_ends_attempt(stage: Stage)
    requires
        !(stage is Done),
    ensures
        next_stage(stage, false) is Done,
        next_stage(stage, false) != Stage::Done(DispatchResult::Sent),
        stage == Stage::Binding ==> next_stage(stage, false) == Stage::Done(
            DispatchResult::BindFailed,
        ),
        stage == Stage::Connecting ==> next_stage(stage, false) == Stage::Done(
            DispatchResult::ConnectFailed,
        ),
        stage == Stage::Sending ==> next_stage(stage, false) == Stage::Done(
            DispatchResult::SendFailed,
        ),
{
}

/// An attempt that is over stays over, with its result.
pub proof fn lemma_done_is_final(result: DispatchResult, succeeded: bool)
    ensures
        next_stage(Stage::Done(result), succeeded) == Stage::Done(result),
{
}

/// Every attempt ends: after three operations at most over datagrams, two
/// over a stream. It ends in `Sent` exactly if every operation succeeded,
/// and else in the failure of the first operation that failed. Only
/// datagrams bind.
pub proof fn lemma_attempt_ends(proto: Proto, bind: bool, connect: bool, send: bool)
    ensures
        final_stage(proto, bind, connect, send) == Stage::Done(
            if proto == Proto::Udp && !bind {
                DispatchResult::BindFailed
            } else if !connect {
                DispatchResult::ConnectFailed
            } else if !send {
                DispatchResult::SendFailed
            } else {
                DispatchResult::Sent
            },
        ),
{
}

} // verus!
