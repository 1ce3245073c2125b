//! The data model of the relay: client identifiers, message payloads, and the
//! addressing rules that decide whether a submitted message is accepted.

use vstd::prelude::*;

verus! {

/// Opaque identifier for one connected client. The transport layer derives it
/// from whatever identity mechanism it uses; the relay only compares ids.
#[derive(Clone, Copy, Debug, PartialEq, Eq, Structural)]
pub struct ClientId {
    pub value: u128,
}

/// The reserved sender stamped on server-generated greetings.
pub open spec fn server_id() -> ClientId {
    ClientId { value: 0 }
}

impl ClientId {
    /// The reserved sender used for server-generated greetings.
    pub fn server() -> (r: ClientId)
        ensures
            r == server_id(),
    {
        ClientId { value: 0 }
    }
}

/// The payload of a message. `Welcome` is only ever generated by the server;
/// `NewCamera` and `CameraDiscovery` are broadcast-only announcements; the
/// remaining variants are directed negotiation messages.
#[derive(Debug, PartialEq, Eq)]
pub enum Payload {
    Welcome,
    NewCamera,
    CameraDiscovery,
    CameraPing,
    CallInit,
    SDP { description: String },
    ICE { i: u32, candidate: String },
}

impl Clone for Payload {
    fn clone(&self) -> (r: Self)
        ensures
            r == *self,
    {
        match self {
            Payload::Welcome => Payload::Welcome,
            Payload::NewCamera => Payload::NewCamera,
            Payload::CameraDiscovery => Payload::CameraDiscovery,
            Payload::CameraPing => Payload::CameraPing,
            Payload::CallInit => Payload::CallInit,
            Payload::SDP { description } => Payload::SDP { description: description.clone() },
            Payload::ICE { i, candidate } => Payload::ICE {
                i: *i,
                candidate: candidate.clone(),
            },
        }
    }
}

/// True of the payloads that announce to every client at once.
pub open spec fn broadcast_class(p: Payload) -> bool {
    match p {
        Payload::NewCamera => true,
        Payload::CameraDiscovery => true,
        _ => false,
    }
}

/// True of the payloads that negotiate with exactly one peer.
pub open spec fn directed_class(p: Payload) -> bool {
    match p {
        Payload::CameraPing => true,
        Payload::CallInit => true,
        Payload::SDP { .. } => true,
        Payload::ICE { .. } => true,
        _ => false,
    }
}

/// A message as submitted by a client; the sender is supplied separately by
/// the identity layer. `recipient == None` requests a broadcast.
#[derive(Debug)]
pub struct IncomingMessage {
    pub recipient: Option<ClientId>,
    pub payload: Payload,
}

/// A validated message as routed internally, stamped with its sender.
#[derive(Debug)]
pub struct Message {
    pub sender: ClientId,
    pub recipient: Option<ClientId>,
    pub payload: Payload,
}

impl Clone for Message {
    fn clone(&self) -> (r: Self)
        ensures
            r == *self,
    {
        Message {
            sender: self.sender,
            recipient: self.recipient,
            payload: self.payload.clone(),
        }
    }
}

/// The wire shape a session hands to its client: the recipient is never
/// exposed.
#[derive(Debug, PartialEq, Eq)]
pub struct OutgoingMessage {
    pub sender: ClientId,
    pub payload: Payload,
}

/// Why a submitted message was turned away.
#[derive(Clone, Copy, Debug, PartialEq, Eq, Structural)]
pub enum RejectionReason {
    /// A directed-only payload arrived without a recipient.
    MalformedDirected,
    /// A broadcast-only payload arrived with a recipient.
    MalformedBroadcast,
    /// A directed payload was addressed to its own sender.
    SelfAddressed,
}

/// The addressing rule each submission is validated against:
/// broadcast-only payloads must not carry a recipient, directed-only payloads
/// must carry one other than the sender, and a `Welcome` is accepted (and
/// later dropped) regardless of addressing.
pub open spec fn validate_spec(
    recipient: Option<ClientId>,
    payload: Payload,
    sender: ClientId,
) -> Result<(), RejectionReason> {
    if broadcast_class(payload) {
        match recipient {
            Some(_) => Err(RejectionReason::MalformedBroadcast),
            None => Ok(()),
        }
    } else if directed_class(payload) {
        match recipient {
            None => Err(RejectionReason::MalformedDirected),
            Some(r) => if r == sender {
                Err(RejectionReason::SelfAddressed)
            } else {
                Ok(())
            },
        }
    } else {
        Ok(())
    }
}

/// Checks a submission against the addressing rule.
pub fn validate(incoming: &IncomingMessage, sender: ClientId) -> (r: Result<(), RejectionReason>)
    ensures
        r == validate_spec(incoming.recipient, incoming.payload, sender),
{
    if is_broadcast_class(&incoming.payload) {
        match incoming.recipient {
            Some(_) => Err(RejectionReason::MalformedBroadcast),
            None => Ok(()),
        }
    } else if is_directed_class(&incoming.payload) {
        match incoming.recipient {
            None => Err(RejectionReason::MalformedDirected),
            Some(r) => if r == sender {
                Err(RejectionReason::SelfAddressed)
            } else {
                Ok(())
            },
        }
    } else {
        Ok(())
    }
}

/// Tells whether a payload is a broadcast-only announcement.
pub fn is_broadcast_class(p: &Payload) -> (r: bool)
    ensures
        r == broadcast_class(*p),
{
    match p {
        Payload::NewCamera => true,
        Payload::CameraDiscovery => true,
        _ => false,
    }
}

/// Tells whether a payload is a directed negotiation message.
pub fn is_directed_class(p: &Payload) -> (r: bool)
    ensures
        r == directed_class(*p),
{
    match p {
        Payload::CameraPing => true,
        Payload::CallInit => true,
        Payload::SDP { .. } => true,
        Payload::ICE { .. } => true,
        _ => false,
    }
}

} // verus!
