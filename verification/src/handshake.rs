use vstd::prelude::*;
use crate::decode::{decode, spec_decode};
use crate::duel::ClientMessage;

verus! {

// ---------------------------------------------------------------------------
// The handshake of a new connection: the client's name and room password, taken from
// its first messages.
// ---------------------------------------------------------------------------

/// Who a new connection is and which room it asks for.
#[derive(Clone, Debug)]
pub struct Handshake {
    pub name: String,
    pub pass: String,
}

/// Most frames read before the handshake must be complete.
pub const HANDSHAKE_FRAMES: u8 = 8;

/// The frame type of YGOPro3's external-address packet, which carries only the client's
/// address and is skipped.
pub const EXTERNAL_ADDRESS: u8 = 0x17;

/// A handshake in progress: the messages read so far and the name and password seen.
pub struct HandshakeState {
    pub frames: u8,
    pub messages: Vec<ClientMessage>,
    pub name: Option<String>,
    pub pass: Option<String>,
}

/// Why a handshake failed.
#[derive(Clone, Copy, Debug, PartialEq, Eq, Structural)]
pub enum HandshakeError {
    /// The connection closed first.
    Closed,
    /// A frame is not a message the server reads; its type byte, if any.
    Undecodable(Option<u8>),
    /// Eight frames came without both a name and a join request.
    Incomplete,
}

/// The outcome of one frame.
pub enum HandshakeStep {
    /// Read another frame.
    More,
    /// Done: the handshake and every message read, in order.
    Done(Handshake, Vec<ClientMessage>),
    Failed(HandshakeError),
}

/// What one frame does to a handshake in progress (see `HandshakeState::step`): `frame` is
/// `None` when the connection closed, else the frame's first byte, if any, and its message
/// when it decodes to one.
pub open spec fn stepped(
    before: HandshakeState,
    after: HandshakeState,
    frame: Option<(Option<u8>, Option<ClientMessage>)>,
    res: HandshakeStep,
) -> bool {
    &&& after.frames == before.frames + 1
    &&& frame is None ==> res == HandshakeStep::Failed(HandshakeError::Closed)
    &&& frame matches Some((first, message)) ==> {
        if first == Some(EXTERNAL_ADDRESS) {
            &&& after.messages@ == before.messages@
            &&& after.name == before.name
            &&& after.pass == before.pass
            &&& if after.frames < HANDSHAKE_FRAMES { res is More } else {
                res == HandshakeStep::Failed(HandshakeError::Incomplete)
            }
        } else {
            match message {
                None => res == HandshakeStep::Failed(HandshakeError::Undecodable(first)),
                Some(m) => {
                    let name = match m {
                        ClientMessage::PlayerInfo { name } => Some(name),
                        _ => before.name,
                    };
                    let pass = match m {
                        ClientMessage::JoinGame { pass, .. } => Some(pass),
                        _ => before.pass,
                    };
                    &&& after.name == name
                    &&& after.pass == pass
                    &&& match (name, pass) {
                        (Some(name), Some(pass)) => {
                            &&& res matches HandshakeStep::Done(h, messages)
                            &&& h.name == name && h.pass == pass && messages@ == before.messages@.push(m)
                        },
                        _ => {
                            &&& after.messages@ == before.messages@.push(m)
                            &&& if after.frames < HANDSHAKE_FRAMES { res is More } else {
                                res == HandshakeStep::Failed(HandshakeError::Incomplete)
                            }
                        },
                    }
                },
            }
        }
    }
}

/// The frame as `step` takes it: its first byte, if any, and its message (see
/// `spec_decode`).
pub open spec fn read_as(frame: Option<Seq<u8>>) -> Option<(Option<u8>, Option<ClientMessage>)> {
    match frame {
        None => None,
        Some(f) => Some((if f.len() > 0 { Some(f[0]) } else { None }, spec_decode(f))),
    }
}

impl HandshakeState {
    /// Nothing read yet.
    pub fn new() -> (s: HandshakeState)
        ensures
            s.frames == 0,
            s.messages@.len() == 0,
            s.name is None,
            s.pass is None,
    {
        HandshakeState { frames: 0, messages: Vec::new(), name: None, pass: None }
    }

    /// Takes the next frame of the connection: `None` when it closed; else the frame's
    /// first byte, if any, and its message when it decodes to one. External-address frames
    /// are skipped; the latest name and password are kept; the handshake is done once both
    /// were seen, and fails after eight frames without them.
    pub fn step(&mut self, frame: Option<(Option<u8>, Option<ClientMessage>)>) -> (res: HandshakeStep)
        requires
            old(self).frames < HANDSHAKE_FRAMES,
        ensures
            stepped(*old(self), *final(self), frame, res),
    {
        self.frames = self.frames + 1;
        let (first, message) = match frame {
            None => {
                return HandshakeStep::Failed(HandshakeError::Closed);
            },
            Some(f) => f,
        };
        if first == Some(EXTERNAL_ADDRESS) {
            if self.frames < HANDSHAKE_FRAMES {
                return HandshakeStep::More;
            }
            return HandshakeStep::Failed(HandshakeError::Incomplete);
        }
        let m = match message {
            None => {
                return HandshakeStep::Failed(HandshakeError::Undecodable(first));
            },
            Some(m) => m,
        };
        match &m {
            ClientMessage::PlayerInfo { name } => {
                self.name = Some(name.clone());
            },
            ClientMessage::JoinGame { pass, .. } => {
                self.pass = Some(pass.clone());
            },
            _ => {},
        }
        self.messages.push(m);
        match (&self.name, &self.pass) {
            (Some(name), Some(pass)) => {
                let mut messages: Vec<ClientMessage> = Vec::new();
                std::mem::swap(&mut messages, &mut self.messages);
                let done = HandshakeStep::Done(Handshake { name: name.clone(), pass: pass.clone() }, messages);
                self.messages = Vec::new();
                return done;
            },
            _ => {},
        }
        if self.frames < HANDSHAKE_FRAMES {
            HandshakeStep::More
        } else {
            HandshakeStep::Failed(HandshakeError::Incomplete)
        }
    }
}

impl HandshakeState {
    /// Takes the next frame of the connection, `None` when it closed; the frame is read
    /// with `decode` (see `step`).
    pub fn step_frame(&mut self, frame: Option<Vec<u8>>) -> (res: HandshakeStep)
        requires
            old(self).frames < HANDSHAKE_FRAMES,
        ensures
            stepped(
                *old(self),
                *final(self),
                read_as(
                    match frame {
                        Some(f) => Some(f@),
                        None => None,
                    },
                ),
                res,
            ),
    {
        match frame {
            None => self.step(None),
            Some(f) => {
                let first = if f.len() > 0 { Some(f[0]) } else { None };
                let message = decode(f.as_slice());
                self.step(Some((first, message)))
            },
        }
    }
}

/// The client version of the connection: that of its first join request.
pub open spec fn spec_version(initial: Seq<ClientMessage>) -> Option<u16>
    decreases initial.len(),
{
    if initial.len() == 0 {
        None
    } else {
        match initial[0] {
            ClientMessage::JoinGame { version, .. } => Some(version),
            _ => spec_version(initial.drop_first()),
        }
    }
}

/// The client version a connection's first messages give (see `spec_version`).
pub fn version(initial: &Vec<ClientMessage>) -> (res: Option<u16>)
    ensures
        res == spec_version(initial@),
{
    let mut i: usize = 0;
    assert(initial@.skip(0) =~= initial@);
    while i < initial.len()
        invariant
            i <= initial@.len(),
            spec_version(initial@) == spec_version(initial@.skip(i as int)),
        decreases initial@.len() - i,
    {
        assert(initial@.skip(i as int).drop_first() =~= initial@.skip(i + 1));
        match &initial[i] {
            ClientMessage::JoinGame { version, .. } => {
                return Some(*version);
            },
            _ => {},
        }
        i = i + 1;
    }
    None
}

} // verus!
