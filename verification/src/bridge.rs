use vstd::prelude::*;
use crate::duel::{ClientMessage, Netplayer, ServerMessage};

verus! {

// ---------------------------------------------------------------------------
// Between one client and the duel engine: the engine assigns the client an identity
// (JoinGame, then a seat); until then the client's other messages wait in order.
// ---------------------------------------------------------------------------

/// Most client messages held while the client is being seated.
pub const MAX_PENDING: usize = 64;

/// The state of one client's link to the engine.
pub struct Bridge {
    /// Where the engine placed the client.
    pub position: Netplayer,
    /// The client's join request went to the engine.
    pub join_sent: bool,
    /// The engine answered with JoinGame.
    pub join_received: bool,
    /// The engine gave the client a seat or a spectator slot.
    pub type_received: bool,
    /// The client is gone.
    pub disconnected: bool,
    /// The engine has stopped.
    pub ended: bool,
    /// Client messages waiting for the client to be seated, oldest first.
    pub pending: Vec<ClientMessage>,
}

/// What to do with a message of the engine.
#[derive(Clone, Copy, Debug, PartialEq, Eq, Structural)]
pub enum OutputAction {
    /// Pass it to the client.
    Forward,
    /// Pass it to the client, then end the link (the engine refused the client).
    ForwardAndStop,
    /// End the link without passing it (the client's own leave).
    Stop,
}

/// What to do with a message of the client.
pub enum InputAction {
    /// Send it to the engine.
    Forward(ClientMessage),
    /// Nothing more now (held, dropped, or the client is gone).
    Wait,
}

/// Both answers of the engine arrived: the client is seated.
pub open spec fn seated(b: Bridge) -> bool {
    b.join_received && b.type_received
}

impl Bridge {
    /// A link for a client the engine placed at `position`.
    pub fn new(position: Netplayer) -> (b: Bridge)
        ensures
            b.position == position,
            !b.join_sent && !b.join_received && !b.type_received && !b.disconnected && !b.ended,
            b.pending@.len() == 0,
    {
        Bridge {
            position,
            join_sent: false,
            join_received: false,
            type_received: false,
            disconnected: false,
            ended: false,
            pending: Vec::new(),
        }
    }

    /// Whether the client is seated.
    pub fn joined(&self) -> (res: bool)
        ensures
            res == seated(*self),
    {
        self.join_received && self.type_received
    }

    /// The link ends once the client is gone, unless its join request is still being
    /// answered.
    pub fn finished(&self) -> (res: bool)
        ensures
            res == (self.disconnected && (seated(*self) || !self.join_sent)),
    {
        self.disconnected && (self.joined() || !self.join_sent)
    }

    /// Takes a message of the engine: JoinGame and a seat or spectator slot mark the
    /// client seated (a seat change moves it); an error before that refuses the client;
    /// the leave of the client's own position ends the link.
    pub fn on_output(&mut self, message: &ServerMessage) -> (res: OutputAction)
        ensures
            final(self).pending == old(self).pending,
            final(self).join_sent == old(self).join_sent,
            final(self).disconnected == old(self).disconnected,
            final(self).ended == old(self).ended,
            match *message {
                ServerMessage::JoinGame => res == OutputAction::Forward && final(self).join_received
                    && final(self).type_received == old(self).type_received && final(self).position == old(self).position,
                ServerMessage::TypeChange { player, .. } => res == OutputAction::Forward && final(self).position == player
                    && final(self).type_received == (player is Player || player is Observer) && final(self).join_received
                    == old(self).join_received,
                ServerMessage::ErrorMessage => *final(self) == *old(self) && res == if seated(*old(self)) {
                    OutputAction::Forward
                } else {
                    OutputAction::ForwardAndStop
                },
                ServerMessage::LeaveGame { pos } => *final(self) == *old(self) && res == if pos == old(self).position {
                    OutputAction::Stop
                } else {
                    OutputAction::Forward
                },
                _ => *final(self) == *old(self) && res == OutputAction::Forward,
            },
    {
        match message {
            ServerMessage::JoinGame => {
                self.join_received = true;
                OutputAction::Forward
            },
            ServerMessage::TypeChange { player, .. } => {
                self.position = *player;
                self.type_received = match player {
                    Netplayer::Player(_) | Netplayer::Observer(_) => true,
                    _ => false,
                };
                OutputAction::Forward
            },
            ServerMessage::ErrorMessage => if self.joined() {
                OutputAction::Forward
            } else {
                OutputAction::ForwardAndStop
            },
            ServerMessage::LeaveGame { pos } => if *pos == self.position {
                OutputAction::Stop
            } else {
                OutputAction::Forward
            },
            _ => OutputAction::Forward,
        }
    }

    /// The client can no longer be written to: it is gone, and its held messages are
    /// dropped.
    pub fn client_gone(&mut self)
        ensures
            final(self).disconnected,
            final(self).pending@.len() == 0,
            *final(self) == (Bridge { disconnected: true, pending: final(self).pending, ..*old(self) }),
    {
        self.disconnected = true;
        self.pending = Vec::new();
    }

    /// The engine stopped: nothing more is sent to it.
    pub fn engine_ended(&mut self)
        ensures
            *final(self) == (Bridge { ended: true, ..*old(self) }),
    {
        self.ended = true;
    }

    /// The next held message to send to the engine, once the client is seated and the
    /// engine runs.
    pub fn next_pending(&mut self) -> (res: Option<ClientMessage>)
        ensures
            seated(*old(self)) && !old(self).ended && old(self).pending@.len() > 0 ==> res == Some(
                old(self).pending@[0],
            ) && final(self).pending@ == old(self).pending@.drop_first(),
            !(seated(*old(self)) && !old(self).ended && old(self).pending@.len() > 0) ==> res is None
                && final(self).pending == old(self).pending,
            *final(self) == (Bridge { pending: final(self).pending, ..*old(self) }),
    {
        if self.joined() && !self.ended && self.pending.len() > 0 {
            let m = self.pending.remove(0);
            Some(m)
        } else {
            None
        }
    }

    /// Takes a message of the client (`None` when its stream ended). Leaving or the end of
    /// the stream marks it gone; a second CreateGame, and a repeated handshake once the
    /// join went out, are dropped; before it is seated, and after that while held messages
    /// still wait, other messages wait behind them in order (at most 64; one more marks the
    /// client gone), so that held messages reach the engine before any later one; the
    /// rest go to the engine, a join request marking the join as sent. Nothing is taken
    /// once the client is gone or the engine stopped.
    pub fn on_input(&mut self, message: Option<ClientMessage>) -> (res: InputAction)
        requires
            !old(self).disconnected,
            !old(self).ended,
        ensures
            final(self).position == old(self).position,
            final(self).join_received == old(self).join_received,
            final(self).type_received == old(self).type_received,
            final(self).ended == old(self).ended,
            match message {
                None => res is Wait && final(self).disconnected && final(self).pending@.len() == 0
                    && final(self).join_sent == old(self).join_sent,
                Some(m) => {
                    let handshake = m is PlayerInfo || m is JoinGame;
                    if m is LeaveGame {
                        res is Wait && final(self).disconnected && final(self).pending@.len() == 0
                            && final(self).join_sent == old(self).join_sent
                    } else if m is CreateGame || (handshake && old(self).join_sent) {
                        res is Wait && *final(self) == *old(self)
                    } else if !handshake && (!seated(*old(self)) || old(self).pending@.len() > 0) {
                        if old(self).pending@.len() >= MAX_PENDING {
                            res is Wait && final(self).disconnected && final(self).pending@.len() == 0
                                && final(self).join_sent == old(self).join_sent
                        } else {
                            res is Wait && final(self).pending@ == old(self).pending@.push(m) && !final(self).disconnected
                                && final(self).join_sent == old(self).join_sent
                        }
                    } else {
                        res == InputAction::Forward(m) && final(self).pending == old(self).pending
                            && !final(self).disconnected && final(self).join_sent == (old(self).join_sent || m is JoinGame)
                    }
                },
            },
            res matches InputAction::Forward(f) ==> old(self).pending@.len() == 0 || f is PlayerInfo || f is JoinGame,
    {
        let m = match message {
            None => {
                self.client_gone();
                return InputAction::Wait;
            },
            Some(m) => m,
        };
        let (leave, create, handshake, join) = match &m {
            ClientMessage::LeaveGame => (true, false, false, false),
            ClientMessage::CreateGame => (false, true, false, false),
            ClientMessage::PlayerInfo { .. } => (false, false, true, false),
            ClientMessage::JoinGame { .. } => (false, false, true, true),
            _ => (false, false, false, false),
        };
        if leave {
            self.client_gone();
            return InputAction::Wait;
        }
        if create || (handshake && self.join_sent) {
            return InputAction::Wait;
        }
        if !handshake && (!self.joined() || self.pending.len() > 0) {
            if self.pending.len() >= MAX_PENDING {
                self.client_gone();
            } else {
                self.pending.push(m);
            }
            return InputAction::Wait;
        }
        if join {
            self.join_sent = true;
        }
        InputAction::Forward(m)
    }
}

} // verus!
