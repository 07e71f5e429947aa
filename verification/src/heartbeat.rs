use vstd::prelude::*;

verus! {

/// Opcode of a client ping (the single byte of the message body).
pub const CTOS_PING: u8 = 0xF0;
/// Opcode of a client pong.
pub const CTOS_PONG: u8 = 0xF1;
/// Opcode of a server ping.
pub const STOC_PING: u8 = 0xF0;
/// Opcode of a server pong.
pub const STOC_PONG: u8 = 0xF1;
/// Pause after a completed exchange before the next server ping, in milliseconds.
pub const INTERVAL_MS: u64 = 5000;
/// Time the client has to answer a server ping, in milliseconds.
pub const RESPONSE_TIMEOUT_MS: u64 = 5000;
/// Time the client has to send its own ping after answering ours, in milliseconds.
pub const CLIENT_PING_TIMEOUT_MS: u64 = 20000;

/// Where a UDP heartbeat exchange stands.
#[derive(Clone, Copy, Debug, PartialEq, Eq, Structural)]
pub enum Phase {
    /// A server ping was sent; the client's pong is due.
    WaitPong,
    /// The client answered; its own ping is due.
    WaitPing,
    /// The exchange completed; the next server ping goes out at the deadline.
    SendPing,
}

/// Why a heartbeat ended the connection.
#[derive(Clone, Copy, Debug, PartialEq, Eq, Structural)]
pub enum HeartbeatError {
    /// A heartbeat message carried bytes besides its opcode.
    ExtraData,
    /// The deadline passed without the client's pong.
    PongTimeout,
    /// The deadline passed without the client's ping.
    PingTimeout,
}

/// What a received frame means for the connection.
#[derive(Clone, Debug, PartialEq, Eq)]
pub enum Received {
    /// The frame is not a heartbeat; it belongs to the game protocol.
    Other,
    /// The frame was a heartbeat; `reply`, when present, is to be sent back.
    Heartbeat { reply: Option<Vec<u8>> },
}

/// The heartbeat of one UDP session; deadlines are milliseconds on the caller's clock.
#[derive(Clone, Copy, Debug, PartialEq, Eq, Structural)]
pub struct Heartbeat {
    pub phase: Phase,
    pub deadline: u64,
}

/// Largest clock value at which every deadline still fits in a `u64`.
pub open spec fn clock_ok(now: u64) -> bool {
    now as int + CLIENT_PING_TIMEOUT_MS as int <= u64::MAX as int
}

/// The phase after a pong arrives: only an awaited pong advances the exchange.
pub open spec fn after_pong(phase: Phase) -> Phase {
    if phase == Phase::WaitPong { Phase::WaitPing } else { phase }
}

/// The phase after a ping arrives: only an awaited ping completes the exchange.
pub open spec fn after_ping(phase: Phase) -> Phase {
    if phase == Phase::WaitPing { Phase::SendPing } else { phase }
}

impl Heartbeat {
    /// Opens the exchange: the returned frame is the first server ping.
    pub fn start(now: u64) -> (res: (Heartbeat, Vec<u8>))
        requires
            clock_ok(now),
        ensures
            res.0.phase == Phase::WaitPong,
            res.0.deadline == now + RESPONSE_TIMEOUT_MS,
            res.1@ == seq![STOC_PING],
    {
        (Heartbeat { phase: Phase::WaitPong, deadline: now + RESPONSE_TIMEOUT_MS }, vec![STOC_PING])
    }

    /// Handles one frame from the client. A pong only counts while one is awaited and a
    /// ping is always answered, so repeated or reordered heartbeats never extend a deadline.
    pub fn receive(&mut self, frame: &[u8], now: u64) -> (res: Result<Received, HeartbeatError>)
        requires
            clock_ok(now),
        ensures
            frame@.len() == 0 || (frame@[0] != CTOS_PING && frame@[0] != CTOS_PONG) ==> {
                &&& res == Ok::<Received, HeartbeatError>(Received::Other)
                &&& *final(self) == *old(self)
            },
            frame@.len() > 1 && (frame@[0] == CTOS_PING || frame@[0] == CTOS_PONG) ==> {
                &&& res == Err::<Received, HeartbeatError>(HeartbeatError::ExtraData)
                &&& *final(self) == *old(self)
            },
            frame@ == seq![CTOS_PONG] ==> {
                &&& res == Ok::<Received, HeartbeatError>(Received::Heartbeat { reply: None })
                &&& final(self).phase == after_pong(old(self).phase)
                &&& final(self).deadline == if old(self).phase == Phase::WaitPong {
                    now + CLIENT_PING_TIMEOUT_MS
                } else {
                    old(self).deadline as int
                }
            },
            frame@ == seq![CTOS_PING] ==> {
                &&& res matches Ok(Received::Heartbeat { reply: Some(reply) })
                &&& reply@ == seq![STOC_PONG]
                &&& final(self).phase == after_ping(old(self).phase)
                &&& final(self).deadline == if old(self).phase == Phase::WaitPing {
                    now + INTERVAL_MS
                } else {
                    old(self).deadline as int
                }
            },
    {
        if frame.len() == 0 {
            return Ok(Received::Other);
        }
        let opcode = frame[0];
        if opcode != CTOS_PING && opcode != CTOS_PONG {
            return Ok(Received::Other);
        }
        if frame.len() != 1 {
            return Err(HeartbeatError::ExtraData);
        }
        proof {
            if opcode == CTOS_PING {
                assert(frame@ == seq![CTOS_PING]);
            } else {
                assert(frame@ == seq![CTOS_PONG]);
            }
        }
        if opcode == CTOS_PONG {
            if self.phase == Phase::WaitPong {
                self.phase = Phase::WaitPing;
                self.deadline = now + CLIENT_PING_TIMEOUT_MS;
            }
            Ok(Received::Heartbeat { reply: None })
        } else {
            if self.phase == Phase::WaitPing {
                self.phase = Phase::SendPing;
                self.deadline = now + INTERVAL_MS;
            }
            Ok(Received::Heartbeat { reply: Some(vec![STOC_PONG]) })
        }
    }

    /// Called when the deadline passes: either the next server ping goes out, or the
    /// awaited message never came and the session ends.
    pub fn tick(&mut self, now: u64) -> (res: Result<Vec<u8>, HeartbeatError>)
        requires
            clock_ok(now),
        ensures
            old(self).phase == Phase::SendPing ==> {
                &&& res matches Ok(ping)
                &&& ping@ == seq![STOC_PING]
                &&& final(self).phase == Phase::WaitPong
                &&& final(self).deadline == now + RESPONSE_TIMEOUT_MS
            },
            old(self).phase == Phase::WaitPong ==> res == Err::<Vec<u8>, HeartbeatError>(
                HeartbeatError::PongTimeout,
            ) && *final(self) == *old(self),
            old(self).phase == Phase::WaitPing ==> res == Err::<Vec<u8>, HeartbeatError>(
                HeartbeatError::PingTimeout,
            ) && *final(self) == *old(self),
    {
        match self.phase {
            Phase::SendPing => {
                self.phase = Phase::WaitPong;
                self.deadline = now + RESPONSE_TIMEOUT_MS;
                Ok(vec![STOC_PING])
            },
            Phase::WaitPong => Err(HeartbeatError::PongTimeout),
            Phase::WaitPing => Err(HeartbeatError::PingTimeout),
        }
    }
}

/// A pong that is not awaited, or a ping that is not awaited, leaves the phase where it was:
/// only the exchange ping → pong → ping → pause moves the heartbeat forward.
pub proof fn lemma_unexpected_heartbeats_do_not_advance(phase: Phase)
    ensures
        phase != Phase::WaitPong ==> after_pong(phase) == phase,
        phase != Phase::WaitPing ==> after_ping(phase) == phase,
        after_ping(after_pong(Phase::WaitPong)) == Phase::SendPing,
        after_pong(after_pong(phase)) == after_pong(phase),
        after_ping(after_ping(phase)) == after_ping(phase),
{
}

} // verus!
