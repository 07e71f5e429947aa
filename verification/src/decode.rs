use vstd::prelude::*;
use ygopro_data::complex::Complex;
use ygopro_data::message::ctos;
use crate::deck::Deck;
use crate::duel::{ClientMessage, Netplayer};

verus! {

// ---------------------------------------------------------------------------
// Reading a client's frame: the wire format is `ygopro_data`'s; the server reads the
// few messages it decides on and sees the rest as `Other`.
// ---------------------------------------------------------------------------

/// The parts of a client message the server reads: the payload of the messages that
/// carry one it uses, else the message's type byte.
#[derive(Clone, Debug)]
pub enum Wire {
    /// A message read only by its type byte.
    Tag(u8),
    PlayerInfo(String),
    /// The client version and the room password.
    JoinGame(u16, String),
    Chat(String),
    /// Main, extra and side deck.
    UpdateDeck(Vec<u32>, Vec<u32>, Vec<u32>),
    /// The position byte of the seat to kick.
    HsKick(u8),
}

/// What `binrw` reads from a frame as `ygopro_data`'s client-to-server message, taken
/// apart as `Wire`; `None` where the read fails.
pub uninterp spec fn wire_parts(frame: Seq<u8>) -> Option<Wire>;

/// Reads a frame as `ygopro_data::message::ctos::Message` (`Complex::into_inner`, which
/// reads with `binrw`, little endian) and takes the message apart. The result is named by
/// `wire_parts`.
#[verifier::external_body]
fn read_frame(frame: &[u8]) -> (res: Option<Wire>)
    ensures
        res == wire_parts(frame@),
{
    let m: ctos::Message = Complex::<ctos::Message>::new(frame.to_vec().into()).into_inner()?;
    Some(match m {
        ctos::Message::PlayerInfo(v) => Wire::PlayerInfo(v.name.to_string()),
        ctos::Message::JoinGame(v) => Wire::JoinGame(v.version, v.pass.to_string()),
        ctos::Message::Chat(v) => Wire::Chat((*v.msg).to_owned()),
        ctos::Message::UpdateDeck(v) => Wire::UpdateDeck(v.deck.main, v.deck.extra, v.deck.side),
        ctos::Message::HsKick(v) => Wire::HsKick(u8::from(v.pos)),
        _ => Wire::Tag(frame[0]),
    })
}

/// A position byte as the wire reads it: seats 0 to 6, 7 for a spectator, anything else
/// unknown.
pub open spec fn position(b: u8) -> Netplayer {
    if b <= 6 {
        Netplayer::Player(b)
    } else if b == 7 {
        Netplayer::Observer(255)
    } else {
        Netplayer::Unknown
    }
}

/// The message a type byte stands for, among those the server reads by type alone.
pub open spec fn tagged(flag: u8) -> ClientMessage {
    if flag == 17 {
        ClientMessage::CreateGame
    } else if flag == 19 {
        ClientMessage::LeaveGame
    } else if flag == 32 {
        ClientMessage::HsToDuelist
    } else if flag == 33 {
        ClientMessage::HsToObserver
    } else if flag == 34 {
        ClientMessage::HsReady
    } else if flag == 35 {
        ClientMessage::HsNotReady
    } else if flag == 37 {
        ClientMessage::HsStart
    } else {
        ClientMessage::Other
    }
}

/// The server's view of a message's parts.
pub open spec fn message_of(w: Wire) -> ClientMessage {
    match w {
        Wire::Tag(flag) => tagged(flag),
        Wire::PlayerInfo(name) => ClientMessage::PlayerInfo { name },
        Wire::JoinGame(version, pass) => ClientMessage::JoinGame { version, pass },
        Wire::Chat(msg) => ClientMessage::Chat { msg },
        Wire::UpdateDeck(main, extra, side) => ClientMessage::UpdateDeck { deck: Deck { main, extra, side } },
        Wire::HsKick(b) => ClientMessage::HsKick { pos: position(b) },
    }
}

/// The message of a frame, as the server reads it (see `message_of`); `None` where the
/// frame is no client message.
pub open spec fn spec_decode(frame: Seq<u8>) -> Option<ClientMessage> {
    match wire_parts(frame) {
        Some(w) => Some(message_of(w)),
        None => None,
    }
}

fn position_of(b: u8) -> (res: Netplayer)
    ensures
        res == position(b),
{
    if b <= 6 {
        Netplayer::Player(b)
    } else if b == 7 {
        Netplayer::Observer(255)
    } else {
        Netplayer::Unknown
    }
}

fn tag_of(flag: u8) -> (res: ClientMessage)
    ensures
        res == tagged(flag),
{
    if flag == 17 {
        ClientMessage::CreateGame
    } else if flag == 19 {
        ClientMessage::LeaveGame
    } else if flag == 32 {
        ClientMessage::HsToDuelist
    } else if flag == 33 {
        ClientMessage::HsToObserver
    } else if flag == 34 {
        ClientMessage::HsReady
    } else if flag == 35 {
        ClientMessage::HsNotReady
    } else if flag == 37 {
        ClientMessage::HsStart
    } else {
        ClientMessage::Other
    }
}

/// Reads a client's frame (see `spec_decode`).
pub fn decode(frame: &[u8]) -> (res: Option<ClientMessage>)
    ensures
        res == spec_decode(frame@),
{
    match read_frame(frame) {
        None => None,
        Some(w) => Some(
            match w {
                Wire::Tag(flag) => tag_of(flag),
                Wire::PlayerInfo(name) => ClientMessage::PlayerInfo { name },
                Wire::JoinGame(version, pass) => ClientMessage::JoinGame { version, pass },
                Wire::Chat(msg) => ClientMessage::Chat { msg },
                Wire::UpdateDeck(main, extra, side) => ClientMessage::UpdateDeck { deck: Deck { main, extra, side } },
                Wire::HsKick(b) => ClientMessage::HsKick { pos: position_of(b) },
            },
        ),
    }
}

} // verus!
