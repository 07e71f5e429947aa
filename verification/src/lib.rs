//! Verified core of a YGOPro duel room server: wire framing, the UDP heartbeat,
//! room passwords, the room list, room records, seating, chat splitting,
//! tournament admission and scoring, cloud replays and WindBot requests.
//!
//! The network transports, the duel engine and the database stay with the
//! application; this crate holds the decisions that they act on.

pub mod text;
pub mod transport;
pub mod heartbeat;
pub mod deck;
pub mod duel;
pub mod password;
pub mod tournament;
pub mod history;
pub mod rooms;
pub mod room;
pub mod bot;
pub mod session;
pub mod messages;
pub mod seating;
pub mod windbot;
pub mod replay;
pub mod forge;
pub mod server;
pub mod recorder;
pub mod decode;
pub mod handshake;
pub mod match_room;
pub mod api;
pub mod bridge;
pub mod control;
