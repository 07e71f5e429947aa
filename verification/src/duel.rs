use vstd::prelude::*;
use crate::deck::Deck;

verus! {

/// How a room plays: one duel, a match of several duels, or two-against-two.
#[derive(Clone, Copy, Debug, PartialEq, Eq, Structural)]
pub enum Mode {
    Single,
    Match,
    Tag,
}

/// The number a mode carries on the wire.
pub open spec fn spec_mode_number(mode: Mode) -> u8 {
    match mode {
        Mode::Single => 0,
        Mode::Match => 1,
        Mode::Tag => 2,
    }
}

impl Mode {
    /// The number a mode carries on the wire (`mode as u8`).
    pub fn number(&self) -> (n: u8)
        ensures
            n == spec_mode_number(*self),
    {
        match self {
            Mode::Single => 0,
            Mode::Match => 1,
            Mode::Tag => 2,
        }
    }
}

/// The rules a room is created with.
#[derive(Clone, Copy, Debug, PartialEq, Eq, Structural)]
pub struct HostInfo {
    pub lflist: u32,
    pub rule: u8,
    pub mode: Mode,
    pub duel_rule: u8,
    pub no_check_deck: bool,
    pub no_shuffle_deck: bool,
    pub start_lp: u32,
    pub start_hand: u8,
    pub draw_count: u8,
    pub time_limit: u16,
}

/// The rules a room gets when its password asks for nothing else.
pub open spec fn default_host_info() -> HostInfo {
    HostInfo {
        lflist: 0,
        rule: 0,
        mode: Mode::Single,
        duel_rule: 5,
        no_check_deck: false,
        no_shuffle_deck: false,
        start_lp: 8000,
        start_hand: 5,
        draw_count: 1,
        time_limit: 180,
    }
}

impl HostInfo {
    /// The rules a room gets when its password asks for nothing else.
    pub fn new() -> (info: HostInfo)
        ensures
            info == default_host_info(),
    {
        HostInfo {
            lflist: 0,
            rule: 0,
            mode: Mode::Single,
            duel_rule: 5,
            no_check_deck: false,
            no_shuffle_deck: false,
            start_lp: 8000,
            start_hand: 5,
            draw_count: 1,
            time_limit: 180,
        }
    }
}

/// Where a connection sits in a room.
#[derive(Clone, Copy, Debug, PartialEq, Eq, Structural)]
pub enum Netplayer {
    /// A duelist seat.
    Player(u8),
    /// A spectator slot.
    Observer(u8),
    /// Joined the engine, seat not yet decided.
    Undecided(u8),
    /// Not placed anywhere.
    Unknown,
}

/// The phases of a room; later phases compare greater.
#[derive(Clone, Copy, Debug, PartialEq, Eq, Structural)]
pub enum DuelStage {
    /// Waiting for duelists to get ready.
    Begin,
    /// Rock-paper-scissors.
    Finger,
    /// Choosing who goes first.
    Firstgo,
    /// A duel is running.
    Dueling,
    /// Between duels of a match, decks may be sided.
    Siding,
    /// The room is over.
    End,
}

/// The position of a stage in the order of a room's life.
pub open spec fn stage_rank(stage: DuelStage) -> int {
    match stage {
        DuelStage::Begin => 0,
        DuelStage::Finger => 1,
        DuelStage::Firstgo => 2,
        DuelStage::Dueling => 3,
        DuelStage::Siding => 4,
        DuelStage::End => 5,
    }
}

/// A side in the duel core: the player who went first or second.
#[derive(Clone, Copy, Debug, PartialEq, Eq, Structural)]
pub enum CorePlayer {
    FirstAttackPlayer,
    SecondAttackPlayer,
    /// Neither side (a draw).
    Neither,
}


/// A message from a client, as far as the server's logic reads it.
#[derive(Clone, Debug)]
pub enum ClientMessage {
    CreateGame,
    PlayerInfo { name: String },
    JoinGame { version: u16, pass: String },
    Chat { msg: String },
    UpdateDeck { deck: Deck },
    HsReady,
    HsNotReady,
    HsKick { pos: Netplayer },
    HsToObserver,
    HsToDuelist,
    HsStart,
    LeaveGame,
    /// Any other message; the server passes it to the engine untouched.
    Other,
}

/// How a duel was won.
#[derive(Clone, Copy, Debug, PartialEq, Eq, Structural)]
pub struct Win {
    /// The winning core player (0 went first, 1 went second).
    pub player: u8,
    /// The reason code of the win.
    pub reason: u8,
}

/// A message from the engine to a client, as far as the server's logic reads it.
#[derive(Clone, Copy, Debug, PartialEq, Eq, Structural)]
pub enum ServerMessage {
    JoinGame,
    TypeChange { player: Netplayer, host: bool },
    /// The game message that starts a duel; `player_type` tells which side the receiver
    /// plays (0 first, 1 second, other values for spectators).
    GameStart { player_type: u8 },
    /// The game message that ends a duel.
    GameWin { win: Win },
    FieldFinish,
    DuelEnd,
    LeaveGame { pos: Netplayer },
    ErrorMessage,
    /// Any other message.
    Other,
}

} // verus!
