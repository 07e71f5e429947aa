use vstd::prelude::*;
use crate::duel::{ClientMessage, DuelStage, Netplayer};
use crate::room::{RoomRecord, PlayerRecord, accepted_deck, player_index};
use crate::text::{all_digits, chars_of, decimal, digits_value, is_digit, parse_digits, push_decimal, sub_chars};
use crate::tournament::Admission;

verus! {

// ---------------------------------------------------------------------------
// Tournament rooms: the bracket decides who sits where, and the server starts the duel.
// ---------------------------------------------------------------------------

/// The name of the last `PlayerInfo` among the messages.
pub open spec fn last_name(initial: Seq<ClientMessage>) -> Option<String>
    decreases initial.len(),
{
    if initial.len() == 0 {
        None
    } else {
        match initial.last() {
            ClientMessage::PlayerInfo { name } => Some(name),
            _ => last_name(initial.drop_last()),
        }
    }
}

/// The version and password of the last `JoinGame` among the messages.
pub open spec fn last_join(initial: Seq<ClientMessage>) -> Option<(u16, String)>
    decreases initial.len(),
{
    if initial.len() == 0 {
        None
    } else {
        match initial.last() {
            ClientMessage::JoinGame { version, pass } => Some((version, pass)),
            _ => last_join(initial.drop_last()),
        }
    }
}

/// Why an admitted player's handshake cannot go to the engine.
#[derive(Clone, Copy, Debug, PartialEq, Eq, Structural)]
pub enum PrepareError {
    /// The handshake has no `PlayerInfo`.
    NoPlayerInfo,
    /// The handshake has no `JoinGame`.
    NoJoin,
    /// The client's protocol version is not the server's.
    Version,
}

impl Admission {
    /// The handshake handed to the engine for an admitted player, connection `id`: only
    /// the last `PlayerInfo` and the last `JoinGame`, whose password becomes the
    /// connection id (the password the client sent stays with the server for reconnects). The
    /// client must speak the server's protocol version `pro_version`.
    pub fn prepare(&self, initial: &Vec<ClientMessage>, id: u64, pro_version: u16) -> (res: Result<
        Vec<ClientMessage>,
        PrepareError,
    >)
        ensures
            match (last_name(initial@), last_join(initial@)) {
                (None, _) => res == Err::<Vec<ClientMessage>, PrepareError>(PrepareError::NoPlayerInfo),
                (Some(_), None) => res == Err::<Vec<ClientMessage>, PrepareError>(PrepareError::NoJoin),
                (Some(name), Some((version, _))) => if version != pro_version {
                    res == Err::<Vec<ClientMessage>, PrepareError>(PrepareError::Version)
                } else {
                    &&& res matches Ok(v)
                    &&& v@.len() == 2
                    &&& v@[0] == (ClientMessage::PlayerInfo { name })
                    &&& v@[1] matches ClientMessage::JoinGame { version: jv, pass }
                    &&& jv == version
                    &&& pass@ == decimal(id as nat)
                },
            },
    {
        let name = match find_name(initial) {
            Some(name) => name,
            None => {
                return Err(PrepareError::NoPlayerInfo);
            },
        };
        let version = match find_join_version(initial) {
            Some(v) => v,
            None => {
                return Err(PrepareError::NoJoin);
            },
        };
        if version != pro_version {
            return Err(PrepareError::Version);
        }
        let mut pass = String::new();
        push_decimal(&mut pass, id);
        assert(Seq::<char>::empty() + decimal(id as nat) =~= decimal(id as nat));
        let mut res: Vec<ClientMessage> = Vec::new();
        res.push(ClientMessage::PlayerInfo { name });
        res.push(ClientMessage::JoinGame { version, pass });
        Ok(res)
    }
}

fn find_name(initial: &Vec<ClientMessage>) -> (res: Option<String>)
    ensures
        res == last_name(initial@),
{
    let mut i: usize = initial.len();
    assert(initial@.take(i as int) =~= initial@);
    while i > 0
        invariant
            i <= initial@.len(),
            last_name(initial@) == last_name(initial@.take(i as int)),
        decreases i,
    {
        assert(initial@.take(i as int).drop_last() =~= initial@.take(i - 1));
        match &initial[i - 1] {
            ClientMessage::PlayerInfo { name } => {
                return Some(name.clone());
            },
            _ => {},
        }
        i = i - 1;
    }
    None
}

fn find_join_version(initial: &Vec<ClientMessage>) -> (res: Option<u16>)
    ensures
        match last_join(initial@) {
            Some((v, _)) => res == Some(v),
            None => res is None,
        },
{
    let mut i: usize = initial.len();
    assert(initial@.take(i as int) =~= initial@);
    while i > 0
        invariant
            i <= initial@.len(),
            last_join(initial@) == last_join(initial@.take(i as int)),
        decreases i,
    {
        assert(initial@.take(i as int).drop_last() =~= initial@.take(i - 1));
        match &initial[i - 1] {
            ClientMessage::JoinGame { version, .. } => {
                return Some(*version);
            },
            _ => {},
        }
        i = i - 1;
    }
    None
}

/// A number as `u64::from_str` reads it: an optional `+`, then decimal digits, at most
/// `u64::MAX`.
pub open spec fn spec_parse_u64(s: Seq<char>) -> Option<u64> {
    let d = if s.len() > 0 && s[0] == '+' { s.skip(1) } else { s };
    if d.len() > 0 && all_digits(d) && digits_value(d) <= u64::MAX {
        Some(digits_value(d) as u64)
    } else {
        None
    }
}

fn parse_u64(s: &str) -> (res: Option<u64>)
    ensures
        res == spec_parse_u64(s@),
{
    let c = chars_of(s);
    let d = if c.len() > 0 && c[0] == '+' { sub_chars(&c, 1, c.len()) } else { sub_chars(&c, 0, c.len()) };
    assert(d@ =~= if s@.len() > 0 && s@[0] == '+' { s@.skip(1) } else { s@ });
    if d.len() == 0 {
        return None;
    }
    let mut i: usize = 0;
    while i < d.len()
        invariant
            i <= d@.len(),
            d@ == (if s@.len() > 0 && s@[0] == '+' { s@.skip(1) } else { s@ }),
            forall|j: int| 0 <= j < i ==> is_digit(#[trigger] d@[j]),
        decreases d@.len() - i,
    {
        if !(d[i] >= '0' && d[i] <= '9') {
            assert(!is_digit(d@[i as int]));
            return None;
        }
        i = i + 1;
    }
    parse_digits(&d, 0xffff_ffff_ffff_ffff)
}

/// Where a player joining a tournament room goes.
#[derive(Clone, Copy, Debug, PartialEq, Eq, Structural)]
pub enum JoinPlan {
    /// Into a spectator slot.
    Watch,
    /// Into this duelist seat.
    Seat(u8),
}

/// Why a join request to a tournament room is refused.
#[derive(Clone, Copy, Debug, PartialEq, Eq, Structural)]
pub enum JoinRefusal {
    /// The host refuses.
    Refused,
    /// The client must speak this protocol version.
    Version(u16),
}

/// The seat index holding connection `id`, the first one.
pub open spec fn seat_of_id(seats: [Option<u64>; 2], id: u64) -> Option<int> {
    if seats[0] == Some(id) {
        Some(0)
    } else if seats[1] == Some(id) {
        Some(1)
    } else {
        None
    }
}

/// How the engine places a player's join request in a tournament room. The request
/// carries the connection id as its password. A connection that holds none of the two
/// seats may watch while the room can be watched (`watching`), when watching is enabled
/// and it is connected and not yet placed; a connection that holds a seat sits there
/// while the room waits to start and the seat is free. Anything else is refused.
pub open spec fn spec_plan_join(
    record: RoomRecord,
    stage: DuelStage,
    version: u16,
    pro_version: u16,
    pass: Seq<char>,
    extra: Netplayer,
    watching: bool,
    watch_enabled: bool,
    seat_taken: Seq<bool>,
) -> Result<(u64, JoinPlan), JoinRefusal> {
    if version != pro_version {
        Err(JoinRefusal::Version(pro_version))
    } else {
        match spec_parse_u64(pass) {
            None => Err(JoinRefusal::Refused),
            Some(id) => if !(extra is Undecided) {
                Err(JoinRefusal::Refused)
            } else {
                match record.tournament {
                    None => Err(JoinRefusal::Refused),
                    Some(room) => if watching && seat_of_id(room.seats, id) is None {
                        if watch_enabled && (player_index(record.players@, id) matches Some(i)
                            && record.players@[i].1.connected && record.players@[i].1.position == Netplayer::Unknown) {
                            Ok((id, JoinPlan::Watch))
                        } else {
                            Err(JoinRefusal::Refused)
                        }
                    } else {
                        match seat_of_id(room.seats, id) {
                            None => Err(JoinRefusal::Refused),
                            Some(slot) => if stage != DuelStage::Begin || seat_taken[slot] {
                                Err(JoinRefusal::Refused)
                            } else {
                                Ok((id, JoinPlan::Seat(slot as u8)))
                            },
                        }
                    },
                }
            },
        }
    }
}

/// Places a join request in a tournament room (see `spec_plan_join`).
pub fn plan_join(
    record: &RoomRecord,
    stage: DuelStage,
    version: u16,
    pro_version: u16,
    pass: &str,
    extra: Netplayer,
    watching: bool,
    watch_enabled: bool,
    seat_taken: &Vec<bool>,
) -> (res: Result<(u64, JoinPlan), JoinRefusal>)
    requires
        record.wf(),
        seat_taken@.len() >= 2,
    ensures
        res == spec_plan_join(*record, stage, version, pro_version, pass@, extra, watching, watch_enabled, seat_taken@),
{
    if version != pro_version {
        return Err(JoinRefusal::Version(pro_version));
    }
    let id = match parse_u64(pass) {
        Some(id) => id,
        None => {
            return Err(JoinRefusal::Refused);
        },
    };
    match extra {
        Netplayer::Undecided(_) => {},
        _ => {
            return Err(JoinRefusal::Refused);
        },
    }
    let room = match &record.tournament {
        Some(room) => room,
        None => {
            return Err(JoinRefusal::Refused);
        },
    };
    let slot: Option<usize> = if room.seats[0] == Some(id) {
        Some(0)
    } else if room.seats[1] == Some(id) {
        Some(1)
    } else {
        None
    };
    if watching && slot.is_none() {
        let placeable = match record.find_player(id) {
            Some(i) => record.players[i].1.connected && record.players[i].1.position == Netplayer::Unknown,
            None => false,
        };
        if watch_enabled && placeable {
            return Ok((id, JoinPlan::Watch));
        }
        return Err(JoinRefusal::Refused);
    }
    match slot {
        None => Err(JoinRefusal::Refused),
        Some(s) => if stage != DuelStage::Begin || seat_taken[s] {
            Err(JoinRefusal::Refused)
        } else {
            Ok((id, JoinPlan::Seat(s as u8)))
        },
    }
}

impl RoomRecord {
    /// Records where the engine placed connection `id` in a tournament room: its position,
    /// never host rights; a duelist seat also loses the deck accepted for a player who
    /// sat there before.
    pub fn place(&mut self, id: u64, position: Netplayer)
        requires
            old(self).wf(),
        ensures
            final(self).wf(),
            final(self).players@.len() == old(self).players@.len(),
            forall|j: int| 0 <= j < old(self).players@.len() ==> {
                let (oid, op) = #[trigger] old(self).players@[j];
                let (nid, np) = final(self).players@[j];
                &&& nid == oid
                &&& oid != id ==> np == op || (position is Player && np == (PlayerRecord { deck: np.deck, reconnect_deck: np.reconnect_deck, ..op }))
                &&& oid == id ==> np.position == position && !np.is_host && np.name == op.name
                    && np.connected == op.connected && np.is_bot == op.is_bot && np.protocol == op.protocol
            },
            position matches Netplayer::Player(slot) ==> accepted_deck(final(self).accepted_decks@, slot) is None
                && forall|s: u8| s != slot ==> accepted_deck(final(self).accepted_decks@, s) == accepted_deck(
                    old(self).accepted_decks@,
                    s,
                ),
            !(position is Player) ==> final(self).accepted_decks == old(self).accepted_decks,
            final(self).stage == old(self).stage,
            final(self).tournament == old(self).tournament,
            final(self).chats == old(self).chats,
            final(self).duels == old(self).duels,
    {
        let ghost before = self.players@;
        match self.find_player(id) {
            Some(i) => {
                self.players[i].1.position = position;
                self.players[i].1.is_host = false;
                proof {
                    assert forall|a: int, b: int| 0 <= a < b < self.players@.len() implies #[trigger] self.players@[a].0
                        < #[trigger] self.players@[b].0 by {
                        assert(self.players@[a].0 == before[a].0);
                        assert(self.players@[b].0 == before[b].0);
                    }
                    assert forall|j: int| 0 <= j < before.len() && before[j].0 == id implies j == i by {
                        if j < i {
                            assert(before[j].0 < before[i as int].0);
                        } else if j > i {
                            assert(before[i as int].0 < before[j].0);
                        }
                    }
                }
            },
            None => {
                proof {
                    assert forall|j: int| 0 <= j < self.players@.len() implies self.players@[j].0 != id by {
                        if self.players@[j].0 == id {
                            assert(player_index(self.players@, id) is Some);
                        }
                    }
                }
            },
        }
        let ghost mid = self.players@;
        proof {
            assert forall|j: int| 0 <= j < before.len() implies {
                let (oid, op) = #[trigger] before[j];
                let (nid, np) = mid[j];
                &&& nid == oid
                &&& oid != id ==> np == op
                &&& oid == id ==> np.position == position && !np.is_host && np.name == op.name
                    && np.connected == op.connected && np.is_bot == op.is_bot && np.protocol == op.protocol
            } by {
                if before[j].0 == id {
                    assert(player_index(before, id) is Some);
                }
            }
        }
        match position {
            Netplayer::Player(slot) => {
                self.store_accepted_deck(slot, None);
                proof {
                    assert forall|j: int| 0 <= j < mid.len() implies {
                        let (mid_id, mp) = #[trigger] mid[j];
                        let (nid, np) = self.players@[j];
                        &&& nid == mid_id
                        &&& np == (PlayerRecord { deck: np.deck, reconnect_deck: np.reconnect_deck, ..mp })
                    } by {
                        let (mid_id, mp) = mid[j];
                        let (nid, np) = self.players@[j];
                        if !(mp.connected && mp.position == Netplayer::Player(slot)) {
                            assert(np == mp);
                        }
                    }
                }
            },
            _ => {},
        }
    }

    /// After a player left a tournament room between duels (rock-paper-scissors, choosing
    /// who goes first, or siding) and the other seat won by forfeit, the room is over:
    /// no duel core runs that could end it. Returns whether it ended.
    pub fn end_after_leave(&mut self, stage: DuelStage) -> (ended: bool)
        ensures
            ended == ((stage == DuelStage::Finger || stage == DuelStage::Firstgo || stage == DuelStage::Siding) && (
            old(self).tournament matches Some(room) && !room.aborted && room.forfeit is Some)),
            final(self).stage == if ended { DuelStage::End } else { old(self).stage },
            *final(self) == (RoomRecord { stage: final(self).stage, ..*old(self) }),
    {
        let between = stage == DuelStage::Finger || stage == DuelStage::Firstgo || stage == DuelStage::Siding;
        if !between {
            return false;
        }
        let forfeited = match &self.tournament {
            Some(room) => room.ends_on_leave(stage),
            None => false,
        };
        if forfeited {
            self.stage = DuelStage::End;
        }
        forfeited
    }
}

/// A waiting tournament room starts by itself once both seats are taken and ready.
pub fn auto_start(stage: DuelStage, seats: &Vec<Option<bool>>) -> (res: bool)
    ensures
        res == (stage == DuelStage::Begin && forall|i: int| 0 <= i < seats@.len() ==> #[trigger] seats@[i] == Some(true)),
{
    if stage != DuelStage::Begin {
        return false;
    }
    let mut i: usize = 0;
    while i < seats.len()
        invariant
            i <= seats@.len(),
            forall|j: int| 0 <= j < i ==> #[trigger] seats@[j] == Some(true),
        decreases seats@.len() - i,
    {
        if seats[i] != Some(true) {
            return false;
        }
        i = i + 1;
    }
    true
}

} // verus!
