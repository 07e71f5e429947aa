use vstd::prelude::*;
use std::collections::BTreeMap;
use crate::deck::{Deck, copy_deck, deck_view, opt_deck_view};
use crate::duel::{ClientMessage, CorePlayer, DuelStage, Netplayer, ServerMessage, Win};
use crate::history::HistoryRecord;
use crate::password::{Password, capacity_of};
use crate::rooms::{ChatInfo, RoomEvent, RoomEvents, RoomInfo, RoomList, RoomPlayer, copy_chats, has_key, updated};
use crate::text::{chars_of, string_of};
use crate::tournament::Room;
use crate::transport::Protocol;

verus! {

/// What the server knows of one connection in a room. The connection's channels stay
/// with the transport; they are found again by the connection id.
pub struct PlayerRecord {
    pub name: String,
    /// Set only for a WindBot that came through the server's one-time invitation.
    pub is_bot: bool,
    pub position: Netplayer,
    pub is_host: bool,
    pub connected: bool,
    pub protocol: Protocol,
    /// The deck the engine accepted for the player's seat.
    pub deck: Option<Deck>,
    /// The deck a reconnecting player must submit again.
    pub reconnect_deck: Option<Deck>,
}

/// The outcome of one duel: who won, and which connections played each side.
pub struct DuelRecord {
    pub winner: Option<Win>,
    pub first_players: Vec<u64>,
    pub second_players: Vec<u64>,
}

/// Everything the server records about a room.
pub struct RoomRecord {
    /// The password the room was created with.
    pub room_id: String,
    /// Connections by id, in increasing id order.
    pub players: Vec<(u64, PlayerRecord)>,
    /// Duel outcomes by duel number.
    pub duels: BTreeMap<u32, DuelRecord>,
    /// Decks accepted per seat. The engine may accept a deck before the connection learns
    /// its seat, so decks are kept by seat.
    pub accepted_decks: BTreeMap<u8, Deck>,
    pub current_history: Option<HistoryRecord>,
    pub history: Vec<HistoryRecord>,
    /// The latest chat lines, at most 100.
    pub chats: Vec<ChatInfo>,
    /// Seats per team: 1 for single duels, 2 for tag duels.
    pub team_size: u8,
    pub stage: DuelStage,
    pub side_timeout_secs: u64,
    /// Seats whose field is being resent after a reconnect.
    pub refreshing: Vec<u8>,
    pub tournament: Option<Room>,
}

/// Most chat lines a room keeps.
pub const MAX_CHATS: usize = 100;

/// Most characters kept of one chat line.
pub const MAX_CHAT_CHARS: usize = 1000;

/// Connection ids strictly increase along the list.
pub open spec fn ids_increasing(players: Seq<(u64, PlayerRecord)>) -> bool {
    forall|i: int, j: int| 0 <= i < j < players.len() ==> #[trigger] players[i].0 < #[trigger] players[j].0
}

/// Index of the connection with id `id`.
pub open spec fn player_index(players: Seq<(u64, PlayerRecord)>, id: u64) -> Option<int> {
    if exists|i: int| 0 <= i < players.len() && players[i].0 == id {
        Some(choose|i: int| 0 <= i < players.len() && players[i].0 == id)
    } else {
        None
    }
}

/// The deck accepted for `slot`.
pub open spec fn accepted_deck(decks: Map<u8, Deck>, slot: u8) -> Option<(Seq<u32>, Seq<u32>, Seq<u32>)> {
    if decks.contains_key(slot) {
        Some(deck_view(decks[slot]))
    } else {
        None
    }
}

/// The connection sits in a duelist seat or a spectator slot.
pub open spec fn placed(p: Netplayer) -> bool {
    p is Player || p is Observer
}

impl RoomRecord {
    /// The keyed collections hold each key once, and at most 100 chat lines are kept.
    pub open spec fn wf(&self) -> bool {
        &&& ids_increasing(self.players@)
        &&& self.chats@.len() <= MAX_CHATS
    }

    /// A new room record: nobody joined, waiting to start, single-duel teams.
    pub fn new(room_id: String) -> (r: RoomRecord)
        ensures
            r.wf(),
            r.room_id == room_id,
            r.players@.len() == 0,
            r.duels@ == Map::<u32, DuelRecord>::empty(),
            r.accepted_decks@ == Map::<u8, Deck>::empty(),
            r.current_history is None,
            r.history@.len() == 0,
            r.chats@.len() == 0,
            r.team_size == 1,
            r.stage == DuelStage::Begin,
            r.side_timeout_secs == 180,
            r.refreshing@.len() == 0,
            r.tournament is None,
    {
        RoomRecord {
            room_id,
            players: Vec::new(),
            duels: BTreeMap::new(),
            accepted_decks: BTreeMap::new(),
            current_history: None,
            history: Vec::new(),
            chats: Vec::new(),
            team_size: 1,
            stage: DuelStage::Begin,
            side_timeout_secs: 180,
            refreshing: Vec::new(),
            tournament: None,
        }
    }

    /// The record of a room created for these options: its teams hold half the seats (one
    /// player in single and match rooms, two in tag rooms) and a side-deck change may take
    /// the server's `side_timeout_secs`; otherwise as `new`.
    pub fn for_options(room_id: String, options: &Password, side_timeout_secs: u64) -> (r: RoomRecord)
        ensures
            r.wf(),
            r.room_id == room_id,
            r.players@.len() == 0,
            r.duels@ == Map::<u32, DuelRecord>::empty(),
            r.accepted_decks@ == Map::<u8, Deck>::empty(),
            r.current_history is None,
            r.history@.len() == 0,
            r.chats@.len() == 0,
            r.team_size == capacity_of(*options) / 2,
            r.stage == DuelStage::Begin,
            r.side_timeout_secs == side_timeout_secs,
            r.refreshing@.len() == 0,
            r.tournament is None,
    {
        let mut r = RoomRecord::new(room_id);
        r.team_size = (options.capacity() / 2) as u8;
        r.side_timeout_secs = side_timeout_secs;
        r
    }

    /// The position of connection `id` in the list.
    pub fn find_player(&self, id: u64) -> (res: Option<usize>)
        requires
            self.wf(),
        ensures
            match res {
                Some(i) => i < self.players@.len() && self.players@[i as int].0 == id && player_index(
                    self.players@,
                    id,
                ) == Some(i as int),
                None => player_index(self.players@, id) is None,
            },
    {
        let mut i: usize = 0;
        while i < self.players.len()
            invariant
                i <= self.players@.len(),
                ids_increasing(self.players@),
                forall|j: int| 0 <= j < i ==> self.players@[j].0 != id,
            decreases self.players@.len() - i,
        {
            if self.players[i].0 == id {
                proof {
                    let k = choose|k: int| 0 <= k < self.players@.len() && self.players@[k].0 == id;
                    if k != i {
                        if k < i {
                        } else {
                            assert(self.players@[i as int].0 < self.players@[k].0);
                        }
                    }
                }
                return Some(i);
            }
            i = i + 1;
        }
        None
    }

    /// Records a connection; an existing record with the same id is replaced.
    pub fn insert_player(&mut self, id: u64, record: PlayerRecord)
        requires
            old(self).wf(),
        ensures
            final(self).wf(),
            player_index(final(self).players@, id) matches Some(i) && final(self).players@[i] == (id, record),
            forall|j: int| 0 <= j < old(self).players@.len() && old(self).players@[j].0 != id
                ==> final(self).players@.contains(#[trigger] old(self).players@[j]),
            final(self).players@.len() == old(self).players@.len() + if player_index(old(self).players@, id) is Some { 0int } else { 1int },
            final(self).room_id == old(self).room_id,
            final(self).stage == old(self).stage,
            final(self).chats == old(self).chats,
            final(self).team_size == old(self).team_size,
            final(self).tournament == old(self).tournament,
    {
        let n = self.players.len();
        let mut i: usize = 0;
        while i < n && self.players[i].0 < id
            invariant
                n == self.players@.len(),
                i <= n,
                ids_increasing(self.players@),
                forall|j: int| 0 <= j < i ==> #[trigger] self.players@[j].0 < id,
            decreases n - i,
        {
            i = i + 1;
        }
        let ghost before = self.players@;
        if i < n && self.players[i].0 == id {
            self.players.set(i, (id, record));
            proof {
                assert(self.players@ =~= before.update(i as int, (id, record)));
                assert forall|a: int, b: int| 0 <= a < b < self.players@.len() implies #[trigger] self.players@[a].0
                    < #[trigger] self.players@[b].0 by {
                    assert(self.players@[a].0 == before[a].0);
                    assert(self.players@[b].0 == before[b].0);
                }
                assert(player_index(before, id) is Some);
                assert forall|j: int| 0 <= j < before.len() && before[j].0 != id implies self.players@.contains(
                    #[trigger] before[j],
                ) by {
                    assert(self.players@[j] == before[j]);
                }
                let k = choose|k: int| 0 <= k < self.players@.len() && self.players@[k].0 == id;
                if k != i {
                    if k < i {
                        assert(self.players@[k].0 < self.players@[i as int].0);
                    } else {
                        assert(self.players@[i as int].0 < self.players@[k].0);
                    }
                }
            }
        } else {
            self.players.insert(i, (id, record));
            proof {
                assert(self.players@ =~= before.insert(i as int, (id, record)));
                assert forall|j: int| i <= j < n implies id < #[trigger] before[j].0 by {
                    if j > i {
                        assert(before[i as int].0 < before[j].0);
                    }
                }
                assert forall|a: int, b: int| 0 <= a < b < self.players@.len() implies #[trigger] self.players@[a].0
                    < #[trigger] self.players@[b].0 by {
                    if b < i {
                    } else if a < i {
                    } else if a == i {
                        assert(self.players@[b] == before[b - 1]);
                    } else {
                        assert(self.players@[a] == before[a - 1]);
                        assert(self.players@[b] == before[b - 1]);
                    }
                }
                assert(player_index(before, id) is None) by {
                    if exists|k: int| 0 <= k < before.len() && before[k].0 == id {
                        let k = choose|k: int| 0 <= k < before.len() && before[k].0 == id;
                        if k < i {
                        } else {
                        }
                    }
                }
                assert forall|j: int| 0 <= j < before.len() && before[j].0 != id implies self.players@.contains(
                    #[trigger] before[j],
                ) by {
                    if j < i {
                        assert(self.players@[j] == before[j]);
                    } else {
                        assert(self.players@[j + 1] == before[j]);
                    }
                }
                let k = choose|k: int| 0 <= k < self.players@.len() && self.players@[k].0 == id;
                if k != i {
                    if k < i {
                        assert(self.players@[k].0 < self.players@[i as int].0);
                    } else {
                        assert(self.players@[i as int].0 < self.players@[k].0);
                    }
                }
            }
        }
    }

    /// Marks connection `id` as connected or not; other records stay as they are.
    pub fn set_connected(&mut self, id: u64, value: bool)
        requires
            old(self).wf(),
        ensures
            final(self).wf(),
            final(self).players@.len() == old(self).players@.len(),
            forall|j: int| 0 <= j < old(self).players@.len() ==> {
                let (oid, op) = #[trigger] old(self).players@[j];
                let (nid, np) = final(self).players@[j];
                &&& nid == oid
                &&& oid != id ==> np == op
                &&& oid == id ==> np == (PlayerRecord { connected: value, ..op })
            },
            final(self).chats == old(self).chats,
            final(self).team_size == old(self).team_size,
            final(self).stage == old(self).stage,
    {
        match self.find_player(id) {
            None => {
                proof {
                    assert forall|j: int| 0 <= j < self.players@.len() implies self.players@[j].0 != id by {
                        if self.players@[j].0 == id {
                            assert(player_index(self.players@, id) is Some);
                        }
                    }
                }
            },
            Some(i) => {
                let ghost before = self.players@;
                self.players[i].1.connected = value;
                proof {
                    assert forall|j: int| 0 <= j < before.len() && j != i implies self.players@[j] == before[j] by {}
                    assert forall|a: int, b: int| 0 <= a < b < self.players@.len() implies #[trigger] self.players@[a].0
                        < #[trigger] self.players@[b].0 by {
                        assert(self.players@[a].0 == before[a].0);
                        assert(self.players@[b].0 == before[b].0);
                    }
                    assert forall|j: int| 0 <= j < before.len() && before[j].0 == id implies j == i by {
                        if j < i {
                            assert(before[j].0 < before[i as int].0);
                        } else if j > i {
                            assert(before[i as int].0 < before[j].0);
                        }
                    }
                }
            },
        }
    }
}

/// The accepted decks after removing the one for `slot`.
pub open spec fn without_seat(decks: Seq<(u8, Deck)>, slot: u8) -> Seq<(u8, Deck)> {
    decks.filter(|e: (u8, Deck)| e.0 != slot)
}

/// The chat lines after one more line: the oldest is dropped when the room keeps 100.
pub open spec fn chats_after(chats: Seq<ChatInfo>, line: ChatInfo) -> Seq<ChatInfo> {
    if chats.len() >= MAX_CHATS {
        chats.drop_first().push(line)
    } else {
        chats.push(line)
    }
}

/// A record changed only in the given player's decks.
pub open spec fn decks_updated(
    before: Seq<(u64, PlayerRecord)>,
    after: Seq<(u64, PlayerRecord)>,
    stage: DuelStage,
    slot: u8,
    deck: Option<(Seq<u32>, Seq<u32>, Seq<u32>)>,
) -> bool {
    &&& after.len() == before.len()
    &&& forall|j: int| 0 <= j < before.len() ==> {
        let (oid, op) = #[trigger] before[j];
        let (nid, np) = after[j];
        &&& nid == oid
        &&& np.name == op.name && np.is_bot == op.is_bot && np.position == op.position
        &&& np.is_host == op.is_host && np.connected == op.connected && np.protocol == op.protocol
        &&& if op.connected && op.position == Netplayer::Player(slot) {
            &&& opt_deck_view(np.deck) == deck
            &&& opt_deck_view(np.reconnect_deck) == if stage == DuelStage::Begin || op.reconnect_deck is None {
                deck
            } else {
                opt_deck_view(op.reconnect_deck)
            }
        } else {
            np == op
        }
    }
}

impl RoomRecord {
    /// The deck accepted for `slot`, copied.
    pub fn accepted(&self, slot: u8) -> (res: Option<Deck>)
        requires
            self.wf(),
        ensures
            opt_deck_view(res) == accepted_deck(self.accepted_decks@, slot),
    {
        broadcast use vstd::std_specs::btree::group_btree_axioms;

        match self.accepted_decks.get(&slot) {
            Some(d) => Some(d.duplicate()),
            None => None,
        }
    }

    fn set_accepted(&mut self, slot: u8, deck: Option<Deck>)
        ensures
            accepted_deck(final(self).accepted_decks@, slot) == opt_deck_view(deck),
            forall|s: u8| s != slot ==> accepted_deck(final(self).accepted_decks@, s) == accepted_deck(
                old(self).accepted_decks@,
                s,
            ),
            same_setting(*old(self), *final(self)),
            final(self).players == old(self).players,
            final(self).chats == old(self).chats,
            final(self).duels == old(self).duels,
            final(self).team_size == old(self).team_size,
            final(self).stage == old(self).stage,
            final(self).room_id == old(self).room_id,
            final(self).tournament == old(self).tournament,
    {
        broadcast use vstd::std_specs::btree::group_btree_axioms;

        match deck {
            Some(d) => {
                self.accepted_decks.insert(slot, d);
            },
            None => {
                self.accepted_decks.remove(&slot);
            },
        }
    }

    /// Records the deck the engine accepted for `slot` (or clears it): the seat's deck is
    /// kept for later, and the connected player in that seat takes it as their deck; it
    /// also becomes their reconnect deck while the room waits to start, or when they had
    /// none yet.
    pub fn store_accepted_deck(&mut self, slot: u8, deck: Option<Deck>)
        requires
            old(self).wf(),
        ensures
            final(self).wf(),
            accepted_deck(final(self).accepted_decks@, slot) == opt_deck_view(deck),
            forall|s: u8| s != slot ==> accepted_deck(final(self).accepted_decks@, s) == accepted_deck(
                old(self).accepted_decks@,
                s,
            ),
            decks_updated(old(self).players@, final(self).players@, old(self).stage, slot, opt_deck_view(deck)),
            final(self).chats == old(self).chats,
            final(self).duels == old(self).duels,
            final(self).team_size == old(self).team_size,
            final(self).stage == old(self).stage,
            final(self).room_id == old(self).room_id,
            final(self).tournament == old(self).tournament,
    {
        let ghost view = opt_deck_view(deck);
        let kept = copy_deck(&deck);
        self.set_accepted(slot, deck);
        let ghost before = self.players@;
        let ghost s0 = *self;
        let n = self.players.len();
        let mut i: usize = 0;
        while i < n
            invariant
                self.accepted_decks == s0.accepted_decks,
                self.chats == s0.chats,
                self.duels == s0.duels,
                self.team_size == s0.team_size,
                self.stage == s0.stage,
                self.room_id == s0.room_id,
                self.tournament == s0.tournament,
                n == self.players@.len() == before.len(),
                i <= n,
                ids_increasing(before),
                opt_deck_view(kept) == view,
                forall|j: int| i <= j < n ==> self.players@[j] == before[j],
                decks_updated(before.subrange(0, i as int), self.players@.subrange(0, i as int), self.stage, slot, view),
            decreases n - i,
        {
            let matches = self.players[i].1.connected && self.players[i].1.position == Netplayer::Player(slot);
            if matches {
                let refresh = self.stage == DuelStage::Begin || self.players[i].1.reconnect_deck.is_none();
                self.players[i].1.deck = copy_deck(&kept);
                if refresh {
                    self.players[i].1.reconnect_deck = copy_deck(&kept);
                }
            }
            proof {
                let a = before.subrange(0, i + 1);
                let b = self.players@.subrange(0, i + 1);
                assert forall|j: int| 0 <= j < a.len() implies {
                    let (oid, op) = #[trigger] a[j];
                    let (nid, np) = b[j];
                    &&& nid == oid
                    &&& np.name == op.name && np.is_bot == op.is_bot && np.position == op.position
                    &&& np.is_host == op.is_host && np.connected == op.connected && np.protocol == op.protocol
                    &&& if op.connected && op.position == Netplayer::Player(slot) {
                        &&& opt_deck_view(np.deck) == view
                        &&& opt_deck_view(np.reconnect_deck) == if self.stage == DuelStage::Begin || op.reconnect_deck is None {
                            view
                        } else {
                            opt_deck_view(op.reconnect_deck)
                        }
                    } else {
                        np == op
                    }
                } by {
                    if j < i {
                        assert(a[j] == before.subrange(0, i as int)[j]);
                        assert(b[j] == self.players@.subrange(0, i as int)[j]);
                    }
                }
            }
            i = i + 1;
        }
        assert(before.subrange(0, n as int) =~= before);
        assert(self.players@.subrange(0, n as int) =~= self.players@);
        proof {
            assert forall|a: int, b: int| 0 <= a < b < self.players@.len() implies #[trigger] self.players@[a].0
                < #[trigger] self.players@[b].0 by {
                assert(self.players@[a].0 == before[a].0);
                assert(self.players@[b].0 == before[b].0);
            }
        }
    }
}

/// The connections recorded on one side of duel `n` (none when it has no record).
pub open spec fn side_players(duels: Map<u32, DuelRecord>, n: u32, first: bool) -> Seq<u64> {
    if duels.contains_key(n) {
        if first { duels[n].first_players@ } else { duels[n].second_players@ }
    } else {
        Seq::empty()
    }
}

/// The recorded winner of duel `n`.
pub open spec fn duel_winner(duels: Map<u32, DuelRecord>, n: u32) -> Option<Win> {
    if duels.contains_key(n) {
        duels[n].winner
    } else {
        None
    }
}

/// `list` with `id` added at the end unless it is there already.
pub open spec fn with_id(list: Seq<u64>, id: u64) -> Seq<u64> {
    if list.contains(id) { list } else { list.push(id) }
}

/// The chat line the room records for a message.
pub open spec fn chat_line(line: ChatInfo, id: u64, name: String, msg: Seq<char>, now: u64) -> bool {
    &&& line.player_id == id
    &&& line.name == name
    &&& line.content@ == msg.take(if msg.len() < MAX_CHAT_CHARS { msg.len() as int } else { MAX_CHAT_CHARS as int })
    &&& line.created_at == now
}

pub fn contains_id(list: &Vec<u64>, id: u64) -> (res: bool)
    ensures
        res == list@.contains(id),
{
    let mut i: usize = 0;
    while i < list.len()
        invariant
            i <= list@.len(),
            forall|j: int| 0 <= j < i ==> list@[j] != id,
        decreases list@.len() - i,
    {
        if list[i] == id {
            return true;
        }
        i = i + 1;
    }
    false
}

/// The fields that neither clients nor the engine's messages change are as they were.
pub open spec fn same_setting(before: RoomRecord, after: RoomRecord) -> bool {
    &&& after.room_id == before.room_id
    &&& after.current_history == before.current_history
    &&& after.history == before.history
    &&& after.team_size == before.team_size
    &&& after.stage == before.stage
    &&& after.side_timeout_secs == before.side_timeout_secs
    &&& after.refreshing == before.refreshing
    &&& after.tournament == before.tournament
}

/// What `observe_input` records of a message from connection `id` at time `now`.
pub open spec fn input_observed(before: RoomRecord, after: RoomRecord, id: u64, message: ClientMessage, now: u64) -> bool {
    &&& after.duels == before.duels
    &&& same_setting(before, after)
    &&& player_index(before.players@, id) is None ==> after == before
    &&& player_index(before.players@, id) matches Some(i) ==> {
                let p = before.players@[i].1;
                match message {
                    ClientMessage::Chat { msg } => {
                        &&& after.players == before.players
                        &&& after.accepted_decks == before.accepted_decks
                        &&& if p.connected && placed(p.position) {
                            let kept = if before.chats@.len() >= MAX_CHATS {
                                before.chats@.drop_first()
                            } else {
                                before.chats@
                            };
                            &&& after.chats@.len() == kept.len() + 1
                            &&& after.chats@.drop_last() == kept
                            &&& chat_line(after.chats@.last(), id, p.name, msg@, now)
                        } else {
                            after.chats == before.chats
                        }
                    },
                    ClientMessage::HsNotReady => {
                        &&& after.chats == before.chats
                        &&& after.players@ == before.players@.update(i, (id, PlayerRecord { deck: None, ..p }))
                        &&& match p.position {
                            Netplayer::Player(slot) => {
                                &&& accepted_deck(after.accepted_decks@, slot) is None
                                &&& forall|s: u8| s != slot ==> accepted_deck(after.accepted_decks@, s)
                                    == accepted_deck(before.accepted_decks@, s)
                            },
                            _ => after.accepted_decks == before.accepted_decks,
                        }
                    },
                    _ => after == before,
                }
            }
}

/// What `observe_output` records of a message the engine sent to connection `id`, with
/// the duel counter going from `n0` to `n1`.
pub open spec fn output_observed(before: RoomRecord, after: RoomRecord, id: u64, n0: u32, n1: u32, message: ServerMessage) -> bool {
    &&& same_setting(before, after)
    &&& after.chats == before.chats
    &&& after.accepted_decks == before.accepted_decks
    &&& match message {
        ServerMessage::TypeChange { player, host } => {
            &&& n1 == n0
            &&& after.duels == before.duels
            &&& match player_index(before.players@, id) {
                None => after.players == before.players,
                Some(i) => {
                    let p = before.players@[i].1;
                    let np = after.players@[i].1;
                    &&& after.players@.len() == before.players@.len()
                    &&& forall|j: int| 0 <= j < before.players@.len() && j != i ==> after.players@[j] == before.players@[j]
                    &&& after.players@[i].0 == id
                    &&& np.position == player && np.is_host == host
                    &&& np.name == p.name && np.is_bot == p.is_bot && np.connected == p.connected
                    &&& np.protocol == p.protocol && np.reconnect_deck == p.reconnect_deck
                    &&& opt_deck_view(np.deck) == match player {
                        Netplayer::Player(slot) => accepted_deck(before.accepted_decks@, slot),
                        _ => None,
                    }
                },
            }
        },
        ServerMessage::GameStart { player_type } => {
            let n = (n0 + 1) as u32;
            &&& n1 == n
            &&& after.players == before.players
            &&& if player_type == 0 || player_type == 1 {
                let first = player_type == 0;
                &&& side_players(after.duels@, n, first) == with_id(side_players(before.duels@, n, first), id)
                &&& side_players(after.duels@, n, !first) == side_players(before.duels@, n, !first)
                &&& duel_winner(after.duels@, n) == duel_winner(before.duels@, n)
                &&& forall|m: u32| m != n ==> side_players(after.duels@, m, true) == side_players(before.duels@, m, true)
                    && side_players(after.duels@, m, false) == side_players(before.duels@, m, false)
                    && duel_winner(after.duels@, m) == duel_winner(before.duels@, m)
            } else {
                after.duels == before.duels
            }
        },
        ServerMessage::GameWin { win } => {
            let n = n0;
            &&& n1 == n
            &&& after.players == before.players
            &&& if player_index(before.players@, id) matches Some(i) && before.players@[i].1.position is Player {
                &&& duel_winner(after.duels@, n) == if duel_winner(before.duels@, n) is None { Some(win) } else { duel_winner(before.duels@, n) }
                &&& side_players(after.duels@, n, true) == side_players(before.duels@, n, true)
                &&& side_players(after.duels@, n, false) == side_players(before.duels@, n, false)
                &&& forall|m: u32| m != n ==> side_players(after.duels@, m, true) == side_players(before.duels@, m, true)
                    && side_players(after.duels@, m, false) == side_players(before.duels@, m, false)
                    && duel_winner(after.duels@, m) == duel_winner(before.duels@, m)
            } else {
                after.duels == before.duels
            }
        },
        _ => after == before && n1 == n0,
    }
}

impl RoomRecord {
    /// Records what a client sent before it reaches the engine: chat lines of seated or
    /// spectating connections (the latest 100 lines, each cut to 1000 characters, stamped
    /// with `now`), and the deck a duelist withdraws by cancelling ready.
    pub fn observe_input(&mut self, id: u64, message: &ClientMessage, now: u64)
        requires
            old(self).wf(),
        ensures
            final(self).wf(),
            input_observed(*old(self), *final(self), id, *message, now),
    {
        let i = match self.find_player(id) {
            Some(i) => i,
            None => {
                return;
            },
        };
        match message {
            ClientMessage::Chat { msg } => {
                let connected = self.players[i].1.connected;
                let position = self.players[i].1.position;
                let seated = match position {
                    Netplayer::Player(_) | Netplayer::Observer(_) => true,
                    _ => false,
                };
                if connected && seated {
                    let chars = chars_of(msg.as_str());
                    let keep = if chars.len() < MAX_CHAT_CHARS { chars.len() } else { MAX_CHAT_CHARS };
                    let mut cut: Vec<char> = Vec::new();
                    let mut k: usize = 0;
                    while k < keep
                        invariant
                            keep <= chars@.len(),
                            k <= keep,
                            cut@ == chars@.take(k as int),
                        decreases keep - k,
                    {
                        cut.push(chars[k]);
                        k = k + 1;
                        assert(cut@ =~= chars@.take(k as int));
                    }
                    let line = ChatInfo {
                        player_id: id,
                        name: self.players[i].1.name.clone(),
                        content: string_of(&cut),
                        created_at: now,
                    };
                    let ghost before = self.chats@;
                    if self.chats.len() >= MAX_CHATS {
                        self.chats.remove(0);
                        assert(self.chats@ =~= before.drop_first());
                    }
                    let ghost kept = self.chats@;
                    self.chats.push(line);
                    assert(self.chats@.drop_last() =~= kept);
                }
            },
            ClientMessage::HsNotReady => {
                let ghost before = self.players@;
                self.players[i].1.deck = None;
                proof {
                    assert(self.players@ =~= before.update(i as int, (id, PlayerRecord { deck: None, ..before[i as int].1 })));
                    assert forall|a: int, b: int| 0 <= a < b < self.players@.len() implies #[trigger] self.players@[a].0
                        < #[trigger] self.players@[b].0 by {
                        assert(self.players@[a].0 == before[a].0);
                        assert(self.players@[b].0 == before[b].0);
                    }
                }
                match self.players[i].1.position {
                    Netplayer::Player(slot) => {
                        self.set_accepted(slot, None);
                    },
                    _ => {},
                }
            },
            _ => {},
        }
    }

    /// Adds connection `id` to one side of duel `n`, once.
    fn record_side(&mut self, n: u32, id: u64, first: bool)
        ensures
            same_setting(*old(self), *final(self)),
            final(self).players == old(self).players,
            final(self).chats == old(self).chats,
            final(self).accepted_decks == old(self).accepted_decks,
            forall|m: u32| m != n ==> side_players(final(self).duels@, m, true) == side_players(old(self).duels@, m, true)
                && side_players(final(self).duels@, m, false) == side_players(old(self).duels@, m, false)
                && duel_winner(final(self).duels@, m) == duel_winner(old(self).duels@, m),
            side_players(final(self).duels@, n, first) == with_id(side_players(old(self).duels@, n, first), id),
            side_players(final(self).duels@, n, !first) == side_players(old(self).duels@, n, !first),
            duel_winner(final(self).duels@, n) == duel_winner(old(self).duels@, n),
    {
        broadcast use vstd::std_specs::btree::group_btree_axioms;

        let ghost before = self.duels@;
        let mut record = match self.duels.remove(&n) {
            Some(r) => r,
            None => DuelRecord { winner: None, first_players: Vec::new(), second_players: Vec::new() },
        };
        let present = if first {
            contains_id(&record.first_players, id)
        } else {
            contains_id(&record.second_players, id)
        };
        if !present {
            if first {
                record.first_players.push(id);
            } else {
                record.second_players.push(id);
            }
        }
        let ghost r = record;
        self.duels.insert(n, record);
        assert(self.duels@ == before.insert(n, r));
    }

    /// Records the winner of duel `n` unless one is recorded.
    fn record_win(&mut self, n: u32, win: Win)
        ensures
            same_setting(*old(self), *final(self)),
            final(self).players == old(self).players,
            final(self).chats == old(self).chats,
            final(self).accepted_decks == old(self).accepted_decks,
            forall|m: u32| m != n ==> side_players(final(self).duels@, m, true) == side_players(old(self).duels@, m, true)
                && side_players(final(self).duels@, m, false) == side_players(old(self).duels@, m, false)
                && duel_winner(final(self).duels@, m) == duel_winner(old(self).duels@, m),
            duel_winner(final(self).duels@, n) == if duel_winner(old(self).duels@, n) is None { Some(win) } else { duel_winner(old(self).duels@, n) },
            side_players(final(self).duels@, n, true) == side_players(old(self).duels@, n, true),
            side_players(final(self).duels@, n, false) == side_players(old(self).duels@, n, false),
    {
        broadcast use vstd::std_specs::btree::group_btree_axioms;

        let ghost before = self.duels@;
        let mut record = match self.duels.remove(&n) {
            Some(r) => r,
            None => DuelRecord { winner: None, first_players: Vec::new(), second_players: Vec::new() },
        };
        if record.winner.is_none() {
            record.winner = Some(win);
        }
        let ghost r = record;
        self.duels.insert(n, record);
        assert(self.duels@ == before.insert(n, r));
    }

    /// Records what the engine sent to connection `id`: its seat and host flag (taking the
    /// deck accepted for that seat), the sides of each duel (counting duels in
    /// `duel_number`), and the first win reported to a duelist for each duel.
    pub fn observe_output(&mut self, id: u64, duel_number: &mut u32, message: &ServerMessage)
        requires
            old(self).wf(),
            message matches ServerMessage::GameStart { .. } ==> *old(duel_number) < u32::MAX,
        ensures
            final(self).wf(),
            output_observed(*old(self), *final(self), id, *old(duel_number), *final(duel_number), *message),
    {
        match message {
            ServerMessage::TypeChange { player, host } => {
                match self.find_player(id) {
                    None => {},
                    Some(i) => {
                        let deck = match player {
                            Netplayer::Player(slot) => self.accepted(*slot),
                            _ => None,
                        };
                        let ghost before = self.players@;
                        self.players[i].1.position = *player;
                        self.players[i].1.is_host = *host;
                        self.players[i].1.deck = deck;
                        proof {
                            assert forall|a: int, b: int| 0 <= a < b < self.players@.len() implies #[trigger] self.players@[a].0
                                < #[trigger] self.players@[b].0 by {
                                assert(self.players@[a].0 == before[a].0);
                                assert(self.players@[b].0 == before[b].0);
                            }
                        }
                    },
                }
            },
            ServerMessage::GameStart { player_type } => {
                *duel_number = *duel_number + 1;
                let n = *duel_number;
                if *player_type != 0 && *player_type != 1 {
                    return;
                }
                self.record_side(n, id, *player_type == 0);
            },
            ServerMessage::GameWin { win } => {
                let n = *duel_number;
                let seated = match self.find_player(id) {
                    Some(i) => match self.players[i].1.position {
                        Netplayer::Player(_) => true,
                        _ => false,
                    },
                    None => false,
                };
                if !seated {
                    return;
                }
                self.record_win(n, *win);
            },
            _ => {},
        }
    }
}

// ---------------------------------------------------------------------------
// What the room list shows
// ---------------------------------------------------------------------------

/// The connected duelists in connection order, as the room list shows them.
pub open spec fn seated(players: Seq<(u64, PlayerRecord)>) -> Seq<RoomPlayer>
    decreases players.len(),
{
    if players.len() == 0 {
        Seq::empty()
    } else {
        let rest = seated(players.drop_last());
        let (id, p) = players.last();
        match p.position {
            Netplayer::Player(slot) => if p.connected {
                rest.push(RoomPlayer { id, name: p.name, slot })
            } else {
                rest
            },
            _ => rest,
        }
    }
}

/// Number of connected connections.
pub open spec fn connected_count(players: Seq<(u64, PlayerRecord)>) -> nat
    decreases players.len(),
{
    if players.len() == 0 {
        0
    } else {
        connected_count(players.drop_last()) + if players.last().1.connected { 1nat } else { 0nat }
    }
}

/// Number of connected spectators.
pub open spec fn spectator_count(players: Seq<(u64, PlayerRecord)>) -> nat
    decreases players.len(),
{
    if players.len() == 0 {
        0
    } else {
        let p = players.last().1;
        spectator_count(players.drop_last()) + if p.connected && p.position is Observer { 1nat } else { 0nat }
    }
}

/// Whether a listed player sits in seat `slot`.
pub open spec fn in_slot(slot: int) -> spec_fn(RoomPlayer) -> bool {
    |p: RoomPlayer| p.slot == slot
}

/// The players of seats `lo` to `hi - 1`, by seat; players of one seat keep their order.
pub open spec fn slots_between(players: Seq<RoomPlayer>, lo: int, hi: int) -> Seq<RoomPlayer>
    decreases hi - lo,
{
    if hi <= lo {
        Seq::empty()
    } else {
        slots_between(players, lo, hi - 1) + players.filter(in_slot(hi - 1))
    }
}

/// `info` shows the room `record` under the key `room_id`: connected connections and
/// spectators counted, the duelists of seats below the team size in the first team and
/// the others in the second, each team by seat, and the room's chat lines.
pub open spec fn shows(info: RoomInfo, record: RoomRecord, room_id: Seq<char>) -> bool {
    &&& info.room_id@ == room_id
    &&& info.connections == connected_count(record.players@)
    &&& info.spectators == spectator_count(record.players@)
    &&& info.player_a@ == slots_between(seated(record.players@), 0, record.team_size as int)
    &&& info.player_b@ == slots_between(seated(record.players@), record.team_size as int, 256)
    &&& info.chats@ == record.chats@
}

/// The room list and the published events after the entry of room `room_id` is
/// refreshed from `record`: a listed room's entry is replaced by one that shows the
/// record, and the change is published; an unlisted room stays unlisted, and nothing is
/// published.
pub open spec fn list_refreshed(
    before: Seq<RoomInfo>,
    after: Seq<RoomInfo>,
    sent_before: Seq<RoomEvent>,
    sent_after: Seq<RoomEvent>,
    record: RoomRecord,
    room_id: Seq<char>,
) -> bool {
    &&& !has_key(before, room_id) ==> after == before && sent_after == sent_before
    &&& has_key(before, room_id) ==> exists|i: int, listed: RoomInfo, sent: RoomInfo|
        0 <= i < before.len() && before[i].room_id@ == room_id && shows(listed, record, room_id)
        && shows(sent, record, room_id) && after == before.update(i, listed)
        && sent_after == sent_before.push(RoomEvent::Update(sent))
}

fn collect_slots(players: &Vec<RoomPlayer>, lo: u16, hi: u16) -> (res: Vec<RoomPlayer>)
    requires
        lo <= hi <= 256,
    ensures
        res@ == slots_between(players@, lo as int, hi as int),
{
    let mut out: Vec<RoomPlayer> = Vec::new();
    let mut s: u16 = lo;
    while s < hi
        invariant
            lo <= s <= hi <= 256,
            out@ == slots_between(players@, lo as int, s as int),
        decreases hi - s,
    {
        let ghost start = out@;
        let mut j: usize = 0;
        while j < players.len()
            invariant
                j <= players@.len(),
                s < 256,
                out@ == start + players@.take(j as int).filter(in_slot(s as int)),
            decreases players@.len() - j,
        {
            let ghost before = out@;
            assert(players@.take(j + 1).drop_last() =~= players@.take(j as int));
            let ghost prefix = players@.take(j as int).filter(in_slot(s as int));
            let ghost next = players@.take(j + 1);
            assert(next.last() == players@[j as int]);
            proof {
                reveal(Seq::filter);
            }
            if players[j].slot as u16 == s {
                out.push(players[j].duplicate());
                assert(next.filter(in_slot(s as int)) == prefix.push(players@[j as int]));
                assert(out@ =~= start + next.filter(in_slot(s as int)));
            } else {
                assert(next.filter(in_slot(s as int)) == prefix);
            }
            j = j + 1;
        }
        assert(players@.take(players@.len() as int) =~= players@);
        s = s + 1;
    }
    out
}

impl RoomRecord {
    /// The room-list entry for this room under the key `room_id`.
    pub fn info(&self, room_id: &String) -> (info: RoomInfo)
        ensures
            shows(info, *self, room_id@),
    {
        let n = self.players.len();
        let mut list: Vec<RoomPlayer> = Vec::new();
        let mut connections: usize = 0;
        let mut spectators: usize = 0;
        let mut i: usize = 0;
        while i < n
            invariant
                n == self.players@.len(),
                i <= n,
                connections <= i,
                spectators <= i,
                connections == connected_count(self.players@.take(i as int)),
                spectators == spectator_count(self.players@.take(i as int)),
                list@ == seated(self.players@.take(i as int)),
            decreases n - i,
        {
            assert(self.players@.take(i + 1).drop_last() =~= self.players@.take(i as int));
            let id = self.players[i].0;
            let p = &self.players[i].1;
            if p.connected {
                connections = connections + 1;
                match p.position {
                    Netplayer::Player(slot) => {
                        list.push(RoomPlayer { id, name: p.name.clone(), slot });
                    },
                    Netplayer::Observer(_) => {
                        spectators = spectators + 1;
                    },
                    _ => {},
                }
            }
            i = i + 1;
        }
        assert(self.players@.take(n as int) =~= self.players@);
        RoomInfo {
            room_id: room_id.clone(),
            connections,
            player_a: collect_slots(&list, 0, self.team_size as u16),
            player_b: collect_slots(&list, self.team_size as u16, 256),
            spectators,
            chats: copy_chats(&self.chats),
        }
    }

    /// Refreshes the room's entry in the room list and publishes the change. A room that
    /// is no longer listed is left out: it is not listed again, and nothing is published.
    pub fn update_info(&self, rooms: &mut RoomList, events: &mut RoomEvents, room_id: &String)
        requires
            old(rooms).wf(),
        ensures
            final(rooms).wf(),
            list_refreshed(old(rooms)@, final(rooms)@, old(events).published(), final(events).published(), *self, room_id@),
    {
        let info = self.info(room_id);
        let listed = info.duplicate();
        if rooms.update(listed) {
            updated(events, info);
        }
    }
}

// ---------------------------------------------------------------------------
// Laws of the room record
// ---------------------------------------------------------------------------

/// A duel's result is recorded once: the same win reaches every connection, and a later
/// one for a duel with a recorded winner changes nothing.
pub proof fn lemma_first_win_stands(before: RoomRecord, after: RoomRecord, id: u64, n0: u32, n1: u32, win: Win)
    requires
        output_observed(before, after, id, n0, n1, ServerMessage::GameWin { win }),
        duel_winner(before.duels@, n0) is Some,
    ensures
        duel_winner(after.duels@, n0) == duel_winner(before.duels@, n0),
        n1 == n0,
{
}

/// Spectators may have joined mid-match and miss duels, so a win they are sent never
/// records a result.
pub proof fn lemma_spectator_win_ignored(before: RoomRecord, after: RoomRecord, id: u64, n0: u32, n1: u32, win: Win)
    requires
        output_observed(before, after, id, n0, n1, ServerMessage::GameWin { win }),
        !(player_index(before.players@, id) matches Some(i) && before.players@[i].1.position is Player),
    ensures
        after.duels == before.duels,
{
}

/// Results are kept by duel number: observing one duel leaves every other duel's winner
/// and sides as they were.
pub proof fn lemma_other_duels_kept(
    before: RoomRecord,
    after: RoomRecord,
    id: u64,
    n0: u32,
    n1: u32,
    message: ServerMessage,
    m: u32,
)
    requires
        output_observed(before, after, id, n0, n1, message),
        m != n1,
        m != n0,
    ensures
        duel_winner(after.duels@, m) == duel_winner(before.duels@, m),
        side_players(after.duels@, m, true) == side_players(before.duels@, m, true),
        side_players(after.duels@, m, false) == side_players(before.duels@, m, false),
{
}

/// The room's chat stays bounded: a chat line of a seated or spectating connection is
/// recorded as the latest line, cut to at most 1000 characters, and at most 100 lines are
/// kept.
pub proof fn lemma_chat_bounded(before: RoomRecord, after: RoomRecord, id: u64, msg: String, now: u64)
    requires
        before.wf(),
        after.wf(),
        input_observed(before, after, id, ClientMessage::Chat { msg }, now),
        player_index(before.players@, id) matches Some(i) && before.players@[i].1.connected && placed(
            before.players@[i].1.position,
        ),
    ensures
        after.chats@.len() <= MAX_CHATS,
        after.chats@.last().content@.len() <= MAX_CHAT_CHARS,
        after.chats@.last().player_id == id,
{
}

/// A seat's accepted deck goes only to the connected player in that seat: no other
/// player's deck changes, whatever their name.
pub proof fn lemma_deck_only_for_seat(
    before: Seq<(u64, PlayerRecord)>,
    after: Seq<(u64, PlayerRecord)>,
    stage: DuelStage,
    slot: u8,
    deck: Option<(Seq<u32>, Seq<u32>, Seq<u32>)>,
    j: int,
)
    requires
        decks_updated(before, after, stage, slot, deck),
        0 <= j < before.len(),
        !(before[j].1.connected && before[j].1.position == Netplayer::Player(slot)),
    ensures
        after[j] == before[j],
{
}

} // verus!
