use vstd::prelude::*;
use crate::deck::Deck;
use crate::duel::{DuelStage, Mode, Netplayer, ServerMessage};
use crate::room::{RoomRecord, accepted_deck, decks_updated};

verus! {

// ---------------------------------------------------------------------------
// Changing seats in a tag duel: a duelist who asks to be a duelist again moves on to the
// next free seat.
// ---------------------------------------------------------------------------

/// Seat `current + offset`, counted round the table.
pub open spec fn seat_after(len: int, current: int, offset: int) -> int {
    (current + offset) % len
}

/// The next free seat after `current`, going round the table: `None` when every other
/// seat is taken.
pub fn next_seat<T>(players: &[Option<T>], current: usize) -> (res: Option<usize>)
    ensures
        match res {
            Some(seat) => exists|offset: int|
                1 <= offset < players@.len() && seat == seat_after(players@.len() as int, current as int, offset)
                    && players@[seat as int] is None && forall|p: int|
                    1 <= p < offset ==> #[trigger] players@[seat_after(players@.len() as int, current as int, p)] is Some,
            None => forall|p: int|
                1 <= p < players@.len() ==> #[trigger] players@[seat_after(players@.len() as int, current as int, p)] is Some,
        },
        res matches Some(seat) ==> seat < players@.len() && seat != current,
{
    let n = players.len();
    if n == 0 {
        return None;
    }
    let c = current % n;
    let mut offset: usize = 1;
    while offset < n
        invariant
            n == players@.len(),
            n > 0,
            c == current % n,
            1 <= offset <= n,
            forall|p: int| 1 <= p < offset ==> #[trigger] players@[seat_after(n as int, current as int, p)] is Some,
        decreases n - offset,
    {
        let seat = if offset >= n - c { offset - (n - c) } else { c + offset };
        proof {
            lemma_seat_without_overflow(n as int, current as int, offset as int);
        }
        if players[seat].is_none() {
            proof {
                if current < n {
                    vstd::arithmetic::div_mod::lemma_small_mod(current as nat, n as nat);
                }
            }
            return Some(seat);
        }
        offset = offset + 1;
    }
    None
}

/// Seat `current + offset` round a table of `n` seats, counted from `current % n` so that
/// nothing goes past `n`.
proof fn lemma_seat_without_overflow(n: int, current: int, offset: int)
    requires
        0 < n,
        0 <= current,
        0 <= offset < n,
    ensures
        seat_after(n, current, offset) == if offset >= n - current % n {
            offset - (n - current % n)
        } else {
            current % n + offset
        },
{
    let c = current % n;
    vstd::arithmetic::div_mod::lemma_add_mod_noop(current, offset, n);
    vstd::arithmetic::div_mod::lemma_small_mod(offset as nat, n as nat);
    vstd::arithmetic::div_mod::lemma_mod_bound(current, n);
    if offset >= n - c {
        vstd::arithmetic::div_mod::lemma_mod_sub_multiples_vanish(c + offset, n);
        vstd::arithmetic::div_mod::lemma_small_mod((c + offset - n) as nat, n as nat);
    } else {
        vstd::arithmetic::div_mod::lemma_small_mod((c + offset) as nat, n as nat);
    }
}

/// A duelist at the table.
pub struct TablePlayer {
    pub name: String,
    pub deck: Deck,
    pub ready: bool,
}

/// A message the table sends to everybody in the room.
pub enum Broadcast {
    /// The duelist in `pos` left that seat.
    PlayerLeave { pos: Netplayer },
    /// A duelist named `name` sat down in `pos`.
    PlayerEnter { name: String, pos: Netplayer },
}

/// The engine's table, as far as changing seats reads and writes it.
pub struct Table {
    pub mode: Mode,
    pub stage: DuelStage,
    /// Duelist seats, taken or free.
    pub players: Vec<Option<TablePlayer>>,
    /// Number of spectators.
    pub observers: usize,
    pub host_player: Netplayer,
    /// The messages sent to everybody, oldest first.
    pub broadcasts: Vec<Broadcast>,
}

/// What a request to change seats came to.
pub struct SeatChange {
    /// The request is handled here and goes no further.
    pub stop: bool,
    /// The answer to the requesting client.
    pub reply: Option<ServerMessage>,
}

/// The seat a duelist in seat `current` moves to.
pub open spec fn moves_to(t: Table, current: int, next: int) -> bool {
    &&& 0 <= next < 4
    &&& exists|offset: int|
        1 <= offset < 4 && next == seat_after(4, current, offset) && t.players@[next] is None && forall|p: int|
            1 <= p < offset ==> #[trigger] t.players@[seat_after(4, current, p)] is Some
}

/// Handles a request of the client in `extra` to become a duelist. In a tag room with
/// four seats a duelist's request is handled here: while the room waits to start, a
/// duelist who is not ready moves with their deck to the next free seat, keeps host
/// rights if they had them, and both seats lose their accepted decks; everybody is told
/// that the old seat was left and the new one taken, and the client learns its new seat.
/// Other requests, such as a spectator's, are left to the engine.
pub fn change_seat(table: &mut Table, extra: &mut Netplayer, record: &mut RoomRecord) -> (res: SeatChange)
    requires
        old(record).wf(),
    ensures
        final(record).wf(),
        match *old(extra) {
            Netplayer::Player(current) => if old(table).mode != Mode::Tag || old(table).players@.len() != 4 {
                !res.stop && res.reply is None && *final(table) == *old(table) && *final(extra) == *old(extra)
                    && *final(record) == *old(record)
            } else {
                let c = current as int;
                let movable = old(table).stage == DuelStage::Begin && c < 4 && (old(table).players@[c] matches Some(p)
                    && !p.ready) && exists|next: int| moves_to(*old(table), c, next);
                &&& res.stop
                &&& !movable ==> res.reply is None && *final(table) == *old(table) && *final(extra) == *old(extra)
                    && *final(record) == *old(record)
                &&& movable ==> exists|next: int| {
                    &&& moves_to(*old(table), c, next)
                    &&& *final(extra) == Netplayer::Player(next as u8)
                    &&& final(table).players@ == old(table).players@.update(next, old(table).players@[c]).update(c, None)
                    &&& final(table).host_player == if old(table).host_player == *old(extra) {
                        Netplayer::Player(next as u8)
                    } else {
                        old(table).host_player
                    }
                    &&& final(table).mode == old(table).mode
                    &&& final(table).stage == old(table).stage
                    &&& final(table).observers == old(table).observers
                    &&& final(table).broadcasts@.len() == old(table).broadcasts@.len() + 2
                    &&& final(table).broadcasts@.take(old(table).broadcasts@.len() as int) == old(table).broadcasts@
                    &&& final(table).broadcasts@[old(table).broadcasts@.len() as int] == Broadcast::PlayerLeave {
                        pos: *old(extra),
                    }
                    &&& final(table).broadcasts@[old(table).broadcasts@.len() + 1int] matches Broadcast::PlayerEnter { name, pos }
                        && name == old(table).players@[c]->0.name && pos == Netplayer::Player(next as u8)
                    &&& res.reply == Some(ServerMessage::TypeChange {
                        player: Netplayer::Player(next as u8),
                        host: old(table).host_player == *old(extra),
                    })
                    &&& accepted_deck(final(record).accepted_decks@, current) is None
                    &&& accepted_deck(final(record).accepted_decks@, next as u8) is None
                    &&& forall|s: u8| s != current && s != next as u8 ==> accepted_deck(final(record).accepted_decks@, s)
                        == accepted_deck(old(record).accepted_decks@, s)
                }
            },
            _ => !res.stop && res.reply is None && *final(table) == *old(table) && *final(extra) == *old(extra)
                && *final(record) == *old(record),
        },
{
    let current = match *extra {
        Netplayer::Player(current) => current,
        _ => {
            return SeatChange { stop: false, reply: None };
        },
    };
    if table.mode != Mode::Tag || table.players.len() != 4 {
        return SeatChange { stop: false, reply: None };
    }
    let c = current as usize;
    if table.stage != DuelStage::Begin || c >= 4 {
        return SeatChange { stop: true, reply: None };
    }
    let ready = match &table.players[c] {
        Some(p) => p.ready,
        None => {
            return SeatChange { stop: true, reply: None };
        },
    };
    if ready {
        return SeatChange { stop: true, reply: None };
    }
    let next = match next_seat(table.players.as_slice(), c) {
        Some(next) => next,
        None => {
            proof {
                assert forall|next: int| !moves_to(*old(table), c as int, next) by {
                    if moves_to(*old(table), c as int, next) {
                        let offset = choose|offset: int|
                            1 <= offset < 4 && next == seat_after(4, c as int, offset) && old(table).players@[next] is None
                                && forall|p: int| 1 <= p < offset ==> #[trigger] old(table).players@[seat_after(4, c as int, p)] is Some;
                        assert(old(table).players@[seat_after(4, c as int, offset)] is Some);
                    }
                }
            }
            return SeatChange { stop: true, reply: None };
        },
    };
    let old_position = *extra;
    let new_position = Netplayer::Player(next as u8);
    let is_host = table.host_player == old_position;
    let ghost seats = table.players@;
    let mut moving: Option<TablePlayer> = None;
    std::mem::swap(&mut moving, &mut table.players[c]);
    let name = match &moving {
        Some(p) => p.name.clone(),
        None => String::new(),
    };
    table.players.set(next, moving);
    *extra = new_position;
    if is_host {
        table.host_player = new_position;
    }
    record.store_accepted_deck(current, None);
    record.store_accepted_deck(next as u8, None);
    let ghost before = table.broadcasts@;
    table.broadcasts.push(Broadcast::PlayerLeave { pos: old_position });
    table.broadcasts.push(Broadcast::PlayerEnter { name, pos: new_position });
    proof {
        assert(next != c) by {
            let offset = choose|offset: int|
                1 <= offset < 4 && next == seat_after(4, c as int, offset) && seats[next as int] is None
                    && forall|p: int| 1 <= p < offset ==> #[trigger] seats[seat_after(4, c as int, p)] is Some;
        }
        assert(moves_to(*old(table), c as int, next as int));
        assert(table.players@ =~= seats.update(next as int, seats[c as int]).update(c as int, None));
        assert(table.broadcasts@.take(before.len() as int) =~= before);
    }
    SeatChange { stop: true, reply: Some(ServerMessage::TypeChange { player: new_position, host: is_host }) }
}

} // verus!
