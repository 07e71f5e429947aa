use vstd::prelude::*;
use crate::bot::{ai_command, spec_ai_command};
use crate::deck::{Deck, same_deck, same_deck_spec};
use crate::duel::{ClientMessage, DuelStage, Netplayer, ServerMessage};
use crate::room::{RoomRecord, PlayerRecord, input_observed, list_refreshed, output_observed, player_index};
use crate::rooms::{RoomEvents, RoomList};
use crate::text::{chars_of, trim, trimmed};
use crate::tournament::{blocked_input, spec_blocked_input};
use crate::transport::Protocol;

verus! {

// ---------------------------------------------------------------------------
// One connection's life in a room: the decisions between the engine, the client and
// the room record. The transport and the timers stay with the caller, which performs
// what these functions decide.
// ---------------------------------------------------------------------------

/// The position of connection `id`, when it has a record.
pub open spec fn position_of(players: Seq<(u64, PlayerRecord)>, id: u64) -> Option<Netplayer> {
    match player_index(players, id) {
        Some(i) => Some(players[i].1.position),
        None => None,
    }
}

/// The duelist seat of connection `id`, when it sits in one.
pub open spec fn seat_of(players: Seq<(u64, PlayerRecord)>, id: u64) -> Option<u8> {
    match position_of(players, id) {
        Some(Netplayer::Player(slot)) => Some(slot),
        _ => None,
    }
}

fn find_position(record: &RoomRecord, id: u64) -> (res: Option<Netplayer>)
    requires
        record.wf(),
    ensures
        res == position_of(record.players@, id),
{
    match record.find_player(id) {
        Some(i) => Some(record.players[i].1.position),
        None => None,
    }
}

/// A lost connection keeps its seat for a reconnect when the room is not closing, a
/// reconnect time is configured, a duel is running, and the connection is a human
/// duelist whose deck is known.
pub open spec fn spec_keeps_seat(record: RoomRecord, id: u64, seconds: u64, closing: bool) -> bool {
    &&& !closing
    &&& seconds > 0
    &&& record.stage == DuelStage::Dueling
    &&& player_index(record.players@, id) matches Some(i)
    &&& !record.players@[i].1.is_bot
    &&& record.players@[i].1.position is Player
    &&& record.players@[i].1.reconnect_deck is Some
}

/// Whether connection `id`, just lost, keeps its seat for a reconnect.
pub fn keeps_seat(record: &RoomRecord, id: u64, seconds: u64, closing: bool) -> (res: bool)
    requires
        record.wf(),
    ensures
        res == spec_keeps_seat(*record, id, seconds, closing),
{
    if closing || seconds == 0 || record.stage != DuelStage::Dueling {
        return false;
    }
    match record.find_player(id) {
        Some(i) => {
            let p = &record.players[i].1;
            let duelist = match p.position {
                Netplayer::Player(_) => true,
                _ => false,
            };
            !p.is_bot && duelist && p.reconnect_deck.is_some()
        },
        None => false,
    }
}

/// The seat a reconnecting client may take back with `deck`: the seat of connection `id`,
/// when it is a duelist seat and `deck` is the deck it last had accepted (in any order,
/// the main and extra decks counted together).
pub open spec fn spec_resume_slot(record: RoomRecord, id: u64, deck: Deck) -> Option<u8> {
    match player_index(record.players@, id) {
        Some(i) => {
            let p = record.players@[i].1;
            match p.position {
                Netplayer::Player(slot) => match p.reconnect_deck {
                    Some(d) => if same_deck_spec(d, deck) {
                        Some(slot)
                    } else {
                        None
                    },
                    None => None,
                },
                _ => None,
            }
        },
        None => None,
    }
}

/// What a reconnecting client's message, sent before its deck was checked, leads to.
#[derive(Clone, Copy, Debug, PartialEq, Eq, Structural)]
pub enum ResumeRoute {
    /// Keep waiting for the deck.
    Wait,
    /// The client gave up; drop the connection.
    Drop,
    /// The deck matches: give the seat back.
    Restore(u8),
    /// The deck does not match: tell the client and drop the connection.
    Refuse,
}

/// Reads a message of a reconnecting client whose deck was not checked yet.
pub fn on_resume_input(record: &RoomRecord, id: u64, message: &ClientMessage) -> (res: ResumeRoute)
    requires
        record.wf(),
    ensures
        res == spec_resume_route(*record, id, *message),
        match *message {
            ClientMessage::UpdateDeck { deck } => match spec_resume_slot(*record, id, deck) {
                Some(slot) => res == ResumeRoute::Restore(slot),
                None => res == ResumeRoute::Refuse,
            },
            ClientMessage::LeaveGame => res == ResumeRoute::Drop,
            _ => res == ResumeRoute::Wait,
        },
{
    match message {
        ClientMessage::UpdateDeck { deck } => {
            match record.find_player(id) {
                Some(i) => {
                    let p = &record.players[i].1;
                    match p.position {
                        Netplayer::Player(slot) => match &p.reconnect_deck {
                            Some(d) => if same_deck(d, deck) {
                                ResumeRoute::Restore(slot)
                            } else {
                                ResumeRoute::Refuse
                            },
                            None => ResumeRoute::Refuse,
                        },
                        _ => ResumeRoute::Refuse,
                    }
                },
                None => ResumeRoute::Refuse,
            }
        },
        ClientMessage::LeaveGame => ResumeRoute::Drop,
        _ => ResumeRoute::Wait,
    }
}

/// The route a reconnecting client's message takes (see `on_resume_input`).
pub open spec fn spec_resume_route(record: RoomRecord, id: u64, message: ClientMessage) -> ResumeRoute {
    match message {
        ClientMessage::UpdateDeck { deck } => match spec_resume_slot(record, id, deck) {
            Some(slot) => ResumeRoute::Restore(slot),
            None => ResumeRoute::Refuse,
        },
        ClientMessage::LeaveGame => ResumeRoute::Drop,
        _ => ResumeRoute::Wait,
    }
}

/// The client end of a connection's session: whether a client is connected, and whether
/// it was checked. The first client is checked; a client that resumes a kept seat is
/// not, until it hands in the seat's deck. Engine output goes to a checked client only,
/// and the engine hears a client that is not checked yet nothing but its deck.
pub struct ClientLink {
    /// A client is connected.
    pub live: bool,
    /// The connected client may see engine output and speak to the engine.
    pub verified: bool,
}

impl ClientLink {
    /// The link of a connection's first client: connected and checked.
    pub fn new() -> (g: ClientLink)
        ensures
            g.live && g.verified,
    {
        ClientLink { live: true, verified: true }
    }

    /// The client is gone (lost, dropped, or refused).
    pub fn lose(&mut self)
        ensures
            !final(self).live,
            final(self).verified == old(self).verified,
    {
        self.live = false;
    }

    /// A client resumes the kept seat: connected, not checked.
    pub fn resume(&mut self)
        ensures
            final(self).live && !final(self).verified,
    {
        self.live = true;
        self.verified = false;
    }

    /// Whether engine output goes to the client now: only to a connected, checked client.
    pub fn delivers(&self) -> (res: bool)
        ensures
            res == (self.live && self.verified),
    {
        self.live && self.verified
    }

    /// Takes a message of a connected client that is not checked yet (see
    /// `on_resume_input`): the seat's deck checks it, a wrong deck or leaving drops it,
    /// and anything else leaves it waiting. A checked client's message is not taken here
    /// (`None`): it goes the way of `on_client_input`.
    pub fn check_input(&mut self, record: &RoomRecord, id: u64, message: &ClientMessage) -> (res: Option<ResumeRoute>)
        requires
            old(self).live,
            record.wf(),
        ensures
            old(self).verified ==> res is None && *final(self) == *old(self),
            !old(self).verified ==> ({
                let route = spec_resume_route(*record, id, *message);
                &&& res == Some(route)
                &&& final(self).verified == (route is Restore)
                &&& final(self).live == !(route is Drop || route is Refuse)
            }),
    {
        if self.verified {
            return None;
        }
        let route = on_resume_input(record, id, message);
        match route {
            ResumeRoute::Restore(_) => {
                self.verified = true;
            },
            ResumeRoute::Drop | ResumeRoute::Refuse => {
                self.live = false;
            },
            ResumeRoute::Wait => {},
        }
        Some(route)
    }
}

/// The state of one connection's session besides the client link: whether its seat is
/// kept for a reconnect, whether the room is closing, and the frames queued for a
/// spectator (sent one at a time as the client takes them).
pub struct SessionState {
    pub link: ClientLink,
    /// The client was lost and its seat is kept until a deadline.
    pub seat_kept: bool,
    /// The engine has finished; the session ends shortly for duelists.
    pub closing: bool,
    /// Frames for a spectator, oldest first.
    pub queued: Vec<Vec<u8>>,
}

/// What to do when no client is connected.
#[derive(Clone, Copy, Debug, PartialEq, Eq, Structural)]
pub enum LostAction {
    /// End the session.
    End,
    /// Keep the seat: mark the player disconnected and start the deadline.
    KeepSeat,
    /// The seat is kept already: wait for a resume or the deadline.
    Wait,
}

/// What to do with a resuming client.
#[derive(Clone, Copy, Debug, PartialEq, Eq, Structural)]
pub enum ResumeAction {
    /// Not now (closing, a client is connected, or no seat is kept): ignore it.
    Ignore,
    /// The join packets were never seen: end the session.
    End,
    /// Send it the join packets and ask for the seat's deck.
    Accept,
}

/// What to do with engine output for the client.
pub enum OutputDelivery {
    /// Nothing: no checked client is connected.
    Withhold,
    /// Queued for a spectator, to be sent one at a time.
    Queued,
    /// Send these frames now.
    Send(Vec<Vec<u8>>),
}

/// Frames as byte sequences.
pub open spec fn frame_views(frames: Seq<Vec<u8>>) -> Seq<Seq<u8>> {
    frames.map_values(|f: Vec<u8>| f@)
}

impl SessionState {
    /// The session of a connection's first client.
    pub fn new() -> (st: SessionState)
        ensures
            st.link.live && st.link.verified,
            !st.seat_kept && !st.closing,
            st.queued@.len() == 0,
    {
        SessionState { link: ClientLink::new(), seat_kept: false, closing: false, queued: Vec::new() }
    }

    /// Engine output is read only while nothing waits for a spectator.
    pub fn reads_engine(&self) -> (res: bool)
        ensures
            res == (self.queued@.len() == 0),
    {
        self.queued.len() == 0
    }

    /// No client is connected: frames queued for it are dropped; a seat not kept yet is
    /// kept where `keeps` says so (see `keeps_seat`, asked with `closing`), else the
    /// session ends.
    pub fn on_lost(&mut self, keeps: bool) -> (res: LostAction)
        requires
            !old(self).link.live,
        ensures
            final(self).queued@.len() == 0,
            final(self).link == old(self).link,
            final(self).closing == old(self).closing,
            res == if old(self).seat_kept {
                LostAction::Wait
            } else if keeps {
                LostAction::KeepSeat
            } else {
                LostAction::End
            },
            final(self).seat_kept == (old(self).seat_kept || keeps),
    {
        self.queued = Vec::new();
        if self.seat_kept {
            LostAction::Wait
        } else if keeps {
            self.seat_kept = true;
            LostAction::KeepSeat
        } else {
            LostAction::End
        }
    }

    /// The engine finished: the session closes.
    pub fn on_finished(&mut self)
        ensures
            final(self).closing,
            final(self).link == old(self).link,
            final(self).seat_kept == old(self).seat_kept,
            final(self).queued == old(self).queued,
    {
        self.closing = true;
    }

    /// Whether the closing delay ending ends the session: spectators stay until the
    /// engine's output is drained.
    pub fn ends_on_close(&self, observer: bool) -> (res: bool)
        ensures
            res == (self.closing && !observer),
    {
        self.closing && !observer
    }

    /// A client resumes: it is taken only while the seat is kept, no client is connected
    /// and the room is not closing, and only where the join packets were seen; it is
    /// then connected but not checked.
    pub fn on_resume(&mut self, packets_seen: bool) -> (res: ResumeAction)
        ensures
            res == if old(self).closing || old(self).link.live || !old(self).seat_kept {
                ResumeAction::Ignore
            } else if !packets_seen {
                ResumeAction::End
            } else {
                ResumeAction::Accept
            },
            res == ResumeAction::Accept ==> final(self).link.live && !final(self).link.verified,
            res != ResumeAction::Accept ==> final(self).link == old(self).link,
            final(self).seat_kept == old(self).seat_kept,
            final(self).closing == old(self).closing,
            final(self).queued == old(self).queued,
    {
        if self.closing || self.link.live || !self.seat_kept {
            ResumeAction::Ignore
        } else if !packets_seen {
            ResumeAction::End
        } else {
            self.link.resume();
            ResumeAction::Accept
        }
    }

    /// A resumed client's message before its deck was checked (see
    /// `ClientLink::check_input`); a restore ends the kept seat.
    pub fn on_unchecked_input(&mut self, record: &RoomRecord, id: u64, message: &ClientMessage) -> (res: Option<
        ResumeRoute,
    >)
        requires
            old(self).link.live,
            record.wf(),
        ensures
            old(self).link.verified ==> res is None && final(self).link == old(self).link && final(self).seat_kept
                == old(self).seat_kept,
            !old(self).link.verified ==> ({
                let route = spec_resume_route(*record, id, *message);
                &&& res == Some(route)
                &&& final(self).link.verified == (route is Restore)
                &&& final(self).link.live == !(route is Drop || route is Refuse)
                &&& final(self).seat_kept == (old(self).seat_kept && !(route is Restore))
            }),
            final(self).closing == old(self).closing,
            final(self).queued == old(self).queued,
    {
        let res = self.link.check_input(record, id, message);
        match res {
            Some(ResumeRoute::Restore(_)) => {
                self.seat_kept = false;
            },
            _ => {},
        }
        res
    }

    /// Engine output for the client, as frames (the message, then any welcome lines):
    /// withheld unless a checked client is connected; queued behind earlier frames for a
    /// spectator; otherwise sent now.
    pub fn on_output(&mut self, frames: Vec<Vec<u8>>, observer: bool) -> (res: OutputDelivery)
        ensures
            final(self).link == old(self).link,
            final(self).seat_kept == old(self).seat_kept,
            final(self).closing == old(self).closing,
            !(old(self).link.live && old(self).link.verified) ==> res is Withhold && final(self).queued
                == old(self).queued,
            old(self).link.live && old(self).link.verified && observer ==> res is Queued && frame_views(
                final(self).queued@,
            ) == frame_views(old(self).queued@) + frame_views(frames@),
            old(self).link.live && old(self).link.verified && !observer ==> (res matches OutputDelivery::Send(f)
                && f@ == frames@) && final(self).queued == old(self).queued,
    {
        if !self.link.delivers() {
            return OutputDelivery::Withhold;
        }
        if observer {
            let ghost before = self.queued@;
            let mut k: usize = 0;
            while k < frames.len()
                invariant
                    k <= frames@.len(),
                    frame_views(self.queued@) == frame_views(before) + frame_views(frames@.take(k as int)),
                    self.link == old(self).link,
                    self.seat_kept == old(self).seat_kept,
                    self.closing == old(self).closing,
                decreases frames@.len() - k,
            {
                let ghost mid = self.queued@;
                self.queued.push(frames[k].clone());
                assert(frame_views(frames@.take(k + 1)) =~= frame_views(frames@.take(k as int)).push(frames@[k as int]@));
                assert(frame_views(self.queued@) =~= frame_views(mid).push(frames@[k as int]@));
                k = k + 1;
            }
            assert(frames@.take(frames@.len() as int) =~= frames@);
            OutputDelivery::Queued
        } else {
            OutputDelivery::Send(frames)
        }
    }

    /// The client can take one more frame: the oldest queued one.
    pub fn next_queued(&mut self) -> (res: Option<Vec<u8>>)
        ensures
            old(self).queued@.len() > 0 ==> (res matches Some(f) && f@ == old(self).queued@[0]@) && frame_views(
                final(self).queued@,
            ) == frame_views(old(self).queued@).drop_first(),
            old(self).queued@.len() == 0 ==> res is None && final(self).queued@.len() == 0,
            final(self).link == old(self).link,
            final(self).seat_kept == old(self).seat_kept,
            final(self).closing == old(self).closing,
    {
        if self.queued.len() == 0 {
            return None;
        }
        let ghost before = self.queued@;
        let f = self.queued.remove(0);
        assert(frame_views(self.queued@) =~= frame_views(before).drop_first());
        Some(f)
    }
}

/// Engine output for the client: the step when the link lets it through, nothing while
/// no client is connected or a resumed client has not handed in the seat's deck.
pub fn deliver(link: &ClientLink, step: OutputStep) -> (res: Option<OutputStep>)
    ensures
        link.live && link.verified ==> res == Some(step),
        !(link.live && link.verified) ==> res is None,
{
    if link.delivers() {
        Some(step)
    } else {
        None
    }
}

/// A resumed client sees no engine output and reaches the engine with nothing until the
/// seat's deck checks it: the link lets a client through only once `check_input` met a
/// restore, and the only message that restores is the deck the seat was kept for.
pub proof fn lemma_only_the_deck_restores(record: RoomRecord, id: u64, message: ClientMessage)
    ensures
        spec_resume_route(record, id, message) is Restore <==> (message matches ClientMessage::UpdateDeck { deck }
            && spec_resume_slot(record, id, deck) is Some),
{
}

/// Index `j` is the first connected connection at position `target`.
pub open spec fn first_at(players: Seq<(u64, PlayerRecord)>, target: Netplayer, j: int) -> bool {
    &&& 0 <= j < players.len()
    &&& players[j].1.connected && players[j].1.position == target
    &&& forall|k: int| 0 <= k < j ==> !(#[trigger] players[k].1.connected && players[k].1.position == target)
}

/// A duelist the host kicked: the connection, how it is connected, and its seat.
#[derive(Clone, Copy, Debug, PartialEq, Eq, Structural)]
pub struct Kick {
    pub id: u64,
    pub protocol: Protocol,
    pub pos: Netplayer,
}

/// The connection the server drops after the host of a waiting room kicked the duelist
/// seat `target`: the first connected connection in that seat. UDP clients are told to
/// leave; others are closed.
pub open spec fn spec_kick(record: RoomRecord, kicker: u64, target: Netplayer) -> Option<Kick> {
    if target is Player && record.stage == DuelStage::Begin && (player_index(record.players@, kicker) matches Some(k)
        && record.players@[k].1.is_host) && exists|j: int| first_at(record.players@, target, j) {
        let j = choose|j: int| first_at(record.players@, target, j);
        Some(Kick { id: record.players@[j].0, protocol: record.players@[j].1.protocol, pos: target })
    } else {
        None
    }
}

proof fn lemma_first_at_unique(players: Seq<(u64, PlayerRecord)>, target: Netplayer, a: int, b: int)
    requires
        first_at(players, target, a),
        first_at(players, target, b),
    ensures
        a == b,
{
    if a < b {
        assert(players[a].1.connected && players[a].1.position == target);
    } else if b < a {
        assert(players[b].1.connected && players[b].1.position == target);
    }
}

/// The connection to drop after the host kicked seat `target` (see `spec_kick`).
pub fn kick_target(record: &RoomRecord, kicker: u64, target: Netplayer) -> (res: Option<Kick>)
    requires
        record.wf(),
    ensures
        res == spec_kick(*record, kicker, target),
{
    let duelist = match target {
        Netplayer::Player(_) => true,
        _ => false,
    };
    if !duelist || record.stage != DuelStage::Begin {
        return None;
    }
    match record.find_player(kicker) {
        Some(k) => {
            if !record.players[k].1.is_host {
                return None;
            }
        },
        None => {
            return None;
        },
    }
    let n = record.players.len();
    let mut j: usize = 0;
    while j < n
        invariant
            n == record.players@.len(),
            j <= n,
            target is Player,
            record.stage == DuelStage::Begin,
            player_index(record.players@, kicker) matches Some(k) && record.players@[k].1.is_host,
            forall|k: int| 0 <= k < j ==> !(#[trigger] record.players@[k].1.connected && record.players@[k].1.position
                == target),
        decreases n - j,
    {
        let p = &record.players[j].1;
        if p.connected && p.position == target {
            proof {
                assert(first_at(record.players@, target, j as int));
                let c = choose|c: int| first_at(record.players@, target, c);
                lemma_first_at_unique(record.players@, target, c, j as int);
            }
            return Some(Kick { id: record.players[j].0, protocol: p.protocol, pos: target });
        }
        j = j + 1;
    }
    proof {
        if exists|c: int| first_at(record.players@, target, c) {
            let c = choose|c: int| first_at(record.players@, target, c);
            assert(record.players@[c].1.connected && record.players@[c].1.position == target);
        }
    }
    None
}

/// The message as the client gets it: in tournament rooms nobody is given host rights.
pub open spec fn masked(message: ServerMessage, tournament: bool) -> ServerMessage {
    match message {
        ServerMessage::TypeChange { player, host } => ServerMessage::TypeChange { player, host: host && !tournament },
        _ => message,
    }
}

/// What to do with a message of the engine for one client.
pub struct OutputStep {
    /// The message to pass on.
    pub message: ServerMessage,
    /// Send the welcome lines after it.
    pub welcome: bool,
    /// After a duel's end, the position a UDP client is told to leave from.
    pub leave: Option<Netplayer>,
}

/// The seats whose field is being resent, without `slot`.
pub open spec fn without_slot(refreshing: Seq<u8>, slot: u8) -> Seq<u8> {
    refreshing.filter(other_than(slot))
}

/// Seats other than `slot`.
pub open spec fn other_than(slot: u8) -> spec_fn(u8) -> bool {
    |s: u8| s != slot
}

impl RoomRecord {
    /// Marks that the field of seat `slot` is resent after a reconnect.
    pub fn start_refresh(&mut self, slot: u8)
        ensures
            final(self).refreshing@ == if old(self).refreshing@.contains(slot) {
                old(self).refreshing@
            } else {
                old(self).refreshing@.push(slot)
            },
            *final(self) == (RoomRecord { refreshing: final(self).refreshing, ..*old(self) }),
    {
        if !contains_slot(&self.refreshing, slot) {
            self.refreshing.push(slot);
        }
    }

    /// Marks that the field of seat `slot` was resent.
    pub fn end_refresh(&mut self, slot: u8)
        ensures
            final(self).refreshing@ == without_slot(old(self).refreshing@, slot),
            *final(self) == (RoomRecord { refreshing: final(self).refreshing, ..*old(self) }),
    {
        let ghost before = self.refreshing@;
        let mut kept: Vec<u8> = Vec::new();
        let mut i: usize = 0;
        while i < self.refreshing.len()
            invariant
                before == self.refreshing@,
                i <= before.len(),
                kept@ == before.take(i as int).filter(other_than(slot)),
            decreases before.len() - i,
        {
            proof {
                reveal(Seq::filter);
            }
            assert(before.take(i + 1).drop_last() =~= before.take(i as int));
            let s = self.refreshing[i];
            if s != slot {
                kept.push(s);
            }
            i = i + 1;
        }
        assert(before.take(before.len() as int) =~= before);
        self.refreshing = kept;
    }
}

fn contains_slot(list: &Vec<u8>, slot: u8) -> (res: bool)
    ensures
        res == list@.contains(slot),
{
    let mut i: usize = 0;
    while i < list.len()
        invariant
            i <= list@.len(),
            forall|j: int| 0 <= j < i ==> list@[j] != slot,
        decreases list@.len() - i,
    {
        if list[i] == slot {
            return true;
        }
        i = i + 1;
    }
    false
}

/// Handles a message the engine sends to connection `id`. Tournament rooms strip host
/// rights; the first `JoinGame` is followed by the welcome lines; the record observes
/// the message, except a duel start replayed while the seat's field is resent; a field
/// that was resent ends the refresh; the end of a duel gives the position to leave from;
/// and a seat change refreshes the room list.
pub fn on_engine_output(
    record: &mut RoomRecord,
    rooms: &mut RoomList,
    events: &mut RoomEvents,
    room_id: &String,
    id: u64,
    duel_number: &mut u32,
    welcomed: &mut bool,
    message: ServerMessage,
) -> (step: OutputStep)
    requires
        old(record).wf(),
        old(rooms).wf(),
        message is GameStart ==> *old(duel_number) < u32::MAX,
    ensures
        final(record).wf(),
        final(rooms).wf(),
        step.message == masked(message, old(record).tournament is Some),
        step.welcome == (!*old(welcomed) && message is JoinGame),
        *final(welcomed) == (*old(welcomed) || message is JoinGame),
        ({
            let slot = seat_of(old(record).players@, id);
            let replay = slot matches Some(s) && old(record).refreshing@.contains(s) && message is GameStart;
            &&& replay ==> *final(record) == *old(record) && *final(duel_number) == *old(duel_number)
            &&& !replay ==> output_observed(
                *old(record),
                RoomRecord { refreshing: old(record).refreshing, ..*final(record) },
                id,
                *old(duel_number),
                *final(duel_number),
                step.message,
            )
            &&& final(record).refreshing@ == match slot {
                Some(s) => if message is FieldFinish {
                    without_slot(old(record).refreshing@, s)
                } else {
                    old(record).refreshing@
                },
                None => old(record).refreshing@,
            }
        }),
        step.leave == if message is DuelEnd {
            position_of(final(record).players@, id)
        } else {
            None
        },
        message is TypeChange ==> list_refreshed(
            old(rooms)@,
            final(rooms)@,
            old(events).published(),
            final(events).published(),
            *final(record),
            room_id@,
        ),
        !(message is TypeChange) ==> final(rooms)@ == old(rooms)@ && final(events).published() == old(
            events,
        ).published(),
{
    let tournament = record.tournament.is_some();
    let message = match message {
        ServerMessage::TypeChange { player, host } => ServerMessage::TypeChange { player, host: host && !tournament },
        other => other,
    };
    let join = match message {
        ServerMessage::JoinGame => true,
        _ => false,
    };
    let welcome = !*welcomed && join;
    if join {
        *welcomed = true;
    }
    let slot = match find_position(record, id) {
        Some(Netplayer::Player(s)) => Some(s),
        _ => None,
    };
    let start = match message {
        ServerMessage::GameStart { .. } => true,
        _ => false,
    };
    let replay = match slot {
        Some(s) => start && contains_slot(&record.refreshing, s),
        None => false,
    };
    if !replay {
        record.observe_output(id, duel_number, &message);
    }
    match message {
        ServerMessage::FieldFinish => match slot {
            Some(s) => record.end_refresh(s),
            None => {},
        },
        _ => {},
    }
    let leave = match message {
        ServerMessage::DuelEnd => find_position(record, id),
        _ => None,
    };
    match message {
        ServerMessage::TypeChange { .. } => record.update_info(rooms, events, room_id),
        _ => {},
    }
    OutputStep { message, welcome, leave }
}

/// A chat line that asks for a tip: `/tips`, white space around it allowed.
pub open spec fn is_tips_command(text: Seq<char>) -> bool {
    trimmed(text) == seq!['/', 't', 'i', 'p', 's']
}

/// Whether a chat line asks for a tip.
pub fn tips_command(text: &str) -> (res: bool)
    ensures
        res == is_tips_command(text@),
{
    let all = chars_of(text);
    let t = trim(&all);
    let res = t.len() == 5 && t[0] == '/' && t[1] == 't' && t[2] == 'i' && t[3] == 'p' && t[4] == 's';
    proof {
        if res {
            assert(t@ =~= seq!['/', 't', 'i', 'p', 's']);
        }
    }
    res
}

/// Where a checked client's message goes.
pub enum InputRoute {
    /// The client leaves the room.
    Leave,
    /// The message is dropped.
    Ignore,
    /// A tournament room refuses the message; the client is told so.
    Refused,
    /// The client asked for a tip.
    Tips,
    /// The client asked for a WindBot, by name (empty for any bot).
    Bot(String),
    /// The message goes to the engine; then the kicked duelist, if any, is dropped.
    Forward(Option<Kick>),
}

/// Handles a message of a checked client, connection `id`: leaving ends the session; a
/// spectator's input is dropped once the room closes or left the list; tournament rooms
/// refuse seat changes, kicks, starts and new handshakes; `/tips` and `/ai` are answered
/// by the server; anything else is observed by the record and goes to the engine, chat
/// lines refreshing the room list.
pub fn on_client_input(
    record: &mut RoomRecord,
    rooms: &mut RoomList,
    events: &mut RoomEvents,
    room_id: &String,
    id: u64,
    message: &ClientMessage,
    closing: bool,
    listed: bool,
    now: u64,
) -> (route: InputRoute)
    requires
        old(record).wf(),
        old(rooms).wf(),
    ensures
        final(record).wf(),
        final(rooms).wf(),
        ({
            let observer = position_of(old(record).players@, id) matches Some(Netplayer::Observer(_));
            let unchanged = *final(record) == *old(record) && final(rooms)@ == old(rooms)@
                && final(events).published() == old(events).published();
            if *message is LeaveGame {
                route is Leave && unchanged
            } else if observer && (closing || !listed) {
                route is Ignore && unchanged
            } else if old(record).tournament is Some && spec_blocked_input(*message) {
                route is Refused && unchanged
            } else if *message matches ClientMessage::Chat { msg } && is_tips_command(msg@) {
                route is Tips && unchanged
            } else if *message matches ClientMessage::Chat { msg } && spec_ai_command(msg@) is Some {
                &&& unchanged
                &&& route matches InputRoute::Bot(name)
                &&& *message matches ClientMessage::Chat { msg }
                &&& spec_ai_command(msg@) == Some(name@)
            } else {
                &&& input_observed(*old(record), *final(record), id, *message, now)
                &&& *message is Chat ==> list_refreshed(
                    old(rooms)@,
                    final(rooms)@,
                    old(events).published(),
                    final(events).published(),
                    *final(record),
                    room_id@,
                )
                &&& !(*message is Chat) ==> final(rooms)@ == old(rooms)@ && final(events).published()
                    == old(events).published()
                &&& route matches InputRoute::Forward(kick) && kick == match *message {
                    ClientMessage::HsKick { pos } => spec_kick(*final(record), id, pos),
                    _ => None,
                }
            }
        }),
{
    match message {
        ClientMessage::LeaveGame => {
            return InputRoute::Leave;
        },
        _ => {},
    }
    let observer = match find_position(record, id) {
        Some(Netplayer::Observer(_)) => true,
        _ => false,
    };
    if observer && (closing || !listed) {
        return InputRoute::Ignore;
    }
    if record.tournament.is_some() && blocked_input(message) {
        return InputRoute::Refused;
    }
    match message {
        ClientMessage::Chat { msg } => {
            if tips_command(msg.as_str()) {
                return InputRoute::Tips;
            }
            match ai_command(msg.as_str()) {
                Some(name) => {
                    return InputRoute::Bot(name);
                },
                None => {},
            }
        },
        _ => {},
    }
    record.observe_input(id, message, now);
    match message {
        ClientMessage::Chat { .. } => record.update_info(rooms, events, room_id),
        _ => {},
    }
    let kick = match message {
        ClientMessage::HsKick { pos } => kick_target(record, id, *pos),
        _ => None,
    };
    InputRoute::Forward(kick)
}

impl RoomRecord {
    /// Gives connection `id` its seat back after a checked reconnect, over `protocol`.
    pub fn resume(&mut self, id: u64, protocol: Protocol)
        requires
            old(self).wf(),
        ensures
            final(self).wf(),
            final(self).players@.len() == old(self).players@.len(),
            forall|j: int| 0 <= j < old(self).players@.len() ==> {
                let (oid, op) = #[trigger] old(self).players@[j];
                let (nid, np) = final(self).players@[j];
                &&& nid == oid
                &&& oid != id ==> np == op
                &&& oid == id ==> np == (PlayerRecord { connected: true, protocol, ..op })
            },
            *final(self) == (RoomRecord { players: final(self).players, ..*old(self) }),
    {
        match self.find_player(id) {
            None => {
                proof {
                    assert forall|j: int| 0 <= j < self.players@.len() implies self.players@[j].0 != id by {
                        if self.players@[j].0 == id {
                            assert(player_index(self.players@, id) is Some);
                        }
                    }
                }
            },
            Some(i) => {
                let ghost before = self.players@;
                self.players[i].1.connected = true;
                self.players[i].1.protocol = protocol;
                proof {
                    assert forall|a: int, b: int| 0 <= a < b < self.players@.len() implies #[trigger] self.players@[a].0
                        < #[trigger] self.players@[b].0 by {
                        assert(self.players@[a].0 == before[a].0);
                        assert(self.players@[b].0 == before[b].0);
                    }
                    assert forall|j: int| 0 <= j < before.len() && before[j].0 == id implies j == i by {
                        if j < i {
                            assert(before[j].0 < before[i as int].0);
                        } else if j > i {
                            assert(before[i as int].0 < before[j].0);
                        }
                    }
                }
            },
        }
    }
}

} // verus!
