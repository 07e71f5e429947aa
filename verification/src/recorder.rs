use vstd::prelude::*;
use crate::duel::{CorePlayer, DuelStage};
use crate::history::{HistoryRecord, spec_winner_slot};
use crate::room::{RoomRecord, same_setting};
use crate::text::{decimal, push_chars, push_decimal, chars_of};

verus! {

// ---------------------------------------------------------------------------
// The history of a room: each duel's players, decks and winner, fixed when it starts.
// ---------------------------------------------------------------------------

/// A duelist as the history records them: name and deck, as text.
pub struct Entrant {
    pub name: String,
    pub deck: String,
}

impl RoomRecord {
    /// Starts the history of a single duel between `a` (seat 0) and `b` (seat 1);
    /// `first` is the seat that goes first (seat 0 when not decided), `replay_start`
    /// where the duel's messages begin.
    pub fn begin_single(&mut self, a: Entrant, b: Entrant, first: Option<u8>, replay_start: usize)
        ensures
            final(self).current_history == Some(HistoryRecord {
                player_a: a.name,
                player_b: b.name,
                deck_a: a.deck,
                deck_b: b.deck,
                player_c: None,
                player_d: None,
                deck_c: None,
                deck_d: None,
                winner_id: None,
                room_id: old(self).room_id,
                first_attack_slot: match first {
                    Some(f) => f,
                    None => 0,
                },
                replay_start,
            }),
            *final(self) == (RoomRecord { current_history: final(self).current_history, ..*old(self) }),
    {
        let first_attack_slot = match first {
            Some(f) => f,
            None => 0,
        };
        self.current_history = Some(HistoryRecord {
            player_a: a.name,
            player_b: b.name,
            deck_a: a.deck,
            deck_b: b.deck,
            player_c: None,
            player_d: None,
            deck_c: None,
            deck_d: None,
            winner_id: None,
            room_id: self.room_id.clone(),
            first_attack_slot,
            replay_start,
        });
    }

    /// Starts the history of a tag duel: team A is `a` and partner `a_tag` (seats 0 and 1),
    /// team B is `b` and partner `b_tag` (seats 2 and 3). The history keeps sides A and B
    /// as in single duels, so the side that goes first is the first team's leader seat
    /// halved (team A when not decided).
    pub fn begin_tag(
        &mut self,
        a: Entrant,
        a_tag: Entrant,
        b: Entrant,
        b_tag: Entrant,
        first_leader: Option<u8>,
        replay_start: usize,
    )
        ensures
            final(self).current_history == Some(HistoryRecord {
                player_a: a.name,
                player_b: b.name,
                deck_a: a.deck,
                deck_b: b.deck,
                player_c: Some(a_tag.name),
                player_d: Some(b_tag.name),
                deck_c: Some(a_tag.deck),
                deck_d: Some(b_tag.deck),
                winner_id: None,
                room_id: old(self).room_id,
                first_attack_slot: match first_leader {
                    Some(l) => l / 2,
                    None => 0,
                },
                replay_start,
            }),
            *final(self) == (RoomRecord { current_history: final(self).current_history, ..*old(self) }),
    {
        let first_attack_slot = match first_leader {
            Some(l) => l / 2,
            None => 0,
        };
        self.current_history = Some(HistoryRecord {
            player_a: a.name,
            player_b: b.name,
            deck_a: a.deck,
            deck_b: b.deck,
            player_c: Some(a_tag.name),
            player_d: Some(b_tag.name),
            deck_c: Some(a_tag.deck),
            deck_d: Some(b_tag.deck),
            winner_id: None,
            room_id: self.room_id.clone(),
            first_attack_slot,
            replay_start,
        });
    }

    /// Records the winner of the running duel, if a duel is recorded.
    pub fn end_duel(&mut self, winner: CorePlayer)
        ensures
            match old(self).current_history {
                Some(h) => final(self).current_history == Some(
                    HistoryRecord { winner_id: spec_winner_slot(h.first_attack_slot, winner), ..h },
                ),
                None => final(self).current_history is None,
            },
            *final(self) == (RoomRecord { current_history: final(self).current_history, ..*old(self) }),
    {
        match &mut self.current_history {
            Some(h) => h.set_winner(winner),
            None => {},
        }
    }

    /// Closes the duel's history when its replay is generated: the record moves to the
    /// room's history, where tournament scores are counted, and is handed out to be stored.
    pub fn close_duel(&mut self) -> (res: Option<HistoryRecord>)
        ensures
            res == old(self).current_history,
            final(self).current_history is None,
            final(self).history@ == match old(self).current_history {
                Some(h) => old(self).history@.push(h),
                None => old(self).history@,
            },
            *final(self) == (RoomRecord {
                current_history: final(self).current_history,
                history: final(self).history,
                ..*old(self)
            }),
    {
        let mut taken: Option<HistoryRecord> = None;
        std::mem::swap(&mut taken, &mut self.current_history);
        match taken {
            Some(h) => {
                self.history.push(h.duplicate());
                Some(h)
            },
            None => None,
        }
    }
}

// ---------------------------------------------------------------------------
// Keeping rooms alive and ending them
// ---------------------------------------------------------------------------

/// The seats whose duelist has not finished siding, when the side-deck timer of duel
/// `round` fires during duel `duel_count`; none when the room moved on.
pub open spec fn spec_overdue(stage: DuelStage, duel_count: u8, round: u8, ready: Seq<Option<bool>>) -> Seq<u8>
    decreases ready.len(),
{
    if round != duel_count || stage != DuelStage::Siding || ready.len() == 0 {
        Seq::empty()
    } else {
        let rest = spec_overdue(stage, duel_count, round, ready.drop_last());
        if ready.last() == Some(false) { rest.push((ready.len() - 1) as u8) } else { rest }
    }
}

/// The seats whose duelist has not finished siding (see `spec_overdue`); `ready` holds,
/// for each seat, whether its duelist is ready, `None` for an empty seat.
pub fn overdue(stage: DuelStage, duel_count: u8, round: u8, ready: &Vec<Option<bool>>) -> (res: Vec<u8>)
    requires
        ready@.len() <= 256,
    ensures
        res@ == spec_overdue(stage, duel_count, round, ready@),
{
    let mut res: Vec<u8> = Vec::new();
    if round != duel_count || stage != DuelStage::Siding {
        return res;
    }
    let mut i: usize = 0;
    while i < ready.len()
        invariant
            i <= ready@.len() <= 256,
            round == duel_count && stage == DuelStage::Siding,
            res@ == spec_overdue(stage, duel_count, round, ready@.take(i as int)),
        decreases ready@.len() - i,
    {
        assert(ready@.take(i + 1).drop_last() =~= ready@.take(i as int));
        if ready[i] == Some(false) {
            res.push(i as u8);
        }
        i = i + 1;
    }
    assert(ready@.take(ready@.len() as int) =~= ready@);
    res
}

impl RoomRecord {
    /// Ends the room by force: a tournament match is marked aborted (no result is
    /// reported), and the room is over.
    pub fn terminate(&mut self)
        ensures
            final(self).stage == DuelStage::End,
            final(self).tournament == match old(self).tournament {
                Some(room) => Some(crate::tournament::Room { aborted: true, ..room }),
                None => None,
            },
            *final(self) == (RoomRecord { stage: final(self).stage, tournament: final(self).tournament, ..*old(self) }),
    {
        match &mut self.tournament {
            Some(room) => {
                room.aborted = true;
            },
            None => {},
        }
        self.stage = DuelStage::End;
    }
}

/// An interrupted room tells its clients the duel ended when one had started: during
/// rock-paper-scissors, choosing who goes first, a duel or siding.
pub fn interrupt_ends_duel(stage: DuelStage) -> (res: bool)
    ensures
        res == (stage == DuelStage::Finger || stage == DuelStage::Firstgo || stage == DuelStage::Dueling || stage
            == DuelStage::Siding),
{
    stage == DuelStage::Finger || stage == DuelStage::Firstgo || stage == DuelStage::Dueling || stage
        == DuelStage::Siding
}

/// What a duelist who took back their seat is sent, besides their seat and the seated
/// players.
#[derive(Clone, Copy, Debug, PartialEq, Eq, Structural)]
pub enum ResumePlan {
    /// During a duel: the field is resent (and the seat marked as refreshing).
    Field,
    /// Siding, not ready yet: the side-deck screen.
    Siding,
    /// Between duels: the duel screen, then the prompt they were answering, if any.
    DuelScreen { select_hand: bool, select_tp: bool },
    /// Waiting or over: nothing more.
    Nothing,
}

/// What to resend to a duelist who took back their seat, given the room's stage, whether
/// they are ready, and whether they were choosing a hand or who goes first.
pub fn resume_plan(stage: DuelStage, ready: bool, select_hand: bool, select_tp: bool) -> (res: ResumePlan)
    ensures
        stage == DuelStage::Dueling ==> res == ResumePlan::Field,
        stage == DuelStage::Siding && !ready ==> res == ResumePlan::Siding,
        (stage == DuelStage::Finger || stage == DuelStage::Firstgo || (stage == DuelStage::Siding && ready)) ==> res
            == (ResumePlan::DuelScreen { select_hand, select_tp }),
        (stage == DuelStage::Begin || stage == DuelStage::End) ==> res == ResumePlan::Nothing,
{
    match stage {
        DuelStage::Dueling => ResumePlan::Field,
        DuelStage::Siding => if !ready {
            ResumePlan::Siding
        } else {
            ResumePlan::DuelScreen { select_hand, select_tp }
        },
        DuelStage::Finger | DuelStage::Firstgo => ResumePlan::DuelScreen { select_hand, select_tp },
        _ => ResumePlan::Nothing,
    }
}


/// The notice when siding starts with a time limit of `seconds`: finish siding within
/// that many seconds, or the room ends. None without a limit or outside siding.
pub fn side_notice(seconds: u64, stage: DuelStage) -> (res: Option<String>)
    ensures
        seconds == 0 || stage != DuelStage::Siding ==> res is None,
        seconds != 0 && stage == DuelStage::Siding ==> (res matches Some(t) && t@ == seq!['请', '在', ' '] + decimal(
            seconds as nat,
        ) + seq![' ', '秒', '内', '完', '成', '换', '副', '，', '超', '时', '将', '结', '束', '房', '间', '。']),
{
    if seconds == 0 || stage != DuelStage::Siding {
        return None;
    }
    let mut t = "请在 ".to_owned();
    proof {
        reveal_strlit("请在 ");
        reveal_strlit(" 秒内完成换副，超时将结束房间。");
    }
    push_decimal(&mut t, seconds);
    push_chars(&mut t, &chars_of(" 秒内完成换副，超时将结束房间。"));
    assert(t@ =~= seq!['请', '在', ' '] + decimal(seconds as nat) + seq![
        ' ',
        '秒',
        '内',
        '完',
        '成',
        '换',
        '副',
        '，',
        '超',
        '时',
        '将',
        '结',
        '束',
        '房',
        '间',
        '。',
    ]);
    Some(t)
}

} // verus!
