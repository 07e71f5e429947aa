use vstd::prelude::*;
use crate::duel::CorePlayer;

verus! {

/// What a finished duel leaves in the history: players and decks as they stood when it
/// started (so that siding, reconnects and seat changes do not alter it), its winner and
/// the room it was played in.
#[derive(Clone, Debug)]
pub struct HistoryRecord {
    pub player_a: String,
    pub player_b: String,
    pub deck_a: String,
    pub deck_b: String,
    pub player_c: Option<String>,
    pub player_d: Option<String>,
    pub deck_c: Option<String>,
    pub deck_d: Option<String>,
    /// 0 when side A won, 1 when side B won.
    pub winner_id: Option<u8>,
    pub room_id: String,
    /// The side (0 or 1) that went first.
    pub first_attack_slot: u8,
    /// Where this duel's messages begin in the room's message log.
    pub replay_start: usize,
}

/// The side that won, given who went first and which core player won.
pub open spec fn spec_winner_slot(first_attack_slot: u8, winner: CorePlayer) -> Option<u8> {
    match winner {
        CorePlayer::FirstAttackPlayer => Some(first_attack_slot),
        CorePlayer::SecondAttackPlayer => Some(first_attack_slot ^ 1u8),
        CorePlayer::Neither => None,
    }
}

/// The side that won, given who went first and which core player won.
pub fn winner_slot(first_attack_slot: u8, winner: CorePlayer) -> (res: Option<u8>)
    ensures
        res == spec_winner_slot(first_attack_slot, winner),
{
    match winner {
        CorePlayer::FirstAttackPlayer => Some(first_attack_slot),
        CorePlayer::SecondAttackPlayer => Some(first_attack_slot ^ 1u8),
        CorePlayer::Neither => None,
    }
}

impl HistoryRecord {
    /// Records the end of the duel: the winning side, derived from who went first.
    pub fn set_winner(&mut self, winner: CorePlayer)
        ensures
            *final(self) == (HistoryRecord {
                winner_id: spec_winner_slot(old(self).first_attack_slot, winner),
                ..*old(self)
            }),
    {
        self.winner_id = winner_slot(self.first_attack_slot, winner);
    }

    /// The name stored as the winner: side A for 0, side B for 1, nobody otherwise.
    pub fn winner_name(&self) -> (res: Option<String>)
        ensures
            res == match self.winner_id {
                Some(0) => Some(self.player_a),
                Some(1) => Some(self.player_b),
                _ => None::<String>,
            },
    {
        match self.winner_id {
            Some(0) => Some(self.player_a.clone()),
            Some(1) => Some(self.player_b.clone()),
            _ => None,
        }
    }
}

/// The side that went second won exactly when the side that went first did not.
pub proof fn lemma_winner_sides(first_attack_slot: u8)
    requires
        first_attack_slot < 2,
    ensures
        spec_winner_slot(first_attack_slot, CorePlayer::FirstAttackPlayer) != spec_winner_slot(
            first_attack_slot,
            CorePlayer::SecondAttackPlayer,
        ),
        spec_winner_slot(first_attack_slot, CorePlayer::SecondAttackPlayer)->0 < 2,
{
    assert(first_attack_slot ^ 1u8 != first_attack_slot) by (bit_vector);
    assert(first_attack_slot < 2 ==> (first_attack_slot ^ 1u8) < 2) by (bit_vector);
}


fn copy_opt(s: &Option<String>) -> (r: Option<String>)
    ensures
        r == *s,
{
    match s {
        Some(t) => Some(t.clone()),
        None => None,
    }
}

impl HistoryRecord {
    /// An equal copy.
    pub fn duplicate(&self) -> (r: HistoryRecord)
        ensures
            r == *self,
    {
        HistoryRecord {
            player_a: self.player_a.clone(),
            player_b: self.player_b.clone(),
            deck_a: self.deck_a.clone(),
            deck_b: self.deck_b.clone(),
            player_c: copy_opt(&self.player_c),
            player_d: copy_opt(&self.player_d),
            deck_c: copy_opt(&self.deck_c),
            deck_d: copy_opt(&self.deck_d),
            winner_id: self.winner_id,
            room_id: self.room_id.clone(),
            first_attack_slot: self.first_attack_slot,
            replay_start: self.replay_start,
        }
    }
}

} // verus!
