use vstd::prelude::*;
use unicode_normalization::UnicodeNormalization;
use crate::deck::{Deck, DeckError, decode_deck, spec_decode_deck};
use crate::duel::{ClientMessage, DuelStage, HostInfo, Mode, default_host_info};
use crate::history::HistoryRecord;
use crate::room::{RoomRecord, contains_id, player_index};
use crate::password::{Password, PasswordError, last_hash, spec_parse};
use vstd::string::StringSliceAdditionalSpecFns;
use vstd::utf8::encode_utf8;
use crate::text::{
    all_digits, blank, chars_of, is_blank, decimal, digits_value, eq_chars, is_digit, lemma_decimal_digits,
    lemma_decimal_no, parse_digits, push_char, push_chars, push_decimal, split_by2, split_chars,
    string_of, sub_chars, views,
};

verus! {

// ---------------------------------------------------------------------------
// Data read from the bracket service
// ---------------------------------------------------------------------------

/// A tournament as the bracket service reports it.
#[derive(Clone, Debug)]
pub struct Tournament {
    pub id: u64,
    pub participants: Vec<ParticipantEntry>,
    pub matches: Vec<MatchEntry>,
}

/// One entry of the participant list.
#[derive(Clone, Debug)]
pub struct ParticipantEntry {
    pub participant: Participant,
}

/// A registered participant.
#[derive(Clone, Debug)]
pub struct Participant {
    pub id: u64,
    pub name: String,
    pub quit: bool,
    /// The registered deck: base64 of UpdateDeck data.
    pub deckbuf: Option<String>,
}

/// One entry of the match list.
#[derive(Clone, Debug)]
pub struct MatchEntry {
    pub match_info: Match,
}

/// A match of the bracket.
#[derive(Clone, Debug)]
pub struct Match {
    pub id: u64,
    pub state: String,
    pub player1_id: Option<u64>,
    pub player2_id: Option<u64>,
    pub winner_id: Option<Winner>,
}

/// The winner of a match: a participant, or a tie.
#[derive(Clone, Debug)]
pub enum Winner {
    Player(u64),
    Tie(String),
}

/// The result reported for a match: `"<wins of player 1>-<wins of player 2>"` and the winner.
#[derive(Clone, Debug)]
pub struct Score {
    pub scores_csv: String,
    pub winner_id: Winner,
}

// ---------------------------------------------------------------------------
// Room keys
// ---------------------------------------------------------------------------

/// The room key of a tournament match: the match id for best-of-one, `M#<id>` for
/// best-of-three and `BO<n>#<id>` otherwise.
pub open spec fn spec_room_id(bo: u8, match_id: u64) -> Seq<char> {
    if bo == 1 {
        decimal(match_id as nat)
    } else if bo == 3 {
        seq!['M', '#'] + decimal(match_id as nat)
    } else {
        seq!['B', 'O'] + decimal(bo as nat) + seq!['#'] + decimal(match_id as nat)
    }
}

/// The room key of a tournament match (see `spec_room_id`).
pub fn room_id(bo: u8, match_id: u64) -> (res: String)
    ensures
        res@ == spec_room_id(bo, match_id),
{
    let mut res = String::new();
    if bo == 1 {
    } else if bo == 3 {
        push_char(&mut res, 'M');
        push_char(&mut res, '#');
    } else {
        push_char(&mut res, 'B');
        push_char(&mut res, 'O');
        push_decimal(&mut res, bo as u64);
        push_char(&mut res, '#');
    }
    push_decimal(&mut res, match_id);
    assert(res@ =~= spec_room_id(bo, match_id));
    res
}

proof fn lemma_last_hash_append(s: Seq<char>, t: Seq<char>)
    requires
        !t.contains('#'),
    ensures
        last_hash(s + t) == last_hash(s),
    decreases t.len(),
{
    if t.len() > 0 {
        assert((s + t).drop_last() =~= s + t.drop_last());
        assert((s + t).last() == t.last());
        assert(t.last() == t[t.len() - 1]);
        assert(!t.drop_last().contains('#')) by {
            if t.drop_last().contains('#') {
                let j = choose|j: int| 0 <= j < t.drop_last().len() && t.drop_last()[j] == '#';
                assert(t[j] == '#');
            }
        }
        lemma_last_hash_append(s, t.drop_last());
    } else {
        assert(s + t =~= s);
    }
}

proof fn lemma_last_hash_end(s: Seq<char>)
    requires
        s.len() > 0,
        s.last() == '#',
    ensures
        last_hash(s) == s.len() - 1,
{
}

/// The part of a room key after its last `#` (the whole key when it has none).
pub open spec fn key_tail(key: Seq<char>) -> Seq<char> {
    key.subrange(last_hash(key) + 1, key.len() as int)
}

proof fn lemma_room_id_tail(bo: u8, id: u64)
    ensures
        key_tail(spec_room_id(bo, id)) == decimal(id as nat),
{
    let d = decimal(id as nat);
    lemma_decimal_no(id as nat, '#');
    let key = spec_room_id(bo, id);
    if bo == 1 {
        lemma_last_hash_append(Seq::<char>::empty(), d);
        assert(Seq::<char>::empty() + d =~= d);
        assert(last_hash(Seq::<char>::empty()) == -1);
        assert(key.subrange(0, key.len() as int) =~= d);
    } else {
        let prefix = if bo == 3 {
            seq!['M', '#']
        } else {
            seq!['B', 'O'] + decimal(bo as nat) + seq!['#']
        };
        assert(key =~= prefix + d);
        lemma_last_hash_append(prefix, d);
        lemma_last_hash_end(prefix);
        assert(key.subrange(prefix.len() as int, key.len() as int) =~= d);
    }
}

/// The match id a tournament room key names, if it names one.
pub fn parse_room_id(bo: u8, key: &Vec<char>) -> (res: Option<u64>)
    ensures
        match res {
            Some(id) => spec_room_id(bo, id) == key@,
            None => forall|id: u64| spec_room_id(bo, id) != key@,
        },
{
    let n = key.len();
    let mut i: usize = n;
    assert(key@.subrange(0, i as int) =~= key@);
    while i > 0 && key[i - 1] != '#'
        invariant
            i <= n == key@.len(),
            last_hash(key@) == last_hash(key@.subrange(0, i as int)),
        decreases i,
    {
        assert(key@.subrange(0, i as int).drop_last() =~= key@.subrange(0, i - 1));
        i = i - 1;
    }
    proof {
        if i == 0 {
            assert(key@.subrange(0, 0) =~= Seq::<char>::empty());
        } else {
            assert(key@.subrange(0, i as int).last() == '#');
        }
    }
    assert(last_hash(key@) == i - 1);
    let tail = sub_chars(key, i, n);
    assert(tail@ == key_tail(key@));
    let mut all = tail.len() > 0;
    let mut j: usize = 0;
    while j < tail.len()
        invariant
            j <= tail@.len(),
            all ==> forall|k: int| 0 <= k < j ==> is_digit(#[trigger] tail@[k]),
            all ==> tail@.len() > 0,
            !all ==> tail@.len() == 0 || exists|k: int| 0 <= k < j && !is_digit(#[trigger] tail@[k]),
        decreases tail.len() - j,
    {
        if !(tail[j] >= '0' && tail[j] <= '9') {
            all = false;
        }
        j = j + 1;
    }
    if !all {
        proof {
            assert forall|id: u64| spec_room_id(bo, id) != key@ by {
                if spec_room_id(bo, id) == key@ {
                    lemma_room_id_tail(bo, id);
                    lemma_decimal_digits(id as nat);
                    if tail@.len() > 0 {
                        let k = choose|k: int| 0 <= k < tail@.len() && !is_digit(#[trigger] tail@[k]);
                        assert(is_digit(decimal(id as nat)[k]));
                    }
                }
            }
        }
        return None;
    }
    match parse_digits(&tail, u64::MAX) {
        None => {
            proof {
                assert forall|id: u64| spec_room_id(bo, id) != key@ by {
                    if spec_room_id(bo, id) == key@ {
                        lemma_room_id_tail(bo, id);
                        lemma_decimal_digits(id as nat);
                    }
                }
            }
            None
        },
        Some(id) => {
            let rendered = chars_of(room_id(bo, id).as_str());
            if eq_chars(&rendered, key) {
                Some(id)
            } else {
                proof {
                    assert forall|other: u64| spec_room_id(bo, other) != key@ by {
                        if spec_room_id(bo, other) == key@ {
                            lemma_room_id_tail(bo, other);
                            lemma_decimal_digits(other as nat);
                        }
                    }
                }
                None
            }
        },
    }
}

/// A room key names exactly the match it was made for.
pub proof fn lemma_room_id_injective(bo: u8, a: u64, b: u64)
    requires
        spec_room_id(bo, a) == spec_room_id(bo, b),
    ensures
        a == b,
{
    lemma_room_id_tail(bo, a);
    lemma_room_id_tail(bo, b);
    lemma_decimal_digits(a as nat);
    lemma_decimal_digits(b as nat);
}

// ---------------------------------------------------------------------------
// Registered names
// ---------------------------------------------------------------------------

/// The Unicode canonical composition (NFC) of a string, as
/// `unicode_normalization::UnicodeNormalization::nfc` computes it.
pub uninterp spec fn nfc(s: Seq<char>) -> Seq<char>;

/// Normalizes a string to NFC with `unicode_normalization`'s `nfc`; the normal form is
/// named by `nfc`, not restated. Besides, 7-bit ASCII text neither decomposes nor composes,
/// so it comes back as it is.
#[verifier::external_body]
fn normalize(s: &str) -> (res: String)
    ensures
        res@ == nfc(s@),
        vstd::utf8::is_ascii_chars(s@) ==> res@ == s@,
{
    s.nfc().collect()
}

/// `c` equals the ASCII character `lower` or its upper-case letter `upper`.
pub open spec fn ascii_either(c: char, lower: char, upper: char) -> bool {
    c == lower || c == upper
}

/// The string ends with `.ydk` in any ASCII case.
pub open spec fn ends_with_ydk(s: Seq<char>) -> bool {
    s.len() >= 4 && s[s.len() - 4] == '.' && ascii_either(s[s.len() - 3], 'y', 'Y')
        && ascii_either(s[s.len() - 2], 'd', 'D') && ascii_either(s[s.len() - 1], 'k', 'K')
}

/// The name with every trailing `.ydk` removed, and how many were removed.
pub open spec fn strip_ydk(s: Seq<char>) -> (Seq<char>, nat)
    decreases s.len(),
{
    if ends_with_ydk(s) {
        let (base, n) = strip_ydk(s.subrange(0, s.len() - 4));
        (base, n + 1)
    } else {
        (s, 0)
    }
}

/// Whether a player's name matches a registered name: equal after NFC normalization, with
/// up to two `.ydk` suffixes ignored on the registration; a registration `A+B` (ASCII or
/// full-width plus) with two non-empty parts matches either part.
pub open spec fn spec_name_matches(registered: Seq<char>, name: Seq<char>) -> bool {
    let (base, extensions) = strip_ydk(registered);
    let reg = nfc(if extensions > 2 { registered } else { base });
    let nm = nfc(name);
    if reg == nm {
        true
    } else if extensions > 2 {
        false
    } else {
        let parts = split_by2(reg, '+', '＋');
        parts.len() == 2 && parts[0].len() > 0 && parts[1].len() > 0 && (parts[0] == nm || parts[1]
            == nm)
    }
}

fn ends_ydk(s: &Vec<char>, len: usize) -> (res: bool)
    requires
        len <= s@.len(),
    ensures
        res == ends_with_ydk(s@.subrange(0, len as int)),
{
    len >= 4 && s[len - 4] == '.' && (s[len - 3] == 'y' || s[len - 3] == 'Y') && (s[len - 2]
        == 'd' || s[len - 2] == 'D') && (s[len - 1] == 'k' || s[len - 1] == 'K')
}

/// `spec_name_matches` for ASCII names, which NFC leaves as they are.
pub open spec fn ascii_name_matches(registered: Seq<char>, name: Seq<char>) -> bool {
    let (base, extensions) = strip_ydk(registered);
    let reg = if extensions > 2 { registered } else { base };
    if reg == name {
        true
    } else if extensions > 2 {
        false
    } else {
        let parts = split_by2(reg, '+', '＋');
        parts.len() == 2 && parts[0].len() > 0 && parts[1].len() > 0 && (parts[0] == name || parts[1]
            == name)
    }
}

/// Whether a player's name matches a registered name (see `spec_name_matches`); on ASCII
/// names, without normalizing (see `ascii_name_matches`).
pub fn name_matches(registered: &str, name: &str) -> (res: bool)
    ensures
        res == spec_name_matches(registered@, name@),
        vstd::utf8::is_ascii_chars(registered@) && vstd::utf8::is_ascii_chars(name@) ==> res
            == ascii_name_matches(registered@, name@),
{
    let chars = chars_of(registered);
    let mut len: usize = chars.len();
    let mut extensions: usize = 0;
    assert(chars@.subrange(0, len as int) =~= chars@);
    while ends_ydk(&chars, len)
        invariant
            len <= chars@.len() <= usize::MAX,
            extensions <= chars@.len() - len,
            strip_ydk(chars@) == ({
                let (b, k) = strip_ydk(chars@.subrange(0, len as int));
                (b, (k + extensions) as nat)
            }),
        decreases len,
    {
        assert(chars@.subrange(0, len as int).subrange(0, len - 4) =~= chars@.subrange(
            0,
            len - 4,
        ));
        len = len - 4;
        extensions = extensions + 1;
    }
    let base = sub_chars(&chars, 0, len);
    let reg_source = if extensions > 2 { string_of(&chars) } else { string_of(&base) };
    proof {
        if vstd::utf8::is_ascii_chars(registered@) {
            assert forall|i: int| 0 <= i < reg_source@.len() implies '\0' <= #[trigger] reg_source@[i] <= '\u{7f}' by {
                assert(reg_source@[i] == chars@[i]);
            }
        }
    }
    let reg = chars_of(normalize(reg_source.as_str()).as_str());
    let nm = chars_of(normalize(name).as_str());
    if eq_chars(&reg, &nm) {
        return true;
    }
    if extensions > 2 {
        return false;
    }
    let parts = split_chars(&reg, '+', '＋');
    proof {
        assert(views(parts@).len() == parts@.len());
    }
    if parts.len() != 2 {
        return false;
    }
    assert(views(parts@)[0] == parts@[0]@ && views(parts@)[1] == parts@[1]@);
    parts[0].len() > 0 && parts[1].len() > 0 && (eq_chars(&parts[0], &nm) || eq_chars(
        &parts[1],
        &nm,
    ))
}

// ---------------------------------------------------------------------------
// Copies with known contents
// ---------------------------------------------------------------------------

fn copy_string(s: &String) -> (r: String)
    ensures
        r == *s,
{
    s.clone()
}

fn copy_opt_string(s: &Option<String>) -> (r: Option<String>)
    ensures
        r == *s,
{
    match s {
        Some(v) => Some(copy_string(v)),
        None => None,
    }
}

impl Participant {
    /// An equal copy.
    pub fn duplicate(&self) -> (r: Participant)
        ensures
            r == *self,
    {
        Participant {
            id: self.id,
            name: copy_string(&self.name),
            quit: self.quit,
            deckbuf: copy_opt_string(&self.deckbuf),
        }
    }
}

impl Winner {
    /// An equal copy.
    pub fn duplicate(&self) -> (r: Winner)
        ensures
            r == *self,
    {
        match self {
            Winner::Player(id) => Winner::Player(*id),
            Winner::Tie(s) => Winner::Tie(copy_string(s)),
        }
    }
}

impl Match {
    /// An equal copy.
    pub fn duplicate(&self) -> (r: Match)
        ensures
            r == *self,
    {
        Match {
            id: self.id,
            state: copy_string(&self.state),
            player1_id: self.player1_id,
            player2_id: self.player2_id,
            winner_id: match &self.winner_id {
                Some(w) => Some(w.duplicate()),
                None => None,
            },
        }
    }
}

impl Score {
    /// An equal copy.
    pub fn duplicate(&self) -> (r: Score)
        ensures
            r == *self,
    {
        Score { scores_csv: copy_string(&self.scores_csv), winner_id: self.winner_id.duplicate() }
    }
}

// ---------------------------------------------------------------------------
// Admission to a tournament room
// ---------------------------------------------------------------------------

/// The tournament settings of the server.
#[derive(Clone, Debug)]
pub struct TournamentConfig {
    pub enabled: bool,
    /// Base address of the bracket service.
    pub url: String,
    /// API key of the bracket service.
    pub token: String,
    pub tournament_id: u64,
    /// Duels per match: an odd number from 1 to 253.
    pub bo: u8,
    /// Seconds a request to the bracket service may take: 1 to 60.
    pub timeout: u64,
    /// Players must bring the deck they registered.
    pub check_deck: bool,
    /// Results are reported to the bracket service.
    pub post_score: bool,
}

/// Why a player was not admitted to a tournament room.
#[derive(Clone, Copy, Debug, PartialEq, Eq, Structural)]
pub enum TournamentError {
    /// The room password could not be read.
    Password(PasswordError),
    /// No API key is configured.
    NoToken,
    /// No tournament is configured.
    NoTournamentId,
    /// The configured best-of is not an odd number from 1 to 253.
    BadBestOf,
    /// The configured timeout is not 1 to 60 seconds.
    BadTimeout,
    /// The bracket service answered with another tournament.
    ForeignTournament,
    /// The match of an existing room left the bracket.
    MatchGone,
    /// No participant has the player's name.
    NotParticipant,
    /// Several participants have the player's name.
    AmbiguousName,
    /// The player does not play the match of the requested room.
    WrongPlayer,
    /// The match of the requested room is not open or its players are not decided.
    NotPlayable,
    /// The player has no open match.
    NoMatch,
    /// The player has several open matches.
    SeveralMatches,
    /// Both sides of the match are the same participant.
    SamePlayers,
    /// A player of the match is not registered or has quit.
    OpponentMissing,
    /// The player registered no deck although decks are checked.
    NoDeck,
    /// The registered deck cannot be read.
    Deck(DeckError),
    /// A room with the match's key exists and is no tournament room.
    RoomTaken,
    /// The room was opened for another configuration or pairing of the match.
    BracketChanged,
    /// The match's duel has started; the player must reconnect instead.
    MatchStarted,
    /// The player's seat is held by a connection that is still there or reconnecting.
    AlreadyJoined,
}

/// The configuration is usable for tournament rooms.
pub open spec fn config_error(config: TournamentConfig) -> Option<TournamentError> {
    if is_blank(config.token@) {
        Some(TournamentError::NoToken)
    } else if config.tournament_id == 0 {
        Some(TournamentError::NoTournamentId)
    } else if !(1 <= config.bo <= 253 && config.bo % 2 == 1) {
        Some(TournamentError::BadBestOf)
    } else if !(1 <= config.timeout <= 60) {
        Some(TournamentError::BadTimeout)
    } else {
        None
    }
}

/// Which match a join asks for: `None` when the request is not for a tournament room;
/// `Some(None)` when the player asks for whatever match is theirs (empty password);
/// `Some(Some(id))` for the room key of match `id`.
pub open spec fn spec_target(enabled: bool, bo: u8, pass: Seq<char>) -> Result<
    Option<Option<u64>>,
    TournamentError,
> {
    if !enabled {
        Ok(None)
    } else if pass.len() == 0 {
        Ok(Some(None))
    } else {
        match spec_parse(pass) {
            Err(e) => Err(TournamentError::Password(e)),
            Ok((key, _, _, _)) => match key {
                None => Ok(None),
                Some(k) => if exists|id: u64| spec_room_id(bo, id) == k {
                    Ok(Some(Some(choose|id: u64| spec_room_id(bo, id) == k)))
                } else {
                    Ok(None)
                },
            },
        }
    }
}

/// The first index in `i..n` where `p` holds.
pub open spec fn first_from(i: int, n: int, p: spec_fn(int) -> bool) -> Option<int>
    decreases n - i,
{
    if i >= n {
        None
    } else if p(i) {
        Some(i)
    } else {
        first_from(i + 1, n, p)
    }
}

proof fn lemma_first_from(i: int, n: int, p: spec_fn(int) -> bool)
    ensures
        match first_from(i, n, p) {
            Some(k) => i <= k < n && p(k) && forall|j: int| i <= j < k ==> !#[trigger] p(j),
            None => forall|j: int| i <= j < n ==> !#[trigger] p(j),
        },
    decreases n - i,
{
    if i < n && !p(i) {
        lemma_first_from(i + 1, n, p);
    }
}

/// The participant at index `i` may be the player named `name`.
pub open spec fn eligible(t: Tournament, name: Seq<char>, i: int) -> bool {
    let p = t.participants@[i].participant;
    !p.quit && spec_name_matches(p.name@, name)
}

/// Match `i` has id `id`.
pub open spec fn target_pred(t: Tournament, id: u64) -> spec_fn(int) -> bool {
    |i: int| t.matches@[i].match_info.id == id
}

/// Participant `i` may be the player named `name`.
pub open spec fn eligible_pred(t: Tournament, name: Seq<char>) -> spec_fn(int) -> bool {
    |i: int| eligible(t, name, i)
}

/// Match `i` is playable and played by `player`.
pub open spec fn candidate_pred(t: Tournament, player: u64) -> spec_fn(int) -> bool {
    |i: int| playable(t.matches@[i].match_info) && plays(t.matches@[i].match_info, player)
}

/// Participant `i` is the active participant with id `id`.
pub open spec fn participant_pred(t: Tournament, id: Option<u64>) -> spec_fn(int) -> bool {
    |i: int| participant_is(t, id, i)
}

/// `pending`
pub open spec fn pending_word() -> Seq<char> {
    seq!['p', 'e', 'n', 'd', 'i', 'n', 'g']
}

/// `open`
pub open spec fn open_word() -> Seq<char> {
    seq!['o', 'p', 'e', 'n']
}

/// A match that can be played now: pending or open, undecided, with both players known.
pub open spec fn playable(m: Match) -> bool {
    &&& (m.state@ == pending_word() || m.state@ == open_word())
    &&& m.winner_id is None
    &&& (m.player1_id matches Some(a) && a > 0)
    &&& (m.player2_id matches Some(b) && b > 0)
}

/// Participant `player` plays match `m`.
pub open spec fn plays(m: Match, player: u64) -> bool {
    m.player1_id == Some(player) || m.player2_id == Some(player)
}

/// The participant at index `i` is the active participant with id `id`.
pub open spec fn participant_is(t: Tournament, id: Option<u64>, i: int) -> bool {
    Some(t.participants@[i].participant.id) == id && !t.participants@[i].participant.quit
}

/// What admission decides: the index of the match, the indices of its two participants,
/// the player's seat (0 for player 1, 1 for player 2) and the registered deck when decks
/// are checked; `None` when the request turns out not to be for a tournament room.
pub open spec fn spec_admission(
    config: TournamentConfig,
    t: Tournament,
    name: Seq<char>,
    target: Option<u64>,
    pinned: bool,
) -> Result<Option<(int, int, int, int, Option<(Seq<u32>, Seq<u32>)>)>, TournamentError> {
    let np = t.participants@.len() as int;
    let nm = t.matches@.len() as int;
    let target_index = match target {
        Some(id) => first_from(0, nm, target_pred(t, id)),
        None => None,
    };
    let first = first_from(0, np, eligible_pred(t, name));
    if t.id != config.tournament_id {
        Err(TournamentError::ForeignTournament)
    } else if target is Some && target_index is None && !pinned {
        Ok(None)
    } else if target is Some && target_index is None {
        Err(TournamentError::MatchGone)
    } else if first is None {
        Err(TournamentError::NotParticipant)
    } else if first_from(first->0 + 1, np, eligible_pred(t, name)) is Some {
        Err(TournamentError::AmbiguousName)
    } else {
        let player = t.participants@[first->0].participant;
        let candidate = candidate_pred(t, player.id);
        let chosen: Result<int, TournamentError> = if target is Some {
            let m = t.matches@[target_index->0].match_info;
            if !plays(m, player.id) {
                Err(TournamentError::WrongPlayer)
            } else if !playable(m) {
                Err(TournamentError::NotPlayable)
            } else {
                Ok(target_index->0)
            }
        } else {
            match first_from(0, nm, candidate) {
                None => Err(TournamentError::NoMatch),
                Some(k) => if first_from(k + 1, nm, candidate) is Some {
                    Err(TournamentError::SeveralMatches)
                } else {
                    Ok(k)
                },
            }
        };
        match chosen {
            Err(e) => Err(e),
            Ok(mi) => {
                let m = t.matches@[mi].match_info;
                let a = first_from(0, np, participant_pred(t, m.player1_id));
                let b = first_from(0, np, participant_pred(t, m.player2_id));
                if m.player1_id == m.player2_id {
                    Err(TournamentError::SamePlayers)
                } else if a is None || b is None {
                    Err(TournamentError::OpponentMissing)
                } else {
                    let slot = if m.player2_id == Some(player.id) { 1int } else { 0int };
                    if !config.check_deck {
                        Ok(Some((mi, a->0, b->0, slot, None)))
                    } else {
                        match player.deckbuf {
                            None => Err(TournamentError::NoDeck),
                            Some(text) => match spec_decode_deck(encode_utf8(text@)) {
                                Err(e) => Err(TournamentError::Deck(e)),
                                Ok(deck) => Ok(Some((mi, a->0, b->0, slot, Some(deck)))),
                            },
                        }
                    }
                }
            },
        }
    }
}

/// A player admitted to a tournament room, with the match they play.
#[derive(Debug)]
pub struct Admission {
    pub config: TournamentConfig,
    pub match_info: Match,
    pub participants: [Participant; 2],
    /// The player's seat: 0 for player 1 of the match, 1 for player 2.
    pub slot: usize,
    /// The registered deck, when decks are checked.
    pub deck: Option<Deck>,
    /// The room options: `BO<n>` of the tournament.
    pub options: Password,
}

/// The deck of an admission as plain sequences.
pub open spec fn deck_parts(deck: Option<Deck>) -> Option<(Seq<u32>, Seq<u32>)> {
    match deck {
        Some(d) => Some((d.main@, d.side@)),
        None => None,
    }
}

fn first_target(t: &Tournament, id: u64) -> (res: Option<usize>)
    ensures
        res == (match first_from(0, t.matches@.len() as int, target_pred(*t, id)) {
            Some(k) => Some(k as usize),
            None => None::<usize>,
        }),
{
    let ghost p = target_pred(*t, id);
    let n = t.matches.len();
    let mut i: usize = 0;
    while i < n
        invariant
            p == target_pred(*t, id),
            n == t.matches@.len(),
            i <= n,
            first_from(0, n as int, p) == first_from(i as int, n as int, p),
        decreases n - i,
    {
        let hit = t.matches[i].match_info.id == id;
        assert(hit == p(i as int));
        if hit {
            return Some(i);
        }
        i = i + 1;
    }
    None
}

fn first_eligible(t: &Tournament, name: &str, from: usize) -> (res: Option<usize>)
    requires
        from <= t.participants@.len(),
    ensures
        res == (match first_from(from as int, t.participants@.len() as int, eligible_pred(*t, name@)) {
            Some(k) => Some(k as usize),
            None => None::<usize>,
        }),
{
    let ghost p = eligible_pred(*t, name@);
    let n = t.participants.len();
    let mut i: usize = from;
    while i < n
        invariant
            p == eligible_pred(*t, name@),
            n == t.participants@.len(),
            from <= i <= n,
            first_from(from as int, n as int, p) == first_from(i as int, n as int, p),
        decreases n - i,
    {
        let entry = &t.participants[i];
        let hit = !entry.participant.quit && name_matches(entry.participant.name.as_str(), name);
        assert(hit == p(i as int));
        if hit {
            return Some(i);
        }
        i = i + 1;
    }
    None
}

fn is_playable(m: &Match) -> (res: bool)
    ensures
        res == playable(*m),
{
    let state = chars_of(m.state.as_str());
    let pending: Vec<char> = vec!['p', 'e', 'n', 'd', 'i', 'n', 'g'];
    let open: Vec<char> = vec!['o', 'p', 'e', 'n'];
    assert(pending@ =~= pending_word());
    assert(open@ =~= open_word());
    let state_ok = eq_chars(&state, &pending) || eq_chars(&state, &open);
    let p1 = match m.player1_id {
        Some(a) => a > 0,
        None => false,
    };
    let p2 = match m.player2_id {
        Some(b) => b > 0,
        None => false,
    };
    state_ok && m.winner_id.is_none() && p1 && p2
}

fn first_candidate(t: &Tournament, player: u64, from: usize) -> (res: Option<usize>)
    requires
        from <= t.matches@.len(),
    ensures
        res == (match first_from(from as int, t.matches@.len() as int, candidate_pred(*t, player)) {
            Some(k) => Some(k as usize),
            None => None::<usize>,
        }),
{
    let ghost p = candidate_pred(*t, player);
    let n = t.matches.len();
    let mut i: usize = from;
    while i < n
        invariant
            p == candidate_pred(*t, player),
            n == t.matches@.len(),
            from <= i <= n,
            first_from(from as int, n as int, p) == first_from(i as int, n as int, p),
        decreases n - i,
    {
        let m = &t.matches[i].match_info;
        let hit = is_playable(m) && (m.player1_id == Some(player) || m.player2_id == Some(player));
        assert(hit == p(i as int));
        if hit {
            return Some(i);
        }
        i = i + 1;
    }
    None
}

fn find_participant(t: &Tournament, id: Option<u64>) -> (res: Option<usize>)
    ensures
        res == (match first_from(0, t.participants@.len() as int, participant_pred(*t, id)) {
            Some(k) => Some(k as usize),
            None => None::<usize>,
        }),
{
    let ghost p = participant_pred(*t, id);
    let n = t.participants.len();
    let mut i: usize = 0;
    while i < n
        invariant
            p == participant_pred(*t, id),
            n == t.participants@.len(),
            i <= n,
            first_from(0, n as int, p) == first_from(i as int, n as int, p),
        decreases n - i,
    {
        let q = &t.participants[i].participant;
        let hit = Some(q.id) == id && !q.quit;
        assert(hit == p(i as int));
        if hit {
            return Some(i);
        }
        i = i + 1;
    }
    None
}

/// The room options of a tournament with the given best-of: `BO<bo>#`.
pub fn tournament_options(bo: u8) -> (res: Result<Password, PasswordError>)
    ensures
        match res {
            Ok(p) => spec_parse(seq!['B', 'O'] + decimal(bo as nat) + seq!['#']) == Ok::<_, PasswordError>(
                p.view_parts(),
            ) && p.host_info == (HostInfo {
                mode: p.host_info.mode,
                start_lp: p.host_info.start_lp,
                ..default_host_info()
            }),
            Err(e) => spec_parse(seq!['B', 'O'] + decimal(bo as nat) + seq!['#']) == Err::<
                (Option<Seq<char>>, Mode, u32, u8),
                _,
            >(e),
        },
{
    let mut pass = String::new();
    push_char(&mut pass, 'B');
    push_char(&mut pass, 'O');
    push_decimal(&mut pass, bo as u64);
    push_char(&mut pass, '#');
    assert(pass@ =~= seq!['B', 'O'] + decimal(bo as nat) + seq!['#']);
    Password::parse(pass.as_str())
}

/// Checks the tournament settings (see `config_error`).
pub fn check_config(config: &TournamentConfig) -> (res: Result<(), TournamentError>)
    ensures
        match config_error(*config) {
            Some(e) => res == Err::<(), TournamentError>(e),
            None => res is Ok,
        },
{
    if blank(&chars_of(config.token.as_str())) {
        return Err(TournamentError::NoToken);
    }
    if config.tournament_id == 0 {
        return Err(TournamentError::NoTournamentId);
    }
    if !(config.bo >= 1 && config.bo <= 253 && config.bo % 2 == 1) {
        return Err(TournamentError::BadBestOf);
    }
    if !(config.timeout >= 1 && config.timeout <= 60) {
        return Err(TournamentError::BadTimeout);
    }
    Ok(())
}

/// Decides which match a join asks for (see `spec_target`); `enabled` holds when
/// tournaments are enabled or an existing tournament room is being joined.
pub fn target(enabled: bool, bo: u8, pass: &str) -> (res: Result<Option<Option<u64>>, TournamentError>)
    ensures
        res == spec_target(enabled, bo, pass@),
{
    if !enabled {
        return Ok(None);
    }
    if pass.unicode_len() == 0 {
        return Ok(Some(None));
    }
    let options = match Password::parse(pass) {
        Ok(options) => options,
        Err(e) => {
            return Err(TournamentError::Password(e));
        },
    };
    match options.room_key {
        None => Ok(None),
        Some(key) => {
            let key_chars = chars_of(key.as_str());
            match parse_room_id(bo, &key_chars) {
                Some(id) => {
                    proof {
                        let k = key@;
                        assert(spec_room_id(bo, id) == k);
                        let c = choose|id: u64| spec_room_id(bo, id) == k;
                        lemma_room_id_injective(bo, c, id);
                    }
                    Ok(Some(Some(id)))
                },
                None => Ok(None),
            }
        },
    }
}

/// Decides admission to a tournament room from the bracket the service reported
/// (see `spec_admission`). `pinned` holds when an existing room is being joined, whose match
/// must still be in the bracket.
pub fn select_match(
    config: &TournamentConfig,
    options: Password,
    t: &Tournament,
    name: &str,
    target: Option<u64>,
    pinned: bool,
) -> (res: Result<Option<Admission>, TournamentError>)
    ensures
        match res {
            Ok(None) => spec_admission(*config, *t, name@, target, pinned) == Ok::<
                Option<(int, int, int, int, Option<(Seq<u32>, Seq<u32>)>)>,
                TournamentError,
            >(None),
            Ok(Some(a)) => spec_admission(*config, *t, name@, target, pinned) matches Ok(Some((mi, pa, pb, slot, deck)))
                && a.match_info == t.matches@[mi].match_info && a.participants@[0]
                == t.participants@[pa].participant && a.participants@[1]
                == t.participants@[pb].participant && a.slot == slot && deck_parts(a.deck) == deck
                && a.config == *config && a.options == options,
            Err(e) => spec_admission(*config, *t, name@, target, pinned) == Err::<
                Option<(int, int, int, int, Option<(Seq<u32>, Seq<u32>)>)>,
                TournamentError,
            >(e),
        },
{
    let np = t.participants.len();
    let nm = t.matches.len();
    if t.id != config.tournament_id {
        return Err(TournamentError::ForeignTournament);
    }
    let target_index = match target {
        Some(id) => {
            match first_target(t, id) {
                Some(k) => Some(k),
                None => {
                    if !pinned {
                        return Ok(None);
                    }
                    return Err(TournamentError::MatchGone);
                },
            }
        },
        None => None,
    };
    let first = match first_eligible(t, name, 0) {
        Some(k) => k,
        None => {
            return Err(TournamentError::NotParticipant);
        },
    };
    proof {
        lemma_first_from(0, np as int, eligible_pred(*t, name@));
    }
    if first_eligible(t, name, first + 1).is_some() {
        return Err(TournamentError::AmbiguousName);
    }
    let player = &t.participants[first].participant;
    let mi: usize = match target_index {
        Some(k) => {
            proof {
                lemma_first_from(0, nm as int, target_pred(*t, target->0));
            }
            let m = &t.matches[k].match_info;
            if !(m.player1_id == Some(player.id) || m.player2_id == Some(player.id)) {
                return Err(TournamentError::WrongPlayer);
            }
            if !is_playable(m) {
                return Err(TournamentError::NotPlayable);
            }
            k
        },
        None => {
            match first_candidate(t, player.id, 0) {
                None => {
                    return Err(TournamentError::NoMatch);
                },
                Some(k) => {
                    proof {
                        lemma_first_from(0, nm as int, candidate_pred(*t, player.id));
                    }
                    if first_candidate(t, player.id, k + 1).is_some() {
                        return Err(TournamentError::SeveralMatches);
                    }
                    k
                },
            }
        },
    };
    let m = &t.matches[mi].match_info;
    if m.player1_id == m.player2_id {
        return Err(TournamentError::SamePlayers);
    }
    let a = find_participant(t, m.player1_id);
    let b = find_participant(t, m.player2_id);
    if a.is_none() || b.is_none() {
        return Err(TournamentError::OpponentMissing);
    }
    let a = a.unwrap();
    let b = b.unwrap();
    proof {
        lemma_first_from(0, np as int, participant_pred(*t, m.player1_id));
        lemma_first_from(0, np as int, participant_pred(*t, m.player2_id));
    }
    let slot: usize = if m.player2_id == Some(player.id) { 1 } else { 0 };
    let deck = if config.check_deck {
        match &player.deckbuf {
            None => {
                return Err(TournamentError::NoDeck);
            },
            Some(text) => match decode_deck(text.as_str()) {
                Err(e) => {
                    return Err(TournamentError::Deck(e));
                },
                Ok(deck) => Some(deck),
            },
        }
    } else {
        None
    };
    let participants = [t.participants[a].participant.duplicate(), t.participants[b].participant.duplicate()];
    Ok(
        Some(
            Admission {
                config: config.duplicate(),
                match_info: m.duplicate(),
                participants,
                slot,
                deck,
                options,
            },
        ),
    )
}

impl TournamentConfig {
    /// An equal copy.
    pub fn duplicate(&self) -> (r: TournamentConfig)
        ensures
            r == *self,
    {
        TournamentConfig {
            enabled: self.enabled,
            url: copy_string(&self.url),
            token: copy_string(&self.token),
            tournament_id: self.tournament_id,
            bo: self.bo,
            timeout: self.timeout,
            check_deck: self.check_deck,
            post_score: self.post_score,
        }
    }
}

impl Admission {
    /// The room key of the admitted match (see `spec_room_id`).
    pub fn room_id(&self) -> (res: String)
        ensures
            res@ == spec_room_id(self.config.bo, self.match_info.id),
    {
        room_id(self.config.bo, self.match_info.id)
    }
}

// ---------------------------------------------------------------------------
// Tournament rooms
// ---------------------------------------------------------------------------

/// The tournament state of a room.
pub struct Room {
    pub config: TournamentConfig,
    pub match_info: Match,
    pub participants: [Participant; 2],
    /// Connection ids of the two players; assigned by the server, never by the client.
    pub seats: [Option<u64>; 2],
    pub decks: [Option<Deck>; 2],
    pub score: Option<Score>,
    /// The seat (0 or 1) that wins by forfeit.
    pub forfeit: Option<usize>,
    pub aborted: bool,
}

/// The seat held by a forfeit is 0 or 1.
pub open spec fn forfeit_ok(forfeit: Option<usize>) -> bool {
    forfeit matches Some(w) ==> w < 2
}

impl Admission {
    /// The tournament state of a new room for this match.
    pub fn create_room(&self) -> (room: Room)
        ensures
            room.config == self.config,
            room.match_info == self.match_info,
            room.participants == self.participants,
            room.seats == [None::<u64>, None::<u64>],
            room.decks[0] is None && room.decks[1] is None,
            room.score is None,
            room.forfeit is None,
            !room.aborted,
    {
        Room {
            config: self.config.duplicate(),
            match_info: self.match_info.duplicate(),
            participants: [self.participants[0].duplicate(), self.participants[1].duplicate()],
            seats: [None, None],
            decks: [None, None],
            score: None,
            forfeit: None,
            aborted: false,
        }
    }
}

/// Number of entries equal to `Some(slot)`.
pub open spec fn wins(winners: Seq<Option<u8>>, slot: u8) -> nat
    decreases winners.len(),
{
    if winners.len() == 0 {
        0
    } else {
        wins(winners.drop_last(), slot) + if winners.last() == Some(slot) { 1nat } else { 0nat }
    }
}

fn count_wins(winners: &Vec<Option<u8>>, slot: u8) -> (n: u32)
    requires
        winners@.len() <= u32::MAX,
    ensures
        n == wins(winners@, slot),
{
    let mut n: u32 = 0;
    let mut i: usize = 0;
    while i < winners.len()
        invariant
            i <= winners@.len() <= u32::MAX,
            n == wins(winners@.subrange(0, i as int), slot),
            n <= i,
        decreases winners.len() - i,
    {
        assert(winners@.subrange(0, i + 1).drop_last() =~= winners@.subrange(0, i as int));
        if winners[i] == Some(slot) {
            n = n + 1;
        }
        i = i + 1;
    }
    assert(winners@.subrange(0, winners@.len() as int) =~= winners@);
    n
}

/// Wins needed to take a best-of-`bo` match.
pub open spec fn needed(bo: u8) -> u32 {
    (bo / 2 + 1) as u32
}

/// The wins of both seats after a forfeit or a match-kill: the winning seat is raised to
/// the wins needed to take the match.
pub open spec fn raised(scores: (u32, u32), forced: Option<usize>, bo: u8) -> (u32, u32) {
    match forced {
        Some(0) => (if scores.0 >= needed(bo) { scores.0 } else { needed(bo) }, scores.1),
        Some(1) => (scores.0, if scores.1 >= needed(bo) { scores.1 } else { needed(bo) }),
        _ => scores,
    }
}

/// `"<a>-<b>"`
pub open spec fn csv(a: u32, b: u32) -> Seq<char> {
    decimal(a as nat) + seq!['-'] + decimal(b as nat)
}

fn score_text(a: u32, b: u32) -> (res: String)
    ensures
        res@ == csv(a, b),
{
    let mut res = String::new();
    push_decimal(&mut res, a as u64);
    push_char(&mut res, '-');
    push_decimal(&mut res, b as u64);
    assert(res@ =~= csv(a, b));
    res
}

fn raise(scores: (u32, u32), forced: Option<usize>, bo: u8) -> (res: (u32, u32))
    ensures
        res == raised(scores, forced, bo),
{
    let need: u32 = (bo / 2 + 1) as u32;
    match forced {
        Some(0) => (if scores.0 >= need { scores.0 } else { need }, scores.1),
        Some(1) => (scores.0, if scores.1 >= need { scores.1 } else { need }),
        _ => scores,
    }
}

/// What a finished match scores: wins counted per seat, a forced winner (forfeit, or the
/// last duel's winner after a match-kill card) raised to the wins needed; without a forced
/// winner the seat with more wins takes the match, and equal wins are a tie.
pub open spec fn spec_match_score(
    winners: Seq<Option<u8>>,
    forfeit: Option<usize>,
    match_kill: bool,
    bo: u8,
) -> ((u32, u32), Option<usize>) {
    let counted = (wins(winners, 0) as u32, wins(winners, 1) as u32);
    let forced = if forfeit is Some {
        forfeit
    } else if match_kill && winners.len() > 0 && winners.last() matches Some(w) {
        Some(winners.last()->0 as usize)
    } else {
        None
    };
    let scores = raised(counted, forced, bo);
    let winner = if forced is Some {
        forced
    } else if scores.0 > scores.1 {
        Some(0usize)
    } else if scores.0 < scores.1 {
        Some(1usize)
    } else {
        None
    };
    (scores, winner)
}

/// The player at `index` brings the deck registered for that seat.
pub open spec fn registered_deck_matches(room: Room, index: u8, deck: Option<&Deck>) -> bool {
    &&& index < 2
    &&& room.decks@[index as int] matches Some(registered)
    &&& deck matches Some(d)
    &&& crate::deck::same_deck_spec(room.decks@[index as int]->0, *deck->0)
}

impl Room {
    /// The score of the match when it ends, unless the room was aborted or nothing was
    /// decided (no duel finished and nobody forfeited). `duel_winner` holds the winning
    /// seat of every duel played, `None` for a draw; `match_kill` tells whether the last
    /// duel ended with a match-kill card.
    pub fn finish(&mut self, duel_winner: &Vec<Option<u8>>, match_kill: bool)
        requires
            forfeit_ok(old(self).forfeit),
            duel_winner@.len() <= u32::MAX,
            forall|i: int| 0 <= i < duel_winner@.len() ==> (#[trigger] duel_winner@[i] matches Some(w) ==> w < 2),
        ensures
            final(self).seats == old(self).seats,
            final(self).forfeit == old(self).forfeit,
            final(self).aborted == old(self).aborted,
            final(self).participants == old(self).participants,
            old(self).aborted || (duel_winner@.len() == 0 && old(self).forfeit is None)
                ==> final(self).score == old(self).score,
            !(old(self).aborted || (duel_winner@.len() == 0 && old(self).forfeit is None)) ==> {
                let (scores, winner) = spec_match_score(
                    duel_winner@,
                    old(self).forfeit,
                    match_kill,
                    old(self).config.bo,
                );
                &&& final(self).score matches Some(score)
                &&& score.scores_csv@ == csv(scores.0, scores.1)
                &&& match winner {
                    Some(w) => score.winner_id == Winner::Player(old(self).participants@[w as int].id),
                    None => score.winner_id matches Winner::Tie(t) && t@ == seq!['t', 'i', 'e'],
                }
            },
            (!old(self).aborted && old(self).forfeit is Some) ==> (final(self).score matches Some(score) && {
                let w = old(self).forfeit->0;
                let a = wins(duel_winner@, 0) as int;
                let b = wins(duel_winner@, 1) as int;
                let need = old(self).config.bo as int / 2 + 1;
                &&& score.winner_id == Winner::Player(old(self).participants@[w as int].id)
                &&& score.scores_csv@ == if w == 0 {
                    csv((if a >= need { a } else { need }) as u32, b as u32)
                } else {
                    csv(a as u32, (if b >= need { b } else { need }) as u32)
                }
            }),
    {
        if self.aborted || (duel_winner.len() == 0 && self.forfeit.is_none()) {
            return;
        }
        let counted = (count_wins(duel_winner, 0), count_wins(duel_winner, 1));
        let n = duel_winner.len();
        let forced: Option<usize> = if self.forfeit.is_some() {
            self.forfeit
        } else if match_kill && n > 0 {
            match duel_winner[n - 1] {
                Some(w) => Some(w as usize),
                None => None,
            }
        } else {
            None
        };
        let scores = raise(counted, forced, self.config.bo);
        proof {
            if forced is Some && self.forfeit is None {
                assert(duel_winner@[n - 1] matches Some(w) ==> w < 2);
            }
        }
        let winner: Option<usize> = if forced.is_some() {
            forced
        } else if scores.0 > scores.1 {
            Some(0)
        } else if scores.0 < scores.1 {
            Some(1)
        } else {
            None
        };
        let winner_id = match winner {
            Some(w) => Winner::Player(self.participants[w].id),
            None => {
                let tie: Vec<char> = vec!['t', 'i', 'e'];
                let text = string_of(&tie);
                Winner::Tie(text)
            },
        };
        self.score = Some(Score { scores_csv: score_text(scores.0, scores.1), winner_id });
    }

    /// The result to report for this room: `None` when scores are not reported or the room
    /// was aborted; otherwise the match id and the recorded score, or, when the match was
    /// left undecided by a forfeit, the forfeit score over the duels in `history`.
    pub fn report(&self, history: &Vec<HistoryRecord>) -> (res: Option<(u64, Score)>)
        requires
            forfeit_ok(self.forfeit),
            history@.len() <= u32::MAX,
        ensures
            !self.config.post_score || self.aborted ==> res is None,
            self.config.post_score && !self.aborted ==> match self.score {
                Some(score) => res == Some((self.match_info.id, score)),
                None => match self.forfeit {
                    None => res is None,
                    Some(w) => res matches Some((id, score)) && id == self.match_info.id && {
                        let winners = history@.map_values(|h: HistoryRecord| h.winner_id);
                        let scores = raised(
                            (wins(winners, 0) as u32, wins(winners, 1) as u32),
                            Some(w),
                            self.config.bo,
                        );
                        &&& score.scores_csv@ == csv(scores.0, scores.1)
                        &&& score.winner_id == Winner::Player(self.participants@[w as int].id)
                    },
                },
            },
            (self.config.post_score && !self.aborted && self.score is None && self.forfeit is Some) ==> (
            res matches Some((_, score)) && {
                let w = self.forfeit->0;
                let winners = history@.map_values(|h: HistoryRecord| h.winner_id);
                let a = wins(winners, 0) as int;
                let b = wins(winners, 1) as int;
                let need = self.config.bo as int / 2 + 1;
                score.scores_csv@ == if w == 0 {
                    csv((if a >= need { a } else { need }) as u32, b as u32)
                } else {
                    csv(a as u32, (if b >= need { b } else { need }) as u32)
                }
            }),
    {
        if !self.config.post_score || self.aborted {
            return None;
        }
        let score = match &self.score {
            Some(score) => score.duplicate(),
            None => {
                let w = match self.forfeit {
                    Some(w) => w,
                    None => {
                        return None;
                    },
                };
                let mut winners: Vec<Option<u8>> = Vec::new();
                let mut i: usize = 0;
                while i < history.len()
                    invariant
                        i <= history@.len(),
                        winners@ =~= history@.subrange(0, i as int).map_values(
                            |h: HistoryRecord| h.winner_id,
                        ),
                    decreases history.len() - i,
                {
                    winners.push(history[i].winner_id);
                    i = i + 1;
                    assert(winners@ =~= history@.subrange(0, i as int).map_values(
                        |h: HistoryRecord| h.winner_id,
                    ));
                }
                assert(history@.subrange(0, history@.len() as int) =~= history@);
                let counted = (count_wins(&winners, 0), count_wins(&winners, 1));
                let scores = raise(counted, Some(w), self.config.bo);
                Score {
                    scores_csv: score_text(scores.0, scores.1),
                    winner_id: Winner::Player(self.participants[w].id),
                }
            },
        };
        Some((self.match_info.id, score))
    }

    /// A player left mid-match: unless the room was aborted or already scored, the other
    /// seat wins by forfeit (a forfeit already recorded stands). Leaving while waiting or
    /// after the end, or from an empty seat, records nothing.
    pub fn leave(&mut self, stage: DuelStage, index: u8, seated: bool)
        requires
            index < 2,
            forfeit_ok(old(self).forfeit),
        ensures
            forfeit_ok(final(self).forfeit),
            final(self).score == old(self).score,
            final(self).aborted == old(self).aborted,
            final(self).seats == old(self).seats,
            final(self).forfeit == if stage != DuelStage::Begin && stage != DuelStage::End && seated
                && !old(self).aborted && old(self).score is None && old(self).forfeit is None {
                Some((1 - index) as usize)
            } else {
                old(self).forfeit
            },
    {
        if stage == DuelStage::Begin || stage == DuelStage::End || !seated {
            return;
        }
        if !self.aborted && self.score.is_none() && self.forfeit.is_none() {
            self.forfeit = Some((1 - index) as usize);
        }
    }

    /// After a player left: a room between duels (rock-paper-scissors, choosing who goes
    /// first, or siding) with a forfeit must end now, because no duel core runs to end it.
    pub fn ends_on_leave(&self, stage: DuelStage) -> (res: bool)
        ensures
            res == ((stage == DuelStage::Finger || stage == DuelStage::Firstgo || stage
                == DuelStage::Siding) && !self.aborted && self.forfeit is Some),
    {
        (stage == DuelStage::Finger || stage == DuelStage::Firstgo || stage == DuelStage::Siding)
            && !self.aborted && self.forfeit.is_some()
    }

    /// Whether a player at `index` may get ready with `deck`: always while decks are not
    /// checked or outside the waiting phase; otherwise only with the registered deck.
    pub fn deck_accepted(&self, stage: DuelStage, index: u8, deck: Option<&Deck>) -> (res: bool)
        ensures
            res == (stage != DuelStage::Begin || !self.config.check_deck || registered_deck_matches(
                *self,
                index,
                deck,
            )),
    {
        if stage != DuelStage::Begin || !self.config.check_deck {
            return true;
        }
        if index >= 2 {
            return false;
        }
        match (&self.decks[index as usize], deck) {
            (Some(registered), Some(d)) => crate::deck::same_deck(registered, d),
            _ => false,
        }
    }
}

/// A forfeit counts at least the wins needed to take the match for the winning seat and
/// leaves the other seat's wins as played.
pub proof fn lemma_forfeit_takes_match(scores: (u32, u32), w: usize, bo: u8)
    requires
        w < 2,
    ensures
        w == 0 ==> raised(scores, Some(w), bo).0 >= needed(bo) && raised(scores, Some(w), bo).1
            == scores.1,
        w == 1 ==> raised(scores, Some(w), bo).1 >= needed(bo) && raised(scores, Some(w), bo).0
            == scores.0,
{
}

/// A match whose state is the text `pending` or `open`, with no winner and both players
/// known (positive ids), can be played; any other cannot.
pub proof fn lemma_pending_or_open_playable(m: Match)
    ensures
        playable(m) <==> ((m.state@ == seq!['p', 'e', 'n', 'd', 'i', 'n', 'g'] || m.state@ == seq!['o', 'p', 'e', 'n'])
            && m.winner_id is None && (m.player1_id matches Some(a) && a > 0) && (m.player2_id matches Some(b) && b
            > 0)),
{
}

/// Admission refuses a requested match as not playable only when it is neither `pending`
/// nor `open`, is decided, or lacks a known player.
pub proof fn lemma_not_playable_refusal(
    config: TournamentConfig,
    t: Tournament,
    name: Seq<char>,
    target: Option<u64>,
    pinned: bool,
)
    requires
        spec_admission(config, t, name, target, pinned) == Err::<
            Option<(int, int, int, int, Option<(Seq<u32>, Seq<u32>)>)>,
            TournamentError,
        >(TournamentError::NotPlayable),
    ensures
        target is Some,
        first_from(0, t.matches@.len() as int, target_pred(t, target->0)) matches Some(k) && ({
            let m = t.matches@[k].match_info;
            !((m.state@ == seq!['p', 'e', 'n', 'd', 'i', 'n', 'g'] || m.state@ == seq!['o', 'p', 'e', 'n'])
                && m.winner_id is None && (m.player1_id matches Some(a) && a > 0) && (m.player2_id matches Some(b)
                && b > 0))
        }),
{
}

/// Admission finds no match for the player only when none of the bracket's matches that
/// the player plays is `pending` or `open`, undecided, with both players known.
pub proof fn lemma_no_match_refusal(
    config: TournamentConfig,
    t: Tournament,
    name: Seq<char>,
    target: Option<u64>,
    pinned: bool,
)
    requires
        spec_admission(config, t, name, target, pinned) == Err::<
            Option<(int, int, int, int, Option<(Seq<u32>, Seq<u32>)>)>,
            TournamentError,
        >(TournamentError::NoMatch),
    ensures
        target is None,
        first_from(0, t.participants@.len() as int, eligible_pred(t, name)) matches Some(p) && ({
            let id = t.participants@[p].participant.id;
            forall|i: int|
                0 <= i < t.matches@.len() ==> !({
                    let m = #[trigger] t.matches@[i].match_info;
                    &&& m.state@ == seq!['p', 'e', 'n', 'd', 'i', 'n', 'g'] || m.state@ == seq!['o', 'p', 'e', 'n']
                    &&& m.winner_id is None
                    &&& m.player1_id matches Some(a) && a > 0
                    &&& m.player2_id matches Some(b) && b > 0
                    &&& m.player1_id == Some(id) || m.player2_id == Some(id)
                })
        }),
{
    let np = t.participants@.len() as int;
    let nm = t.matches@.len() as int;
    let p = first_from(0, np, eligible_pred(t, name))->0;
    let id = t.participants@[p].participant.id;
    lemma_first_from(0, nm, candidate_pred(t, id));
    assert forall|i: int| 0 <= i < nm implies !({
        let m = #[trigger] t.matches@[i].match_info;
        &&& m.state@ == seq!['p', 'e', 'n', 'd', 'i', 'n', 'g'] || m.state@ == seq!['o', 'p', 'e', 'n']
        &&& m.winner_id is None
        &&& m.player1_id matches Some(a) && a > 0
        &&& m.player2_id matches Some(b) && b > 0
        &&& m.player1_id == Some(id) || m.player2_id == Some(id)
    }) by {
        assert(!candidate_pred(t, id)(i));
    }
}

/// After a forfeit or a match-kill the forced winner has at least the wins that take a
/// best-of-`bo` match, `bo / 2 + 1`, and the other seat keeps the wins it played.
pub proof fn lemma_forced_winner_raised(scores: (u32, u32), w: usize, bo: u8)
    requires
        w < 2,
    ensures
        w == 0 ==> raised(scores, Some(w), bo) == (
            if scores.0 as int >= bo as int / 2 + 1 { scores.0 } else { (bo as int / 2 + 1) as u32 },
            scores.1,
        ),
        w == 1 ==> raised(scores, Some(w), bo) == (
            scores.0,
            if scores.1 as int >= bo as int / 2 + 1 { scores.1 } else { (bo as int / 2 + 1) as u32 },
        ),
{
}

/// A match left by a forfeit goes to the forfeit's winner, who is counted at least
/// `bo / 2 + 1` wins; the other seat keeps the duels it won. A match ended by a match-kill
/// card goes the same way to the last duel's winner.
pub proof fn lemma_forced_match_score(winners: Seq<Option<u8>>, forfeit: Option<usize>, match_kill: bool, bo: u8)
    requires
        winners.len() <= u32::MAX,
        forfeit_ok(forfeit),
        forfeit is Some || (match_kill && winners.len() > 0 && (winners.last() matches Some(x) && x < 2)),
    ensures
        ({
            let w: int = if forfeit is Some { forfeit->0 as int } else { winners.last()->0 as int };
            let (scores, winner) = spec_match_score(winners, forfeit, match_kill, bo);
            let a = wins(winners, 0) as int;
            let b = wins(winners, 1) as int;
            let need = bo as int / 2 + 1;
            &&& winner == Some(w as usize)
            &&& scores.0 as int == if w == 0 && a < need { need } else { a }
            &&& scores.1 as int == if w == 1 && b < need { need } else { b }
        }),
{
    lemma_wins_bounded(winners, 0);
    lemma_wins_bounded(winners, 1);
}

proof fn lemma_wins_bounded(winners: Seq<Option<u8>>, slot: u8)
    ensures
        wins(winners, slot) <= winners.len(),
    decreases winners.len(),
{
    if winners.len() > 0 {
        lemma_wins_bounded(winners.drop_last(), slot);
    }
}

/// Two configurations name the same bracket with the same rules.
pub open spec fn same_config(a: TournamentConfig, b: TournamentConfig) -> bool {
    &&& a.enabled == b.enabled
    &&& a.url@ == b.url@
    &&& a.token@ == b.token@
    &&& a.tournament_id == b.tournament_id
    &&& a.bo == b.bo
    &&& a.timeout == b.timeout
    &&& a.check_deck == b.check_deck
    &&& a.post_score == b.post_score
}

fn configs_equal(a: &TournamentConfig, b: &TournamentConfig) -> (res: bool)
    ensures
        res == same_config(*a, *b),
{
    a.enabled == b.enabled && a.url == b.url && a.token == b.token && a.tournament_id == b.tournament_id
        && a.bo == b.bo && a.timeout == b.timeout && a.check_deck == b.check_deck && a.post_score
        == b.post_score
}

/// Why an admitted player may not enter the existing room `record` of their match, if
/// anything keeps them out: the room is no tournament room; it was opened for another
/// configuration or pairing; its duel has started; or the player's seat is held by a
/// connection in `reserved` (one that may still reconnect) or by a connected one.
pub open spec fn room_refusal(admission: Admission, record: RoomRecord, reserved: Seq<u64>) -> Option<TournamentError> {
    match record.tournament {
        None => Some(TournamentError::RoomTaken),
        Some(room) => if !(same_config(room.config, admission.config) && room.match_info.id == admission.match_info.id
            && room.match_info.player1_id == admission.match_info.player1_id
            && room.match_info.player2_id == admission.match_info.player2_id) {
            Some(TournamentError::BracketChanged)
        } else if record.stage != DuelStage::Begin {
            Some(TournamentError::MatchStarted)
        } else {
            match room.seats[admission.slot as int] {
                Some(id) => if reserved.contains(id) || (player_index(record.players@, id) matches Some(i)
                    && record.players@[i].1.connected) {
                    Some(TournamentError::AlreadyJoined)
                } else {
                    None
                },
                None => None,
            }
        },
    }
}

impl Admission {
    /// Whether the admitted player may enter the existing room of their match (see
    /// `room_refusal`).
    pub fn check_room(&self, record: &RoomRecord, reserved: &Vec<u64>) -> (res: Result<(), TournamentError>)
        requires
            self.slot < 2,
            record.wf(),
        ensures
            match room_refusal(*self, *record, reserved@) {
                Some(e) => res == Err::<(), TournamentError>(e),
                None => res is Ok,
            },
    {
        let room = match &record.tournament {
            None => {
                return Err(TournamentError::RoomTaken);
            },
            Some(room) => room,
        };
        if !(configs_equal(&room.config, &self.config) && room.match_info.id == self.match_info.id
            && room.match_info.player1_id == self.match_info.player1_id
            && room.match_info.player2_id == self.match_info.player2_id) {
            return Err(TournamentError::BracketChanged);
        }
        if record.stage != DuelStage::Begin {
            return Err(TournamentError::MatchStarted);
        }
        match room.seats[self.slot] {
            Some(id) => {
                let connected = match record.find_player(id) {
                    Some(i) => record.players[i].1.connected,
                    None => false,
                };
                if contains_id(reserved, id) || connected {
                    return Err(TournamentError::AlreadyJoined);
                }
            },
            None => {},
        }
        Ok(())
    }
}

/// Messages a tournament room keeps from the engine: the server seats the players and
/// starts the duel itself.
pub open spec fn spec_blocked_input(message: ClientMessage) -> bool {
    ||| message is CreateGame
    ||| message is PlayerInfo
    ||| message is JoinGame
    ||| message is HsKick
    ||| message is HsToObserver
    ||| message is HsToDuelist
    ||| message is HsStart
}

/// Whether a tournament room keeps this message from the engine.
pub fn blocked_input(message: &ClientMessage) -> (res: bool)
    ensures
        res == spec_blocked_input(*message),
{
    match message {
        ClientMessage::CreateGame | ClientMessage::PlayerInfo { .. } | ClientMessage::JoinGame { .. }
        | ClientMessage::HsKick { .. } | ClientMessage::HsToObserver | ClientMessage::HsToDuelist
        | ClientMessage::HsStart => true,
        _ => false,
    }
}

} // verus!
