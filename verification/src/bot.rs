use vstd::prelude::*;
use crate::duel::{DuelStage, Netplayer};
use crate::room::{RoomRecord, seated};
use crate::text::{chars_of, eq_chars, is_whitespace, string_of, sub_chars, trim, trimmed, whitespace};

verus! {

/// Why a WindBot cannot join a room now.
#[derive(Clone, Copy, Debug, PartialEq, Eq, Structural)]
pub enum BotError {
    /// Tournament rooms take no bots.
    Tournament,
    /// The duel has started.
    NotWaiting,
    /// Every duelist seat is taken.
    NoSeat,
    /// Bots join over TCP, which is off.
    NoTcp,
    /// WindBot is off.
    WindbotOff,
    /// A bot is already on its way to this room.
    Busy,
}

/// The text shown for each refusal.
pub open spec fn refusal_text(e: BotError) -> Seq<char> {
    match e {
        BotError::Tournament => "比赛房间不允许添加机器人"@,
        BotError::NotWaiting => "只能在等待开局时添加机器人"@,
        BotError::NoSeat => "房间没有空余对战席位"@,
        BotError::NoTcp => "添加 WindBot 需要启用 TCP 服务"@,
        BotError::WindbotOff => "WindBot 未启用"@,
        BotError::Busy => "正在添加机器人，请稍后再试"@,
    }
}

impl BotError {
    /// The text shown to the player who asked for the bot (see `refusal_text`); never
    /// empty.
    pub fn message(&self) -> (res: String)
        ensures
            res@ == refusal_text(*self),
            res@.len() > 0,
    {
        let text = match self {
            BotError::Tournament => "比赛房间不允许添加机器人",
            BotError::NotWaiting => "只能在等待开局时添加机器人",
            BotError::NoSeat => "房间没有空余对战席位",
            BotError::NoTcp => "添加 WindBot 需要启用 TCP 服务",
            BotError::WindbotOff => "WindBot 未启用",
            BotError::Busy => "正在添加机器人，请稍后再试",
        };
        proof {
            reveal_strlit("比赛房间不允许添加机器人");
            reveal_strlit("只能在等待开局时添加机器人");
            reveal_strlit("房间没有空余对战席位");
            reveal_strlit("添加 WindBot 需要启用 TCP 服务");
            reveal_strlit("WindBot 未启用");
            reveal_strlit("正在添加机器人，请稍后再试");
        }
        text.to_owned()
    }
}

/// The error, if any, that keeps a bot out of the room: tournament rooms first, then a
/// duel in progress, then a room whose duelist seats (twice the team size) are all taken
/// by connected players.
pub open spec fn bot_refusal(record: RoomRecord) -> Option<BotError> {
    if record.tournament is Some {
        Some(BotError::Tournament)
    } else if record.stage != DuelStage::Begin {
        Some(BotError::NotWaiting)
    } else if seated(record.players@).len() >= 2 * record.team_size {
        Some(BotError::NoSeat)
    } else {
        None
    }
}

/// Whether a bot may join the room now.
pub fn check_room(record: &RoomRecord) -> (res: Result<(), BotError>)
    ensures
        match bot_refusal(*record) {
            Some(e) => res == Err::<(), BotError>(e),
            None => res is Ok,
        },
{
    if record.tournament.is_some() {
        return Err(BotError::Tournament);
    }
    if record.stage != DuelStage::Begin {
        return Err(BotError::NotWaiting);
    }
    let n = record.players.len();
    let mut players: usize = 0;
    let mut i: usize = 0;
    while i < n
        invariant
            n == record.players@.len(),
            i <= n,
            players <= i,
            players == seated(record.players@.take(i as int)).len(),
        decreases n - i,
    {
        assert(record.players@.take(i + 1).drop_last() =~= record.players@.take(i as int));
        let p = &record.players[i].1;
        if p.connected {
            match p.position {
                Netplayer::Player(_) => {
                    players = players + 1;
                },
                _ => {},
            }
        }
        i = i + 1;
    }
    assert(record.players@.take(n as int) =~= record.players@);
    if players >= 2 * (record.team_size as usize) {
        return Err(BotError::NoSeat);
    }
    Ok(())
}

/// `/ai`, then either nothing or white space and the bot's name.
pub open spec fn spec_ai_command(text: Seq<char>) -> Option<Seq<char>> {
    let t = trimmed(text);
    if t.len() >= 3 && t[0] == '/' && t[1] == 'a' && t[2] == 'i' {
        let rest = t.skip(3);
        if rest.len() > 0 && !is_whitespace(rest[0]) {
            None
        } else {
            Some(trimmed(rest))
        }
    } else {
        None
    }
}

/// The bot name asked for by a chat line `/ai [name]` (empty for any bot); `None` when
/// the line is no such command.
pub fn ai_command(text: &str) -> (res: Option<String>)
    ensures
        match spec_ai_command(text@) {
            Some(name) => res matches Some(s) && s@ == name,
            None => res is None,
        },
{
    let all = chars_of(text);
    let t = trim(&all);
    if t.len() >= 3 && t[0] == '/' && t[1] == 'a' && t[2] == 'i' {
        let rest = sub_chars(&t, 3, t.len());
        assert(rest@ =~= t@.skip(3));
        if rest.len() > 0 && !whitespace(rest[0]) {
            None
        } else {
            Some(string_of(&trim(&rest)))
        }
    } else {
        None
    }
}

/// The password of a bot's one-time invitation starts with `~ai`.
pub open spec fn spec_is_invitation(pass: Seq<char>) -> bool {
    pass.len() >= 3 && pass[0] == '~' && pass[1] == 'a' && pass[2] == 'i'
}

/// Whether a password is a bot invitation.
pub fn is_invitation(pass: &str) -> (res: bool)
    ensures
        res == spec_is_invitation(pass@),
{
    let p = chars_of(pass);
    p.len() >= 3 && p[0] == '~' && p[1] == 'a' && p[2] == 'i'
}


/// Whether a bot may be asked for now: the room must take one (see `bot_refusal`), TCP and
/// WindBot must be on, and no other bot may be on its way to the room. The bot joins on
/// the TCP port, which is returned.
/// Whether a bot may be asked for now (see `prepare`).
pub open spec fn spec_prepare(record: RoomRecord, tcp_port: u16, windbot_port: u16, pending: bool) -> Result<
    u16,
    BotError,
> {
    match bot_refusal(record) {
        Some(e) => Err(e),
        None => if tcp_port == 0 {
            Err(BotError::NoTcp)
        } else if windbot_port == 0 {
            Err(BotError::WindbotOff)
        } else if pending {
            Err(BotError::Busy)
        } else {
            Ok(tcp_port)
        },
    }
}

pub fn prepare(record: &RoomRecord, tcp_port: u16, windbot_port: u16, pending: bool) -> (res: Result<u16, BotError>)
    ensures
        res == spec_prepare(*record, tcp_port, windbot_port, pending),
{
    match check_room(record) {
        Err(e) => {
            return Err(e);
        },
        Ok(()) => {},
    }
    if tcp_port == 0 {
        return Err(BotError::NoTcp);
    }
    if windbot_port == 0 {
        return Err(BotError::WindbotOff);
    }
    if pending {
        return Err(BotError::Busy);
    }
    Ok(tcp_port)
}

/// A lower-case hexadecimal digit.
pub open spec fn hex_lower(d: int) -> char {
    if d < 10 { ((0x30 + d) as u32) as char } else { ((0x61 + d - 10) as u32) as char }
}

/// The 16 hexadecimal digits of `n`, most significant first.
pub open spec fn hex16(n: u64) -> Seq<char> {
    Seq::new(16, |i: int| hex_lower(((n as int) / pow16(15 - i)) % 16))
}

/// 16 to the power `k`.
pub open spec fn pow16(k: int) -> int
    decreases k,
{
    if k <= 0 { 1 } else { 16 * pow16(k - 1) }
}

/// The password of a bot's one-time invitation: `~ai` and 16 hexadecimal digits of a
/// hash.
pub fn invitation_token(hash: u64) -> (res: String)
    ensures
        res@ == seq!['~', 'a', 'i'] + hex16(hash),
{
    let mut out: Vec<char> = Vec::new();
    out.push('~');
    out.push('a');
    out.push('i');
    let mut k: usize = 0;
    let mut div: u64 = 0x1000_0000_0000_0000;
    proof {
        reveal_with_fuel(pow16, 16);
        assert(div == pow16(15));
    }
    while k < 16
        invariant
            k <= 16,
            out@ == seq!['~', 'a', 'i'] + hex16(hash).take(k as int),
            k < 16 ==> div == pow16(15 - k as int),
            k < 16 ==> div > 0,
        decreases 16 - k,
    {
        let d = ((hash / div) % 16) as u32;
        let c = if d < 10 { char_of(0x30 + d) } else { char_of(0x61 + d - 10) };
        assert(c == hex_lower(((hash as int) / pow16(15 - k as int)) % 16));
        out.push(c);
        proof {
            if k < 15 {
                assert(pow16(15 - k as int) == 16 * pow16(15 - k - 1));
            }
        }
        if k < 15 {
            div = div / 16;
        }
        k = k + 1;
        assert(out@ =~= seq!['~', 'a', 'i'] + hex16(hash).take(k as int));
    }
    assert(hex16(hash).take(16) =~= hex16(hash));
    string_of(&out)
}

/// Two digits below 16 with the same lower-case hexadecimal character are equal.
proof fn lemma_hex_lower_injective(a: int, b: int)
    requires
        0 <= a < 16,
        0 <= b < 16,
        hex_lower(a) == hex_lower(b),
    ensures
        a == b,
{
    let ca = hex_lower(a) as u32;
    let cb = hex_lower(b) as u32;
    assert(ca == if a < 10 { 0x30 + a } else { 0x61 + a - 10 });
    assert(cb == if b < 10 { 0x30 + b } else { 0x61 + b - 10 });
}

/// Numbers whose 16 hexadecimal digits agree are equal.
proof fn lemma_nibbles_equal(a: u64, b: u64)
    by (bit_vector)
    requires
        a % 16 == b % 16,
        (a / 0x10) % 16 == (b / 0x10) % 16,
        (a / 0x100) % 16 == (b / 0x100) % 16,
        (a / 0x1000) % 16 == (b / 0x1000) % 16,
        (a / 0x1_0000) % 16 == (b / 0x1_0000) % 16,
        (a / 0x10_0000) % 16 == (b / 0x10_0000) % 16,
        (a / 0x100_0000) % 16 == (b / 0x100_0000) % 16,
        (a / 0x1000_0000) % 16 == (b / 0x1000_0000) % 16,
        (a / 0x1_0000_0000) % 16 == (b / 0x1_0000_0000) % 16,
        (a / 0x10_0000_0000) % 16 == (b / 0x10_0000_0000) % 16,
        (a / 0x100_0000_0000) % 16 == (b / 0x100_0000_0000) % 16,
        (a / 0x1000_0000_0000) % 16 == (b / 0x1000_0000_0000) % 16,
        (a / 0x1_0000_0000_0000) % 16 == (b / 0x1_0000_0000_0000) % 16,
        (a / 0x10_0000_0000_0000) % 16 == (b / 0x10_0000_0000_0000) % 16,
        (a / 0x100_0000_0000_0000) % 16 == (b / 0x100_0000_0000_0000) % 16,
        (a / 0x1000_0000_0000_0000) % 16 == (b / 0x1000_0000_0000_0000) % 16,
    ensures
        a == b,
{
}

/// The hexadecimal digit of `n` for 16 to the power `k`.
pub open spec fn nibble(n: u64, k: int) -> int {
    ((n as int) / pow16(k)) % 16
}

/// Different numbers have different invitation digits.
pub proof fn lemma_hex16_injective(a: u64, b: u64)
    requires
        hex16(a) == hex16(b),
    ensures
        a == b,
{
    reveal_with_fuel(pow16, 16);
    assert forall|k: int| 0 <= k < 16 implies #[trigger] nibble(a, k) == nibble(b, k) by {
        let i = 15 - k;
        assert(hex16(a)[i] == hex16(b)[i]);
        assert(15 - i == k);
        assert(hex16(a)[i] == hex_lower(nibble(a, k)));
        assert(hex16(b)[i] == hex_lower(nibble(b, k)));
        lemma_pow16_positive(k);
        lemma_hex_lower_injective(nibble(a, k), nibble(b, k));
    }
    assert(nibble(a, 0) == nibble(b, 0));
    assert(nibble(a, 1) == nibble(b, 1));
    assert(nibble(a, 2) == nibble(b, 2));
    assert(nibble(a, 3) == nibble(b, 3));
    assert(nibble(a, 4) == nibble(b, 4));
    assert(nibble(a, 5) == nibble(b, 5));
    assert(nibble(a, 6) == nibble(b, 6));
    assert(nibble(a, 7) == nibble(b, 7));
    assert(nibble(a, 8) == nibble(b, 8));
    assert(nibble(a, 9) == nibble(b, 9));
    assert(nibble(a, 10) == nibble(b, 10));
    assert(nibble(a, 11) == nibble(b, 11));
    assert(nibble(a, 12) == nibble(b, 12));
    assert(nibble(a, 13) == nibble(b, 13));
    assert(nibble(a, 14) == nibble(b, 14));
    assert(nibble(a, 15) == nibble(b, 15));
    lemma_nibbles_equal(a, b);
}

proof fn lemma_pow16_positive(k: int)
    ensures
        pow16(k) > 0,
    decreases k,
{
    if k > 0 {
        lemma_pow16_positive(k - 1);
    }
}

fn char_of(code: u32) -> (c: char)
    requires
        0x30 <= code < 0x3a || 0x61 <= code < 0x67,
    ensures
        c == (code as char),
{
    if code < 0x3a {
        ((code as u8) as char)
    } else {
        ((code as u8) as char)
    }
}

// ---------------------------------------------------------------------------
// The table of one-time invitations
// ---------------------------------------------------------------------------

/// The password of the invitation for a hash: `~ai` and its 16 hexadecimal digits.
pub open spec fn token_of(hash: u64) -> Seq<char> {
    seq!['~', 'a', 'i'] + hex16(hash)
}

/// An invitation password: `~ai` and 16 lower-case hexadecimal digits.
pub open spec fn is_token(t: Seq<char>) -> bool {
    exists|n: u64| t == #[trigger] token_of(n)
}

/// The map from password to room held by a list of pairs, later pairs winning.
pub open spec fn pairs_map(s: Seq<(Seq<char>, (Seq<char>, u64))>) -> Map<Seq<char>, (Seq<char>, u64)>
    decreases s.len(),
{
    if s.len() == 0 {
        Map::empty()
    } else {
        pairs_map(s.drop_last()).insert(s.last().0, s.last().1)
    }
}

/// The pairs as character sequences.
pub open spec fn pair_views(s: Seq<(Vec<char>, Vec<char>, u64)>) -> Seq<(Seq<char>, (Seq<char>, u64))> {
    s.map_values(|e: (Vec<char>, Vec<char>, u64)| (e.0@, (e.1@, e.2)))
}

/// No password occurs twice.
pub open spec fn keys_unique(s: Seq<(Seq<char>, (Seq<char>, u64))>) -> bool {
    forall|i: int, j: int| 0 <= i < j < s.len() ==> s[i].0 != s[j].0
}

/// An invitation to the room record `record` is pending.
pub open spec fn pending_room(m: Map<Seq<char>, (Seq<char>, u64)>, record: u64) -> bool {
    exists|t: Seq<char>| m.contains_key(t) && m[t].1 == record
}

/// The bot invitations not yet used: each password maps to the room it lets a bot into,
/// by its key in the room table and by the identity of its room record (a number the
/// server gives each record it creates, so that a room closed and opened again under
/// the same key is another room). A password is handed out once and is gone once used
/// or withdrawn.
pub struct Invitations {
    entries: Vec<(Vec<char>, Vec<char>, u64)>,
}

impl View for Invitations {
    type V = Map<Seq<char>, (Seq<char>, u64)>;

    closed spec fn view(&self) -> Map<Seq<char>, (Seq<char>, u64)> {
        pairs_map(pair_views(self.entries@))
    }
}

proof fn lemma_pairs_lookup(s: Seq<(Seq<char>, (Seq<char>, u64))>)
    requires
        keys_unique(s),
    ensures
        forall|i: int| 0 <= i < s.len() ==> pairs_map(s).contains_key(#[trigger] s[i].0) && pairs_map(s)[s[i].0]
            == s[i].1,
        forall|t: Seq<char>| #[trigger] pairs_map(s).contains_key(t) ==> exists|i: int| 0 <= i < s.len() && s[i].0 == t,
        pairs_map(s).dom().finite(),
        pairs_map(s).dom().len() <= s.len(),
    decreases s.len(),
{
    if s.len() > 0 {
        let p = s.drop_last();
        assert(keys_unique(p));
        lemma_pairs_lookup(p);
        assert forall|i: int| 0 <= i < s.len() implies pairs_map(s).contains_key(#[trigger] s[i].0) && pairs_map(s)[s[i].0]
            == s[i].1 by {
            if i < s.len() - 1 {
                assert(p[i] == s[i]);
                assert(s[i].0 != s.last().0);
            }
        }
        assert forall|t: Seq<char>| #[trigger] pairs_map(s).contains_key(t) implies exists|i: int|
            0 <= i < s.len() && s[i].0 == t by {
            if t != s.last().0 {
                let i = choose|i: int| 0 <= i < p.len() && p[i].0 == t;
                assert(s[i] == p[i]);
            } else {
                assert(s[s.len() - 1].0 == t);
            }
        }
        if pairs_map(p).contains_key(s.last().0) {
            assert(pairs_map(s).dom() =~= pairs_map(p).dom());
        } else {
            assert(pairs_map(s).dom() =~= pairs_map(p).dom().insert(s.last().0));
        }
    }
}

proof fn lemma_pairs_remove(s: Seq<(Seq<char>, (Seq<char>, u64))>, i: int)
    requires
        keys_unique(s),
        0 <= i < s.len(),
    ensures
        keys_unique(s.remove(i)),
        pairs_map(s.remove(i)) == pairs_map(s).remove(s[i].0),
    decreases s.len(),
{
    let r = s.remove(i);
    assert forall|a: int, b: int| 0 <= a < b < r.len() implies r[a].0 != r[b].0 by {
        let a2 = if a < i { a } else { a + 1 };
        let b2 = if b < i { b } else { b + 1 };
        assert(r[a] == s[a2]);
        assert(r[b] == s[b2]);
    }
    if i == s.len() - 1 {
        assert(r =~= s.drop_last());
        lemma_pairs_lookup(r);
        assert(!pairs_map(r).contains_key(s[i].0));
        assert(pairs_map(r) =~= pairs_map(s).remove(s[i].0));
    } else {
        let p = s.drop_last();
        assert(keys_unique(p));
        lemma_pairs_remove(p, i);
        assert(r.drop_last() =~= p.remove(i));
        assert(r.last() == s.last());
        assert(s.last().0 != s[i].0);
        assert(pairs_map(r) =~= pairs_map(s).remove(s[i].0));
    }
}

/// The invitation passwords of different hashes differ.
proof fn lemma_token_injective(a: u64, b: u64)
    requires
        token_of(a) == token_of(b),
    ensures
        a == b,
{
    assert(token_of(a).skip(3) =~= hex16(a));
    assert(token_of(b).skip(3) =~= hex16(b));
    lemma_hex16_injective(a, b);
}

/// A table of `n` invitations cannot hold the `n + 1` passwords of the hashes 0 to `n`.
proof fn lemma_some_token_free(s: Seq<(Seq<char>, (Seq<char>, u64))>)
    requires
        keys_unique(s),
        s.len() <= u64::MAX,
    ensures
        exists|k: u64| k <= s.len() && !pairs_map(s).contains_key(#[trigger] token_of(k)),
{
    lemma_pairs_lookup(s);
    let n = s.len();
    let cands = Seq::new(n + 1, |k: int| token_of(k as u64));
    assert(cands.no_duplicates()) by {
        assert forall|a: int, b: int| 0 <= a < cands.len() && 0 <= b < cands.len() && a != b implies cands[a]
            != cands[b] by {
            if cands[a] == cands[b] {
                lemma_token_injective(a as u64, b as u64);
            }
        }
    }
    cands.unique_seq_to_set();
    if forall|k: u64| k <= n ==> pairs_map(s).contains_key(#[trigger] token_of(k)) {
        assert(cands.to_set().subset_of(pairs_map(s).dom())) by {
            assert forall|t: Seq<char>| cands.to_set().contains(t) implies pairs_map(s).dom().contains(t) by {
                let k = choose|k: int| 0 <= k < cands.len() && cands[k] == t;
                assert(pairs_map(s).contains_key(token_of(k as u64)));
            }
        }
        vstd::set_lib::lemma_len_subset(cands.to_set(), pairs_map(s).dom());
    }
}

/// A hash that differs from run to run, of `room_id` with a `RandomState` made now (see
/// `BuildHasher::hash_one`). Nothing is stated of it: each `RandomState` is seeded anew.
#[verifier::external_body]
fn random_hash(room_id: &str) -> u64 {
    std::hash::BuildHasher::hash_one(&std::collections::hash_map::RandomState::new(), room_id)
}

impl Invitations {
    /// No password occurs twice.
    pub closed spec fn wf(&self) -> bool {
        keys_unique(pair_views(self.entries@))
    }

    /// An empty table.
    pub fn new() -> (res: Invitations)
        ensures
            res.wf(),
            res@ == Map::<Seq<char>, (Seq<char>, u64)>::empty(),
    {
        let res = Invitations { entries: Vec::new() };
        assert(pair_views(res.entries@) =~= Seq::<(Seq<char>, (Seq<char>, u64))>::empty());
        res
    }

    /// Whether an invitation to the room record `record` is pending.
    pub fn pending_for(&self, record: u64) -> (res: bool)
        requires
            self.wf(),
        ensures
            res == pending_room(self@, record),
    {
        let ghost s = pair_views(self.entries@);
        proof {
            lemma_pairs_lookup(s);
        }
        let mut i: usize = 0;
        while i < self.entries.len()
            invariant
                i <= self.entries@.len(),
                s == pair_views(self.entries@),
                keys_unique(s),
                forall|j: int| 0 <= j < i ==> s[j].1.1 != record,
            decreases self.entries@.len() - i,
        {
            assert(s[i as int] == (self.entries@[i as int].0@, (self.entries@[i as int].1@, self.entries@[i as int].2)));
            if self.entries[i].2 == record {
                proof {
                    lemma_pairs_lookup(s);
                }
                assert(pairs_map(s).contains_key(s[i as int].0));
                return true;
            }
            i = i + 1;
        }
        proof {
            assert forall|t: Seq<char>| pairs_map(s).contains_key(t) implies pairs_map(s)[t].1 != record by {
                let j = choose|j: int| 0 <= j < s.len() && s[j].0 == t;
                assert(pairs_map(s).contains_key(s[j].0));
            }
        }
        false
    }

    /// Whether `token` is a pending invitation.
    pub fn contains(&self, token: &str) -> (res: bool)
        requires
            self.wf(),
        ensures
            res == self@.contains_key(token@),
    {
        match self.position(token) {
            Some(_) => true,
            None => false,
        }
    }

    fn position(&self, token: &str) -> (res: Option<usize>)
        requires
            self.wf(),
        ensures
            match res {
                Some(i) => i < self.entries@.len() && pair_views(self.entries@)[i as int].0 == token@
                    && self@.contains_key(token@),
                None => !self@.contains_key(token@),
            },
    {
        let t = chars_of(token);
        let ghost s = pair_views(self.entries@);
        proof {
            lemma_pairs_lookup(s);
        }
        let mut i: usize = 0;
        while i < self.entries.len()
            invariant
                i <= self.entries@.len(),
                s == pair_views(self.entries@),
                t@ == token@,
                keys_unique(s),
                forall|j: int| 0 <= j < i ==> s[j].0 != t@,
            decreases self.entries@.len() - i,
        {
            assert(s[i as int] == (self.entries@[i as int].0@, (self.entries@[i as int].1@, self.entries@[i as int].2)));
            if eq_chars(&self.entries[i].0, &t) {
                proof {
                    lemma_pairs_lookup(s);
                }
                assert(pairs_map(s).contains_key(s[i as int].0));
                return Some(i);
            }
            i = i + 1;
        }
        None
    }

    /// Uses up the invitation `token`: the room it was for (its key and record), and the
    /// invitation is gone; `None`, with the table unchanged, when there is no such
    /// invitation.
    pub fn take(&mut self, token: &str) -> (res: Option<(String, u64)>)
        requires
            old(self).wf(),
        ensures
            final(self).wf(),
            match old(self)@.get(token@) {
                Some(room) => res matches Some(r) && r.0@ == room.0 && r.1 == room.1 && final(self)@ == old(
                    self,
                )@.remove(token@),
                None => res is None && final(self)@ == old(self)@,
            },
    {
        match self.position(token) {
            None => None,
            Some(i) => {
                let ghost s = pair_views(self.entries@);
                proof {
                    lemma_pairs_lookup(s);
                    lemma_pairs_remove(s, i as int);
                }
                let (_, room, key) = self.entries.remove(i);
                assert(pair_views(self.entries@) =~= s.remove(i as int));
                Some((string_of(&room), key))
            },
        }
    }

    /// A password for a new invitation: random, or where that one is taken (a table of `n`
    /// invitations) the first free one of the hashes 0 to `n`.
    fn fresh_token(&self, room_id: &str) -> (res: String)
        requires
            self.wf(),
        ensures
            is_token(res@),
            !self@.contains_key(res@),
    {
        let hash = random_hash(room_id);
        let first = invitation_token(hash);
        if !self.contains(first.as_str()) {
            assert(first@ == token_of(hash));
            return first;
        }
        let n = self.entries.len();
        let ghost s = pair_views(self.entries@);
        let mut k: usize = 0;
        while k < n
            invariant
                k <= n,
                n == self.entries@.len(),
                s == pair_views(self.entries@),
                self.wf(),
                forall|j: u64| j < k ==> self@.contains_key(#[trigger] token_of(j)),
            decreases n - k,
        {
            let t = invitation_token(k as u64);
            if !self.contains(t.as_str()) {
                assert(is_token(t@)) by {
                    assert(t@ == token_of(k as u64));
                }
                return t;
            }
            assert(self@.contains_key(token_of(k as u64)));
            k = k + 1;
        }
        let t = invitation_token(n as u64);
        proof {
            assert(t@ == token_of(n as u64));
            if self@.contains_key(t@) {
                assert(s.len() == n);
                lemma_some_token_free(s);
                let k = choose|k: u64| k <= s.len() && !pairs_map(s).contains_key(#[trigger] token_of(k));
                if k < n {
                    assert(self@.contains_key(token_of(k)));
                }
                assert(false);
            }
        }
        t
    }

    /// Handles `/ai` in a room: refuses as `prepare` does, counting an invitation already
    /// pending for the room record `record_id`; otherwise adds a new invitation to
    /// `room_id` and that record under a password no pending invitation has, and returns
    /// the TCP port the bot joins on with that password. A refusal leaves the table as it
    /// was.
    pub fn invite(
        &mut self,
        record: &RoomRecord,
        room_id: &str,
        record_id: u64,
        tcp_port: u16,
        windbot_port: u16,
    ) -> (res: Result<
        (u16, String),
        BotError,
    >)
        requires
            old(self).wf(),
        ensures
            final(self).wf(),
            match spec_prepare(*record, tcp_port, windbot_port, pending_room(old(self)@, record_id)) {
                Err(e) => res == Err::<(u16, String), BotError>(e) && final(self)@ == old(self)@,
                Ok(port) => res matches Ok((p, token)) && p == port && is_token(token@) && !old(self)@.contains_key(
                    token@,
                ) && final(self)@ == old(self)@.insert(token@, (room_id@, record_id)),
            },
    {
        let pending = self.pending_for(record_id);
        let port = match prepare(record, tcp_port, windbot_port, pending) {
            Err(e) => {
                return Err(e);
            },
            Ok(p) => p,
        };
        let token = self.fresh_token(room_id);
        let ghost s = pair_views(self.entries@);
        let entry = (chars_of(token.as_str()), chars_of(room_id), record_id);
        self.entries.push(entry);
        proof {
            lemma_pairs_lookup(s);
            let s2 = pair_views(self.entries@);
            assert(s2 =~= s.push((token@, (room_id@, record_id))));
            assert(s2.drop_last() =~= s);
            assert forall|a: int, b: int| 0 <= a < b < s2.len() implies s2[a].0 != s2[b].0 by {
                if b == s2.len() - 1 {
                    assert(s2[a] == s[a]);
                    assert(pairs_map(s).contains_key(s[a].0));
                }
            }
        }
        Ok((port, token))
    }
}

/// Why a bot's invitation password was not accepted.
#[derive(Clone, Copy, Debug, PartialEq, Eq, Structural)]
pub enum InvitationError {
    /// Invitations are for bots on this machine only.
    NotLocal,
    /// No pending invitation has this password (used already, or withdrawn).
    Expired,
    /// The room of the invitation has closed.
    Closed,
    /// The room no longer takes a bot.
    Refused(BotError),
}

/// The text shown for each refusal of an invitation.
pub open spec fn invitation_text(e: InvitationError) -> Seq<char> {
    match e {
        InvitationError::NotLocal => "机器人入房标记仅限本机使用"@,
        InvitationError::Expired => "机器人入房标记已失效"@,
        InvitationError::Closed => "房间已关闭"@,
        InvitationError::Refused(b) => refusal_text(b),
    }
}

impl InvitationError {
    /// The text of the refusal (see `invitation_text`).
    pub fn message(&self) -> (res: String)
        ensures
            res@ == invitation_text(*self),
    {
        let text = match self {
            InvitationError::NotLocal => "机器人入房标记仅限本机使用",
            InvitationError::Expired => "机器人入房标记已失效",
            InvitationError::Closed => "房间已关闭",
            InvitationError::Refused(b) => {
                return b.message();
            },
        };
        proof {
            reveal_strlit("机器人入房标记仅限本机使用");
            reveal_strlit("机器人入房标记已失效");
            reveal_strlit("房间已关闭");
        }
        text.to_owned()
    }
}

/// The room a joining connection was invited to (its key and record). A password that
/// does not start with `~ai` is no invitation: `Ok(None)`, the table unchanged. An
/// invitation is refused to a connection from another machine, and to a password no
/// pending invitation has; both leave the table unchanged. Otherwise the invitation is
/// used up and its room returned.
pub fn take_room(invitations: &mut Invitations, pass: &str, loopback: bool) -> (res: Result<
    Option<(String, u64)>,
    InvitationError,
>)
    requires
        old(invitations).wf(),
    ensures
        final(invitations).wf(),
        !spec_is_invitation(pass@) ==> res == Ok::<Option<(String, u64)>, InvitationError>(None)
            && final(invitations)@ == old(invitations)@,
        spec_is_invitation(pass@) && !loopback ==> res == Err::<Option<(String, u64)>, InvitationError>(
            InvitationError::NotLocal,
        ) && final(invitations)@ == old(invitations)@,
        spec_is_invitation(pass@) && loopback ==> match old(invitations)@.get(pass@) {
            Some(room) => (res matches Ok(Some(r)) && r.0@ == room.0 && r.1 == room.1) && final(invitations)@
                == old(invitations)@.remove(pass@),
            None => res == Err::<Option<(String, u64)>, InvitationError>(InvitationError::Expired)
                && final(invitations)@ == old(invitations)@,
        },
{
    if !is_invitation(pass) {
        return Ok(None);
    }
    if !loopback {
        return Err(InvitationError::NotLocal);
    }
    match invitations.take(pass) {
        Some(room) => Ok(Some(room)),
        None => Err(InvitationError::Expired),
    }
}

/// Whether the room an invitation led to still takes the bot. `room` is what the room
/// table holds under the invitation's key now: its record and that record's identity.
/// The room has closed where there is none, or where it is another record than the one
/// the invitation was for; else the room is checked as `check_room` does.
pub fn check_invited(room: Option<(&RoomRecord, u64)>, invited: u64) -> (res: Result<(), InvitationError>)
    ensures
        match room {
            Some((r, id)) if id == invited => match bot_refusal(*r) {
                Some(e) => res == Err::<(), InvitationError>(InvitationError::Refused(e)),
                None => res is Ok,
            },
            _ => res == Err::<(), InvitationError>(InvitationError::Closed),
        },
{
    match room {
        Some((r, id)) => if id != invited {
            Err(InvitationError::Closed)
        } else {
            match check_room(r) {
                Err(e) => Err(InvitationError::Refused(e)),
                Ok(()) => Ok(()),
            }
        },
        None => Err(InvitationError::Closed),
    }
}

/// An invitation admits one bot: once `invite` has added a password, the first `take` of
/// it gets the room, and a second `take` finds nothing.
pub proof fn lemma_invitation_used_once(before: Map<Seq<char>, (Seq<char>, u64)>, token: Seq<char>, room: (Seq<char>, u64))
    ensures
        before.insert(token, room).get(token) == Some(room),
        before.insert(token, room).remove(token).get(token) is None,
{
}

} // verus!
