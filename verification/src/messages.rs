use vstd::prelude::*;
use std::collections::BTreeMap;
use rand::seq::SliceRandom;
use rand::Rng;
use crate::duel::{DuelStage, Netplayer};
use crate::room::{PlayerRecord, RoomRecord, placed, player_index};
use crate::text::{all_digits, blank, chars_of, digits_value, is_blank, is_digit, parse_digits, push_chars, split_by2, split_chars, string_of, trim, trimmed, views};

verus! {

// ---------------------------------------------------------------------------
// Server chat: long text is cut into chat lines that fit the client's buffer.
// ---------------------------------------------------------------------------

/// Most UTF-16 code units in one chat line, leaving the client room for a terminator.
pub const CHAT_UNITS: u64 = 240;

/// Most chat lines sent for one text.
pub const MAX_CHAT_LINES: usize = 16;

/// UTF-16 code units of a character (`char::len_utf16`).
pub open spec fn units(c: char) -> int {
    if (c as u32) >= 0x10000 { 2 } else { 1 }
}

fn char_units(c: char) -> (res: u64)
    ensures
        res == units(c),
{
    if (c as u32) >= 0x10000 { 2 } else { 1 }
}

/// Cutting a line greedily: after the characters `chars`, the finished pieces, the piece
/// being filled and its length in UTF-16 units. A character that would make the piece
/// longer than 240 units starts a new piece.
pub open spec fn fill(chars: Seq<char>) -> (Seq<Seq<char>>, Seq<char>, int)
    decreases chars.len(),
{
    if chars.len() == 0 {
        (Seq::empty(), Seq::empty(), 0)
    } else {
        let (done, cur, len) = fill(chars.drop_last());
        let c = chars.last();
        if len + units(c) > CHAT_UNITS {
            (done.push(cur), seq![c], units(c))
        } else {
            (done, cur.push(c), len + units(c))
        }
    }
}

/// The pieces of one line.
pub open spec fn line_pieces(line: Seq<char>) -> Seq<Seq<char>> {
    let (done, cur, _) = fill(line);
    if cur.len() > 0 { done.push(cur) } else { done }
}

/// The lines of a text (`str::lines`): split at each `\n`; a line that ended with `\n`
/// also loses one `\r` before it.
pub open spec fn text_lines(text: Seq<char>) -> Seq<Seq<char>> {
    let parts = split_by2(text, '\n', '\n');
    Seq::new(
        parts.len(),
        |i: int|
            if i < parts.len() - 1 && parts[i].len() > 0 && parts[i].last() == '\r' {
                parts[i].drop_last()
            } else {
                parts[i]
            },
    )
}

/// The pieces of all lines that hold more than white space, in order.
pub open spec fn all_pieces(lines: Seq<Seq<char>>) -> Seq<Seq<char>>
    decreases lines.len(),
{
    if lines.len() == 0 {
        Seq::empty()
    } else {
        all_pieces(lines.drop_last()) + if is_blank(lines.last()) {
            Seq::empty()
        } else {
            line_pieces(lines.last())
        }
    }
}

/// The chat lines for a text: the pieces of its non-blank lines, at most 16.
pub open spec fn spec_chat_lines(text: Seq<char>) -> Seq<Seq<char>> {
    let all = all_pieces(text_lines(text));
    if all.len() > MAX_CHAT_LINES { all.take(MAX_CHAT_LINES as int) } else { all }
}

proof fn lemma_fill_bound(chars: Seq<char>)
    ensures
        ({
            let (done, cur, len) = fill(chars);
            &&& 0 <= len <= CHAT_UNITS
            &&& len == 0 <==> cur.len() == 0
            &&& done.len() <= chars.len()
        }),
    decreases chars.len(),
{
    if chars.len() > 0 {
        lemma_fill_bound(chars.drop_last());
    }
}

proof fn lemma_all_pieces_prefix(lines: Seq<Seq<char>>, k: int)
    requires
        0 <= k <= lines.len(),
    ensures
        all_pieces(lines.take(k)).len() <= all_pieces(lines).len(),
        all_pieces(lines.take(k)) == all_pieces(lines).take(all_pieces(lines.take(k)).len() as int),
    decreases lines.len() - k,
{
    if k == lines.len() {
        assert(lines.take(k) =~= lines);
        assert(all_pieces(lines).take(all_pieces(lines).len() as int) =~= all_pieces(lines));
    } else {
        lemma_all_pieces_prefix(lines, k + 1);
        assert(lines.take(k + 1).drop_last() =~= lines.take(k));
        let a = all_pieces(lines.take(k));
        let b = all_pieces(lines.take(k + 1));
        let all = all_pieces(lines);
        assert(b.take(a.len() as int) =~= a);
        assert(all.take(a.len() as int) =~= all.take(b.len() as int).take(a.len() as int));
    }
}

/// The pieces of one line.
fn pieces_of(line: &Vec<char>) -> (res: Vec<Vec<char>>)
    ensures
        views(res@) == line_pieces(line@),
{
    let mut done: Vec<Vec<char>> = Vec::new();
    let mut cur: Vec<char> = Vec::new();
    let mut len: u64 = 0;
    let mut i: usize = 0;
    while i < line.len()
        invariant
            i <= line@.len(),
            (views(done@), cur@, len as int) == fill(line@.take(i as int)),
            len <= CHAT_UNITS,
        decreases line@.len() - i,
    {
        proof {
            lemma_fill_bound(line@.take(i as int));
        }
        assert(line@.take(i + 1).drop_last() =~= line@.take(i as int));
        let c = line[i];
        let u = char_units(c);
        if len + u > CHAT_UNITS as u64 {
            let ghost before = views(done@);
            let piece = cur;
            done.push(piece);
            assert(views(done@) =~= before.push(piece@));
            cur = Vec::new();
            cur.push(c);
            assert(cur@ =~= seq![c]);
            len = u;
        } else {
            cur.push(c);
            len = len + u;
        }
        i = i + 1;
    }
    assert(line@.take(line@.len() as int) =~= line@);
    if cur.len() > 0 {
        let ghost before = views(done@);
        done.push(cur);
        assert(views(done@) =~= before.push(line_pieces(line@).last()));
    }
    done
}

/// The chat lines the server sends for `text`: its lines that hold more than white space,
/// each cut into pieces of at most 240 UTF-16 units, at most 16 pieces in all.
pub fn chat_lines(text: &str) -> (res: Vec<String>)
    ensures
        res@.len() <= MAX_CHAT_LINES,
        texts(res@) == spec_chat_lines(text@),
{
    let all = chars_of(text);
    let parts = split_chars(&all, '\n', '\n');
    let ghost lines = text_lines(text@);
    let n = parts.len();
    let mut pieces: Vec<Vec<char>> = Vec::new();
    let mut k: usize = 0;
    while k < n
        invariant
            n == parts@.len() == lines.len(),
            views(parts@) == split_by2(text@, '\n', '\n'),
            lines == text_lines(text@),
            k <= n,
            views(pieces@) == all_pieces(lines.take(k as int)),
            pieces@.len() < MAX_CHAT_LINES,
        decreases n - k,
    {
        let part = &parts[k];
        let line = if k + 1 < n && part.len() > 0 && part[part.len() - 1] == '\r' {
            let mut l: Vec<char> = Vec::new();
            let mut j: usize = 0;
            while j < part.len() - 1
                invariant
                    part@.len() > 0,
                    j <= part@.len() - 1,
                    l@ == part@.take(j as int),
                decreases part@.len() - j,
            {
                l.push(part[j]);
                j = j + 1;
                assert(l@ =~= part@.take(j as int));
            }
            assert(l@ =~= part@.drop_last());
            l
        } else {
            let mut l: Vec<char> = Vec::new();
            let mut j: usize = 0;
            while j < part.len()
                invariant
                    j <= part@.len(),
                    l@ == part@.take(j as int),
                decreases part@.len() - j,
            {
                l.push(part[j]);
                j = j + 1;
                assert(l@ =~= part@.take(j as int));
            }
            assert(l@ =~= part@);
            l
        };
        assert(views(parts@)[k as int] == part@);
        assert(line@ == lines[k as int]);
        assert(lines.take(k + 1).drop_last() =~= lines.take(k as int));
        let ghost before = views(pieces@);
        if !blank(&line) {
            let mut more = pieces_of(&line);
            let ghost extra = more@;
            let ghost first = pieces@;
            pieces.append(&mut more);
            assert(views(pieces@) =~= views(first) + views(extra));
        } else {
            assert(before + Seq::<Seq<char>>::empty() =~= before);
        }
        assert(views(pieces@) == all_pieces(lines.take(k + 1)));
        if pieces.len() >= MAX_CHAT_LINES {
            proof {
                lemma_all_pieces_prefix(lines, k + 1);
            }
            let ghost full = views(pieces@);
            pieces.truncate(MAX_CHAT_LINES);
            assert(views(pieces@) =~= full.take(MAX_CHAT_LINES as int));
            return strings_of(&pieces);
        }
        k = k + 1;
    }
    assert(lines.take(n as int) =~= lines);
    strings_of(&pieces)
}

/// The characters of each string.
pub open spec fn texts(v: Seq<String>) -> Seq<Seq<char>> {
    v.map_values(|s: String| s@)
}

fn strings_of(pieces: &Vec<Vec<char>>) -> (res: Vec<String>)
    ensures
        texts(res@) == views(pieces@),
{
    let mut res: Vec<String> = Vec::new();
    let mut i: usize = 0;
    while i < pieces.len()
        invariant
            i <= pieces@.len(),
            texts(res@) == views(pieces@).take(i as int),
        decreases pieces@.len() - i,
    {
        let ghost before = res@;
        let text = string_of(&pieces[i]);
        res.push(text);
        proof {
            assert(texts(before).len() == i);
            assert forall|j: int| 0 <= j < i + 1 implies #[trigger] texts(res@)[j] == views(pieces@).take(i + 1)[j] by {
                if j < i {
                    assert(res@[j] == before[j]);
                    assert(texts(before)[j] == views(pieces@).take(i as int)[j]);
                } else {
                    assert(res@[j] == text);
                }
            }
        }
        i = i + 1;
        assert(texts(res@) =~= views(pieces@).take(i as int));
    }
    assert(views(pieces@).take(pieces@.len() as int) =~= views(pieces@));
    res
}


// ---------------------------------------------------------------------------
// Notices to the room
// ---------------------------------------------------------------------------

/// A control character (general category Cc).
pub open spec fn is_control(c: char) -> bool {
    (c as u32) < 0x20 || (0x7f <= (c as u32) && (c as u32) < 0xa0)
}

/// `name` without control characters.
pub open spec fn printable(name: Seq<char>) -> Seq<char> {
    name.filter(|c: char| !is_control(c))
}

/// The notice that a duelist (`duelist`) or spectator joined or left.
pub open spec fn notice_text(duelist: bool, name: Seq<char>, joined: bool) -> Seq<char> {
    let role = if duelist { seq!['玩', '家'] } else { seq!['观', '战', '者'] };
    let action = if joined { seq!['加', '入', '了'] } else { seq!['离', '开', '了'] };
    role + seq!['「'] + printable(name) + seq!['」'] + action + seq!['房', '间', '。']
}

/// The connections that see room notices: connected duelists and spectators, other than
/// `except`.
pub open spec fn audience(players: Seq<(u64, PlayerRecord)>, except: Option<u64>) -> Seq<u64>
    decreases players.len(),
{
    if players.len() == 0 {
        Seq::empty()
    } else {
        let rest = audience(players.drop_last(), except);
        let (id, p) = players.last();
        if Some(id) != except && p.connected && placed(p.position) {
            rest.push(id)
        } else {
            rest
        }
    }
}

fn audience_of(record: &RoomRecord, except: Option<u64>) -> (res: Vec<u64>)
    ensures
        res@ == audience(record.players@, except),
{
    let n = record.players.len();
    let mut res: Vec<u64> = Vec::new();
    let mut i: usize = 0;
    while i < n
        invariant
            n == record.players@.len(),
            i <= n,
            res@ == audience(record.players@.take(i as int), except),
        decreases n - i,
    {
        assert(record.players@.take(i + 1).drop_last() =~= record.players@.take(i as int));
        let id = record.players[i].0;
        let p = &record.players[i].1;
        let seen = match p.position {
            Netplayer::Player(_) | Netplayer::Observer(_) => true,
            _ => false,
        };
        let other = match except {
            Some(e) => e != id,
            None => true,
        };
        if other && p.connected && seen {
            res.push(id);
        }
        i = i + 1;
    }
    assert(record.players@.take(n as int) =~= record.players@);
    res
}

/// A notice: the chat lines to send and who gets them.
pub struct Notice {
    pub lines: Vec<String>,
    pub recipients: Vec<u64>,
}

/// The notice that connection `id` joined (or left) the room, sent to the rest of the
/// room's audience; nothing when the connection is neither a duelist nor a spectator.
pub fn membership(record: &RoomRecord, id: u64, joined: bool) -> (res: Option<Notice>)
    requires
        record.wf(),
    ensures
        match player_index(record.players@, id) {
            Some(i) => {
                let p = record.players@[i].1;
                if placed(p.position) {
                    res matches Some(notice) && texts(notice.lines@) == spec_chat_lines(
                        notice_text(p.position is Player, p.name@, joined),
                    ) && notice.recipients@ == audience(record.players@, Some(id))
                } else {
                    res is None
                }
            },
            None => res is None,
        },
{
    let i = match record.find_player(id) {
        Some(i) => i,
        None => {
            return None;
        },
    };
    let p = &record.players[i].1;
    let duelist = match p.position {
        Netplayer::Player(_) => true,
        Netplayer::Observer(_) => false,
        _ => {
            return None;
        },
    };
    let name = chars_of(p.name.as_str());
    let mut text: Vec<char> = Vec::new();
    if duelist {
        text.push('玩');
        text.push('家');
    } else {
        text.push('观');
        text.push('战');
        text.push('者');
    }
    text.push('「');
    let ghost head = text@;
    let mut k: usize = 0;
    while k < name.len()
        invariant
            k <= name@.len(),
            text@ == head + printable(name@.take(k as int)),
        decreases name@.len() - k,
    {
        proof {
            reveal(Seq::filter);
        }
        assert(name@.take(k + 1).drop_last() =~= name@.take(k as int));
        let c = name[k];
        let code = c as u32;
        if !(code < 0x20 || (0x7f <= code && code < 0xa0)) {
            text.push(c);
        }
        k = k + 1;
        assert(text@ =~= head + printable(name@.take(k as int)));
    }
    assert(name@.take(name@.len() as int) =~= name@);
    text.push('」');
    if joined {
        text.push('加');
        text.push('入');
        text.push('了');
    } else {
        text.push('离');
        text.push('开');
        text.push('了');
    }
    text.push('房');
    text.push('间');
    text.push('。');
    assert(text@ =~= notice_text(duelist, p.name@, joined));
    let line = string_of(&text);
    Some(Notice { lines: chat_lines(line.as_str()), recipients: audience_of(record, Some(id)) })
}

// ---------------------------------------------------------------------------
// Tips
// ---------------------------------------------------------------------------

/// Picks one of the lines at random (`SliceRandom::choose` with the thread's generator);
/// nothing only when there are no lines. Which line comes back is left to chance.
#[verifier::external_body]
fn choose_line(lines: &Vec<String>) -> (res: Option<String>)
    ensures
        res is None <==> lines@.len() == 0,
        res matches Some(s) ==> lines@.contains(s),
{
    lines.choose(&mut rand::thread_rng()).cloned()
}

/// A number below `n` drawn by the thread's generator (`Rng::gen_range` over `0..n`).
#[verifier::external_body]
pub(crate) fn random_below(n: usize) -> (res: usize)
    requires
        n > 0,
    ensures
        res < n,
{
    rand::thread_rng().gen_range(0..n)
}

/// Tips are configured: the tips file setting holds more than white space.
pub open spec fn tips_enabled(config_tips: Seq<char>) -> bool {
    !is_blank(config_tips)
}

/// A tip: the prefix and one of the tip lines, drawn at random; nothing when tips are
/// off or there is no tip line.
pub fn tip(config_tips: &str, prefix: &str, tips: &Vec<String>) -> (res: Option<String>)
    ensures
        !tips_enabled(config_tips@) || tips@.len() == 0 <==> res is None,
        res matches Some(t) ==> exists|i: int| 0 <= i < tips@.len() && t@ == prefix@ + tips@[i]@,
{
    if blank(&chars_of(config_tips)) {
        return None;
    }
    match choose_line(tips) {
        None => None,
        Some(line) => {
            let mut t = prefix.to_owned();
            push_chars(&mut t, &chars_of(line.as_str()));
            proof {
                let i = choose|i: int| 0 <= i < tips@.len() && tips@[i] == line;
                assert(t@ == prefix@ + tips@[i]@);
            }
            Some(t)
        },
    }
}

/// The answer to `/tips`: a tip, or why there is none.
pub fn tips_reply(config_tips: &str, prefix: &str, tips: &Vec<String>) -> (res: String)
    ensures
        tips_enabled(config_tips@) && tips@.len() > 0 ==> exists|i: int| 0 <= i < tips@.len() && res@ == prefix@ + tips@[i]@,
        !tips_enabled(config_tips@) ==> res@ == seq!['提', '示', '功', '能', '未', '启', '用', '。'],
        tips_enabled(config_tips@) && tips@.len() == 0 ==> res@ == seq!['暂', '无', '可', '用', '提', '示', '。'],
{
    match tip(config_tips, prefix, tips) {
        Some(t) => t,
        None => {
            if blank(&chars_of(config_tips)) {
                let r = "提示功能未启用。".to_owned();
                proof {
                    reveal_strlit("提示功能未启用。");
                }
                assert(r@ =~= seq!['提', '示', '功', '能', '未', '启', '用', '。']);
                r
            } else {
                let r = "暂无可用提示。".to_owned();
                proof {
                    reveal_strlit("暂无可用提示。");
                }
                assert(r@ =~= seq!['暂', '无', '可', '用', '提', '示', '。']);
                r
            }
        },
    }
}

/// Tips are due at `now` (milliseconds) when they are on with an interval and `interval`
/// seconds have passed since `last` (a clock that went back counts as no time).
pub open spec fn tip_due(enabled: bool, interval: u64, last: u64, now: u64) -> bool {
    enabled && interval > 0 && (if now >= last { now - last } else { 0 }) >= interval * 1000
}

/// Tips are not sent twice within one interval: after tips went out at `first`, none are
/// due before `interval` seconds have passed.
pub proof fn lemma_tips_spaced(enabled: bool, interval: u64, first: u64, later: u64)
    requires
        first <= later < first + interval * 1000,
    ensures
        !tip_due(enabled, interval, first, later),
{
}

/// When tips were last sent to the rooms, in milliseconds of the caller's clock.
pub struct TipSchedule {
    pub last: u64,
}

impl TipSchedule {
    /// A schedule that starts counting at `now`.
    pub fn new(now: u64) -> (s: TipSchedule)
        ensures
            s.last == now,
    {
        TipSchedule { last: now }
    }

    /// Whether tips are due at `now` (milliseconds) with `interval` seconds between them.
    /// With tips off or no interval the schedule restarts at `now`; when they are due it
    /// restarts at `now` too; otherwise it is left as it was.
    pub fn tick(&mut self, enabled: bool, interval: u64, now: u64) -> (due: bool)
        ensures
            due == tip_due(enabled, interval, old(self).last, now),
            final(self).last == if !enabled || interval == 0 || due { now } else { old(self).last },
    {
        if !enabled || interval == 0 {
            self.last = now;
            return false;
        }
        let elapsed = if now >= self.last { now - self.last } else { 0 };
        if elapsed / 1000 < interval {
            return false;
        }
        self.last = now;
        true
    }
}

/// Who gets a room's periodic tip: its audience, unless the room is over.
pub fn tip_recipients(record: &RoomRecord) -> (res: Vec<u64>)
    ensures
        res@ == if record.stage == DuelStage::End { Seq::empty() } else { audience(record.players@, None) },
{
    if record.stage == DuelStage::End {
        return Vec::new();
    }
    audience_of(record, None)
}


// ---------------------------------------------------------------------------
// Summon lines
// ---------------------------------------------------------------------------

/// The lines that hold more than white space.
pub open spec fn spoken(lines: Seq<Seq<char>>) -> Seq<Seq<char>> {
    lines.filter(|l: Seq<char>| !is_blank(l))
}

/// Keeps the lines that hold more than white space, in order.
pub fn clean_lines(lines: &Vec<String>) -> (res: Vec<String>)
    ensures
        texts(res@) == spoken(texts(lines@)),
{
    let mut res: Vec<String> = Vec::new();
    let mut i: usize = 0;
    while i < lines.len()
        invariant
            i <= lines@.len(),
            texts(res@) == spoken(texts(lines@).take(i as int)),
        decreases lines@.len() - i,
    {
        proof {
            reveal(Seq::filter);
        }
        assert(texts(lines@).take(i + 1).drop_last() =~= texts(lines@).take(i as int));
        assert(texts(lines@).take(i + 1).last() == lines@[i as int]@);
        if !blank(&chars_of(lines[i].as_str())) {
            let ghost before = res@;
            res.push(lines[i].clone());
            assert(texts(res@) =~= texts(before).push(lines@[i as int]@));
        }
        i = i + 1;
    }
    assert(texts(lines@).take(lines@.len() as int) =~= texts(lines@));
    res
}

/// The lines of each list as texts.
pub open spec fn line_texts(m: Map<u32, Vec<String>>) -> Map<u32, Seq<Seq<char>>> {
    m.map_values(|v: Vec<String>| texts(v@))
}

/// Summon lines by card code.
pub struct Dialogues {
    lines: BTreeMap<u32, Vec<String>>,
}

impl View for Dialogues {
    type V = Map<u32, Seq<Seq<char>>>;

    closed spec fn view(&self) -> Map<u32, Seq<Seq<char>>> {
        line_texts(self.lines@)
    }
}

impl Dialogues {
    /// No lines.
    pub fn new() -> (d: Dialogues)
        ensures
            d@ == Map::<u32, Seq<Seq<char>>>::empty(),
    {
        let d = Dialogues { lines: BTreeMap::new() };
        assert(d@ =~= Map::<u32, Seq<Seq<char>>>::empty());
        d
    }

    /// The lines for `code`, copied.
    pub fn get(&self, code: u32) -> (res: Option<Vec<String>>)
        ensures
            match res {
                Some(lines) => self@.contains_key(code) && texts(lines@) == self@[code],
                None => !self@.contains_key(code),
            },
    {
        broadcast use vstd::std_specs::btree::group_btree_axioms;

        match self.lines.get(&code) {
            Some(v) => Some(copy_strings(v)),
            None => None,
        }
    }

    /// The codes that have lines, each once.
    pub fn codes(&self) -> (res: Vec<u32>)
        ensures
            res@.no_duplicates(),
            forall|c: u32| res@.contains(c) <==> self@.contains_key(c),
    {
        broadcast use vstd::std_specs::btree::group_btree_axioms;

        let mut res: Vec<u32> = Vec::new();
        let ghost keys = vstd::std_specs::iter::IteratorSpec::remaining(&vstd::std_specs::btree::spec_keys_iter(&self.lines));
        proof {
            vstd::std_specs::btree::axiom_spec_keys_iter(&self.lines);
        }
        for k in it: self.lines.keys()
            invariant
                res@ == it.seq().take(it.index() as int).map_values(|r: &u32| *r),
                it.seq() == keys,
        {
            res.push(*k);
        }
        proof {
            assert(res@ =~= keys.map_values(|r: &u32| *r));
            assert(keys.unref() =~= keys.map_values(|r: &u32| *r));
            assert forall|c: u32| res@.contains(c) <==> self@.contains_key(c) by {
                assert(res@.to_set().contains(c) == res@.contains(c));
            }
        }
        res
    }

    /// A copy with the same lines.
    pub fn duplicate(&self) -> (r: Dialogues)
        ensures
            r@ == self@,
    {
        Dialogues { lines: self.lines.clone() }
    }

    /// Sets the lines for `code`.
    pub fn set(&mut self, code: u32, lines: Vec<String>)
        ensures
            final(self)@ == old(self)@.insert(code, texts(lines@)),
    {
        broadcast use vstd::std_specs::btree::group_btree_axioms;

        let ghost before = self.lines@;
        let ghost t = texts(lines@);
        self.lines.insert(code, lines);
        assert(line_texts(self.lines@) =~= line_texts(before).insert(code, t));
    }
}

fn copy_strings(v: &Vec<String>) -> (res: Vec<String>)
    ensures
        res@ == v@,
{
    let mut res: Vec<String> = Vec::new();
    let mut i: usize = 0;
    while i < v.len()
        invariant
            i <= v@.len(),
            res@ == v@.take(i as int),
        decreases v@.len() - i,
    {
        res.push(v[i].clone());
        i = i + 1;
        assert(res@ =~= v@.take(i as int));
    }
    assert(v@.take(v@.len() as int) =~= v@);
    res
}


/// Why a file of summon lines was refused.
#[derive(Clone, Debug)]
pub enum DialogueError {
    /// The file is not UTF-8 text.
    NotText,
    /// The text cannot be read as the file's format, or not as tables of lines.
    Unreadable,
    /// A key is empty or holds something other than ASCII digits.
    BadKey(String),
    /// A key's number does not fit in 32 bits.
    TooLarge(String),
    /// Two keys name the same card code (such as `1` and `01`).
    Duplicate(u32),
    /// The TOML text nests arrays, tables or dotted keys deeper than the reader is given.
    TooDeep,
}

/// The lines of a TOML file, read key by key in the file's order: each key must be a
/// non-empty run of ASCII digits naming a 32-bit card code that no earlier key named;
/// each code keeps its lines that hold more than white space. The first bad key ends
/// the reading.
pub open spec fn toml_lines(entries: Seq<(String, Vec<String>)>) -> Result<Map<u32, Seq<Seq<char>>>, DialogueError>
    decreases entries.len(),
{
    if entries.len() == 0 {
        Ok(Map::empty())
    } else {
        match toml_lines(entries.drop_last()) {
            Err(e) => Err(e),
            Ok(m) => {
                let (key, lines) = entries.last();
                let k = key@;
                if k.len() == 0 || !all_digits(k) {
                    Err(DialogueError::BadKey(key))
                } else if digits_value(k) > u32::MAX {
                    Err(DialogueError::TooLarge(key))
                } else if m.contains_key(digits_value(k) as u32) {
                    Err(DialogueError::Duplicate(digits_value(k) as u32))
                } else {
                    Ok(m.insert(digits_value(k) as u32, spoken(texts(lines@))))
                }
            },
        }
    }
}

fn digits_only(s: &Vec<char>) -> (res: bool)
    ensures
        res == (s@.len() > 0 && all_digits(s@)),
{
    if s.len() == 0 {
        return false;
    }
    let mut i: usize = 0;
    while i < s.len()
        invariant
            i <= s@.len(),
            forall|j: int| 0 <= j < i ==> is_digit(#[trigger] s@[j]),
        decreases s@.len() - i,
    {
        if !(s[i] >= '0' && s[i] <= '9') {
            return false;
        }
        i = i + 1;
    }
    true
}

/// The summon lines of a TOML file, given its keys and line lists in the file's order
/// (see `toml_lines`).
pub fn from_toml(entries: &Vec<(String, Vec<String>)>) -> (res: Result<Dialogues, DialogueError>)
    ensures
        match toml_lines(entries@) {
            Ok(m) => res matches Ok(d) && d@ == m,
            Err(e) => res == Err::<Dialogues, DialogueError>(e),
        },
{
    let mut out = Dialogues::new();
    let mut i: usize = 0;
    while i < entries.len()
        invariant
            i <= entries@.len(),
            toml_lines(entries@.take(i as int)) == Ok::<Map<u32, Seq<Seq<char>>>, DialogueError>(out@),
        decreases entries@.len() - i,
    {
        assert(entries@.take(i + 1).drop_last() =~= entries@.take(i as int));
        let key = &entries[i].0;
        let k = chars_of(key.as_str());
        if !digits_only(&k) {
            proof {
                lemma_toml_error_stays(entries@, i + 1);
            }
            return Err(DialogueError::BadKey(key.clone()));
        }
        let code = match parse_digits(&k, 0xffff_ffff) {
            Some(v) => v as u32,
            None => {
                proof {
                    lemma_toml_error_stays(entries@, i + 1);
                }
                return Err(DialogueError::TooLarge(key.clone()));
            },
        };
        if out.get(code).is_some() {
            proof {
                lemma_toml_error_stays(entries@, i + 1);
            }
            return Err(DialogueError::Duplicate(code));
        }
        out.set(code, clean_lines(&entries[i].1));
        i = i + 1;
    }
    assert(entries@.take(entries@.len() as int) =~= entries@);
    Ok(out)
}

proof fn lemma_toml_error_stays(entries: Seq<(String, Vec<String>)>, k: int)
    requires
        0 <= k <= entries.len(),
        toml_lines(entries.take(k)) is Err,
    ensures
        toml_lines(entries) == toml_lines(entries.take(k)),
    decreases entries.len() - k,
{
    if k < entries.len() {
        assert(entries.take(k + 1).drop_last() =~= entries.take(k));
        lemma_toml_error_stays(entries, k + 1);
    } else {
        assert(entries.take(k) =~= entries);
    }
}

/// The lines of a JSON file that maps card codes to lines: each code keeps its lines that
/// hold more than white space.
pub open spec fn plain_lines(entries: Seq<(u32, Vec<String>)>) -> Map<u32, Seq<Seq<char>>>
    decreases entries.len(),
{
    if entries.len() == 0 {
        Map::empty()
    } else {
        plain_lines(entries.drop_last()).insert(entries.last().0, spoken(texts(entries.last().1@)))
    }
}

/// The summon lines of a JSON file that maps card codes to lines.
pub fn from_json(entries: &Vec<(u32, Vec<String>)>) -> (res: Dialogues)
    ensures
        res@ == plain_lines(entries@),
{
    let mut out = Dialogues::new();
    let mut i: usize = 0;
    while i < entries.len()
        invariant
            i <= entries@.len(),
            out@ == plain_lines(entries@.take(i as int)),
        decreases entries@.len() - i,
    {
        assert(entries@.take(i + 1).drop_last() =~= entries@.take(i as int));
        out.set(entries[i].0, clean_lines(&entries[i].1));
        i = i + 1;
    }
    assert(entries@.take(entries@.len() as int) =~= entries@);
    out
}

/// `base` with the lines of `dialogues` put over it, code by code, where a code has lines
/// that hold more than white space.
pub open spec fn overlay(base: Map<u32, Seq<Seq<char>>>, dialogues: Seq<(u32, Vec<String>)>) -> Map<u32, Seq<Seq<char>>>
    decreases dialogues.len(),
{
    if dialogues.len() == 0 {
        base
    } else {
        let m = overlay(base, dialogues.drop_last());
        let lines = spoken(texts(dialogues.last().1@));
        if lines.len() > 0 { m.insert(dialogues.last().0, lines) } else { m }
    }
}

/// The summon lines of a JSON file in the older layout, with a `dialogues` table and a
/// `dialogues_custom` table: the custom lines, with each code of `dialogues` that has
/// lines put over them.
pub fn from_wrapped(dialogues: &Vec<(u32, Vec<String>)>, custom: &Vec<(u32, Vec<String>)>) -> (res: Dialogues)
    ensures
        res@ == overlay(plain_lines(custom@), dialogues@),
{
    let mut out = from_json(custom);
    let ghost base = out@;
    let mut i: usize = 0;
    while i < dialogues.len()
        invariant
            i <= dialogues@.len(),
            out@ == overlay(base, dialogues@.take(i as int)),
        decreases dialogues@.len() - i,
    {
        assert(dialogues@.take(i + 1).drop_last() =~= dialogues@.take(i as int));
        let lines = clean_lines(&dialogues[i].1);
        if lines.len() > 0 {
            out.set(dialogues[i].0, lines);
        }
        i = i + 1;
    }
    assert(dialogues@.take(dialogues@.len() as int) =~= dialogues@);
    out
}

/// `merged` followed by the lines of `lines` it does not hold yet, in order.
pub open spec fn append_new(merged: Seq<Seq<char>>, lines: Seq<Seq<char>>) -> Seq<Seq<char>>
    decreases lines.len(),
{
    if lines.len() == 0 {
        merged
    } else {
        let m = append_new(merged, lines.drop_last());
        if m.contains(lines.last()) { m } else { m.push(lines.last()) }
    }
}

/// The lines of `code` gathered from the files in order, each line once.
pub open spec fn merged_lines(files: Seq<Map<u32, Seq<Seq<char>>>>, code: u32) -> Seq<Seq<char>>
    decreases files.len(),
{
    if files.len() == 0 {
        Seq::empty()
    } else {
        let m = merged_lines(files.drop_last(), code);
        if files.last().contains_key(code) { append_new(m, files.last()[code]) } else { m }
    }
}

/// The summon lines of several files: every code of any file, with its lines gathered.
pub open spec fn merged_map(files: Seq<Map<u32, Seq<Seq<char>>>>) -> Map<u32, Seq<Seq<char>>> {
    Map::new(
        |code: u32| exists|i: int| 0 <= i < files.len() && files[i].contains_key(code),
        |code: u32| merged_lines(files, code),
    )
}

/// The line maps of the files.
pub open spec fn maps_of(files: Seq<Dialogues>) -> Seq<Map<u32, Seq<Seq<char>>>> {
    files.map_values(|d: Dialogues| d@)
}

proof fn lemma_merged_absent(files: Seq<Map<u32, Seq<Seq<char>>>>, code: u32)
    requires
        forall|i: int| 0 <= i < files.len() ==> !(#[trigger] files[i]).contains_key(code),
    ensures
        merged_lines(files, code) == Seq::<Seq<char>>::empty(),
    decreases files.len(),
{
    if files.len() > 0 {
        assert forall|i: int| 0 <= i < files.drop_last().len() implies !(#[trigger] files.drop_last()[i]).contains_key(code) by {
            assert(files.drop_last()[i] == files[i]);
        }
        lemma_merged_absent(files.drop_last(), code);
        assert(!files[files.len() - 1].contains_key(code));
    }
}

fn contains_text(lines: &Vec<String>, line: &String) -> (res: bool)
    ensures
        res == texts(lines@).contains(line@),
{
    let mut i: usize = 0;
    while i < lines.len()
        invariant
            i <= lines@.len(),
            forall|j: int| 0 <= j < i ==> lines@[j]@ != line@,
        decreases lines@.len() - i,
    {
        if lines[i] == *line {
            assert(texts(lines@)[i as int] == line@);
            return true;
        }
        i = i + 1;
    }
    proof {
        if texts(lines@).contains(line@) {
            let j = choose|j: int| 0 <= j < texts(lines@).len() && texts(lines@)[j] == line@;
            assert(lines@[j]@ == line@);
        }
    }
    false
}

fn append_lines(merged: &mut Vec<String>, lines: &Vec<String>)
    ensures
        texts(final(merged)@) == append_new(texts(old(merged)@), texts(lines@)),
{
    let mut i: usize = 0;
    while i < lines.len()
        invariant
            i <= lines@.len(),
            texts(merged@) == append_new(texts(old(merged)@), texts(lines@).take(i as int)),
        decreases lines@.len() - i,
    {
        assert(texts(lines@).take(i + 1).drop_last() =~= texts(lines@).take(i as int));
        assert(texts(lines@).take(i + 1).last() == lines@[i as int]@);
        if !contains_text(merged, &lines[i]) {
            let ghost before = merged@;
            merged.push(lines[i].clone());
            assert(texts(merged@) =~= texts(before).push(lines@[i as int]@));
        }
        i = i + 1;
    }
    assert(texts(lines@).take(lines@.len() as int) =~= texts(lines@));
}

proof fn lemma_push_contains(s: Seq<u32>, c: u32, x: u32)
    requires
        x != c,
    ensures
        s.push(c).contains(x) == s.contains(x),
{
    if s.push(c).contains(x) {
        let j = choose|j: int| 0 <= j < s.push(c).len() && s.push(c)[j] == x;
        assert(j < s.len());
        assert(s[j] == x);
    }
    if s.contains(x) {
        let j = choose|j: int| 0 <= j < s.len() && s[j] == x;
        assert(s.push(c)[j] == x);
    }
}

/// The summon lines of several files together (see `merged_map`).
pub fn merge(files: &Vec<Dialogues>) -> (res: Dialogues)
    ensures
        res@ == merged_map(maps_of(files@)),
{
    let mut out = Dialogues::new();
    let mut f: usize = 0;
    assert(out@ =~= merged_map(maps_of(files@).take(0)));
    while f < files.len()
        invariant
            f <= files@.len(),
            out@ == merged_map(maps_of(files@).take(f as int)),
        decreases files@.len() - f,
    {
        let file = &files[f];
        let codes = file.codes();
        let ghost prev = out@;
        let ghost done = maps_of(files@).take(f as int);
        let ghost next = maps_of(files@).take(f + 1);
        assert(next.drop_last() =~= done);
        assert(next.last() == file@);
        let mut k: usize = 0;
        while k < codes.len()
            invariant
                k <= codes@.len(),
                codes@.no_duplicates(),
                forall|c: u32| codes@.contains(c) <==> file@.contains_key(c),
                prev == merged_map(done),
                next.drop_last() == done,
                next.len() > 0,
                next.last() == file@,
                forall|c: u32| #[trigger] out@.contains_key(c) <==> prev.contains_key(c) || codes@.take(k as int).contains(c),
                forall|c: u32| #[trigger] out@.contains_key(c) ==> out@[c] == if codes@.take(k as int).contains(c) {
                    merged_lines(next, c)
                } else {
                    prev[c]
                },
            decreases codes@.len() - k,
        {
            let c = codes[k];
            assert(codes@.contains(c));
            let lines = match file.get(c) {
                Some(v) => v,
                None => Vec::new(),
            };
            let mut cur = match out.get(c) {
                Some(v) => v,
                None => Vec::new(),
            };
            proof {
                assert(!codes@.take(k as int).contains(c)) by {
                    if codes@.take(k as int).contains(c) {
                        let j = choose|j: int| 0 <= j < k && codes@.take(k as int)[j] == c;
                        assert(codes@[j] == codes@[k as int]);
                    }
                }
                if prev.contains_key(c) {
                    assert(texts(cur@) == merged_lines(done, c));
                } else {
                    assert forall|i: int| 0 <= i < done.len() implies !(#[trigger] done[i]).contains_key(c) by {
                        if done[i].contains_key(c) {
                            assert(merged_map(done).contains_key(c));
                        }
                    }
                    lemma_merged_absent(done, c);
                    assert(texts(cur@) =~= merged_lines(done, c));
                }
            }
            append_lines(&mut cur, &lines);
            out.set(c, cur);
            proof {
                assert(codes@.take(k + 1) =~= codes@.take(k as int).push(c));
                assert(texts(lines@) == file@[c]);
                assert(merged_lines(next, c) == append_new(merged_lines(done, c), file@[c]));
                assert forall|x: u32| #[trigger] out@.contains_key(x) <==> prev.contains_key(x) || codes@.take(k + 1).contains(x) by {
                    if x != c {
                        lemma_push_contains(codes@.take(k as int), c, x);
                    } else {
                        assert(codes@.take(k + 1)[k as int] == c);
                    }
                }
                assert forall|x: u32| #[trigger] out@.contains_key(x) implies out@[x] == if codes@.take(k + 1).contains(x) {
                    merged_lines(next, x)
                } else {
                    prev[x]
                } by {
                    if x != c {
                        lemma_push_contains(codes@.take(k as int), c, x);
                    } else {
                        assert(codes@.take(k + 1)[k as int] == c);
                    }
                }
            }
            k = k + 1;
        }
        proof {
            assert(codes@.take(codes@.len() as int) =~= codes@);
            assert forall|c: u32| #[trigger] out@.contains_key(c) == merged_map(next).contains_key(c) && (out@.contains_key(c)
                ==> out@[c] == merged_map(next)[c]) by {
                if merged_map(next).contains_key(c) {
                    let i = choose|i: int| 0 <= i < next.len() && next[i].contains_key(c);
                    if i < f {
                        assert(done[i] == next[i]);
                    }
                }
                if prev.contains_key(c) {
                    let i = choose|i: int| 0 <= i < done.len() && done[i].contains_key(c);
                    assert(next[i] == done[i]);
                }
                if file@.contains_key(c) {
                    assert(next[f as int] == file@);
                }
                if out@.contains_key(c) && !codes@.contains(c) {
                    assert(!file@.contains_key(c));
                }
            }
            assert(out@ =~= merged_map(next));
        }
        f = f + 1;
    }
    assert(maps_of(files@).take(files@.len() as int) =~= maps_of(files@));
    out
}

/// A summon line for card `code`, drawn at random, when summon lines are enabled and the
/// card has one.
pub fn dialogue(enabled: bool, dialogues: &Dialogues, code: u32) -> (res: Option<String>)
    ensures
        res is Some <==> enabled && dialogues@.contains_key(code) && dialogues@[code].len() > 0,
        res matches Some(line) ==> dialogues@[code].contains(line@),
{
    if !enabled {
        return None;
    }
    match dialogues.get(code) {
        None => None,
        Some(lines) => {
            let res = choose_line(&lines);
            proof {
                if res is Some {
                    let line = res->0;
                    let i = choose|i: int| 0 <= i < lines@.len() && lines@[i] == line;
                    assert(texts(lines@)[i] == line@);
                }
            }
            res
        },
    }
}

/// The file formats of summon lines.
#[derive(Clone, Copy, Debug, PartialEq, Eq, Structural)]
pub enum DialogueFormat {
    Json,
    Toml,
}

/// The format named by a file extension, ignoring ASCII case: `json` or `toml`.
pub open spec fn spec_format(ext: Seq<char>) -> Option<DialogueFormat> {
    if ext.len() == 4 && lower(ext[0]) == 'j' && lower(ext[1]) == 's' && lower(ext[2]) == 'o' && lower(ext[3]) == 'n' {
        Some(DialogueFormat::Json)
    } else if ext.len() == 4 && lower(ext[0]) == 't' && lower(ext[1]) == 'o' && lower(ext[2]) == 'm' && lower(ext[3]) == 'l' {
        Some(DialogueFormat::Toml)
    } else {
        None
    }
}

/// ASCII lower case of a character.
pub open spec fn lower(c: char) -> char {
    if 'A' <= c <= 'Z' { ((c as u32) + 32) as char } else { c }
}

fn to_lower(c: char) -> (res: char)
    ensures
        res == lower(c),
{
    if c >= 'A' && c <= 'Z' {
        ((c as u8) + 32) as char
    } else {
        c
    }
}

/// The format of a summon-line file by its extension.
pub fn format_for(ext: &str) -> (res: Option<DialogueFormat>)
    ensures
        res == spec_format(ext@),
{
    let e = chars_of(ext);
    if e.len() != 4 {
        return None;
    }
    let (a, b, c, d) = (to_lower(e[0]), to_lower(e[1]), to_lower(e[2]), to_lower(e[3]));
    if a == 'j' && b == 's' && c == 'o' && d == 'n' {
        Some(DialogueFormat::Json)
    } else if a == 't' && b == 'o' && c == 'm' && d == 'l' {
        Some(DialogueFormat::Toml)
    } else {
        None
    }
}


/// Largest message resource file read: 16 MiB.
pub const MAX_RESOURCE: usize = 16777216;

/// Whether a resource file of `len` bytes is read.
pub fn resource_fits(len: usize) -> (res: bool)
    ensures
        res == (len <= MAX_RESOURCE),
{
    len <= MAX_RESOURCE
}

fn same_bytes(a: &Vec<u8>, b: &Vec<u8>) -> (res: bool)
    ensures
        res == (a@ == b@),
{
    if a.len() != b.len() {
        return false;
    }
    let mut i: usize = 0;
    while i < a.len()
        invariant
            a@.len() == b@.len(),
            i <= a@.len(),
            forall|j: int| 0 <= j < i ==> a@[j] == b@[j],
        decreases a@.len() - i,
    {
        if a[i] != b[i] {
            return false;
        }
        i = i + 1;
    }
    assert(a@ =~= b@);
    true
}

/// The same files, in the same order: the same formats and the same bytes.
pub open spec fn sources_equal(a: Seq<(DialogueFormat, Vec<u8>)>, b: Seq<(DialogueFormat, Vec<u8>)>) -> bool {
    a.len() == b.len() && forall|i: int| 0 <= i < a.len() ==> (#[trigger] a[i]).0 == b[i].0 && a[i].1@ == b[i].1@
}

/// The summon lines to use after a reload, given the files in use (`previous`) and what
/// reading them again gave (`read`: their sources and lines, `None` where reading
/// failed): `None` keeps the lines in use, which happens where reading failed or the
/// files did not change; otherwise the files' lines merged (see `merge`).
pub fn reloaded_lines(previous: &Vec<(DialogueFormat, Vec<u8>)>, read: &Option<(Vec<(DialogueFormat, Vec<u8>)>, Vec<Dialogues>)>) -> (res: Option<Dialogues>)
    ensures
        match read {
            None => res is None,
            Some((sources, files)) => if sources_equal(sources@, previous@) {
                res is None
            } else {
                res matches Some(d) && d@ == merged_map(maps_of(files@))
            },
        },
{
    match read {
        None => None,
        Some((sources, files)) => if same_sources(sources, previous) {
            None
        } else {
            Some(merge(files))
        },
    }
}

/// The summon-line files read are those read before: as many, each with the same format
/// and the same bytes, in order. Then the merged lines are kept as they were.
pub fn same_sources(a: &Vec<(DialogueFormat, Vec<u8>)>, b: &Vec<(DialogueFormat, Vec<u8>)>) -> (res: bool)
    ensures
        res == sources_equal(a@, b@),
{
    if a.len() != b.len() {
        return false;
    }
    let mut i: usize = 0;
    while i < a.len()
        invariant
            a@.len() == b@.len(),
            i <= a@.len(),
            forall|j: int| 0 <= j < i ==> (#[trigger] a@[j]).0 == b@[j].0 && a@[j].1@ == b@[j].1@,
        decreases a@.len() - i,
    {
        if a[i].0 != b[i].0 || !same_bytes(&a[i].1, &b[i].1) {
            return false;
        }
        i = i + 1;
    }
    true
}

/// The first file read before with the same format and bytes, whose lines can be reused.
pub fn find_cached(cache: &Vec<(DialogueFormat, Vec<u8>)>, format: DialogueFormat, bytes: &Vec<u8>) -> (res: Option<usize>)
    ensures
        match res {
            Some(i) => i < cache@.len() && cache@[i as int].0 == format && cache@[i as int].1@ == bytes@ && forall|j: int|
                0 <= j < i ==> !((#[trigger] cache@[j]).0 == format && cache@[j].1@ == bytes@),
            None => forall|j: int| 0 <= j < cache@.len() ==> !((#[trigger] cache@[j]).0 == format && cache@[j].1@ == bytes@),
        },
{
    let mut i: usize = 0;
    while i < cache.len()
        invariant
            i <= cache@.len(),
            forall|j: int| 0 <= j < i ==> !((#[trigger] cache@[j]).0 == format && cache@[j].1@ == bytes@),
        decreases cache@.len() - i,
    {
        if cache[i].0 == format && same_bytes(&cache[i].1, bytes) {
            return Some(i);
        }
        i = i + 1;
    }
    None
}


// ---------------------------------------------------------------------------
// Laws of chat lines, notices and summon lines
// ---------------------------------------------------------------------------

/// UTF-16 code units of a text.
pub open spec fn units_of(s: Seq<char>) -> int
    decreases s.len(),
{
    if s.len() == 0 { 0 } else { units_of(s.drop_last()) + units(s.last()) }
}

/// The texts one after another.
pub open spec fn concat_all(pieces: Seq<Seq<char>>) -> Seq<char>
    decreases pieces.len(),
{
    if pieces.len() == 0 { Seq::empty() } else { concat_all(pieces.drop_last()) + pieces.last() }
}

proof fn lemma_units_positive(s: Seq<char>)
    ensures
        units_of(s) >= s.len(),
        s.len() > 0 ==> units_of(s) > 0,
    decreases s.len(),
{
    if s.len() > 0 {
        lemma_units_positive(s.drop_last());
    }
}

proof fn lemma_fill_facts(chars: Seq<char>)
    ensures
        ({
            let (done, cur, len) = fill(chars);
            &&& len == units_of(cur)
            &&& units_of(cur) <= CHAT_UNITS
            &&& concat_all(done) + cur == chars
            &&& forall|i: int| 0 <= i < done.len() ==> 0 < #[trigger] units_of(done[i]) <= CHAT_UNITS
        }),
    decreases chars.len(),
{
    if chars.len() == 0 {
        assert(concat_all(Seq::<Seq<char>>::empty()) + Seq::<char>::empty() =~= chars);
    } else {
        let prev = chars.drop_last();
        lemma_fill_facts(prev);
        let (done, cur, len) = fill(prev);
        let c = chars.last();
        lemma_units_positive(cur);
        assert(seq![c].drop_last() =~= Seq::<char>::empty());
        assert(cur.push(c).drop_last() =~= cur);
        if len + units(c) > CHAT_UNITS {
            assert(cur.len() > 0) by {
                if cur.len() == 0 {
                    assert(units_of(cur) == 0);
                }
            }
            assert(done.push(cur).drop_last() =~= done);
            assert forall|i: int| 0 <= i < done.push(cur).len() implies 0 < #[trigger] units_of(done.push(cur)[i])
                <= CHAT_UNITS by {
                if i < done.len() {
                    assert(done.push(cur)[i] == done[i]);
                }
            }
            assert(concat_all(done.push(cur)) + seq![c] =~= (concat_all(done) + cur).push(c));
            assert(prev.push(c) =~= chars);
            assert(fill(chars) == (done.push(cur), seq![c], units(c)));
            assert(seq![c].last() == c);
            assert(units_of(Seq::<char>::empty()) == 0);
            assert(units_of(seq![c]) == units_of(seq![c].drop_last()) + units(c));
            assert(units_of(seq![c]) == units(c));
        } else {
            assert(concat_all(done) + cur.push(c) =~= (concat_all(done) + cur).push(c));
            assert(prev.push(c) =~= chars);
            assert(fill(chars) == (done, cur.push(c), len + units(c)));
            assert(cur.push(c).last() == c);
            assert(units_of(cur.push(c)) == units_of(cur) + units(c));
        }
    }
}

/// The pieces of one line put back together are the line, and each piece is a non-empty
/// run of at most 240 UTF-16 units.
pub proof fn lemma_line_pieces(line: Seq<char>)
    ensures
        concat_all(line_pieces(line)) == line,
        forall|i: int| 0 <= i < line_pieces(line).len() ==> 0 < #[trigger] units_of(line_pieces(line)[i]) <= CHAT_UNITS,
{
    lemma_fill_facts(line);
    let (done, cur, len) = fill(line);
    lemma_units_positive(cur);
    if cur.len() > 0 {
        assert(done.push(cur).drop_last() =~= done);
        assert forall|i: int| 0 <= i < done.push(cur).len() implies 0 < #[trigger] units_of(done.push(cur)[i])
            <= CHAT_UNITS by {
            if i < done.len() {
                assert(done.push(cur)[i] == done[i]);
            }
        }
    } else {
        assert(concat_all(done) + cur =~= concat_all(done));
    }
}

proof fn lemma_all_pieces_fit(lines: Seq<Seq<char>>)
    ensures
        forall|i: int| 0 <= i < all_pieces(lines).len() ==> 0 < #[trigger] units_of(all_pieces(lines)[i]) <= CHAT_UNITS,
    decreases lines.len(),
{
    if lines.len() > 0 {
        lemma_all_pieces_fit(lines.drop_last());
        lemma_line_pieces(lines.last());
        let a = all_pieces(lines.drop_last());
        let b: Seq<Seq<char>> = if is_blank(lines.last()) { Seq::empty() } else { line_pieces(lines.last()) };
        assert forall|i: int| 0 <= i < (a + b).len() implies 0 < #[trigger] units_of((a + b)[i]) <= CHAT_UNITS by {
            if i < a.len() {
                assert((a + b)[i] == a[i]);
            } else {
                assert((a + b)[i] == b[i - a.len()]);
            }
        }
    }
}

/// Every chat line the server sends fits the client's buffer: at most 16 lines, each a
/// non-empty run of at most 240 UTF-16 units.
pub proof fn lemma_chat_lines_fit(text: Seq<char>)
    ensures
        spec_chat_lines(text).len() <= MAX_CHAT_LINES,
        forall|i: int| 0 <= i < spec_chat_lines(text).len() ==> 0 < #[trigger] units_of(spec_chat_lines(text)[i])
            <= CHAT_UNITS,
{
    lemma_all_pieces_fit(text_lines(text));
    let all = all_pieces(text_lines(text));
    if all.len() > MAX_CHAT_LINES {
        assert forall|i: int| 0 <= i < all.take(MAX_CHAT_LINES as int).len() implies 0 < #[trigger] units_of(
            all.take(MAX_CHAT_LINES as int)[i],
        ) <= CHAT_UNITS by {
            assert(all.take(MAX_CHAT_LINES as int)[i] == all[i]);
        }
    }
}

/// Connection `id` is a connected duelist or spectator of the room.
pub open spec fn present(players: Seq<(u64, PlayerRecord)>, id: u64) -> bool {
    exists|j: int| 0 <= j < players.len() && players[j].0 == id && players[j].1.connected && placed(players[j].1.position)
}

/// A notice about a connection never goes to that connection, and goes only to connected
/// duelists and spectators.
pub proof fn lemma_audience(players: Seq<(u64, PlayerRecord)>, except: u64)
    ensures
        !audience(players, Some(except)).contains(except),
        forall|k: int| 0 <= k < audience(players, Some(except)).len() ==> present(players, #[trigger] audience(
            players,
            Some(except),
        )[k]),
    decreases players.len(),
{
    if players.len() > 0 {
        let prev = players.drop_last();
        lemma_audience(prev, except);
        let rest = audience(prev, Some(except));
        let (id, p) = players.last();
        if Some(id) != Some(except) && p.connected && placed(p.position) {
            assert(audience(players, Some(except)) == rest.push(id));
            assert forall|k: int| 0 <= k < rest.push(id).len() implies present(players, #[trigger] rest.push(id)[k]) by {
                if k < rest.len() {
                    assert(present(prev, rest[k]));
                    let j = choose|j: int|
                        0 <= j < prev.len() && prev[j].0 == rest[k] && prev[j].1.connected && placed(prev[j].1.position);
                    assert(players[j] == prev[j]);
                } else {
                    assert(players[players.len() - 1].0 == id);
                }
            }
            if rest.push(id).contains(except) {
                let k = choose|k: int| 0 <= k < rest.push(id).len() && rest.push(id)[k] == except;
                if k < rest.len() {
                    assert(rest.contains(except));
                }
            }
        } else {
            assert(audience(players, Some(except)) == rest);
            assert forall|k: int| 0 <= k < rest.len() implies present(players, #[trigger] rest[k]) by {
                assert(present(prev, rest[k]));
                let j = choose|j: int|
                    0 <= j < prev.len() && prev[j].0 == rest[k] && prev[j].1.connected && placed(prev[j].1.position);
                assert(players[j] == prev[j]);
            }
        }
    }
}

proof fn lemma_append_new_unique(merged: Seq<Seq<char>>, lines: Seq<Seq<char>>)
    requires
        merged.no_duplicates(),
    ensures
        append_new(merged, lines).no_duplicates(),
    decreases lines.len(),
{
    if lines.len() > 0 {
        lemma_append_new_unique(merged, lines.drop_last());
        let m = append_new(merged, lines.drop_last());
        if !m.contains(lines.last()) {
            assert forall|i: int, j: int| 0 <= i < m.push(lines.last()).len() && 0 <= j < m.push(lines.last()).len() && i
                != j implies m.push(lines.last())[i] != m.push(lines.last())[j] by {
                if i < m.len() && j < m.len() {
                } else if i == m.len() {
                    assert(m.push(lines.last())[j] == m[j]);
                } else {
                    assert(m.push(lines.last())[i] == m[i]);
                }
            }
        }
    }
}

/// Gathering the summon lines of several files keeps each line of a card once.
pub proof fn lemma_merged_lines_unique(files: Seq<Map<u32, Seq<Seq<char>>>>, code: u32)
    ensures
        merged_lines(files, code).no_duplicates(),
    decreases files.len(),
{
    if files.len() > 0 {
        lemma_merged_lines_unique(files.drop_last(), code);
        if files.last().contains_key(code) {
            lemma_append_new_unique(merged_lines(files.drop_last(), code), files.last()[code]);
        }
    }
}

// ---------------------------------------------------------------------------
// Reading a file of summon lines
// ---------------------------------------------------------------------------

/// Reads bytes as UTF-8 text (`std::str::from_utf8`): the text they encode, or nothing
/// where they are not valid UTF-8.
#[verifier::external_body]
pub(crate) fn utf8_text(bytes: &[u8]) -> (res: Option<String>)
    ensures
        match res {
            Some(s) => vstd::utf8::valid_utf8(bytes@) && s@ == vstd::utf8::decode_utf8(bytes@),
            None => !vstd::utf8::valid_utf8(bytes@),
        },
{
    std::str::from_utf8(bytes).ok().map(|s| s.to_owned())
}

/// What `basic_toml::from_str` reads from the text as a table of string lists
/// (`BTreeMap<String, Vec<String>>`), its entries in key order; `None` where it reports an
/// error.
pub uninterp spec fn toml_lists(text: Seq<char>) -> Option<Seq<(String, Vec<String>)>>;

/// How deep a TOML text may nest: brackets and braces open, and dots of keys.
pub const MAX_TOML_NESTING: u64 = 128;

/// Outside strings and comments.
pub const TOML_PLAIN: u8 = 0;
/// In a comment.
pub const TOML_COMMENT: u8 = 1;
/// In a basic string.
pub const TOML_BASIC: u8 = 2;
/// In a literal string.
pub const TOML_LITERAL: u8 = 3;
/// In a multi-line basic string.
pub const TOML_ML_BASIC: u8 = 4;
/// In a multi-line literal string.
pub const TOML_ML_LITERAL: u8 = 5;

/// `i + n`, at most `len`.
pub open spec fn step_to(i: int, n: int, len: int) -> int {
    if i + n <= len { i + n } else { len }
}

/// Reading the text from `i` on, in `mode`, with `open` brackets and braces open and
/// `dots` dots seen outside strings and comments, never nests deeper than
/// `MAX_TOML_NESTING`. Strings and comments are told apart as `basic_toml`'s tokenizer
/// does: `"` and `'` open strings (three of them a multi-line one, two an empty one), a
/// backslash in a basic string takes the next character with it, a multi-line string
/// closes at three quotes and takes up to two more, and a comment runs to a control
/// character other than tab. Only brackets, braces and dots outside strings and
/// comments count; a closing bracket or brace never takes the count below zero.
pub open spec fn nesting_ok(t: Seq<char>, i: int, mode: u8, open: int, dots: int) -> bool
    decreases t.len() - i,
{
    if i < 0 || i >= t.len() {
        true
    } else {
        let c = t[i];
        let n = t.len() as int;
        if mode == TOML_PLAIN {
            if c == '[' || c == '{' {
                open + 1 + dots <= MAX_TOML_NESTING && nesting_ok(t, i + 1, mode, open + 1, dots)
            } else if c == ']' || c == '}' {
                nesting_ok(t, i + 1, mode, if open > 0 { open - 1 } else { 0 }, dots)
            } else if c == '.' {
                open + dots + 1 <= MAX_TOML_NESTING && nesting_ok(t, i + 1, mode, open, dots + 1)
            } else if c == '#' {
                nesting_ok(t, i + 1, TOML_COMMENT, open, dots)
            } else if c == '"' || c == '\'' {
                if i + 2 < n && t[i + 1] == c && t[i + 2] == c {
                    nesting_ok(t, i + 3, if c == '"' { TOML_ML_BASIC } else { TOML_ML_LITERAL }, open, dots)
                } else if i + 1 < n && t[i + 1] == c {
                    nesting_ok(t, i + 2, mode, open, dots)
                } else {
                    nesting_ok(t, i + 1, if c == '"' { TOML_BASIC } else { TOML_LITERAL }, open, dots)
                }
            } else {
                nesting_ok(t, i + 1, mode, open, dots)
            }
        } else if mode == TOML_COMMENT {
            if c != '\t' && (c as u32) < 0x20 {
                nesting_ok(t, i + 1, TOML_PLAIN, open, dots)
            } else {
                nesting_ok(t, i + 1, mode, open, dots)
            }
        } else if mode == TOML_BASIC || mode == TOML_LITERAL {
            if mode == TOML_BASIC && c == '\\' {
                nesting_ok(t, step_to(i, 2, n), mode, open, dots)
            } else if (mode == TOML_BASIC && c == '"') || (mode == TOML_LITERAL && c == '\'') {
                nesting_ok(t, i + 1, TOML_PLAIN, open, dots)
            } else {
                nesting_ok(t, i + 1, mode, open, dots)
            }
        } else {
            let q = if mode == TOML_ML_BASIC { '"' } else { '\'' };
            if mode == TOML_ML_BASIC && c == '\\' {
                nesting_ok(t, step_to(i, 2, n), mode, open, dots)
            } else if c == q && i + 2 < n && t[i + 1] == q && t[i + 2] == q {
                let extra: int = if i + 3 < n && t[i + 3] == q {
                    if i + 4 < n && t[i + 4] == q { 2 } else { 1 }
                } else {
                    0
                };
                nesting_ok(t, i + 3 + extra, TOML_PLAIN, open, dots)
            } else {
                nesting_ok(t, i + 1, mode, open, dots)
            }
        }
    }
}

/// The whole text nests no deeper than `MAX_TOML_NESTING` (see `nesting_ok`).
pub open spec fn toml_nesting_bounded(t: Seq<char>) -> bool {
    nesting_ok(t, 0, TOML_PLAIN, 0, 0)
}

/// Whether the text nests no deeper than `MAX_TOML_NESTING` (see `nesting_ok`).
pub fn toml_nesting_checked(text: &str) -> (res: bool)
    ensures
        res == toml_nesting_bounded(text@),
{
    let t = chars_of(text);
    let n = t.len();
    let mut i: usize = 0;
    let mut mode: u8 = TOML_PLAIN;
    let mut open: u64 = 0;
    let mut dots: u64 = 0;
    while i < n
        invariant
            t@ == text@,
            n == t@.len(),
            i <= n,
            open + dots <= MAX_TOML_NESTING,
            mode <= TOML_ML_LITERAL,
            toml_nesting_bounded(text@) == nesting_ok(t@, i as int, mode, open as int, dots as int),
        decreases n - i,
    {
        let c = t[i];
        if mode == TOML_PLAIN {
            if c == '[' || c == '{' {
                if open + 1 + dots > MAX_TOML_NESTING {
                    return false;
                }
                open = open + 1;
                i = i + 1;
            } else if c == ']' || c == '}' {
                if open > 0 {
                    open = open - 1;
                }
                i = i + 1;
            } else if c == '.' {
                if open + dots + 1 > MAX_TOML_NESTING {
                    return false;
                }
                dots = dots + 1;
                i = i + 1;
            } else if c == '#' {
                mode = TOML_COMMENT;
                i = i + 1;
            } else if c == '"' || c == '\'' {
                if n - i > 2 && t[i + 1] == c && t[i + 2] == c {
                    mode = if c == '"' { TOML_ML_BASIC } else { TOML_ML_LITERAL };
                    i = i + 3;
                } else if n - i > 1 && t[i + 1] == c {
                    i = i + 2;
                } else {
                    mode = if c == '"' { TOML_BASIC } else { TOML_LITERAL };
                    i = i + 1;
                }
            } else {
                i = i + 1;
            }
        } else if mode == TOML_COMMENT {
            if c != '\t' && (c as u32) < 0x20 {
                mode = TOML_PLAIN;
            }
            i = i + 1;
        } else if mode == TOML_BASIC || mode == TOML_LITERAL {
            if mode == TOML_BASIC && c == '\\' {
                i = if n - i >= 2 { i + 2 } else { n };
            } else if (mode == TOML_BASIC && c == '"') || (mode == TOML_LITERAL && c == '\'') {
                mode = TOML_PLAIN;
                i = i + 1;
            } else {
                i = i + 1;
            }
        } else {
            let q = if mode == TOML_ML_BASIC { '"' } else { '\'' };
            if mode == TOML_ML_BASIC && c == '\\' {
                i = if n - i >= 2 { i + 2 } else { n };
            } else if c == q && n - i > 2 && t[i + 1] == q && t[i + 2] == q {
                let extra: usize = if n - i > 3 && t[i + 3] == q {
                    if n - i > 4 && t[i + 4] == q { 2 } else { 1 }
                } else {
                    0
                };
                mode = TOML_PLAIN;
                i = i + 3 + extra;
            } else {
                i = i + 1;
            }
        }
    }
    true
}

/// Reads a TOML table of string lists with `basic_toml::from_str`. The result is named by
/// `toml_lists`. The reader recurses once for each bracket, brace and key dot a value
/// nests in, with no limit of its own, so `requires` bounds the nesting (see
/// `nesting_ok`).
#[verifier::external_body]
fn read_toml_lists(text: &str) -> (res: Option<Vec<(String, Vec<String>)>>)
    requires
        toml_nesting_bounded(text@),
    ensures
        match res {
            Some(v) => toml_lists(text@) == Some(v@),
            None => toml_lists(text@) is None,
        },
{
    basic_toml::from_str::<std::collections::BTreeMap<String, Vec<String>>>(text).ok().map(|m| m.into_iter().collect())
}

/// Whether `serde_json::from_str` reads the text as a JSON value, and if so whether the
/// value has a `dialogues` member and a `dialogues_custom` member (`Value::get`).
pub uninterp spec fn json_shape(text: Seq<char>) -> Option<(bool, bool)>;

/// Reads a JSON value with `serde_json::from_str` and looks for its `dialogues` and
/// `dialogues_custom` members. The result is named by `json_shape`.
#[verifier::external_body]
fn read_json_shape(text: &str) -> (res: Option<(bool, bool)>)
    ensures
        res == json_shape(text@),
{
    let v: serde_json::Value = serde_json::from_str(text).ok()?;
    Some((v.get("dialogues").is_some(), v.get("dialogues_custom").is_some()))
}

/// What `serde_json::from_str` reads from the text as a map from card codes to string
/// lists (`BTreeMap<u32, Vec<String>>`), its entries in code order; `None` where it
/// reports an error.
pub uninterp spec fn json_lists(text: Seq<char>) -> Option<Seq<(u32, Vec<String>)>>;

/// Reads a JSON map from card codes to string lists with `serde_json::from_str`. The
/// result is named by `json_lists`.
#[verifier::external_body]
fn read_json_lists(text: &str) -> (res: Option<Vec<(u32, Vec<String>)>>)
    ensures
        match res {
            Some(v) => json_lists(text@) == Some(v@),
            None => json_lists(text@) is None,
        },
{
    serde_json::from_str::<std::collections::BTreeMap<u32, Vec<String>>>(text).ok().map(|m| m.into_iter().collect())
}

/// What the member `key` of the JSON value in the text reads as with
/// `serde_json::from_value` as a map from card codes to string lists, in code order:
/// `Some(None)` where the value has no such member (`Value::get`); `None` where reading
/// reports an error.
pub uninterp spec fn json_member(text: Seq<char>, key: Seq<char>) -> Option<Option<Seq<(u32, Vec<String>)>>>;

/// Reads the member `key` of a JSON value (`serde_json::from_str`, `Value::get`,
/// `serde_json::from_value`) as a map from card codes to string lists. The result is
/// named by `json_member`.
#[verifier::external_body]
fn read_json_member(text: &str, key: &str) -> (res: Option<Option<Vec<(u32, Vec<String>)>>>)
    ensures
        match res {
            Some(Some(v)) => json_member(text@, key@) == Some(Some(v@)),
            Some(None) => json_member(text@, key@) == Some(None::<Seq<(u32, Vec<String>)>>),
            None => json_member(text@, key@) is None,
        },
{
    let v: serde_json::Value = serde_json::from_str(text).ok()?;
    match v.get(key) {
        None => Some(None),
        Some(m) => serde_json::from_value::<std::collections::BTreeMap<u32, Vec<String>>>(m.clone()).ok().map(|m| Some(m.into_iter().collect())),
    }
}

/// The entries of a member that may be missing: none where it is.
pub open spec fn member_entries(m: Option<Seq<(u32, Vec<String>)>>) -> Seq<(u32, Vec<String>)> {
    match m {
        Some(v) => v,
        None => Seq::empty(),
    }
}

/// The text without the byte-order marks (U+FEFF) at its start.
pub open spec fn without_bom(text: Seq<char>) -> Seq<char>
    decreases text.len(),
{
    if text.len() > 0 && text[0] == '\u{feff}' {
        without_bom(text.drop_first())
    } else {
        text
    }
}

/// The summon lines a file holds, from its bytes: it must be UTF-8 text; byte-order marks
/// at its start are dropped. A TOML file is a table of line lists keyed by card number
/// (see `toml_lines`). A JSON file with a `dialogues` or `dialogues_custom` member is in
/// the older layout (see `overlay`); any other JSON file maps card codes to line lists
/// (see `plain_lines`).
pub open spec fn spec_parse_dialogues(buffer: Seq<u8>, format: DialogueFormat) -> Result<
    Map<u32, Seq<Seq<char>>>,
    DialogueError,
> {
    if !vstd::utf8::valid_utf8(buffer) {
        Err(DialogueError::NotText)
    } else {
        let text = without_bom(vstd::utf8::decode_utf8(buffer));
        match format {
            DialogueFormat::Toml => if !toml_nesting_bounded(text) {
                Err(DialogueError::TooDeep)
            } else {
                match toml_lists(text) {
                    None => Err(DialogueError::Unreadable),
                    Some(entries) => toml_lines(entries),
                }
            },
            DialogueFormat::Json => match json_shape(text) {
                None => Err(DialogueError::Unreadable),
                Some((d, c)) => if d || c {
                    match (json_member(text, "dialogues"@), json_member(text, "dialogues_custom"@)) {
                        (Some(main), Some(custom)) => Ok(
                            overlay(plain_lines(member_entries(custom)), member_entries(main)),
                        ),
                        _ => Err(DialogueError::Unreadable),
                    }
                } else {
                    match json_lists(text) {
                        None => Err(DialogueError::Unreadable),
                        Some(entries) => Ok(plain_lines(entries)),
                    }
                },
            },
        }
    }
}

fn strip_bom(text: &str) -> (res: String)
    ensures
        res@ == without_bom(text@),
{
    let c = chars_of(text);
    let mut i: usize = 0;
    assert(c@.skip(0) =~= c@);
    while i < c.len() && c[i] == '\u{feff}'
        invariant
            i <= c@.len(),
            c@ == text@,
            without_bom(text@) == without_bom(c@.skip(i as int)),
        decreases c@.len() - i,
    {
        assert(c@.skip(i as int).drop_first() =~= c@.skip(i + 1));
        i = i + 1;
    }
    let rest = crate::text::sub_chars(&c, i, c.len());
    assert(rest@ =~= c@.skip(i as int));
    string_of(&rest)
}

/// The summon lines of a file (see `spec_parse_dialogues`).
pub fn parse_dialogues(buffer: &[u8], format: DialogueFormat) -> (res: Result<Dialogues, DialogueError>)
    ensures
        match spec_parse_dialogues(buffer@, format) {
            Ok(m) => res matches Ok(d) && d@ == m,
            Err(e) => res matches Err(r) && r == e,
        },
{
    let raw = match utf8_text(buffer) {
        None => {
            return Err(DialogueError::NotText);
        },
        Some(t) => t,
    };
    let text = strip_bom(raw.as_str());
    match format {
        DialogueFormat::Toml => if !toml_nesting_checked(text.as_str()) {
            Err(DialogueError::TooDeep)
        } else {
            match read_toml_lists(text.as_str()) {
                None => Err(DialogueError::Unreadable),
                Some(entries) => from_toml(&entries),
            }
        },
        DialogueFormat::Json => match read_json_shape(text.as_str()) {
            None => Err(DialogueError::Unreadable),
            Some((d, c)) => if d || c {
                let main = read_json_member(text.as_str(), "dialogues");
                let custom = read_json_member(text.as_str(), "dialogues_custom");
                match (main, custom) {
                    (Some(main), Some(custom)) => {
                        let main = match main {
                            Some(v) => v,
                            None => Vec::new(),
                        };
                        let custom = match custom {
                            Some(v) => v,
                            None => Vec::new(),
                        };
                        Ok(from_wrapped(&main, &custom))
                    },
                    _ => Err(DialogueError::Unreadable),
                }
            } else {
                match read_json_lists(text.as_str()) {
                    None => Err(DialogueError::Unreadable),
                    Some(entries) => Ok(from_json(&entries)),
                }
            },
        },
    }
}

} // verus!

