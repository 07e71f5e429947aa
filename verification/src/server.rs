use vstd::prelude::*;
use crate::duel::{DuelStage, HostInfo, Netplayer, default_host_info};
use crate::password::{Password, PasswordError, capacity_of, random_prefix_of, spec_parse};
use crate::room::{RoomRecord, PlayerRecord};
use crate::rooms::{RoomEvent, RoomEvents, RoomInfo, RoomList, added, closed, has_key};
use crate::text::{chars_of, decimal, eq_chars, lemma_decimal_digits, push_chars, push_decimal, string_of};
use crate::transport::Protocol;

verus! {

// ---------------------------------------------------------------------------
// The server's decisions on connections and rooms. The caller keeps the rooms, the
// connections and the timers, and performs what is decided here.
// ---------------------------------------------------------------------------

/// `s` starts with `prefix`.
pub open spec fn starts_with(s: Seq<char>, prefix: Seq<char>) -> bool {
    prefix.len() <= s.len() && s.take(prefix.len() as int) == prefix
}

fn has_prefix(s: &Vec<char>, prefix: &Vec<char>) -> (res: bool)
    ensures
        res == starts_with(s@, prefix@),
{
    if prefix.len() > s.len() {
        return false;
    }
    let mut i: usize = 0;
    while i < prefix.len()
        invariant
            prefix@.len() <= s@.len(),
            i <= prefix@.len(),
            forall|j: int| 0 <= j < i ==> s@[j] == prefix@[j],
        decreases prefix@.len() - i,
    {
        if s[i] != prefix[i] {
            assert(s@.take(prefix@.len() as int)[i as int] != prefix@[i as int]);
            return false;
        }
        i = i + 1;
    }
    assert(s@.take(prefix@.len() as int) =~= prefix@);
    true
}

/// Room `i` of the list can take another connection with the same rules: its key starts
/// with `prefix` and it has fewer than `capacity` connections.
pub open spec fn open_room(rooms: Seq<(String, usize)>, prefix: Seq<char>, capacity: usize, i: int) -> bool {
    starts_with(rooms[i].0@, prefix) && rooms[i].1 < capacity
}

/// The key of a new random room: the prefix and a counter.
pub open spec fn candidate(prefix: Seq<char>, counter: u64) -> Seq<char> {
    prefix + decimal(counter as nat)
}

/// The counter `k` steps after `start`, wrapping at 2^64.
pub open spec fn counter_after(start: u64, k: int) -> u64 {
    if start + k > u64::MAX { (start + k - 0x1_0000_0000_0000_0000) as u64 } else { (start + k) as u64 }
}

/// One of the keys is `key`.
pub open spec fn key_taken(rooms: Seq<(String, usize)>, key: Seq<char>) -> bool {
    exists|i: int| 0 <= i < rooms.len() && #[trigger] rooms[i].0@ == key
}

fn taken(rooms: &Vec<(String, usize)>, key: &Vec<char>) -> (res: bool)
    ensures
        res == key_taken(rooms@, key@),
{
    let mut i: usize = 0;
    while i < rooms.len()
        invariant
            i <= rooms@.len(),
            forall|j: int| 0 <= j < i ==> rooms@[j].0@ != key@,
        decreases rooms@.len() - i,
    {
        if eq_chars(&chars_of(rooms[i].0.as_str()), key) {
            return true;
        }
        i = i + 1;
    }
    false
}

proof fn lemma_candidates_distinct(prefix: Seq<char>, start: u64, a: int, b: int)
    requires
        0 <= a < b <= u64::MAX,
    ensures
        candidate(prefix, counter_after(start, a)) != candidate(prefix, counter_after(start, b)),
{
    let x = counter_after(start, a);
    let y = counter_after(start, b);
    assert(x != y);
    lemma_decimal_digits(x as nat);
    lemma_decimal_digits(y as nat);
    if candidate(prefix, x) == candidate(prefix, y) {
        assert(candidate(prefix, x).skip(prefix.len() as int) =~= decimal(x as nat));
        assert(candidate(prefix, y).skip(prefix.len() as int) =~= decimal(y as nat));
    }
}

/// More keys than rooms cannot all be taken: among the first `rooms.len() + 1` counter
/// values one gives a free key.
proof fn lemma_free_key(rooms: Seq<(String, usize)>, prefix: Seq<char>, start: u64)
    requires
        rooms.len() <= u64::MAX,
    ensures
        exists|j: int| 0 <= j <= rooms.len() && !key_taken(rooms, #[trigger] candidate(prefix, counter_after(start, j))),
{
    if forall|j: int| 0 <= j <= rooms.len() ==> key_taken(rooms, #[trigger] candidate(prefix, counter_after(start, j))) {
        let m = rooms.len() as int;
        let cs = Seq::new((m + 1) as nat, |j: int| candidate(prefix, counter_after(start, j)));
        let keys = rooms.map_values(|r: (String, usize)| r.0@);
        assert forall|a: int, b: int| 0 <= a < cs.len() && 0 <= b < cs.len() && a != b implies cs[a] != cs[b] by {
            if a < b {
                lemma_candidates_distinct(prefix, start, a, b);
            } else {
                lemma_candidates_distinct(prefix, start, b, a);
            }
        }
        assert(cs.no_duplicates());
        cs.unique_seq_to_set();
        keys.lemma_cardinality_of_set();
        assert forall|x: Seq<char>| cs.to_set().contains(x) implies keys.to_set().contains(x) by {
            let j = choose|j: int| 0 <= j < cs.len() && cs[j] == x;
            assert(key_taken(rooms, candidate(prefix, counter_after(start, j))));
            let i = choose|i: int| 0 <= i < rooms.len() && #[trigger] rooms[i].0@ == x;
            assert(keys[i] == x);
        }
        vstd::set_lib::lemma_len_subset(cs.to_set(), keys.to_set());
    }
}

/// `key` is the random room picked among `rooms` for `prefix` and `capacity`, with the
/// room counter going from `before` to `after`: the first listed room (in the given
/// order) that starts with `prefix` and has room for another connection, the counter
/// unchanged; else a new key, the prefix and the room counter, the counter going on (and
/// wrapping) until a key is found that no room has and ending one past the number used.
pub open spec fn picked_room(
    rooms: Seq<(String, usize)>,
    prefix: Seq<char>,
    capacity: usize,
    before: u64,
    after: u64,
    key: Seq<char>,
) -> bool {
    &&& (exists|i: int| 0 <= i < rooms.len() && open_room(rooms, prefix, capacity, i)) ==> exists|i: int|
        0 <= i < rooms.len() && open_room(rooms, prefix, capacity, i) && (forall|j: int|
            0 <= j < i ==> !open_room(rooms, prefix, capacity, j)) && key == rooms[i].0@ && after == before
    &&& !(exists|i: int| 0 <= i < rooms.len() && open_room(rooms, prefix, capacity, i)) ==> exists|k: int|
        0 <= k <= rooms.len() && key == candidate(prefix, counter_after(before, k)) && !key_taken(rooms, key)
            && (forall|j: int| 0 <= j < k ==> key_taken(rooms, #[trigger] candidate(prefix, counter_after(before, j))))
            && after == counter_after(before, k + 1)
}

/// The key of a random room with the rules behind `prefix` (see `picked_room`).
pub fn random_room(rooms: &Vec<(String, usize)>, next_room_id: &mut u64, prefix: &str, capacity: usize) -> (res: String)
    ensures
        starts_with(res@, prefix@),
        picked_room(rooms@, prefix@, capacity, *old(next_room_id), *final(next_room_id), res@),
{
    let p = chars_of(prefix);
    let mut i: usize = 0;
    while i < rooms.len()
        invariant
            i <= rooms@.len(),
            p@ == prefix@,
            forall|j: int| 0 <= j < i ==> !open_room(rooms@, prefix@, capacity, j),
        decreases rooms@.len() - i,
    {
        if rooms[i].1 < capacity && has_prefix(&chars_of(rooms[i].0.as_str()), &p) {
            assert(open_room(rooms@, prefix@, capacity, i as int));
            return rooms[i].0.clone();
        }
        i = i + 1;
    }
    let ghost start = *next_room_id;
    let n = rooms.len();
    let mut k: usize = 0;
    loop
        invariant
            k <= n == rooms@.len(),
            p@ == prefix@,
            !(exists|i: int| 0 <= i < rooms@.len() && open_room(rooms@, prefix@, capacity, i)),
            *next_room_id == counter_after(start, k as int),
            start == *old(next_room_id),
            forall|j: int| 0 <= j < k ==> key_taken(rooms@, #[trigger] candidate(prefix@, counter_after(start, j))),
        decreases n - k,
    {
        let mut key = p.clone();
        let mut digits = String::new();
        push_decimal(&mut digits, *next_room_id);
        let d = chars_of(digits.as_str());
        let mut c: usize = 0;
        while c < d.len()
            invariant
                c <= d@.len(),
                key@ == p@ + d@.take(c as int),
            decreases d@.len() - c,
        {
            key.push(d[c]);
            c = c + 1;
            assert(key@ =~= p@ + d@.take(c as int));
        }
        assert(d@.take(d@.len() as int) =~= d@);
        assert(Seq::<char>::empty() + decimal(*next_room_id as nat) =~= decimal(*next_room_id as nat));
        assert(key@ == candidate(prefix@, counter_after(start, k as int)));
        assert(key@.take(prefix@.len() as int) =~= prefix@);
        *next_room_id = next_room_id.wrapping_add(1);
        if !taken(rooms, &key) {
            return string_of(&key);
        }
        if k == n {
            proof {
                lemma_free_key(rooms@, prefix@, start);
            }
        }
        k = k + 1;
    }
}

/// A connection that lost its seat and may come back.
pub struct Handle {
    pub id: u64,
    /// The client's address, as text.
    pub ip: String,
    pub name: String,
    pub pass: String,
    pub version: Option<u16>,
    /// Whether the seat is waiting for a reconnect.
    pub available: bool,
}

/// A handle the new connection may resume: the seat is waiting, and address, name,
/// password and client version are the same.
pub open spec fn resumes(h: Handle, ip: Seq<char>, name: Seq<char>, pass: Seq<char>, version: Option<u16>) -> bool {
    h.available && h.ip@ == ip && h.name@ == name && h.pass@ == pass && h.version == version
}

/// The ids of the handles a new connection may resume, in order.
pub open spec fn resumable(
    handles: Seq<Handle>,
    ip: Seq<char>,
    name: Seq<char>,
    pass: Seq<char>,
    version: Option<u16>,
) -> Seq<u64>
    decreases handles.len(),
{
    if handles.len() == 0 {
        Seq::empty()
    } else {
        let rest = resumable(handles.drop_last(), ip, name, pass, version);
        if resumes(handles.last(), ip, name, pass, version) { rest.push(handles.last().id) } else { rest }
    }
}

/// The ids of the handles a new connection may resume (see `resumes`).
pub fn resume_candidates(handles: &Vec<Handle>, ip: &str, name: &str, pass: &str, version: Option<u16>) -> (res: Vec<
    u64,
>)
    ensures
        res@ == resumable(handles@, ip@, name@, pass@, version),
{
    let ip_c = chars_of(ip);
    let name_c = chars_of(name);
    let pass_c = chars_of(pass);
    let mut res: Vec<u64> = Vec::new();
    let mut i: usize = 0;
    while i < handles.len()
        invariant
            i <= handles@.len(),
            ip_c@ == ip@ && name_c@ == name@ && pass_c@ == pass@,
            res@ == resumable(handles@.take(i as int), ip@, name@, pass@, version),
        decreases handles@.len() - i,
    {
        assert(handles@.take(i + 1).drop_last() =~= handles@.take(i as int));
        let h = &handles[i];
        if h.available && eq_chars(&chars_of(h.ip.as_str()), &ip_c) && eq_chars(&chars_of(h.name.as_str()), &name_c)
            && eq_chars(&chars_of(h.pass.as_str()), &pass_c) && h.version == version {
            res.push(h.id);
        }
        i = i + 1;
    }
    assert(handles@.take(handles@.len() as int) =~= handles@);
    res
}

/// What becomes of a new connection.
pub enum Admission {
    /// Refused (an invalid bot invitation, or unsupported room options).
    Reject,
    /// Refused because several lost seats fit it.
    Ambiguous,
    /// It takes back the lost seat of this connection.
    Resume(u64),
    /// It joins the room with this key, as a new connection with this id.
    Join { room_id: String, connection_id: u64, options: Password },
}

/// Decides what becomes of a new connection: one whose bot invitation failed (`bot` is
/// `Err`) or names a room that no longer exists (`bot_room_open` false) is refused; one
/// that fits lost seats takes back the seat when exactly one fits and is refused when
/// several do; else it gets the next connection id, and, if its password reads, joins
/// the invited room, the room its password names, or a random room with its rules.
pub fn admit_connection(
    bot: Result<Option<String>, ()>,
    bot_room_open: bool,
    candidates: &Vec<u64>,
    pass: &str,
    rooms: &Vec<(String, usize)>,
    next_room_id: &mut u64,
    next_connection_id: &mut u64,
) -> (res: Admission)
    ensures
        bot is Err || (bot matches Ok(Some(_)) && !bot_room_open) ==> res is Reject && *final(next_room_id) == *old(
            next_room_id,
        ) && *final(next_connection_id) == *old(next_connection_id),
        !(bot is Err || (bot matches Ok(Some(_)) && !bot_room_open)) && candidates@.len() == 1 ==> res
            == Admission::Resume(candidates@[0]) && *final(next_connection_id) == *old(next_connection_id),
        !(bot is Err || (bot matches Ok(Some(_)) && !bot_room_open)) && candidates@.len() > 1 ==> res is Ambiguous
            && *final(next_connection_id) == *old(next_connection_id),
        !(bot is Err || (bot matches Ok(Some(_)) && !bot_room_open)) && candidates@.len() == 0 ==> {
            &&& *final(next_connection_id) == vstd::wrapping::u64_specs::wrapping_add(*old(next_connection_id), 1)
            &&& match spec_parse(pass@) {
                Err(_) => res is Reject,
                Ok(_) => res matches Admission::Join { room_id, connection_id, options } && connection_id == *old(
                    next_connection_id,
                ) && spec_parse(pass@) == Ok::<_, PasswordError>(options.view_parts()) && options.host_info == (HostInfo {
                    mode: options.host_info.mode,
                    start_lp: options.host_info.start_lp,
                    ..default_host_info()
                }) && match bot {
                    Ok(Some(invited)) => room_id == invited,
                    _ => match options.room_key {
                        Some(key) => room_id == key,
                        None => picked_room(
                            rooms@,
                            random_prefix_of(options),
                            capacity_of(options),
                            *old(next_room_id),
                            *final(next_room_id),
                            room_id@,
                        ),
                    },
                } && (!(bot is Ok && bot->Ok_0 is None && options.room_key is None) ==> *final(next_room_id)
                    == *old(next_room_id)),
            }
        },
{
    let invited = match bot {
        Err(_) => {
            return Admission::Reject;
        },
        Ok(invited) => invited,
    };
    if invited.is_some() && !bot_room_open {
        return Admission::Reject;
    }
    if candidates.len() == 1 {
        return Admission::Resume(candidates[0]);
    }
    if candidates.len() > 1 {
        return Admission::Ambiguous;
    }
    let connection_id = *next_connection_id;
    *next_connection_id = next_connection_id.wrapping_add(1);
    let options = match Password::parse(pass) {
        Ok(options) => options,
        Err(_) => {
            return Admission::Reject;
        },
    };
    let room_id = match invited {
        Some(room) => room,
        None => match &options.room_key {
            Some(key) => key.clone(),
            None => random_room(rooms, next_room_id, options.random_prefix().as_str(), options.capacity()),
        },
    };
    Admission::Join { room_id, connection_id, options }
}


// ---------------------------------------------------------------------------
// The room list as rooms open and close
// ---------------------------------------------------------------------------

/// Lists a room that just got its first connection, unless a room with its key is listed,
/// and publishes it. Returns whether it was listed now.
pub fn list_room(rooms: &mut RoomList, events: &mut RoomEvents, room_id: &String, connections: usize) -> (listed: bool)
    requires
        old(rooms).wf(),
    ensures
        final(rooms).wf(),
        listed == !has_key(old(rooms)@, room_id@),
        !listed ==> final(rooms)@ == old(rooms)@ && final(events).published() == old(events).published(),
        listed ==> exists|info: RoomInfo| {
            &&& info.room_id@ == room_id@
            &&& info.connections == connections
            &&& info.player_a@.len() == 0 && info.player_b@.len() == 0
            &&& info.spectators == 0
            &&& info.chats@.len() == 0
            &&& has_key(final(rooms)@, room_id@)
            &&& final(rooms)@.len() == old(rooms)@.len() + 1
            &&& final(events).published() == old(events).published().push(RoomEvent::Add(info))
        },
{
    if rooms.contains(room_id.as_str()) {
        return false;
    }
    let info = RoomInfo {
        room_id: room_id.clone(),
        connections,
        player_a: Vec::new(),
        player_b: Vec::new(),
        spectators: 0,
        chats: Vec::new(),
    };
    let listed = info.duplicate();
    let ghost g = info;
    assert(g.player_a@.len() == 0 && g.player_b@.len() == 0 && g.chats@.len() == 0);
    rooms.insert(listed);
    added(events, info);
    true
}

/// Takes a finished room off the list and publishes that it closed. Returns whether it
/// was listed.
pub fn unlist_room(rooms: &mut RoomList, events: &mut RoomEvents, room_id: &String) -> (was_listed: bool)
    requires
        old(rooms).wf(),
    ensures
        final(rooms).wf(),
        was_listed == has_key(old(rooms)@, room_id@),
        !has_key(final(rooms)@, room_id@),
        !was_listed ==> final(rooms)@ == old(rooms)@ && final(events).published() == old(events).published(),
        was_listed ==> exists|i: int|
            0 <= i < old(rooms)@.len() && old(rooms)@[i].room_id@ == room_id@ && final(rooms)@ == old(rooms)@.remove(i)
                && final(events).published() == old(events).published().push(RoomEvent::Close(old(rooms)@[i])),
{
    match rooms.remove(room_id.as_str()) {
        Some(info) => {
            closed(events, info);
            true
        },
        None => false,
    }
}

// ---------------------------------------------------------------------------
// Rooms left to bots
// ---------------------------------------------------------------------------

/// A connected bot is in the room.
pub open spec fn has_bot(players: Seq<(u64, PlayerRecord)>) -> bool {
    exists|i: int| 0 <= i < players.len() && #[trigger] players[i].1.is_bot && players[i].1.connected
}

/// A human is in the room: connected, or, once the duel started, still able to reconnect
/// (listed in `resumes`).
pub open spec fn has_human(players: Seq<(u64, PlayerRecord)>, waiting: bool, resumes: Seq<u64>) -> bool {
    exists|i: int|
        0 <= i < players.len() && !(#[trigger] players[i].1.is_bot) && (players[i].1.connected || (!waiting && resumes.contains(
            players[i].0,
        )))
}

/// What the periodic check does with a room.
pub struct BotOnlyStep {
    /// Since when (in milliseconds) only bots are left, if they are.
    pub since: Option<u64>,
    /// Interrupt the room now.
    pub interrupt: bool,
}

/// Whether a room is left to bots, and whether to interrupt it at `now` (milliseconds): a
/// room with a connected bot and no human (see `has_human`) is interrupted right away
/// while it waits to start, and after 5 seconds once started; `since` is when only bots
/// were first seen. The caller sets `since` to `now` again when the interrupt was sent.
pub fn bot_only_step(record: &RoomRecord, resumes: &Vec<u64>, since: Option<u64>, now: u64) -> (res: BotOnlyStep)
    ensures
        !has_bot(record.players@) || has_human(record.players@, record.stage == DuelStage::Begin, resumes@) ==> res.since is None
            && !res.interrupt,
        has_bot(record.players@) && !has_human(record.players@, record.stage == DuelStage::Begin, resumes@) ==> {
            let s = match since {
                Some(t) => t,
                None => now,
            };
            &&& res.since == Some(s)
            &&& res.interrupt == (record.stage == DuelStage::Begin || (if now >= s { now - s } else { 0 }) >= 5000)
        },
{
    let waiting = record.stage == DuelStage::Begin;
    let mut bot = false;
    let mut human = false;
    let mut i: usize = 0;
    while i < record.players.len()
        invariant
            i <= record.players@.len(),
            waiting == (record.stage == DuelStage::Begin),
            bot == exists|j: int| 0 <= j < i && #[trigger] record.players@[j].1.is_bot && record.players@[j].1.connected,
            human == exists|j: int|
                0 <= j < i && !(#[trigger] record.players@[j].1.is_bot) && (record.players@[j].1.connected || (!waiting
                    && resumes@.contains(record.players@[j].0))),
        decreases record.players@.len() - i,
    {
        let id = record.players[i].0;
        let p = &record.players[i].1;
        if p.is_bot && p.connected {
            bot = true;
        }
        if !p.is_bot && (p.connected || (!waiting && crate::room::contains_id(resumes, id))) {
            human = true;
        }
        i = i + 1;
    }
    if !bot || human {
        return BotOnlyStep { since: None, interrupt: false };
    }
    let s = match since {
        Some(t) => t,
        None => now,
    };
    let elapsed = if now >= s { now - s } else { 0 };
    BotOnlyStep { since: Some(s), interrupt: waiting || elapsed >= 5000 }
}

// ---------------------------------------------------------------------------
// Connections that leave
// ---------------------------------------------------------------------------

/// How a refused connection is sent away.
#[derive(Clone, Copy, Debug, PartialEq, Eq, Structural)]
pub enum Refusal {
    /// A UDP client is told to leave (from no position), and closed shortly after.
    Leave,
    /// Other clients get the host's refusal, and are closed.
    HostRefused,
}

/// How to send away a refused connection over `protocol`.
pub fn refusal(protocol: Protocol) -> (res: Refusal)
    ensures
        res == if protocol == Protocol::Udp { Refusal::Leave } else { Refusal::HostRefused },
{
    match protocol {
        Protocol::Udp => Refusal::Leave,
        _ => Refusal::HostRefused,
    }
}

/// The connected UDP clients of a room with the positions they leave from.
pub open spec fn udp_leavers_of(players: Seq<(u64, PlayerRecord)>) -> Seq<(u64, Netplayer)>
    decreases players.len(),
{
    if players.len() == 0 {
        Seq::empty()
    } else {
        let rest = udp_leavers_of(players.drop_last());
        let (id, p) = players.last();
        if p.connected && p.protocol == Protocol::Udp { rest.push((id, p.position)) } else { rest }
    }
}

/// The connected UDP clients of a room, to be told to leave when the server stops.
pub fn udp_leavers(record: &RoomRecord) -> (res: Vec<(u64, Netplayer)>)
    ensures
        res@ == udp_leavers_of(record.players@),
{
    let n = record.players.len();
    let mut res: Vec<(u64, Netplayer)> = Vec::new();
    let mut i: usize = 0;
    while i < n
        invariant
            n == record.players@.len(),
            i <= n,
            res@ == udp_leavers_of(record.players@.take(i as int)),
        decreases n - i,
    {
        assert(record.players@.take(i + 1).drop_last() =~= record.players@.take(i as int));
        let p = &record.players[i].1;
        if p.connected && p.protocol == Protocol::Udp {
            res.push((record.players[i].0, p.position));
        }
        i = i + 1;
    }
    assert(record.players@.take(n as int) =~= record.players@);
    res
}

/// A connection of a room ended: one fewer connection is counted (never below zero).
pub fn connection_left(connections: usize) -> (res: usize)
    ensures
        res == if connections > 0 { connections - 1 } else { 0 },
{
    if connections > 0 { connections - 1 } else { 0 }
}

/// A spectator joining a started room is brought up to date (the duel screen and the
/// duel so far).
pub fn spectate_on_join(stage: DuelStage, position: Netplayer) -> (res: bool)
    ensures
        res == (stage != DuelStage::Begin && position is Observer),
{
    stage != DuelStage::Begin && match position {
        Netplayer::Observer(_) => true,
        _ => false,
    }
}

} // verus!
