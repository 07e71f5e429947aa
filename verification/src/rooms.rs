use vstd::prelude::*;
use tokio::sync::broadcast::Sender;
use crate::text::{chars_of, decimal};

verus! {

/// A player shown in the room list.
#[derive(Clone, Debug)]
pub struct RoomPlayer {
    /// The server's connection id of the player.
    pub id: u64,
    pub name: String,
    pub slot: u8,
}

/// A chat line shown in the room list.
#[derive(Clone, Debug)]
pub struct ChatInfo {
    pub player_id: u64,
    pub name: String,
    pub content: String,
    /// Seconds since the Unix epoch.
    pub created_at: u64,
}

/// A room as the room list shows it.
#[derive(Clone, Debug)]
pub struct RoomInfo {
    pub room_id: String,
    /// Connected clients.
    pub connections: usize,
    /// Duelists of the first team, by seat.
    pub player_a: Vec<RoomPlayer>,
    /// Duelists of the second team, by seat.
    pub player_b: Vec<RoomPlayer>,
    pub spectators: usize,
    pub chats: Vec<ChatInfo>,
}

/// A change of the room list, as published to subscribers.
#[derive(Clone, Debug)]
pub enum RoomEvent {
    Add(RoomInfo),
    Update(RoomInfo),
    Close(RoomInfo),
}

impl RoomPlayer {
    /// An equal copy.
    pub fn duplicate(&self) -> (r: RoomPlayer)
        ensures
            r == *self,
    {
        RoomPlayer { id: self.id, name: self.name.clone(), slot: self.slot }
    }
}

impl ChatInfo {
    /// An equal copy.
    pub fn duplicate(&self) -> (r: ChatInfo)
        ensures
            r == *self,
    {
        ChatInfo {
            player_id: self.player_id,
            name: self.name.clone(),
            content: self.content.clone(),
            created_at: self.created_at,
        }
    }
}

pub fn copy_players(v: &Vec<RoomPlayer>) -> (r: Vec<RoomPlayer>)
    ensures
        r@ == v@,
{
    let mut r: Vec<RoomPlayer> = Vec::new();
    let mut i: usize = 0;
    while i < v.len()
        invariant
            i <= v@.len(),
            r@ == v@.subrange(0, i as int),
        decreases v.len() - i,
    {
        r.push(v[i].duplicate());
        i = i + 1;
        assert(r@ =~= v@.subrange(0, i as int));
    }
    assert(v@.subrange(0, v@.len() as int) =~= v@);
    r
}

pub fn copy_chats(v: &Vec<ChatInfo>) -> (r: Vec<ChatInfo>)
    ensures
        r@ == v@,
{
    let mut r: Vec<ChatInfo> = Vec::new();
    let mut i: usize = 0;
    while i < v.len()
        invariant
            i <= v@.len(),
            r@ == v@.subrange(0, i as int),
        decreases v.len() - i,
    {
        r.push(v[i].duplicate());
        i = i + 1;
        assert(r@ =~= v@.subrange(0, i as int));
    }
    assert(v@.subrange(0, v@.len() as int) =~= v@);
    r
}

/// Two room entries show the same thing.
pub open spec fn same_info(a: RoomInfo, b: RoomInfo) -> bool {
    &&& a.room_id == b.room_id
    &&& a.connections == b.connections
    &&& a.player_a@ == b.player_a@
    &&& a.player_b@ == b.player_b@
    &&& a.spectators == b.spectators
    &&& a.chats@ == b.chats@
}

impl RoomInfo {
    /// A copy showing the same thing.
    pub fn duplicate(&self) -> (r: RoomInfo)
        ensures
            same_info(r, *self),
    {
        RoomInfo {
            room_id: self.room_id.clone(),
            connections: self.connections,
            player_a: copy_players(&self.player_a),
            player_b: copy_players(&self.player_b),
            spectators: self.spectators,
            chats: copy_chats(&self.chats),
        }
    }
}

// ---------------------------------------------------------------------------
// Key order
// ---------------------------------------------------------------------------

/// Lexicographic order of room keys by character (the order of `String`).
pub open spec fn key_lt(a: Seq<char>, b: Seq<char>) -> bool
    decreases a.len(),
{
    if a.len() == 0 {
        b.len() > 0
    } else if b.len() == 0 {
        false
    } else if a[0] != b[0] {
        a[0] < b[0]
    } else {
        key_lt(a.drop_first(), b.drop_first())
    }
}

/// No key precedes itself, and of two different keys one precedes the other.
pub proof fn lemma_key_order_total(a: Seq<char>, b: Seq<char>)
    ensures
        !key_lt(a, a),
        a != b ==> key_lt(a, b) || key_lt(b, a),
        !(key_lt(a, b) && key_lt(b, a)),
    decreases a.len(),
{
    if a.len() > 0 {
        lemma_key_order_total(a.drop_first(), a.drop_first());
        if b.len() > 0 {
            lemma_key_order_total(a.drop_first(), b.drop_first());
            if a[0] == b[0] && a != b {
                assert(a.drop_first() != b.drop_first()) by {
                    if a.drop_first() == b.drop_first() {
                        assert(a =~= seq![a[0]] + a.drop_first());
                        assert(b =~= seq![b[0]] + b.drop_first());
                    }
                }
            }
        }
    } else if b.len() == 0 {
        assert(a =~= b);
    }
}

/// The key order is transitive.
pub proof fn lemma_key_order_transitive(a: Seq<char>, b: Seq<char>, c: Seq<char>)
    requires
        key_lt(a, b),
        key_lt(b, c),
    ensures
        key_lt(a, c),
    decreases a.len(),
{
    if a.len() > 0 && b.len() > 0 && c.len() > 0 && a[0] == b[0] && b[0] == c[0] {
        lemma_key_order_transitive(a.drop_first(), b.drop_first(), c.drop_first());
    }
}

/// The order of two keys.
#[derive(Clone, Copy, Debug, PartialEq, Eq, Structural)]
pub enum KeyOrder {
    Less,
    Equal,
    Greater,
}

/// Compares two keys in the key order.
pub fn compare_keys(a: &Vec<char>, b: &Vec<char>) -> (res: KeyOrder)
    ensures
        res == KeyOrder::Less <==> key_lt(a@, b@),
        res == KeyOrder::Equal <==> a@ == b@,
        res == KeyOrder::Greater <==> key_lt(b@, a@),
{
    proof {
        lemma_key_order_total(a@, b@);
    }
    let mut i: usize = 0;
    assert(a@.skip(0) =~= a@);
    assert(b@.skip(0) =~= b@);
    while i < a.len() && i < b.len() && a[i] == b[i]
        invariant
            i <= a@.len(),
            i <= b@.len(),
            a@.subrange(0, i as int) == b@.subrange(0, i as int),
            key_lt(a@, b@) == key_lt(a@.skip(i as int), b@.skip(i as int)),
            key_lt(b@, a@) == key_lt(b@.skip(i as int), a@.skip(i as int)),
        decreases a.len() - i,
    {
        assert(a@.skip(i as int).drop_first() =~= a@.skip(i + 1));
        assert(b@.skip(i as int).drop_first() =~= b@.skip(i + 1));
        assert(a@.subrange(0, i + 1) =~= a@.subrange(0, i as int).push(a@[i as int]));
        assert(b@.subrange(0, i + 1) =~= b@.subrange(0, i as int).push(b@[i as int]));
        i = i + 1;
    }
    if i == a.len() && i == b.len() {
        assert(a@ =~= a@.subrange(0, i as int));
        assert(b@ =~= b@.subrange(0, i as int));
        KeyOrder::Equal
    } else if i == a.len() {
        assert(a@.skip(i as int).len() == 0);
        proof {
            if a@ == b@ {
                assert(a@.len() == b@.len());
            }
        }
        KeyOrder::Less
    } else if i == b.len() {
        assert(b@.skip(i as int).len() == 0);
        proof {
            if a@ == b@ {
                assert(a@.len() == b@.len());
            }
        }
        KeyOrder::Greater
    } else {
        assert(a@.skip(i as int)[0] == a@[i as int]);
        assert(b@.skip(i as int)[0] == b@[i as int]);
        proof {
            if a@ == b@ {
                assert(a@[i as int] == b@[i as int]);
            }
        }
        if a[i] < b[i] {
            KeyOrder::Less
        } else {
            KeyOrder::Greater
        }
    }
}

// ---------------------------------------------------------------------------
// The room list
// ---------------------------------------------------------------------------

/// Room entries are in strictly increasing key order (so no key occurs twice).
pub open spec fn sorted(entries: Seq<RoomInfo>) -> bool {
    forall|i: int, j: int|
        0 <= i < j < entries.len() ==> key_lt(#[trigger] entries[i].room_id@, #[trigger] entries[j].room_id@)
}

/// Index of the entry with key `key`, if any.
pub open spec fn index_of(entries: Seq<RoomInfo>, key: Seq<char>) -> Option<int> {
    if exists|i: int| 0 <= i < entries.len() && entries[i].room_id@ == key {
        Some(choose|i: int| 0 <= i < entries.len() && entries[i].room_id@ == key)
    } else {
        None
    }
}

/// Whether some entry has key `key`.
pub open spec fn has_key(entries: Seq<RoomInfo>, key: Seq<char>) -> bool {
    exists|i: int| 0 <= i < entries.len() && #[trigger] entries[i].room_id@ == key
}

/// Why a page of the room list could not be given.
#[derive(Clone, Copy, Debug, PartialEq, Eq, Structural)]
pub enum PageError {
    /// The page size must be greater than zero.
    EmptyPage,
    /// `page * pagesize` does not fit in 64 bits.
    Overflow,
}

/// The rooms of the server, kept in key order.
pub struct RoomList {
    entries: Vec<RoomInfo>,
}

impl View for RoomList {
    type V = Seq<RoomInfo>;

    closed spec fn view(&self) -> Seq<RoomInfo> {
        self.entries@
    }
}

/// Number of entries whose key precedes `key`.
pub open spec fn rank(entries: Seq<RoomInfo>, key: Seq<char>) -> int
    decreases entries.len(),
{
    if entries.len() == 0 {
        0
    } else {
        rank(entries.drop_last(), key) + if key_lt(entries.last().room_id@, key) { 1int } else { 0int }
    }
}

proof fn lemma_sorted_unique(entries: Seq<RoomInfo>, i: int, j: int)
    requires
        sorted(entries),
        0 <= i < entries.len(),
        0 <= j < entries.len(),
        entries[i].room_id@ == entries[j].room_id@,
    ensures
        i == j,
{
    if i < j {
        lemma_key_order_total(entries[i].room_id@, entries[i].room_id@);
    } else if j < i {
        lemma_key_order_total(entries[j].room_id@, entries[j].room_id@);
    }
}

impl RoomList {
    /// The list is in strictly increasing key order.
    pub open spec fn wf(&self) -> bool {
        sorted(self@)
    }

    /// An empty room list.
    pub fn new() -> (list: RoomList)
        ensures
            list.wf(),
            list@.len() == 0,
    {
        RoomList { entries: Vec::new() }
    }

    /// Number of rooms.
    pub fn len(&self) -> (n: usize)
        ensures
            n == self@.len(),
    {
        self.entries.len()
    }

    fn find(&self, key: &Vec<char>) -> (res: Option<usize>)
        requires
            self.wf(),
        ensures
            match res {
                Some(i) => i < self@.len() && self@[i as int].room_id@ == key@,
                None => !has_key(self@, key@),
            },
    {
        let mut i: usize = 0;
        while i < self.entries.len()
            invariant
                i <= self@.len(),
                forall|j: int| 0 <= j < i ==> self@[j].room_id@ != key@,
            decreases self@.len() - i,
        {
            let k = chars_of(self.entries[i].room_id.as_str());
            if compare_keys(&k, key) == KeyOrder::Equal {
                return Some(i);
            }
            i = i + 1;
        }
        None
    }

    /// Whether a room with this key is listed.
    pub fn contains(&self, key: &str) -> (res: bool)
        requires
            self.wf(),
        ensures
            res == has_key(self@, key@),
    {
        let k = chars_of(key);
        self.find(&k).is_some()
    }

    /// Lists a room unless one with the same key is listed already; returns whether it was
    /// added. A new room goes where its key belongs in the order.
    pub fn insert(&mut self, info: RoomInfo) -> (added: bool)
        requires
            old(self).wf(),
        ensures
            final(self).wf(),
            added == !has_key(old(self)@, info.room_id@),
            !added ==> final(self)@ == old(self)@,
            added ==> final(self)@ == old(self)@.insert(rank(old(self)@, info.room_id@), info),
            added ==> final(self)@.len() == old(self)@.len() + 1,
            has_key(final(self)@, info.room_id@),
    {
        let key = chars_of(info.room_id.as_str());
        let n = self.entries.len();
        let mut i: usize = 0;
        let mut stopped = false;
        while i < n && !stopped
            invariant
                n == self@.len(),
                i <= n,
                sorted(self@),
                key@ == info.room_id@,
                forall|j: int| 0 <= j < i ==> key_lt(#[trigger] self@[j].room_id@, key@),
                rank(self@.subrange(0, i as int), key@) == i,
                stopped ==> i < n && key_lt(key@, self@[i as int].room_id@),
            decreases n - i + if stopped { 0int } else { 1int },
        {
            let k = chars_of(self.entries[i].room_id.as_str());
            let order = compare_keys(&k, &key);
            if order == KeyOrder::Equal {
                assert(self@[i as int].room_id@ == info.room_id@);
                return false;
            }
            if order == KeyOrder::Greater {
                stopped = true;
            } else {
                assert(self@.subrange(0, i + 1).drop_last() =~= self@.subrange(0, i as int));
                i = i + 1;
            }
        }
        let ghost old_entries = self@;
        proof {
            if i < n {
                assert(key_lt(key@, old_entries[i as int].room_id@));
                assert forall|j: int| i <= j < n implies key_lt(
                    key@,
                    #[trigger] old_entries[j].room_id@,
                ) by {
                    if j > i {
                        lemma_key_order_transitive(key@, old_entries[i as int].room_id@, old_entries[j].room_id@);
                    }
                }
            }
            assert forall|j: int| 0 <= j < n implies old_entries[j].room_id@ != key@ by {
                if j >= i {
                    lemma_key_order_total(key@, key@);
                } else {
                    lemma_key_order_total(key@, key@);
                }
            }
            lemma_rank_split(old_entries, key@, i as int);
        }
        self.entries.insert(i, info);
        proof {
            let new_entries = self@;
            assert(new_entries =~= old_entries.insert(i as int, info));
            assert forall|a: int, b: int| 0 <= a < b < new_entries.len() implies key_lt(
                #[trigger] new_entries[a].room_id@,
                #[trigger] new_entries[b].room_id@,
            ) by {
                if b < i {
                } else if a < i && b == i {
                } else if a < i {
                    lemma_key_order_transitive(new_entries[a].room_id@, key@, new_entries[b].room_id@);
                } else if a == i {
                } else {
                    assert(new_entries[a] == old_entries[a - 1]);
                    assert(new_entries[b] == old_entries[b - 1]);
                }
            }
            assert(new_entries[i as int].room_id@ == key@);
            assert(new_entries.len() == old_entries.len() + 1);
        }
        true
    }

    /// Replaces the listed room that has the same key; returns whether one was listed
    /// (a room that is no longer listed is not added back).
    pub fn update(&mut self, info: RoomInfo) -> (updated: bool)
        requires
            old(self).wf(),
        ensures
            final(self).wf(),
            updated == has_key(old(self)@, info.room_id@),
            !updated ==> final(self)@ == old(self)@,
            updated ==> exists|i: int|
                0 <= i < old(self)@.len() && old(self)@[i].room_id@ == info.room_id@ && final(self)@
                    == old(self)@.update(i, info),
    {
        let key = chars_of(info.room_id.as_str());
        match self.find(&key) {
            None => false,
            Some(i) => {
                let ghost old_entries = self@;
                self.entries.set(i, info);
                assert(self@ =~= old_entries.update(i as int, info));
                proof {
                    assert forall|a: int, b: int| 0 <= a < b < self@.len() implies key_lt(
                        #[trigger] self@[a].room_id@,
                        #[trigger] self@[b].room_id@,
                    ) by {
                        assert(self@[a].room_id@ == old_entries[a].room_id@);
                        assert(self@[b].room_id@ == old_entries[b].room_id@);
                    }
                }
                true
            },
        }
    }

    /// Removes the room with this key and returns it.
    pub fn remove(&mut self, key: &str) -> (removed: Option<RoomInfo>)
        requires
            old(self).wf(),
        ensures
            final(self).wf(),
            !has_key(final(self)@, key@),
            match removed {
                None => !has_key(old(self)@, key@) && final(self)@ == old(self)@,
                Some(info) => exists|i: int|
                    0 <= i < old(self)@.len() && old(self)@[i] == info && info.room_id@ == key@
                        && final(self)@ == old(self)@.remove(i),
            },
    {
        let k = chars_of(key);
        match self.find(&k) {
            None => None,
            Some(i) => {
                let ghost old_entries = self@;
                let info = self.entries.remove(i);
                proof {
                    assert(self@ =~= old_entries.remove(i as int));
                    assert forall|a: int, b: int| 0 <= a < b < self@.len() implies key_lt(
                        #[trigger] self@[a].room_id@,
                        #[trigger] self@[b].room_id@,
                    ) by {
                        let oa = if a < i { a } else { a + 1 };
                        let ob = if b < i { b } else { b + 1 };
                        assert(self@[a] == old_entries[oa]);
                        assert(self@[b] == old_entries[ob]);
                    }
                    if has_key(self@, k@) {
                        let j = choose|j: int| 0 <= j < self@.len() && #[trigger] self@[j].room_id@ == k@;
                        let oj = if j < i { j } else { j + 1 };
                        assert(old_entries[oj].room_id@ == k@);
                        lemma_sorted_unique(old_entries, oj, i as int);
                    }
                }
                Some(info)
            },
        }
    }

    /// A page of the room list and the number of rooms: the rooms from position
    /// `page * pagesize` on, at most `pagesize` of them, in key order.
    pub fn get(&self, page: u64, pagesize: u64) -> (res: Result<(Vec<RoomInfo>, u64), PageError>)
        requires
            self.wf(),
        ensures
            pagesize == 0 ==> res == Err::<(Vec<RoomInfo>, u64), PageError>(PageError::EmptyPage),
            pagesize > 0 && page * pagesize > u64::MAX ==> res == Err::<(Vec<RoomInfo>, u64), PageError>(
                PageError::Overflow,
            ),
            pagesize > 0 && page * pagesize <= u64::MAX ==> (res matches Ok((list, total)) && total
                == self@.len() && {
                let offset = page * pagesize;
                let count = if offset >= total {
                    0
                } else if pagesize < total - offset {
                    pagesize as int
                } else {
                    total - offset
                };
                &&& list@.len() == count
                &&& forall|i: int| 0 <= i < count ==> same_info(#[trigger] list@[i], self@[offset + i])
            }),
    {
        if pagesize == 0 {
            return Err(PageError::EmptyPage);
        }
        let offset = match page.checked_mul(pagesize) {
            Some(offset) => offset,
            None => {
                return Err(PageError::Overflow);
            },
        };
        let total: u64 = self.entries.len() as u64;
        let mut list: Vec<RoomInfo> = Vec::new();
        if offset >= total {
            return Ok((list, total));
        }
        let count: u64 = if pagesize < total - offset { pagesize } else { total - offset };
        let start = offset as usize;
        let count = count as usize;
        let mut i: usize = 0;
        while i < count
            invariant
                count <= total - offset,
                self@.len() <= usize::MAX,
                start == offset,
                total == self@.len(),
                i <= count,
                list@.len() == i,
                forall|j: int| 0 <= j < i ==> same_info(#[trigger] list@[j], self@[offset + j]),
            decreases count - i,
        {
            list.push(self.entries[start + i].duplicate());
            i = i + 1;
        }
        Ok((list, total))
    }
}

proof fn lemma_rank_split(entries: Seq<RoomInfo>, key: Seq<char>, i: int)
    requires
        sorted(entries),
        0 <= i <= entries.len(),
        forall|j: int| 0 <= j < i ==> key_lt(#[trigger] entries[j].room_id@, key),
        forall|j: int| i <= j < entries.len() ==> key_lt(key, #[trigger] entries[j].room_id@),
        rank(entries.subrange(0, i), key) == i,
    ensures
        rank(entries, key) == i,
    decreases entries.len() - i,
{
    if i < entries.len() {
        let longer = entries.subrange(0, i + 1);
        assert(longer.drop_last() =~= entries.subrange(0, i));
        lemma_key_order_total(key, entries[i].room_id@);
        assert(rank(longer, key) == i);
        assert forall|j: int| 0 <= j < entries.len() implies !(key_lt(key, #[trigger] entries[j].room_id@)
            && key_lt(entries[j].room_id@, key)) by {
            lemma_key_order_total(key, entries[j].room_id@);
        }
        lemma_rank_prefix_stable(entries, key, i + 1);
    } else {
        assert(entries.subrange(0, i) =~= entries);
    }
}

proof fn lemma_rank_prefix_stable(entries: Seq<RoomInfo>, key: Seq<char>, k: int)
    requires
        0 <= k <= entries.len(),
        forall|j: int| k <= j < entries.len() ==> key_lt(key, #[trigger] entries[j].room_id@),
        forall|j: int| 0 <= j < entries.len() ==> !(key_lt(key, #[trigger] entries[j].room_id@) && key_lt(entries[j].room_id@, key)),
    ensures
        rank(entries, key) == rank(entries.subrange(0, k), key),
    decreases entries.len() - k,
{
    if k < entries.len() {
        lemma_rank_prefix_stable(entries, key, k + 1);
        let longer = entries.subrange(0, k + 1);
        assert(longer.drop_last() =~= entries.subrange(0, k));
        assert(longer.last() == entries[k]);
    } else {
        assert(entries.subrange(0, k) =~= entries);
    }
}

/// A listed key can be found again, a removed key is gone, and the list stays in order:
/// after inserting a room that was not listed, exactly one more room is listed.
pub proof fn lemma_insert_lists_one_more(before: Seq<RoomInfo>, after: Seq<RoomInfo>, info: RoomInfo)
    requires
        sorted(before),
        !has_key(before, info.room_id@),
        after == before.insert(rank(before, info.room_id@), info),
        0 <= rank(before, info.room_id@) <= before.len(),
    ensures
        after.len() == before.len() + 1,
        has_key(after, info.room_id@),
{
    let r = rank(before, info.room_id@);
    assert(after[r] == info);
}

// ---------------------------------------------------------------------------
// Room events
// ---------------------------------------------------------------------------

#[verifier::external_type_specification]
#[verifier::external_body]
#[verifier::reject_recursive_types(T)]
pub struct ExBroadcastSender<T>(Sender<T>);

/// The events handed to `tokio::sync::broadcast::Sender::send` through this sender, oldest
/// first. A receiver subscribed before a send receives that event after those sent
/// before it, unless it falls more than the channel's capacity behind.
pub uninterp spec fn sent_events(sender: Sender<RoomEvent>) -> Seq<RoomEvent>;

/// Hands an event to `tokio::sync::broadcast::Sender::send`: it joins the events sent
/// through this sender (see `sent_events`). Where no receiver is subscribed, `send`
/// returns the event as an error, which is dropped; it does not panic.
#[verifier::external_body]
fn publish(sender: &mut Sender<RoomEvent>, event: RoomEvent)
    ensures
        sent_events(*final(sender)) == sent_events(*old(sender)).push(event),
{
    let _ = sender.send(event);
}

/// The publisher of room-list changes over a broadcast channel.
pub struct RoomEvents {
    sender: Sender<RoomEvent>,
}

impl RoomEvents {
    /// Every event sent through the channel so far, oldest first (see `sent_events`).
    pub closed spec fn published(&self) -> Seq<RoomEvent> {
        sent_events(self.sender)
    }

    /// A publisher over a broadcast channel whose receivers are the subscribers.
    pub fn new(sender: Sender<RoomEvent>) -> (events: RoomEvents)
        ensures
            events.published() == sent_events(sender),
    {
        RoomEvents { sender }
    }

    fn send(&mut self, event: RoomEvent)
        ensures
            final(self).published() == old(self).published().push(event),
    {
        publish(&mut self.sender, event);
    }
}

/// Publishes that a room was opened.
pub fn added(events: &mut RoomEvents, room: RoomInfo)
    ensures
        final(events).published() == old(events).published().push(RoomEvent::Add(room)),
{
    events.send(RoomEvent::Add(room));
}

/// Publishes that a room changed.
pub fn updated(events: &mut RoomEvents, room: RoomInfo)
    ensures
        final(events).published() == old(events).published().push(RoomEvent::Update(room)),
{
    events.send(RoomEvent::Update(room));
}

/// Publishes that a room was closed.
pub fn closed(events: &mut RoomEvents, room: RoomInfo)
    ensures
        final(events).published() == old(events).published().push(RoomEvent::Close(room)),
{
    events.send(RoomEvent::Close(room));
}

} // verus!
