//! The room registry: publish/subscribe bookkeeping.
//!
//! A room is a broadcast channel derived from entity identity and kind; a
//! subscriber handle is a live connection, named here by a stable integer
//! id so that rooms never hold connection objects (resolving an id to a
//! live connection happens at delivery, outside this crate).  Membership
//! is kept on both sides — each room's member list and each handle's room
//! list — and the registry's invariant ties the two views together, which
//! is what makes disconnect cleanup exact: no leaked member, no double
//! removal.

use vstd::prelude::*;
use vstd::pervasive::VecAdditionalExecFns;
use vstd::string::StrSliceExecFns;
use vstd::string::StringExecFns;
use crate::strutil::all_digits;
use crate::strutil::digits_val;
use crate::strutil::int_rep;
use crate::strutil::i32_to_string;
use crate::strutil::parse_i32_digits;
use crate::strutil::str_eq;

verus! {

/// A broadcast channel.
#[derive(Clone, Copy, Debug, PartialEq, Eq, Structural)]
pub enum Room {
    /// The per-thread room of one thread id.
    Thread(i32),
    /// The room notified when a thread is created.
    ThreadCreate,
    /// The global user room.
    User,
}

/// The room grammar: `"thread:<id>"` names a per-thread room, bare
/// `"thread"` the thread-creation room, `"user"` the global user room;
/// anything else (including an id that is not a plain decimal number
/// within `i32`) is no room.
pub open spec fn parse_room_spec(s: Seq<char>) -> Option<Room> {
    if s == "user"@ {
        Some(Room::User)
    } else if s == "thread"@ {
        Some(Room::ThreadCreate)
    } else if s.len() > 7 && s.take(7) == "thread:"@ && all_digits(s.skip(7)) && digits_val(
        s.skip(7),
    ) <= i32::MAX {
        Some(Room::Thread(digits_val(s.skip(7)) as i32))
    } else {
        None
    }
}

/// The wire name of a room.
pub open spec fn room_name_spec(r: Room) -> Seq<char> {
    match r {
        Room::Thread(id) => "thread:"@ + int_rep(id as int),
        Room::ThreadCreate => "thread"@,
        Room::User => "user"@,
    }
}

impl Room {
    /// Parse a room name against the room grammar.
    pub fn parse(name: &str) -> (r: Option<Room>)
        ensures
            r == parse_room_spec(name@),
    {
        if str_eq(name, "user") {
            return Some(Room::User);
        }
        if str_eq(name, "thread") {
            return Some(Room::ThreadCreate);
        }
        let len = name.unicode_len();
        if len <= 7 {
            return None;
        }
        let prefix = name.substring_char(0, 7);
        if !str_eq(prefix, "thread:") {
            return None;
        }
        let digits = name.substring_char(7, len);
        proof {
            assert(digits@ =~= name@.skip(7));
            assert(prefix@ =~= name@.take(7));
        }
        match parse_i32_digits(digits) {
            Some(id) => Some(Room::Thread(id)),
            None => None,
        }
    }

    /// Print a room's wire name.
    pub fn name(&self) -> (r: String)
        ensures
            r@ == room_name_spec(*self),
    {
        match self {
            Room::Thread(id) => {
                let digits = i32_to_string(*id);
                let r = "thread:".to_owned().concat(digits.as_str());
                proof {
                    assert(r@ =~= room_name_spec(Room::Thread(*id)));
                }
                r
            },
            Room::ThreadCreate => "thread".to_owned(),
            Room::User => "user".to_owned(),
        }
    }
}

/// Is some pair of the association sequence keyed `k`?
pub open spec fn ahas<K, V>(s: Seq<(K, V)>, k: K) -> bool {
    exists|i: int| 0 <= i < s.len() && (#[trigger] s[i]).0 == k
}

/// The value of the first pair keyed `k`, if any.
pub open spec fn alookup<K, V>(s: Seq<(K, V)>, k: K) -> Option<V>
    decreases s.len(),
{
    if s.len() == 0 {
        None
    } else if s[0].0 == k {
        Some(s[0].1)
    } else {
        alookup(s.drop_first(), k)
    }
}

/// No two pairs share a key.
pub open spec fn akeys_unique<K, V>(s: Seq<(K, V)>) -> bool {
    forall|i: int, j: int| 0 <= i < j < s.len() ==> (#[trigger] s[i]).0 != (#[trigger] s[j]).0
}

/// A look-up succeeds exactly on present keys.
proof fn lemma_alookup_has<K, V>(s: Seq<(K, V)>, k: K)
    ensures
        alookup(s, k) is Some <==> ahas(s, k),
    decreases s.len(),
{
    if s.len() > 0 {
        lemma_alookup_has(s.drop_first(), k);
        if s[0].0 != k && ahas(s, k) {
            let i = choose|i: int| 0 <= i < s.len() && (#[trigger] s[i]).0 == k;
            assert(s.drop_first()[i - 1].0 == k);
        }
        if s[0].0 != k && ahas(s.drop_first(), k) {
            let i = choose|i: int|
                0 <= i < s.drop_first().len() && (#[trigger] s.drop_first()[i]).0 == k;
            assert(s[i + 1].0 == k);
        }
    }
}

/// The first pair whose key nothing earlier repeats is what a look-up
/// finds.
proof fn lemma_alookup_at<K, V>(s: Seq<(K, V)>, i: int)
    requires
        0 <= i < s.len(),
        forall|j: int| 0 <= j < i ==> (#[trigger] s[j]).0 != s[i].0,
    ensures
        alookup(s, s[i].0) == Some(s[i].1),
    decreases s.len(),
{
    if i > 0 {
        assert(s[0].0 != s[i].0);
        assert(s.drop_first()[i - 1] == s[i]);
        assert forall|j: int| 0 <= j < i - 1 implies (#[trigger] s.drop_first()[j]).0
            != s.drop_first()[i - 1].0 by {
            assert(s.drop_first()[j] == s[j + 1]);
        }
        lemma_alookup_at(s.drop_first(), i - 1);
    }
}

/// Updating the value at a key's position changes that key's read and no
/// other.
proof fn lemma_alookup_update<K, V>(s: Seq<(K, V)>, i: int, v2: V)
    requires
        0 <= i < s.len(),
        forall|j: int| 0 <= j < i ==> (#[trigger] s[j]).0 != s[i].0,
    ensures
        alookup(s.update(i, (s[i].0, v2)), s[i].0) == Some(v2),
        forall|k2: K| k2 != s[i].0 ==> alookup(s.update(i, (s[i].0, v2)), k2) == alookup(s, k2),
    decreases s.len(),
{
    let t = s.update(i, (s[i].0, v2));
    if i == 0 {
        assert(t[0] == (s[0].0, v2));
        assert(t.drop_first() =~= s.drop_first());
        assert forall|k2: K| k2 != s[0].0 implies alookup(t, k2) == alookup(s, k2) by {
            assert(alookup(t, k2) == alookup(t.drop_first(), k2));
        }
    } else {
        assert(t[0] == s[0]);
        assert(t.drop_first() =~= s.drop_first().update(i - 1, (s[i].0, v2)));
        assert(s.drop_first()[i - 1] == s[i]);
        assert forall|j: int| 0 <= j < i - 1 implies (#[trigger] s.drop_first()[j]).0
            != s.drop_first()[i - 1].0 by {
            assert(s.drop_first()[j] == s[j + 1]);
        }
        lemma_alookup_update(s.drop_first(), i - 1, v2);
        assert(alookup(t, s[i].0) == alookup(t.drop_first(), s[i].0));
        assert forall|k2: K| k2 != s[i].0 implies alookup(t, k2) == alookup(s, k2) by {
            if s[0].0 != k2 {
                assert(alookup(t, k2) == alookup(t.drop_first(), k2));
                assert(alookup(s, k2) == alookup(s.drop_first(), k2));
            }
        }
    }
}

/// Appending a pair with a fresh key makes that key readable and changes
/// no other, and keeps keys unique.
proof fn lemma_alookup_push<K, V>(s: Seq<(K, V)>, k: K, v: V)
    requires
        !ahas(s, k),
    ensures
        alookup(s.push((k, v)), k) == Some(v),
        forall|k2: K| k2 != k ==> alookup(s.push((k, v)), k2) == alookup(s, k2),
        akeys_unique(s) ==> akeys_unique(s.push((k, v))),
    decreases s.len(),
{
    let t = s.push((k, v));
    if s.len() == 0 {
        assert(t[0] == (k, v));
        assert(t.drop_first() =~= s);
    } else {
        assert(!ahas(s.drop_first(), k)) by {
            if ahas(s.drop_first(), k) {
                let i = choose|i: int|
                    0 <= i < s.drop_first().len() && (#[trigger] s.drop_first()[i]).0 == k;
                assert(s[i + 1].0 == k);
            }
        }
        lemma_alookup_push(s.drop_first(), k, v);
        assert(t[0] == s[0]);
        assert(t.drop_first() =~= s.drop_first().push((k, v)));
        assert(s[0].0 != k);
        assert(alookup(t, k) == alookup(t.drop_first(), k));
        assert forall|k2: K| k2 != k implies alookup(t, k2) == alookup(s, k2) by {
            if s[0].0 != k2 {
                assert(alookup(t, k2) == alookup(t.drop_first(), k2));
                assert(alookup(s, k2) == alookup(s.drop_first(), k2));
            }
        }
    }
    if akeys_unique(s) {
        assert forall|i: int, j: int| 0 <= i < j < t.len() implies (#[trigger] t[i]).0 != (
        #[trigger] t[j]).0 by {
            if j == s.len() as int {
                assert(t[i] == s[i]);
                if t[i].0 == k {
                    assert(ahas(s, k));
                }
            }
        }
    }
}

/// Removing the pair at a key's position makes the key unreadable (under
/// unique keys) and changes no other key's read; uniqueness survives.
proof fn lemma_alookup_remove<K, V>(s: Seq<(K, V)>, i: int)
    requires
        0 <= i < s.len(),
        akeys_unique(s),
    ensures
        alookup(s.remove(i), s[i].0) is None,
        forall|k2: K| k2 != s[i].0 ==> alookup(s.remove(i), k2) == alookup(s, k2),
        akeys_unique(s.remove(i)),
    decreases s.len(),
{
    let t = s.remove(i);
    s.remove_ensures(i);
    assert forall|a: int, b: int| 0 <= a < b < t.len() implies (#[trigger] t[a]).0 != (
    #[trigger] t[b]).0 by {}
    if i == 0 {
        assert(t =~= s.drop_first());
        lemma_alookup_has(t, s[0].0);
        if ahas(t, s[0].0) {
            let j = choose|j: int| 0 <= j < t.len() && (#[trigger] t[j]).0 == s[0].0;
            assert(s[j + 1].0 == s[0].0);
        }
        assert forall|k2: K| k2 != s[0].0 implies alookup(t, k2) == alookup(s, k2) by {}
    } else {
        assert(t[0] == s[0]);
        assert(t.drop_first() =~= s.drop_first().remove(i - 1));
        assert(s.drop_first()[i - 1] == s[i]);
        assert forall|a: int, b: int|
            0 <= a < b < s.drop_first().len() implies (#[trigger] s.drop_first()[a]).0 != (
        #[trigger] s.drop_first()[b]).0 by {
            assert(s.drop_first()[a] == s[a + 1]);
            assert(s.drop_first()[b] == s[b + 1]);
        }
        lemma_alookup_remove(s.drop_first(), i - 1);
        assert(s[0].0 != s[i].0);
        assert(alookup(t, s[i].0) == alookup(t.drop_first(), s[i].0));
        assert forall|k2: K| k2 != s[i].0 implies alookup(t, k2) == alookup(s, k2) by {
            if s[0].0 != k2 {
                assert(alookup(t, k2) == alookup(t.drop_first(), k2));
                assert(alookup(s, k2) == alookup(s.drop_first(), k2));
            }
        }
    }
}

/// Copy a vector of handle ids.
fn clone_vec_u64(v: &Vec<u64>) -> (r: Vec<u64>)
    ensures
        r@ == v@,
{
    let mut out: Vec<u64> = Vec::new();
    let mut i: usize = 0;
    while i < v.len()
        invariant
            i <= v@.len(),
            out@ == v@.take(i as int),
        decreases v@.len() - i,
    {
        out.push(v[i]);
        proof {
            assert(v@.take(i as int + 1) =~= v@.take(i as int).push(v@[i as int]));
        }
        i += 1;
    }
    proof {
        assert(v@.take(v@.len() as int) =~= v@);
    }
    out
}

/// Copy a vector of rooms.
fn clone_vec_room(v: &Vec<Room>) -> (r: Vec<Room>)
    ensures
        r@ == v@,
{
    let mut out: Vec<Room> = Vec::new();
    let mut i: usize = 0;
    while i < v.len()
        invariant
            i <= v@.len(),
            out@ == v@.take(i as int),
        decreases v@.len() - i,
    {
        out.push(v[i]);
        proof {
            assert(v@.take(i as int + 1) =~= v@.take(i as int).push(v@[i as int]));
        }
        i += 1;
    }
    proof {
        assert(v@.take(v@.len() as int) =~= v@);
    }
    out
}

/// The registry of live subscriber handles and their room memberships.
pub struct Registry {
    next_handle: u64,
    rooms: Vec<(Room, Vec<u64>)>,
    handles: Vec<(u64, Vec<Room>)>,
}

impl Registry {
    /// The rooms and their member lists.
    pub closed spec fn rooms_view(self) -> Seq<(Room, Seq<u64>)> {
        Seq::new(self.rooms@.len(), |i: int| (self.rooms@[i].0, self.rooms@[i].1@))
    }

    /// The registered handles and their room lists.
    pub closed spec fn handles_view(self) -> Seq<(u64, Seq<Room>)> {
        Seq::new(self.handles@.len(), |i: int| (self.handles@[i].0, self.handles@[i].1@))
    }

    /// The id the next connection will receive.
    pub closed spec fn next_handle(self) -> u64 {
        self.next_handle
    }

    /// Is `h` a live handle?
    pub open spec fn registered(self, h: u64) -> bool {
        ahas(self.handles_view(), h)
    }

    /// The member set of a room (empty for a room nobody ever joined).
    pub open spec fn members(self, r: Room) -> Set<u64> {
        match alookup(self.rooms_view(), r) {
            Some(m) => m.to_set(),
            None => Set::empty(),
        }
    }

    /// Does room `r`'s member list hold `h`?
    pub open spec fn room_lists(self, r: Room, h: u64) -> bool {
        match alookup(self.rooms_view(), r) {
            Some(m) => m.contains(h),
            None => false,
        }
    }

    /// Does handle `h`'s room list hold `r`?
    pub open spec fn handle_lists(self, h: u64, r: Room) -> bool {
        match alookup(self.handles_view(), h) {
            Some(l) => l.contains(r),
            None => false,
        }
    }

    /// The registry invariant: unique room and handle keys, duplicate-free
    /// member and room lists, handle ids below the allocation counter, and
    /// the two sides of the bookkeeping in exact agreement.
    pub closed spec fn wf(self) -> bool {
        &&& akeys_unique(self.rooms_view())
        &&& akeys_unique(self.handles_view())
        &&& forall|i: int|
            0 <= i < self.rooms_view().len() ==> (#[trigger] self.rooms_view()[
                i
            ]).1.no_duplicates()
        &&& forall|i: int|
            0 <= i < self.handles_view().len() ==> (#[trigger] self.handles_view()[
                i
            ]).1.no_duplicates()
        &&& forall|i: int|
            0 <= i < self.handles_view().len() ==> (#[trigger] self.handles_view()[i]).0
                < self.next_handle
        &&& forall|r: Room, h: u64| self.room_lists(r, h) <==> self.handle_lists(h, r)
    }

    /// An empty registry.
    pub fn new() -> (r: Registry)
        ensures
            r.wf(),
            forall|room: Room| r.members(room) == Set::<u64>::empty(),
            forall|h: u64| !r.registered(h),
    {
        let r = Registry { next_handle: 0, rooms: Vec::new(), handles: Vec::new() };
        proof {
            assert(r.rooms_view() =~= Seq::<(Room, Seq<u64>)>::empty());
            assert(r.handles_view() =~= Seq::<(u64, Seq<Room>)>::empty());
            assert forall|room: Room| r.members(room) == Set::<u64>::empty() by {
                assert(r.members(room) =~= Set::<u64>::empty());
            }
        }
        r
    }

    /// Is `h` a live handle?
    pub fn is_registered(&self, h: u64) -> (r: bool)
        ensures
            r == self.registered(h),
    {
        let mut i: usize = 0;
        while i < self.handles.len()
            invariant
                i <= self.handles@.len(),
                forall|j: int| 0 <= j < i as int ==> (#[trigger] self.handles_view()[j]).0 != h,
            decreases self.handles@.len() - i,
        {
            proof {
                assert(self.handles_view()[i as int] == (self.handles@[i as int].0, self.handles@[
                    i as int
                ].1@));
            }
            if self.handles[i].0 == h {
                return true;
            }
            i += 1;
        }
        false
    }

    /// Register a new connection and hand back its fresh handle id; the
    /// new handle belongs to no room.  Returns nothing only in the
    /// unreachable case that the id space is spent, leaving the registry
    /// unchanged.
    pub fn connect(&mut self) -> (r: Option<u64>)
        requires
            old(self).wf(),
        ensures
            final(self).wf(),
            old(self).next_handle() == u64::MAX ==> r is None && *final(self) == *old(self),
            old(self).next_handle() < u64::MAX ==> (r matches Some(h) && {
                &&& h == old(self).next_handle()
                &&& final(self).registered(h)
                &&& !old(self).registered(h)
                &&& forall|h2: u64|
                    h2 != h ==> final(self).registered(h2) == old(self).registered(h2)
                &&& forall|room: Room| final(self).members(room) == old(self).members(room)
                &&& forall|room: Room| !final(self).handle_lists(h, room)
            }),
    {
        if self.next_handle == u64::MAX {
            return None;
        }
        let h = self.next_handle;
        self.next_handle = self.next_handle + 1;
        let fresh: Vec<Room> = Vec::new();
        self.handles.push((h, fresh));
        proof {
            let hv = old(self).handles_view();
            assert(!ahas(hv, h)) by {
                if ahas(hv, h) {
                    let i = choose|i: int| 0 <= i < hv.len() && (#[trigger] hv[i]).0 == h;
                }
            }
            lemma_alookup_push(hv, h, Seq::<Room>::empty());
            assert(self.handles_view() =~= hv.push((h, Seq::<Room>::empty())));
            assert(self.rooms_view() =~= old(self).rooms_view());
            lemma_alookup_has(hv, h);
            lemma_alookup_has(self.handles_view(), h);
            assert forall|h2: u64| h2 != h implies final(self).registered(h2) == old(
                self,
            ).registered(h2) by {
                lemma_alookup_has(hv, h2);
                lemma_alookup_has(self.handles_view(), h2);
            }
            assert forall|r: Room, h2: u64| self.room_lists(r, h2) <==> self.handle_lists(
                h2,
                r,
            ) by {
                if h2 == h {
                    assert(alookup(self.handles_view(), h) == Some(Seq::<Room>::empty()));
                    assert(!old(self).handle_lists(h, r));
                    if old(self).room_lists(r, h) {
                        assert(old(self).handle_lists(h, r));
                    }
                } else {
                    assert(alookup(self.handles_view(), h2) == alookup(hv, h2));
                    assert(self.handle_lists(h2, r) == old(self).handle_lists(h2, r));
                    assert(self.room_lists(r, h2) == old(self).room_lists(r, h2));
                }
            }
        }
        Some(h)
    }

    /// The number of live connections.
    pub fn connected_count(&self) -> (r: usize)
        ensures
            r == self.handles_view().len(),
    {
        self.handles.len()
    }

    /// Snapshot a room's current members.  Delivery to each member happens
    /// outside this registry, failure by failure, so one dead connection
    /// never blocks the rest.
    #[verifier::loop_isolation(false)]
    pub fn broadcast(&self, room: &Room) -> (r: Vec<u64>)
        requires
            self.wf(),
        ensures
            r@.no_duplicates(),
            r@.to_set() == self.members(*room),
    {
        let mut i: usize = 0;
        while i < self.rooms.len()
            invariant
                i <= self.rooms@.len(),
                forall|j: int| 0 <= j < i as int ==> (#[trigger] self.rooms_view()[j]).0
                    != *room,
            decreases self.rooms@.len() - i,
        {
            if self.rooms[i].0 == *room {
                let r = clone_vec_u64(&self.rooms[i].1);
                proof {
                    assert(self.rooms_view()[i as int] == (self.rooms@[i as int].0, self.rooms@[
                        i as int
                    ].1@));
                    lemma_alookup_at(self.rooms_view(), i as int);
                }
                return r;
            }
            i += 1;
        }
        proof {
            lemma_alookup_has(self.rooms_view(), *room);
            if ahas(self.rooms_view(), *room) {
                let j = choose|j: int|
                    0 <= j < self.rooms_view().len() && (#[trigger] self.rooms_view()[j]).0
                        == *room;
            }
            assert(Seq::<u64>::empty().to_set() =~= Set::<u64>::empty());
        }
        Vec::new()
    }

    /// Add `h` to one room on both sides of the bookkeeping.
    #[verifier::loop_isolation(false)]
    fn join_one(&mut self, h: u64, room: Room)
        requires
            old(self).wf(),
            old(self).registered(h),
        ensures
            final(self).wf(),
            final(self).members(room) == old(self).members(room).insert(h),
            forall|r2: Room| r2 != room ==> final(self).members(r2) == old(self).members(r2),
            forall|h2: u64| final(self).registered(h2) == old(self).registered(h2),
            final(self).next_handle() == old(self).next_handle(),
    {
        let ghost rv = old(self).rooms_view();
        let mut i: usize = 0;
        while i < self.rooms.len()
            invariant
                i <= self.rooms@.len(),
                self == old(self),
                forall|j: int| 0 <= j < i as int ==> (#[trigger] rv[j]).0 != room,
            decreases self.rooms@.len() - i,
        {
            proof {
                assert(rv[i as int] == (self.rooms@[i as int].0, self.rooms@[i as int].1@));
            }
            if self.rooms[i].0 == room {
                proof {
                    lemma_alookup_at(rv, i as int);
                }
                let mut n: usize = 0;
                let mut already: bool = false;
                while n < self.rooms[i].1.len()
                    invariant
                        i < self.rooms@.len(),
                        self == old(self),
                        rv[i as int] == (self.rooms@[i as int].0, self.rooms@[i as int].1@),
                        n <= rv[i as int].1.len(),
                        already == rv[i as int].1.take(n as int).contains(h),
                    decreases rv[i as int].1.len() - n,
                {
                    let ghost m = rv[i as int].1;
                    if self.rooms[i].1[n] == h {
                        already = true;
                        proof {
                            assert(m.take(n as int + 1)[n as int] == h);
                        }
                    } else {
                        proof {
                            if m.take(n as int + 1).contains(h) {
                                let w = choose|w: int|
                                    0 <= w < n as int + 1 && #[trigger] m.take(
                                        n as int + 1,
                                    )[w] == h;
                                assert(w < n as int);
                                assert(m.take(n as int)[w] == h);
                            }
                            if m.take(n as int).contains(h) {
                                let w = choose|w: int|
                                    0 <= w < n as int && #[trigger] m.take(n as int)[w] == h;
                                assert(m.take(n as int + 1)[w] == h);
                            }
                        }
                    }
                    n += 1;
                }
                proof {
                    assert(rv[i as int].1.take(rv[i as int].1.len() as int) =~= rv[
                        i as int
                    ].1);
                }
                if already {
                    proof {
                        assert(old(self).members(room) == rv[i as int].1.to_set());
                        assert(old(self).members(room).insert(h) =~= old(self).members(room));
                    }
                    return ;
                }
                let mut new_members = clone_vec_u64(&self.rooms[i].1);
                new_members.push(h);
                self.rooms.set(i, (room, new_members));
                proof {
                    let m = rv[i as int].1;
                    assert(self.rooms_view() =~= rv.update(i as int, (room, m.push(h))));
                    assert(rv[i as int].0 == room);
                    lemma_alookup_update(rv, i as int, m.push(h));
                    m.lemma_push_to_set_commute(h);
                    assert(!m.contains(h));
                    assert forall|a: int, b: int|
                        0 <= a < b < m.push(h).len() implies m.push(h)[a] != m.push(h)[b] by {
                        if b == m.len() as int {
                            assert(m.push(h)[a] == m[a]);
                        }
                    }
                    assert(m.push(h)[m.len() as int] == h);
                    assert(self.room_lists(room, h));
                    assert forall|i2: int|
                        0 <= i2 < self.rooms_view().len() implies (#[trigger] self.rooms_view()[
                        i2]).1.no_duplicates() by {
                        if i2 != i as int {
                            assert(self.rooms_view()[i2] == rv[i2]);
                        }
                    }
                    assert forall|r2: Room, h2: u64| !(r2 == room && h2 == h) implies (
                    self.room_lists(r2, h2) <==> old(self).handle_lists(h2, r2)) by {
                        if r2 == room {
                            assert(m.push(h).contains(h2) == m.contains(h2)) by {
                                if m.contains(h2) {
                                    let w = choose|w: int|
                                        0 <= w < m.len() && #[trigger] m[w] == h2;
                                    assert(m.push(h)[w] == h2);
                                }
                                if m.push(h).contains(h2) {
                                    let w = choose|w: int|
                                        0 <= w < m.push(h).len() && #[trigger] m.push(h)[w]
                                            == h2;
                                    assert(w < m.len());
                                }
                            }
                            assert(old(self).room_lists(room, h2) == m.contains(h2));
                        } else {
                            assert(alookup(self.rooms_view(), r2) == alookup(rv, r2));
                        }
                    }
                    assert(!old(self).handle_lists(h, room)) by {
                        assert(!old(self).room_lists(room, h));
                    }
                }
                self.join_handle_side(h, room);
                proof {
                    let m = rv[i as int].1;
                    assert(alookup(self.rooms_view(), room) == Some(m.push(h)));
                    assert(self.members(room) =~= old(self).members(room).insert(h));
                    assert forall|r2: Room| r2 != room implies self.members(r2) == old(
                        self,
                    ).members(r2) by {
                        assert(alookup(self.rooms_view(), r2) == alookup(rv, r2));
                    }
                }
                return ;
            }
            i += 1;
        }
        proof {
            lemma_alookup_has(rv, room);
            if ahas(rv, room) {
                let j = choose|j: int| 0 <= j < rv.len() && (#[trigger] rv[j]).0 == room;
            }
        }
        let mut singleton: Vec<u64> = Vec::new();
        singleton.push(h);
        self.rooms.push((room, singleton));
        proof {
            assert(self.rooms_view() =~= rv.push((room, seq![h])));
            lemma_alookup_push(rv, room, seq![h]);
            assert(seq![h].no_duplicates());
            assert(seq![h][0] == h);
            assert(self.room_lists(room, h));
            assert forall|i2: int|
                0 <= i2 < self.rooms_view().len() implies (#[trigger] self.rooms_view()[
                i2]).1.no_duplicates() by {
                if i2 < rv.len() {
                    assert(self.rooms_view()[i2] == rv[i2]);
                }
            }
            assert forall|r2: Room, h2: u64| !(r2 == room && h2 == h) implies (self.room_lists(
                r2,
                h2,
            ) <==> old(self).handle_lists(h2, r2)) by {
                if r2 == room {
                    assert(seq![h].contains(h2) == (h2 == h)) by {
                        if seq![h].contains(h2) {
                            let w = choose|w: int|
                                0 <= w < seq![h].len() && #[trigger] seq![h][w] == h2;
                            assert(w == 0);
                        }
                    }
                    assert(!old(self).room_lists(room, h2));
                } else {
                    assert(alookup(self.rooms_view(), r2) == alookup(rv, r2));
                }
            }
            assert(!old(self).handle_lists(h, room)) by {
                assert(!old(self).room_lists(room, h));
            }
        }
        self.join_handle_side(h, room);
        proof {
            assert(alookup(self.rooms_view(), room) == Some(seq![h]));
            assert(old(self).members(room) =~= Set::<u64>::empty()) by {
                lemma_alookup_has(rv, room);
            }
            assert(seq![h].to_set() =~= Set::<u64>::empty().insert(h)) by {
                assert(seq![h][0] == h);
                assert forall|x: u64| seq![h].contains(x) implies x == h by {
                    let w = choose|w: int| 0 <= w < seq![h].len() && #[trigger] seq![h][w] == x;
                }
            }
            assert(self.members(room) =~= old(self).members(room).insert(h));
            assert forall|r2: Room| r2 != room implies self.members(r2) == old(
                self,
            ).members(r2) by {
                assert(alookup(self.rooms_view(), r2) == alookup(rv, r2));
            }
        }
    }

    /// Record `room` in `h`'s own room list; on entry the member list
    /// already holds `h` and the pair `(room, h)` is exactly what is out
    /// of balance in the invariant.
    #[verifier::loop_isolation(false)]
    fn join_handle_side(&mut self, h: u64, room: Room)
        requires
            akeys_unique(old(self).rooms_view()),
            akeys_unique(old(self).handles_view()),
            forall|i: int|
                0 <= i < old(self).rooms_view().len() ==> (#[trigger] old(self).rooms_view()[
                    i
                ]).1.no_duplicates(),
            forall|i: int|
                0 <= i < old(self).handles_view().len() ==> (#[trigger] old(self).handles_view()[
                    i
                ]).1.no_duplicates(),
            forall|i: int|
                0 <= i < old(self).handles_view().len() ==> (#[trigger] old(self).handles_view()[
                    i
                ]).0 < old(self).next_handle(),
            old(self).registered(h),
            old(self).room_lists(room, h),
            forall|r2: Room, h2: u64|
                !(r2 == room && h2 == h) ==> (old(self).room_lists(r2, h2) <==> old(
                    self,
                ).handle_lists(h2, r2)),
            !old(self).handle_lists(h, room),
        ensures
            final(self).wf(),
            final(self).rooms_view() == old(self).rooms_view(),
            forall|h2: u64| final(self).registered(h2) == old(self).registered(h2),
            final(self).next_handle() == old(self).next_handle(),
    {
        let ghost hv = old(self).handles_view();
        let mut i: usize = 0;
        while i < self.handles.len()
            invariant
                i <= self.handles@.len(),
                self == old(self),
                forall|j: int| 0 <= j < i as int ==> (#[trigger] hv[j]).0 != h,
            decreases self.handles@.len() - i,
        {
            proof {
                assert(hv[i as int] == (self.handles@[i as int].0, self.handles@[i as int].1@));
            }
            if self.handles[i].0 == h {
                proof {
                    lemma_alookup_at(hv, i as int);
                }
                let mut new_list = clone_vec_room(&self.handles[i].1);
                new_list.push(room);
                self.handles.set(i, (h, new_list));
                proof {
                    let l = hv[i as int].1;
                    assert(self.handles_view() =~= hv.update(i as int, (h, l.push(room))));
                    assert(hv[i as int].0 == h);
                    lemma_alookup_update(hv, i as int, l.push(room));
                    assert(alookup(hv, h) == Some(l));
                    assert(!l.contains(room));
                    assert forall|a: int, b: int|
                        0 <= a < b < l.push(room).len() implies l.push(room)[a] != l.push(
                            room,
                        )[b] by {
                        if b == l.len() as int {
                            assert(l.push(room)[a] == l[a]);
                        }
                    }
                    assert(self.rooms_view() =~= old(self).rooms_view());
                    assert forall|i2: int|
                        0 <= i2 < self.handles_view().len() implies (#[trigger] self.handles_view()[
                        i2]).1.no_duplicates() by {
                        if i2 != i as int {
                            assert(self.handles_view()[i2] == hv[i2]);
                        }
                    }
                    assert forall|i2: int|
                        0 <= i2 < self.handles_view().len() implies (#[trigger] self.handles_view()[
                        i2]).0 < self.next_handle by {
                        if i2 != i as int {
                            assert(self.handles_view()[i2] == hv[i2]);
                        } else {
                            assert(hv[i2].0 == h);
                        }
                    }
                    assert forall|h2: u64| self.registered(h2) == old(self).registered(h2) by {
                        lemma_alookup_has(hv, h2);
                        lemma_alookup_has(self.handles_view(), h2);
                        if h2 != h {
                            assert(alookup(self.handles_view(), h2) == alookup(hv, h2));
                        } else {
                            assert(alookup(self.handles_view(), h) == Some(l.push(room)));
                        }
                    }
                    assert(l.push(room)[l.len() as int] == room);
                    assert(self.rooms_view() =~= old(self).rooms_view());
                    assert forall|r2: Room, h2: u64| self.room_lists(r2, h2) <==> self.handle_lists(
                        h2,
                        r2,
                    ) by {
                        assert(self.room_lists(r2, h2) == old(self).room_lists(r2, h2));
                        if h2 == h {
                            assert(alookup(self.handles_view(), h) == Some(l.push(room)));
                            if r2 == room {
                                assert(l.push(room).contains(room));
                                assert(old(self).room_lists(room, h));
                            } else {
                                assert(l.push(room).contains(r2) == l.contains(r2)) by {
                                    if l.contains(r2) {
                                        let w = choose|w: int|
                                            0 <= w < l.len() && #[trigger] l[w] == r2;
                                        assert(l.push(room)[w] == r2);
                                    }
                                    if l.push(room).contains(r2) {
                                        let w = choose|w: int|
                                            0 <= w < l.push(room).len() && #[trigger] l.push(
                                                room,
                                            )[w] == r2;
                                        assert(w < l.len());
                                        assert(l[w] == r2);
                                    }
                                }
                                assert(old(self).handle_lists(h, r2) == l.contains(r2));
                                assert(old(self).room_lists(r2, h) <==> old(self).handle_lists(
                                    h,
                                    r2,
                                ));
                            }
                        } else {
                            assert(alookup(self.handles_view(), h2) == alookup(hv, h2));
                            assert(self.handle_lists(h2, r2) == old(self).handle_lists(h2, r2));
                            assert(old(self).room_lists(r2, h2) <==> old(self).handle_lists(
                                h2,
                                r2,
                            ));
                        }
                    }
                }
                return ;
            }
            i += 1;
        }
        proof {
            lemma_alookup_has(hv, h);
            if ahas(hv, h) {
                let j = choose|j: int| 0 <= j < hv.len() && (#[trigger] hv[j]).0 == h;
            }
            assert(false);
        }
        vstd::pervasive::unreached()
    }

    /// Join `h` to every room named in a join request.  Names that do not
    /// parse under the room grammar are silently ignored; the request
    /// never fails and the connection stays up.
    #[verifier::loop_isolation(false)]
    pub fn join(&mut self, h: u64, names: &Vec<String>)
        requires
            old(self).wf(),
            old(self).registered(h),
        ensures
            final(self).wf(),
            forall|r: Room|
                final(self).members(r) == (if parsed_rooms(names.deep_view()).contains(r) {
                    old(self).members(r).insert(h)
                } else {
                    old(self).members(r)
                }),
            forall|h2: u64| final(self).registered(h2) == old(self).registered(h2),
            final(self).next_handle() == old(self).next_handle(),
    {
        let ghost ns = names.deep_view();
        let mut i: usize = 0;
        while i < names.len()
            invariant
                i <= ns.len(),
                self.wf(),
                self.next_handle() == old(self).next_handle(),
                forall|h2: u64| self.registered(h2) == old(self).registered(h2),
                forall|r: Room|
                    self.members(r) == (if parsed_rooms(ns.take(i as int)).contains(r) {
                        old(self).members(r).insert(h)
                    } else {
                        old(self).members(r)
                    }),
            decreases ns.len() - i,
        {
            let ghost mid = *self;
            proof {
                assert(ns[i as int] == names@[i as int]@);
                lemma_parsed_take_succ(ns, i as int);
            }
            match Room::parse(names[i].as_str()) {
                Some(room) => {
                    self.join_one(h, room);
                    proof {
                        assert forall|r: Room|
                            self.members(r) == (if parsed_rooms(ns.take(i as int + 1)).contains(
                                r,
                            ) {
                                old(self).members(r).insert(h)
                            } else {
                                old(self).members(r)
                            }) by {
                            if r == room {
                                if parsed_rooms(ns.take(i as int)).contains(r) {
                                    assert(mid.members(r) == old(self).members(r).insert(h));
                                    assert(self.members(r) == old(self).members(r).insert(
                                        h,
                                    ).insert(h));
                                    assert(old(self).members(r).insert(h).insert(h) =~= old(
                                        self,
                                    ).members(r).insert(h));
                                } else {
                                    assert(mid.members(r) == old(self).members(r));
                                }
                                assert(parsed_rooms(ns.take(i as int + 1)).contains(r));
                            } else {
                                assert(self.members(r) == mid.members(r));
                            }
                        }
                    }
                },
                None => {
                    proof {
                        assert forall|r: Room|
                            parsed_rooms(ns.take(i as int + 1)).contains(r) == parsed_rooms(
                                ns.take(i as int),
                            ).contains(r) by {}
                    }
                },
            }
            i += 1;
        }
        proof {
            assert(ns.take(ns.len() as int) =~= ns);
        }
    }

    /// Drop `h` from every room it joined and forget the handle; invoked
    /// once when the connection closes.  Every room's member set loses
    /// exactly `h` — a room the handle never joined is untouched, and a
    /// handle that was never registered leaves everything unchanged.
    #[verifier::loop_isolation(false)]
    pub fn leave_all(&mut self, h: u64)
        requires
            old(self).wf(),
        ensures
            final(self).wf(),
            !final(self).registered(h),
            forall|h2: u64| h2 != h ==> final(self).registered(h2) == old(self).registered(h2),
            forall|r: Room| final(self).members(r) == old(self).members(r).remove(h),
            final(self).next_handle() == old(self).next_handle(),
    {
        let ghost hv = old(self).handles_view();
        let mut i: usize = 0;
        while i < self.handles.len()
            invariant
                i <= self.handles@.len(),
                self == old(self),
                forall|j: int| 0 <= j < i as int ==> (#[trigger] hv[j]).0 != h,
            decreases self.handles@.len() - i,
        {
            proof {
                assert(hv[i as int] == (self.handles@[i as int].0, self.handles@[i as int].1@));
            }
            if self.handles[i].0 == h {
                proof {
                    lemma_alookup_at(hv, i as int);
                }
                let entry = self.handles.remove(i);
                let roomlist = entry.1;
                proof {
                    assert(self.handles_view() =~= hv.remove(i as int));
                    lemma_alookup_remove(hv, i as int);
                    lemma_alookup_has(self.handles_view(), h);
                    assert(roomlist@ == hv[i as int].1);
                    hv.remove_ensures(i as int);
                    assert forall|i2: int|
                        0 <= i2 < self.handles_view().len() implies (#[trigger] self.handles_view()[
                        i2]).1.no_duplicates() && self.handles_view()[i2].0
                        < self.next_handle by {
                        if i2 < i as int {
                            assert(self.handles_view()[i2] == hv[i2]);
                        } else {
                            assert(self.handles_view()[i2] == hv[i2 + 1]);
                        }
                    }
                    assert(ahas(hv, h));
                }
                self.leave_rooms(h, &roomlist, Ghost(*old(self)));
                proof {
                    assert forall|h2: u64| h2 != h implies self.registered(h2) == old(
                        self,
                    ).registered(h2) by {
                        lemma_alookup_has(hv, h2);
                        lemma_alookup_has(self.handles_view(), h2);
                        assert(alookup(self.handles_view(), h2) == alookup(hv.remove(i as int), h2));
                    }
                    lemma_alookup_has(self.handles_view(), h);
                }
                return ;
            }
            i += 1;
        }
        proof {
            lemma_alookup_has(hv, h);
            if ahas(hv, h) {
                let j = choose|j: int| 0 <= j < hv.len() && (#[trigger] hv[j]).0 == h;
            }
            assert(!old(self).registered(h));
            assert forall|r: Room| self.members(r) == old(self).members(r).remove(h) by {
                if old(self).members(r).contains(h) {
                    assert(old(self).room_lists(r, h));
                    assert(old(self).handle_lists(h, r));
                }
                assert(old(self).members(r).remove(h) =~= old(self).members(r));
            }
        }
    }

    /// Remove `h` from each room of its (just detached) room list; the
    /// handle entry itself is already gone.
    #[verifier::loop_isolation(false)]
    fn leave_rooms(&mut self, h: u64, roomlist: &Vec<Room>, Ghost(orig): Ghost<Registry>)
        requires
            orig.wf(),
            orig.registered(h),
            alookup(orig.handles_view(), h) == Some(roomlist@),
            old(self).rooms_view() == orig.rooms_view(),
            old(self).next_handle() == orig.next_handle(),
            forall|h2: u64|
                h2 != h ==> alookup(old(self).handles_view(), h2) == alookup(
                    orig.handles_view(),
                    h2,
                ),
            !old(self).registered(h),
            akeys_unique(old(self).handles_view()),
            forall|i: int|
                0 <= i < old(self).handles_view().len() ==> (#[trigger] old(self).handles_view()[
                    i
                ]).1.no_duplicates(),
            forall|i: int|
                0 <= i < old(self).handles_view().len() ==> (#[trigger] old(self).handles_view()[
                    i
                ]).0 < old(self).next_handle(),
        ensures
            final(self).wf(),
            final(self).handles_view() == old(self).handles_view(),
            final(self).next_handle() == old(self).next_handle(),
            forall|r: Room| final(self).members(r) == orig.members(r).remove(h),
    {
        let ghost rl = roomlist@;
        proof {
            lemma_alookup_at_unique(orig.handles_view(), h);
            let j = choose|j: int|
                0 <= j < orig.handles_view().len() && (#[trigger] orig.handles_view()[j]).0 == h
                    && alookup(orig.handles_view(), h) == Some(orig.handles_view()[j].1);
            assert(orig.handles_view()[j].1 == rl);
            assert(rl.no_duplicates());
            assert(rl.take(0) =~= Seq::<Room>::empty());
            assert(rl.skip(0) =~= rl);
            assert forall|r: Room|
                self.members(r) == (if rl.take(0).contains(r) {
                    orig.members(r).remove(h)
                } else {
                    orig.members(r)
                }) by {}
            assert forall|r: Room| #[trigger]
                self.room_lists(r, h) <==> rl.skip(0).contains(r) by {
                assert(self.room_lists(r, h) == orig.room_lists(r, h));
                assert(orig.room_lists(r, h) <==> orig.handle_lists(h, r));
            }
            assert forall|r: Room, h2: u64|
                h2 != h implies (#[trigger] self.room_lists(r, h2) <==> orig.handle_lists(
                h2,
                r,
            )) by {
                assert(self.room_lists(r, h2) == orig.room_lists(r, h2));
                assert(orig.room_lists(r, h2) <==> orig.handle_lists(h2, r));
            }
        }
        let mut j: usize = 0;
        while j < roomlist.len()
            invariant
                j <= rl.len(),
                rl.no_duplicates(),
                self.handles_view() == old(self).handles_view(),
                self.next_handle() == old(self).next_handle(),
                akeys_unique(self.rooms_view()),
                forall|i: int|
                    0 <= i < self.rooms_view().len() ==> (#[trigger] self.rooms_view()[
                        i
                    ]).1.no_duplicates(),
                forall|r: Room|
                    self.members(r) == (if rl.take(j as int).contains(r) {
                        orig.members(r).remove(h)
                    } else {
                        orig.members(r)
                    }),
                forall|r: Room| #[trigger]
                    self.room_lists(r, h) <==> rl.skip(j as int).contains(r),
                forall|r: Room, h2: u64|
                    h2 != h ==> (#[trigger] self.room_lists(r, h2) <==> orig.handle_lists(
                        h2,
                        r,
                    )),
            decreases rl.len() - j,
        {
            let room = roomlist[j];
            proof {
                assert(rl.skip(j as int)[0] == rl[j as int]);
                assert(rl.skip(j as int).contains(room));
                assert(self.room_lists(room, h));
                lemma_take_skip_succ(rl, j as int);
            }
            let ghost mid = *self;
            self.remove_member(room, h, Ghost(orig));
            proof {
                assert(!rl.take(j as int).contains(room)) by {
                    if rl.take(j as int).contains(room) {
                        let w = choose|w: int|
                            0 <= w < j as int && #[trigger] rl.take(j as int)[w] == room;
                        assert(rl[w] == rl[j as int]);
                    }
                }
                assert(mid.members(room) == orig.members(room));
                assert forall|r: Room|
                    self.members(r) == (if rl.take(j as int + 1).contains(r) {
                        orig.members(r).remove(h)
                    } else {
                        orig.members(r)
                    }) by {
                    if r == room {
                        assert(self.members(room) == mid.members(room).remove(h));
                        assert(rl.take(j as int + 1).contains(room)) by {
                            assert(rl.take(j as int + 1)[j as int] == room);
                        }
                    } else {
                        assert(self.members(r) == mid.members(r));
                    }
                }
                assert forall|r: Room| #[trigger]
                    self.room_lists(r, h) <==> rl.skip(j as int + 1).contains(r) by {
                    if r == room {
                        assert(!self.room_lists(room, h));
                        assert(!rl.skip(j as int + 1).contains(room));
                    } else {
                        assert(self.room_lists(r, h) == mid.room_lists(r, h));
                    }
                }
                assert forall|r: Room, h2: u64|
                    h2 != h implies (#[trigger] self.room_lists(r, h2) <==> orig.handle_lists(
                    h2,
                    r,
                )) by {
                    assert(self.room_lists(r, h2) == mid.room_lists(r, h2));
                }
            }
            j += 1;
        }
        proof {
            assert(rl.take(rl.len() as int) =~= rl);
            assert(rl.skip(rl.len() as int) =~= Seq::<Room>::empty());
            assert forall|r: Room| self.members(r) == orig.members(r).remove(h) by {
                if !rl.contains(r) {
                    if orig.members(r).contains(h) {
                        assert(orig.room_lists(r, h));
                        assert(orig.handle_lists(h, r));
                    }
                    assert(orig.members(r).remove(h) =~= orig.members(r));
                }
            }
            assert forall|r2: Room, h2: u64| self.room_lists(r2, h2) <==> self.handle_lists(
                h2,
                r2,
            ) by {
                if h2 == h {
                    assert(!self.room_lists(r2, h));
                    lemma_alookup_has(self.handles_view(), h);
                } else {
                    assert(self.handle_lists(h2, r2) == orig.handle_lists(h2, r2));
                }
            }
        }
    }

    /// Remove `h` from one room's member list.
    #[verifier::loop_isolation(false)]
    fn remove_member(&mut self, room: Room, h: u64, Ghost(orig): Ghost<Registry>)
        requires
            akeys_unique(old(self).rooms_view()),
            forall|i: int|
                0 <= i < old(self).rooms_view().len() ==> (#[trigger] old(self).rooms_view()[
                    i
                ]).1.no_duplicates(),
            old(self).room_lists(room, h),
        ensures
            final(self).handles_view() == old(self).handles_view(),
            final(self).next_handle() == old(self).next_handle(),
            akeys_unique(final(self).rooms_view()),
            forall|i: int|
                0 <= i < final(self).rooms_view().len() ==> (#[trigger] final(self).rooms_view()[
                    i
                ]).1.no_duplicates(),
            final(self).members(room) == old(self).members(room).remove(h),
            forall|r2: Room| r2 != room ==> final(self).members(r2) == old(self).members(r2),
            !final(self).room_lists(room, h),
            forall|r2: Room, h2: u64|
                !(r2 == room && h2 == h) ==> (final(self).room_lists(r2, h2) == old(
                    self,
                ).room_lists(r2, h2)),
    {
        let ghost rv = old(self).rooms_view();
        let mut i: usize = 0;
        while i < self.rooms.len()
            invariant
                i <= self.rooms@.len(),
                self == old(self),
                forall|j: int| 0 <= j < i as int ==> (#[trigger] rv[j]).0 != room,
            decreases self.rooms@.len() - i,
        {
            proof {
                assert(rv[i as int] == (self.rooms@[i as int].0, self.rooms@[i as int].1@));
            }
            if self.rooms[i].0 == room {
                proof {
                    lemma_alookup_at(rv, i as int);
                }
                let ghost m = rv[i as int].1;
                let mut n: usize = 0;
                while n < self.rooms[i].1.len()
                    invariant
                        i < self.rooms@.len(),
                        self == old(self),
                        rv[i as int] == (self.rooms@[i as int].0, self.rooms@[i as int].1@),
                        n <= m.len(),
                        forall|w: int| 0 <= w < n as int ==> m[w] != h,
                    decreases m.len() - n,
                {
                    if self.rooms[i].1[n] == h {
                        let mut new_members = clone_vec_u64(&self.rooms[i].1);
                        let _ = new_members.remove(n);
                        self.rooms.set(i, (room, new_members));
                        proof {
                            assert(self.rooms_view() =~= rv.update(
                                i as int,
                                (room, m.remove(n as int)),
                            ));
                            lemma_alookup_update(rv, i as int, m.remove(n as int));
                            lemma_remove_at_to_set(m, n as int);
                            assert(m[n as int] == h);
                            assert forall|i2: int|
                                0 <= i2 < self.rooms_view().len() implies (
                            #[trigger] self.rooms_view()[i2]).1.no_duplicates() by {
                                if i2 != i as int {
                                    assert(self.rooms_view()[i2] == rv[i2]);
                                }
                            }
                            assert forall|r2: Room, h2: u64|
                                !(r2 == room && h2 == h) implies (self.room_lists(r2, h2) == old(
                                self,
                            ).room_lists(r2, h2)) by {
                                if r2 == room {
                                    assert(m.remove(n as int).contains(h2) == m.contains(
                                        h2,
                                    )) by {
                                        lemma_remove_at_to_set(m, n as int);
                                        assert(m.remove(n as int).to_set().contains(h2)
                                            == m.to_set().remove(h).contains(h2));
                                    }
                                } else {
                                    assert(alookup(self.rooms_view(), r2) == alookup(rv, r2));
                                }
                            }
                            assert(!m.remove(n as int).contains(h)) by {
                                lemma_remove_at_to_set(m, n as int);
                                assert(m.remove(n as int).to_set().contains(h) == m.to_set(
                                ).remove(h).contains(h));
                            }
                            assert(self.members(room) =~= old(self).members(room).remove(h));
                            assert forall|r2: Room| r2 != room implies self.members(r2) == old(
                                self,
                            ).members(r2) by {
                                assert(alookup(self.rooms_view(), r2) == alookup(rv, r2));
                            }
                        }
                        return ;
                    }
                    n += 1;
                }
                proof {
                    assert(m.contains(h));
                    let w = choose|w: int| 0 <= w < m.len() && #[trigger] m[w] == h;
                    assert(false);
                }
                return ;
            }
            i += 1;
        }
        proof {
            lemma_alookup_has(rv, room);
            if ahas(rv, room) {
                let j = choose|j: int| 0 <= j < rv.len() && (#[trigger] rv[j]).0 == room;
            }
            assert(false);
        }
        vstd::pervasive::unreached()
    }
}

/// A registered handle's entry is the one its key finds.
proof fn lemma_alookup_at_unique<K, V>(s: Seq<(K, V)>, k: K)
    requires
        akeys_unique(s),
        ahas(s, k),
    ensures
        exists|j: int| 0 <= j < s.len() && (#[trigger] s[j]).0 == k && alookup(s, k) == Some(
            s[j].1,
        ),
{
    let j = choose|j: int| 0 <= j < s.len() && (#[trigger] s[j]).0 == k;
    assert forall|w: int| 0 <= w < j implies (#[trigger] s[w]).0 != s[j].0 by {}
    lemma_alookup_at(s, j);
}

/// Relate the prefix and suffix membership around one position.
proof fn lemma_take_skip_succ<A>(s: Seq<A>, j: int)
    requires
        0 <= j < s.len(),
        s.no_duplicates(),
    ensures
        forall|x: A| s.take(j + 1).contains(x) <==> s.take(j).contains(x) || s[j] == x,
        forall|x: A| s.skip(j).contains(x) <==> s[j] == x || s.skip(j + 1).contains(x),
        !s.skip(j + 1).contains(s[j]),
{
    assert forall|x: A| s.take(j + 1).contains(x) <==> s.take(j).contains(x) || s[j] == x by {
        if s.take(j + 1).contains(x) {
            let w = choose|w: int| 0 <= w < j + 1 && #[trigger] s.take(j + 1)[w] == x;
            if w < j {
                assert(s.take(j)[w] == x);
            }
        }
        if s.take(j).contains(x) {
            let w = choose|w: int| 0 <= w < j && #[trigger] s.take(j)[w] == x;
            assert(s.take(j + 1)[w] == x);
        }
        if s[j] == x {
            assert(s.take(j + 1)[j] == x);
        }
    }
    assert forall|x: A| s.skip(j).contains(x) <==> s[j] == x || s.skip(j + 1).contains(x) by {
        if s.skip(j).contains(x) {
            let w = choose|w: int| 0 <= w < s.skip(j).len() && #[trigger] s.skip(j)[w] == x;
            if w > 0 {
                assert(s.skip(j + 1)[w - 1] == x);
            }
        }
        if s[j] == x {
            assert(s.skip(j)[0] == x);
        }
        if s.skip(j + 1).contains(x) {
            let w = choose|w: int|
                0 <= w < s.skip(j + 1).len() && #[trigger] s.skip(j + 1)[w] == x;
            assert(s.skip(j)[w + 1] == x);
        }
    }
    if s.skip(j + 1).contains(s[j]) {
        let w = choose|w: int|
            0 <= w < s.skip(j + 1).len() && #[trigger] s.skip(j + 1)[w] == s[j];
        assert(s[j + 1 + w] == s[j]);
    }
}

/// Removing position `n` from a duplicate-free sequence removes exactly
/// that element from its set.
proof fn lemma_remove_at_to_set(s: Seq<u64>, n: int)
    requires
        s.no_duplicates(),
        0 <= n < s.len(),
    ensures
        s.remove(n).no_duplicates(),
        s.remove(n).to_set() == s.to_set().remove(s[n]),
{
    s.remove_ensures(n);
    assert forall|a: int, b: int|
        0 <= a < s.remove(n).len() && 0 <= b < s.remove(n).len() && a != b implies s.remove(
        n,
    )[a] != s.remove(n)[b] by {}
    assert forall|x: u64| s.remove(n).to_set().contains(x) <==> s.to_set().remove(
        s[n],
    ).contains(x) by {
        if s.remove(n).contains(x) {
            let w = choose|w: int| 0 <= w < s.remove(n).len() && #[trigger] s.remove(n)[w] == x;
            if w < n {
                assert(s[w] == x);
            } else {
                assert(s[w + 1] == x);
            }
        }
        if s.contains(x) && x != s[n] {
            let w = choose|w: int| 0 <= w < s.len() && #[trigger] s[w] == x;
            if w < n {
                assert(s.remove(n)[w] == x);
            } else {
                assert(s.remove(n)[w - 1] == x);
            }
        }
    }
    assert(s.remove(n).to_set() =~= s.to_set().remove(s[n]));
}

/// The rooms named by a join request, under the room grammar.
pub open spec fn parsed_rooms(names: Seq<Seq<char>>) -> Set<Room> {
    Set::new(
        |r: Room|
            exists|i: int|
                0 <= i < names.len() && parse_room_spec(#[trigger] names[i]) == Some(r),
    )
}

/// How the parsed-room set grows name by name.
proof fn lemma_parsed_take_succ(names: Seq<Seq<char>>, i: int)
    requires
        0 <= i < names.len(),
    ensures
        forall|r: Room|
            parsed_rooms(names.take(i + 1)).contains(r) <==> parsed_rooms(names.take(i)).contains(
                r,
            ) || parse_room_spec(names[i]) == Some(r),
{
    assert forall|r: Room|
        parsed_rooms(names.take(i + 1)).contains(r) <==> parsed_rooms(names.take(i)).contains(r)
            || parse_room_spec(names[i]) == Some(r) by {
        if parsed_rooms(names.take(i + 1)).contains(r) {
            let w = choose|w: int|
                0 <= w < i + 1 && parse_room_spec(#[trigger] names.take(i + 1)[w]) == Some(r);
            assert(names.take(i + 1)[w] == names[w]);
            if w < i {
                assert(names.take(i)[w] == names[w]);
                assert(parse_room_spec(names.take(i)[w]) == Some(r));
            }
        }
        if parsed_rooms(names.take(i)).contains(r) {
            let w = choose|w: int|
                0 <= w < i && parse_room_spec(#[trigger] names.take(i)[w]) == Some(r);
            assert(names.take(i)[w] == names[w]);
            assert(parse_room_spec(names.take(i + 1)[w]) == Some(r));
        }
        if parse_room_spec(names[i]) == Some(r) {
            assert(parse_room_spec(names.take(i + 1)[i]) == Some(r));
        }
    }
}

} // verus!
