//! The per-kind entity cache.
//!
//! Each entity kind has one bounded read-through cache mapping ids to the
//! latest known snapshot.  The backing store is `lru_cache::LruCache`,
//! whose recency discipline (a look-up or an insertion makes an entry the
//! most recent; an insertion beyond capacity evicts the least recent) is
//! stated here as the contracts of thin trusted wrappers over a
//! least-recent-first sequence of entries.  Everything above those
//! wrappers — well-formedness, read-after-write, bounded eviction — is
//! proved.

use vstd::prelude::*;
use std::hash::BuildHasher;
use std::hash::Hash;
use lru_cache::LruCache;
use crate::entity::Entity;
use crate::entity::EntityKind;
use crate::entity::EntityModel;

verus! {

#[verifier::external_type_specification]
#[verifier::external_body]
#[verifier::reject_recursive_types(K)]
#[verifier::reject_recursive_types(V)]
#[verifier::reject_recursive_types(S)]
pub struct ExLruCache<K: Eq + Hash, V, S: BuildHasher>(LruCache<K, V, S>);

/// What an entity cache holds: its entries as (id, snapshot model) pairs
/// in least-recently-used-first order.
pub uninterp spec fn lru_entries(c: LruCache<i32, Entity>) -> Seq<(i32, EntityModel)>;

/// The bound the cache was created with.
pub uninterp spec fn lru_capacity(c: LruCache<i32, Entity>) -> nat;

/// Is some entry keyed `k`?
pub open spec fn entries_has_key(s: Seq<(i32, EntityModel)>, k: i32) -> bool {
    exists|i: int| 0 <= i < s.len() && (#[trigger] s[i]).0 == k
}

/// The value of the first entry keyed `k`, if any.
pub open spec fn lookup_entry(s: Seq<(i32, EntityModel)>, k: i32) -> Option<EntityModel>
    decreases s.len(),
{
    if s.len() == 0 {
        None
    } else if s[0].0 == k {
        Some(s[0].1)
    } else {
        lookup_entry(s.drop_first(), k)
    }
}

/// The sequence with the first entry keyed `k` removed (under the unique-
/// key invariant the cache maintains, that is the only one).
pub open spec fn remove_entry(s: Seq<(i32, EntityModel)>, k: i32) -> Seq<(i32, EntityModel)>
    decreases s.len(),
{
    if s.len() == 0 {
        s
    } else if s[0].0 == k {
        s.drop_first()
    } else {
        seq![s[0]] + remove_entry(s.drop_first(), k)
    }
}

/// What `insert` does to the entries: any existing entry for the key is
/// replaced and moved to the most-recent end, and if the cache then
/// exceeds its capacity the least-recent entry is evicted.
pub open spec fn spec_lru_insert(
    s: Seq<(i32, EntityModel)>,
    cap: nat,
    k: i32,
    v: EntityModel,
) -> Seq<(i32, EntityModel)> {
    let grown = remove_entry(s, k).push((k, v));
    if grown.len() > cap {
        grown.drop_first()
    } else {
        grown
    }
}

/// What a look-up hit does to the entries: the entry moves to the
/// most-recent end, unchanged.
pub open spec fn spec_lru_refresh(s: Seq<(i32, EntityModel)>, k: i32) -> Seq<
    (i32, EntityModel),
> {
    match lookup_entry(s, k) {
        Some(v) => remove_entry(s, k).push((k, v)),
        None => s,
    }
}

/// No two entries share a key.
pub open spec fn unique_keys(s: Seq<(i32, EntityModel)>) -> bool {
    forall|i: int, j: int| 0 <= i < j < s.len() ==> (#[trigger] s[i]).0 != (#[trigger] s[j]).0
}

/// Every entry is keyed by its snapshot's id and holds a snapshot of the
/// given kind.
pub open spec fn entries_well_formed(s: Seq<(i32, EntityModel)>, kind: EntityKind) -> bool {
    forall|i: int|
        0 <= i < s.len() ==> (#[trigger] s[i]).0 == s[i].1.id() && s[i].1.kind() == kind
}

/// Relies on `lru_cache::LruCache::new`: an empty cache holding at most
/// `capacity` entries.
#[verifier::external_body]
fn lru_new(capacity: usize) -> (r: LruCache<i32, Entity>)
    ensures
        lru_entries(r) == Seq::<(i32, EntityModel)>::empty(),
        lru_capacity(r) == capacity as nat,
{
    LruCache::new(capacity)
}

/// Relies on `lru_cache::LruCache::get_mut`: returns the entry for the
/// key, making it the most recent, and touches nothing else.
#[verifier::external_body]
fn lru_get(c: &mut LruCache<i32, Entity>, key: i32) -> (r: Option<Entity>)
    ensures
        lru_capacity(*final(c)) == lru_capacity(*old(c)),
        lru_entries(*final(c)) == spec_lru_refresh(lru_entries(*old(c)), key),
        match lookup_entry(lru_entries(*old(c)), key) {
            Some(v) => r matches Some(e) && e@ == v,
            None => r is None,
        },
{
    c.get_mut(&key).map(|e| e.clone())
}

/// Relies on `lru_cache::LruCache::insert`: stores the value under the
/// key as the most recent entry, returns any value the key held before,
/// and evicts the least recent entry if the cache would exceed its
/// capacity.
#[verifier::external_body]
fn lru_insert(c: &mut LruCache<i32, Entity>, key: i32, value: Entity) -> (r: Option<Entity>)
    ensures
        lru_capacity(*final(c)) == lru_capacity(*old(c)),
        lru_entries(*final(c)) == spec_lru_insert(
            lru_entries(*old(c)),
            lru_capacity(*old(c)),
            key,
            value@,
        ),
        match lookup_entry(lru_entries(*old(c)), key) {
            Some(v) => r matches Some(e) && e@ == v,
            None => r is None,
        },
{
    c.insert(key, value)
}

/// Relies on `lru_cache::LruCache::remove`: removes and returns the entry
/// for the key, touching nothing else.
#[verifier::external_body]
fn lru_remove(c: &mut LruCache<i32, Entity>, key: i32) -> (r: Option<Entity>)
    ensures
        lru_capacity(*final(c)) == lru_capacity(*old(c)),
        lru_entries(*final(c)) == remove_entry(lru_entries(*old(c)), key),
        match lookup_entry(lru_entries(*old(c)), key) {
            Some(v) => r matches Some(e) && e@ == v,
            None => r is None,
        },
{
    c.remove(&key)
}

/// Relies on `lru_cache::LruCache::len`: the number of entries.
#[verifier::external_body]
fn lru_len(c: &LruCache<i32, Entity>) -> (r: usize)
    ensures
        r == lru_entries(*c).len(),
{
    c.len()
}

/// A successful look-up names a key that is present.
proof fn lemma_lookup_implies_has(s: Seq<(i32, EntityModel)>, k: i32)
    ensures
        lookup_entry(s, k) is Some <==> entries_has_key(s, k),
    decreases s.len(),
{
    if s.len() > 0 {
        lemma_lookup_implies_has(s.drop_first(), k);
        if s[0].0 != k && entries_has_key(s, k) {
            let i = choose|i: int| 0 <= i < s.len() && (#[trigger] s[i]).0 == k;
            assert(s.drop_first()[i - 1].0 == k);
        }
    }
}

/// What `remove_entry` does: the key is gone (under unique keys), other
/// keys read the same, well-formedness and key uniqueness survive, and
/// the length drops by one exactly when the key was present.
proof fn lemma_remove_entry(s: Seq<(i32, EntityModel)>, k: i32, kind: EntityKind)
    ensures
        !entries_has_key(s, k) ==> remove_entry(s, k) == s,
        entries_has_key(s, k) ==> remove_entry(s, k).len() == s.len() - 1,
        unique_keys(s) ==> unique_keys(remove_entry(s, k)),
        unique_keys(s) ==> !entries_has_key(remove_entry(s, k), k),
        forall|k2: i32| k2 != k ==> lookup_entry(remove_entry(s, k), k2) == lookup_entry(s, k2),
        entries_well_formed(s, kind) ==> entries_well_formed(remove_entry(s, k), kind),
    decreases s.len(),
{
    lemma_lookup_implies_has(s, k);
    if s.len() == 0 {
    } else if s[0].0 == k {
        let rest = s.drop_first();
        if unique_keys(s) {
            assert forall|i: int| 0 <= i < rest.len() implies (#[trigger] rest[i]).0 != k by {
                assert(rest[i] == s[i + 1]);
            }
            assert(unique_keys(rest));
            lemma_lookup_implies_has(rest, k);
        }
        assert forall|k2: i32| k2 != k implies lookup_entry(rest, k2) == lookup_entry(
            s,
            k2,
        ) by {}
        if !entries_has_key(s, k) {
            assert(s[0].0 == k);
            assert(false);
        }
    } else {
        let rest = s.drop_first();
        lemma_remove_entry(rest, k, kind);
        let r = seq![s[0]] + remove_entry(rest, k);
        assert(r[0] == s[0]);
        assert(r.drop_first() =~= remove_entry(rest, k));
        assert forall|k2: i32| k2 != k implies lookup_entry(remove_entry(s, k), k2)
            == lookup_entry(s, k2) by {
            assert(remove_entry(s, k) == r);
            if r[0].0 != k2 {
                assert(lookup_entry(r, k2) == lookup_entry(remove_entry(rest, k), k2));
                assert(lookup_entry(s, k2) == lookup_entry(rest, k2));
            }
        }
        if !entries_has_key(s, k) {
            assert forall|i: int| 0 <= i < rest.len() implies (#[trigger] rest[i]).0 != k by {
                assert(rest[i] == s[i + 1]);
            }
            assert(!entries_has_key(rest, k));
            assert(r =~= s);
        }
        if entries_has_key(s, k) {
            let i = choose|i: int| 0 <= i < s.len() && (#[trigger] s[i]).0 == k;
            assert(i >= 1);
            assert(rest[i - 1].0 == k);
            assert(entries_has_key(rest, k));
        }
        if unique_keys(s) {
            assert forall|i: int| 0 <= i < rest.len() implies (#[trigger] rest[i])
                == s[i + 1] by {}
            assert(unique_keys(rest));
            let rr = remove_entry(rest, k);
            assert forall|i: int, j: int| 0 <= i < j < r.len() implies (#[trigger] r[i]).0 != (
            #[trigger] r[j]).0 by {
                if i == 0 {
                    // r[j] comes from remove_entry(rest, k); every such entry
                    // keeps a key it had in rest, which differs from s[0].0.
                    lemma_remove_keeps_keys(rest, k, j - 1);
                } else {
                    assert(r[i] == rr[i - 1]);
                    assert(r[j] == rr[j - 1]);
                }
            }
        }
        if entries_well_formed(s, kind) {
            assert forall|i: int| 0 <= i < rest.len() implies (#[trigger] rest[i])
                == s[i + 1] by {}
            assert(entries_well_formed(rest, kind));
            assert forall|i: int|
                0 <= i < r.len() implies (#[trigger] r[i]).0 == r[i].1.id() && r[i].1.kind()
                == kind by {
                if i > 0 {
                    assert(r[i] == remove_entry(rest, k)[i - 1]);
                    lemma_remove_keeps_keys(rest, k, i - 1);
                }
            }
        }
    }
}

/// Every entry of `remove_entry(s, k)` is an entry of `s`.
proof fn lemma_remove_keeps_keys(s: Seq<(i32, EntityModel)>, k: i32, i: int)
    requires
        0 <= i < remove_entry(s, k).len(),
    ensures
        exists|j: int|
            0 <= j < s.len() && #[trigger] s[j] == remove_entry(s, k)[i],
    decreases s.len(),
{
    if s.len() == 0 {
    } else if s[0].0 == k {
        assert(remove_entry(s, k)[i] == s[i + 1]);
    } else {
        let r = seq![s[0]] + remove_entry(s.drop_first(), k);
        if i == 0 {
            assert(r[0] == s[0]);
        } else {
            assert(r[i] == remove_entry(s.drop_first(), k)[i - 1]);
            lemma_remove_keeps_keys(s.drop_first(), k, i - 1);
            let j = choose|j: int|
                0 <= j < s.drop_first().len() && #[trigger] s.drop_first()[j] == remove_entry(
                    s.drop_first(),
                    k,
                )[i - 1];
            assert(s[j + 1] == s.drop_first()[j]);
        }
    }
}

/// Looking up the key just pushed finds the pushed value when the key was
/// absent before; other keys read the same as before the push.
proof fn lemma_lookup_push(s: Seq<(i32, EntityModel)>, k: i32, v: EntityModel)
    ensures
        !entries_has_key(s, k) ==> lookup_entry(s.push((k, v)), k) == Some(v),
        forall|k2: i32| k2 != k ==> lookup_entry(s.push((k, v)), k2) == lookup_entry(s, k2),
    decreases s.len(),
{
    if s.len() == 0 {
        assert(s.push((k, v))[0] == (k, v));
        assert(s.push((k, v)).drop_first() =~= s);
    } else {
        lemma_lookup_push(s.drop_first(), k, v);
        assert(s.push((k, v)).drop_first() =~= s.drop_first().push((k, v)));
        assert(s.push((k, v))[0] == s[0]);
        assert forall|k2: i32| k2 != k implies lookup_entry(s.push((k, v)), k2) == lookup_entry(
            s,
            k2,
        ) by {
            if s[0].0 == k2 {
                assert(lookup_entry(s.push((k, v)), k2) == Some(s[0].1));
                assert(lookup_entry(s, k2) == Some(s[0].1));
            } else {
                assert(lookup_entry(s.push((k, v)), k2) == lookup_entry(
                    s.push((k, v)).drop_first(),
                    k2,
                ));
                assert(lookup_entry(s.drop_first().push((k, v)), k2) == lookup_entry(
                    s.drop_first(),
                    k2,
                ));
                assert(lookup_entry(s, k2) == lookup_entry(s.drop_first(), k2));
            }
        }
        if !entries_has_key(s, k) {
            assert forall|i: int|
                0 <= i < s.drop_first().len() implies (#[trigger] s.drop_first()[i]).0 != k by {
                assert(s.drop_first()[i] == s[i + 1]);
            }
            assert(!entries_has_key(s.drop_first(), k));
            assert(s[0].0 != k);
        }
    }
}

/// Pushing a fresh key keeps keys unique and well-formed entries
/// well-formed.
proof fn lemma_push_preserves(
    s: Seq<(i32, EntityModel)>,
    k: i32,
    v: EntityModel,
    kind: EntityKind,
)
    requires
        !entries_has_key(s, k),
    ensures
        unique_keys(s) ==> unique_keys(s.push((k, v))),
        entries_well_formed(s, kind) && k == v.id() && v.kind() == kind
            ==> entries_well_formed(s.push((k, v)), kind),
{
    let r = s.push((k, v));
    if unique_keys(s) {
        assert forall|i: int, j: int| 0 <= i < j < r.len() implies (#[trigger] r[i]).0 != (
        #[trigger] r[j]).0 by {
            if j < s.len() {
            } else {
                assert(r[j] == (k, v));
                assert(r[i] == s[i]);
            }
        }
    }
    if entries_well_formed(s, kind) && k == v.id() && v.kind() == kind {
        assert forall|i: int|
            0 <= i < r.len() implies (#[trigger] r[i]).0 == r[i].1.id() && r[i].1.kind()
            == kind by {
            if i < s.len() {
                assert(r[i] == s[i]);
            } else {
                assert(r[i] == (k, v));
            }
        }
    }
}

/// Dropping the least-recent entry keeps keys unique and well-formed
/// entries well-formed, and (under unique keys) makes its key unreadable.
proof fn lemma_drop_first_preserves(s: Seq<(i32, EntityModel)>, kind: EntityKind)
    requires
        s.len() > 0,
    ensures
        unique_keys(s) ==> unique_keys(s.drop_first()),
        entries_well_formed(s, kind) ==> entries_well_formed(s.drop_first(), kind),
        unique_keys(s) ==> lookup_entry(s.drop_first(), s[0].0) is None,
        forall|k2: i32| k2 != s[0].0 ==> lookup_entry(s.drop_first(), k2) == lookup_entry(s, k2),
{
    let rest = s.drop_first();
    assert forall|i: int| 0 <= i < rest.len() implies (#[trigger] rest[i]) == s[i + 1] by {}
    if unique_keys(s) {
        assert(unique_keys(rest));
        lemma_lookup_implies_has(rest, s[0].0);
        if entries_has_key(rest, s[0].0) {
            let i = choose|i: int| 0 <= i < rest.len() && (#[trigger] rest[i]).0 == s[0].0;
            assert(s[i + 1].0 == s[0].0);
            assert(false);
        }
    }
}

/// After an insert, the inserted snapshot is what its id reads back, and
/// every other id reads what it read before, except the evicted one.
pub proof fn lemma_read_after_write(
    s: Seq<(i32, EntityModel)>,
    cap: nat,
    k: i32,
    v: EntityModel,
)
    requires
        unique_keys(s),
        cap >= 1,
    ensures
        lookup_entry(spec_lru_insert(s, cap, k, v), k) == Some(v),
{
    lemma_remove_entry(s, k, v.kind());
    let s1 = remove_entry(s, k);
    lemma_lookup_push(s1, k, v);
    let s2 = s1.push((k, v));
    if s2.len() > cap {
        assert(s2.len() >= 2);
        assert(s2[0] == s1[0]);
        assert(s1[0].0 != k) by {
            lemma_lookup_implies_has(s1, k);
            if s1[0].0 == k {
                assert(entries_has_key(s1, k));
            }
        }
        lemma_push_preserves(s1, k, v, v.kind());
        lemma_drop_first_preserves(s2, v.kind());
    }
}

/// Bounded eviction: inserting a fresh id into a full cache evicts
/// exactly the least-recently-used id, which is then no longer served,
/// while the cache stays at capacity.
pub proof fn lemma_bounded_eviction(
    s: Seq<(i32, EntityModel)>,
    cap: nat,
    k: i32,
    v: EntityModel,
)
    requires
        unique_keys(s),
        s.len() == cap,
        cap >= 1,
        !entries_has_key(s, k),
    ensures
        lookup_entry(spec_lru_insert(s, cap, k, v), s[0].0) is None,
        spec_lru_insert(s, cap, k, v).len() == cap,
{
    lemma_remove_entry(s, k, v.kind());
    assert(remove_entry(s, k) == s);
    let s2 = s.push((k, v));
    assert(s2.len() == cap + 1 > cap);
    let victim = s[0].0;
    assert(victim != k) by {
        if victim == k {
            assert(entries_has_key(s, k));
        }
    }
    lemma_push_preserves(s, k, v, v.kind());
    lemma_drop_first_preserves(s2, v.kind());
    assert(s2[0] == s[0]);
    assert(s2.drop_first() =~= s.drop_first().push((k, v)));
    lemma_lookup_push(s.drop_first(), k, v);
    lemma_drop_first_preserves(s, v.kind());
    assert(lookup_entry(s2.drop_first(), victim) == lookup_entry(s.drop_first(), victim));
    assert(lookup_entry(s.drop_first(), victim) is None);
}

/// One kind's bounded read-through cache.
///
/// A single exclusion mechanism per kind serializes all access to a value
/// of this type; the critical section only performs in-memory operations,
/// never I/O — the durable store is always consulted outside it and its
/// result handed in.
pub struct EntityCache {
    kind: EntityKind,
    inner: LruCache<i32, Entity>,
}

impl EntityCache {
    /// The kind this cache serves.
    pub closed spec fn kind(self) -> EntityKind {
        self.kind
    }

    /// The cached entries, least-recently-used first.
    pub closed spec fn entries(self) -> Seq<(i32, EntityModel)> {
        lru_entries(self.inner)
    }

    /// The bound on the number of entries.
    pub closed spec fn capacity(self) -> nat {
        lru_capacity(self.inner)
    }

    /// The cache invariant: a positive bound that the entries respect,
    /// unique ids, every entry keyed by its snapshot's id, every snapshot
    /// of this cache's kind.
    pub open spec fn wf(self) -> bool {
        &&& self.capacity() >= 1
        &&& self.entries().len() <= self.capacity()
        &&& unique_keys(self.entries())
        &&& entries_well_formed(self.entries(), self.kind())
    }

    /// What `id` currently reads from this cache.
    pub open spec fn cached(self, id: i32) -> Option<EntityModel> {
        lookup_entry(self.entries(), id)
    }

    /// Create an empty cache for one kind.
    pub fn new(kind: EntityKind, capacity: usize) -> (r: EntityCache)
        requires
            capacity >= 1,
        ensures
            r.wf(),
            r.kind() == kind,
            r.capacity() == capacity as nat,
            r.entries() == Seq::<(i32, EntityModel)>::empty(),
    {
        EntityCache { kind, inner: lru_new(capacity) }
    }

    /// Look `id` up.  A hit returns the cached snapshot and makes it the
    /// most recently used; a miss changes nothing (the caller then loads
    /// from the durable store and hands the result to
    /// [`EntityCache::install`]).
    pub fn lookup(&mut self, id: i32) -> (r: Option<Entity>)
        requires
            old(self).wf(),
        ensures
            final(self).wf(),
            final(self).kind() == old(self).kind(),
            final(self).capacity() == old(self).capacity(),
            match old(self).cached(id) {
                Some(v) => r matches Some(e) && e@ == v,
                None => r is None,
            },
            forall|id2: i32| final(self).cached(id2) == old(self).cached(id2),
    {
        let r = lru_get(&mut self.inner, id);
        proof {
            let s = lru_entries(old(self).inner);
            lemma_remove_entry(s, id, self.kind);
            if lookup_entry(s, id) is Some {
                let v = lookup_entry(s, id)->0;
                let s1 = remove_entry(s, id);
                lemma_lookup_push(s1, id, v);
                lemma_lookup_wf(s, id, self.kind);
                lemma_push_preserves(s1, id, v, self.kind);
                lemma_lookup_implies_has(s, id);
                assert forall|id2: i32| final(self).cached(id2) == old(self).cached(
                    id2,
                ) by {
                    if id2 == id {
                        assert(final(self).cached(id) == Some(v));
                    }
                }
            }
        }
        r
    }

    /// Install a snapshot, keyed by its own id, as the most recent entry;
    /// used both after a successful read-through load and after every
    /// committed write.  The snapshot is then what its id reads back.
    pub fn install(&mut self, e: &Entity)
        requires
            old(self).wf(),
            e@.kind() == old(self).kind(),
        ensures
            final(self).wf(),
            final(self).kind() == old(self).kind(),
            final(self).capacity() == old(self).capacity(),
            final(self).entries() == spec_lru_insert(
                old(self).entries(),
                old(self).capacity(),
                e@.id(),
                e@,
            ),
            final(self).cached(e@.id()) == Some(e@),
            forall|id2: i32|
                id2 != e@.id() && #[trigger] final(self).cached(id2) is Some
                    ==> final(self).cached(id2) == old(self).cached(id2),
    {
        let id = e.id();
        let cloned = e.clone();
        let _previous = lru_insert(&mut self.inner, id, cloned);
        proof {
            let s = lru_entries(old(self).inner);
            let cap = lru_capacity(old(self).inner);
            lemma_read_after_write(s, cap, id, e@);
            lemma_remove_entry(s, id, self.kind);
            let s1 = remove_entry(s, id);
            lemma_lookup_push(s1, id, e@);
            lemma_push_preserves(s1, id, e@, self.kind);
            let s2 = s1.push((id, e@));
            if s2.len() > cap {
                lemma_drop_first_preserves(s2, self.kind);
            }
        }
    }

    /// Evict `id`, if present; used on delete.  Nothing else changes.
    pub fn remove(&mut self, id: i32)
        requires
            old(self).wf(),
        ensures
            final(self).wf(),
            final(self).kind() == old(self).kind(),
            final(self).capacity() == old(self).capacity(),
            final(self).cached(id) is None,
            forall|id2: i32| id2 != id ==> final(self).cached(id2) == old(self).cached(id2),
    {
        let _previous = lru_remove(&mut self.inner, id);
        proof {
            lemma_remove_entry(lru_entries(old(self).inner), id, self.kind);
            lemma_lookup_implies_has(lru_entries(self.inner), id);
        }
    }

    /// The number of cached entries.
    pub fn len(&self) -> (r: usize)
        ensures
            r == self.entries().len(),
    {
        lru_len(&self.inner)
    }
}

/// A well-formed cache serves snapshots of its own kind under their own
/// id.
proof fn lemma_lookup_wf(s: Seq<(i32, EntityModel)>, k: i32, kind: EntityKind)
    requires
        entries_well_formed(s, kind),
    ensures
        lookup_entry(s, k) matches Some(v) ==> v.id() == k && v.kind() == kind,
    decreases s.len(),
{
    if s.len() > 0 {
        assert(s[0] == s[0]);
        assert forall|i: int| 0 <= i < s.drop_first().len() implies (#[trigger] s.drop_first()[i])
            == s[i + 1] by {}
        lemma_lookup_wf(s.drop_first(), k, kind);
    }
}

} // verus!
