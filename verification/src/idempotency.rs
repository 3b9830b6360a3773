//! Idempotency cache for write tools: a client that retries a call with the
//! same `(namespace, key)` gets the first result back instead of a second
//! side effect.
//!
//! At most [`MAX_ENTRIES`] entries are kept, evicted in insertion order
//! (oldest first), and an entry is stale once more than a day has passed
//! since it was stored. Time is read from a monotonic clock as nanoseconds
//! since the cache was made; [`IdempotencyCache::get_at`] and
//! [`IdempotencyCache::store_at`] take that reading as an argument and are
//! specified exactly for every value of it.
use vstd::prelude::*;
use std::sync::Arc;
use std::time::Instant;
use crate::text::{chars_of, string_of};

verus! {

broadcast use vstd::string::group_string_axioms;

/// Capacity of the cache.
pub const MAX_ENTRIES: usize = 1000;

/// How long an entry stays fresh: 24 hours, in nanoseconds.
pub const TTL_NANOS: u64 = 86_400_000_000_000;

#[verifier::external_type_specification]
#[verifier::external_body]
pub struct ExInstant(Instant);

/// Calls `Instant::now`. Nothing is claimed of the reading.
#[verifier::external_body]
fn instant_now() -> Instant {
    Instant::now()
}

/// Calls `Instant::elapsed` on `origin` and gives the duration in nanoseconds,
/// `u64::MAX` if it does not fit. Nothing is claimed of the result: it is a
/// reading of the clock.
#[verifier::external_body]
fn nanos_since(origin: &Instant) -> u64 {
    u64::try_from(origin.elapsed().as_nanos()).unwrap_or(u64::MAX)
}

/// One stored result.
struct CacheEntry {
    namespace: String,
    key: String,
    result: String,
    /// Clock reading (nanoseconds since the cache was made) when stored.
    stored_at: u64,
}

pub struct EntryModel {
    pub namespace: Seq<char>,
    pub key: Seq<char>,
    pub result: Seq<char>,
    pub stored_at: nat,
}

/// Cache keyed by `(namespace, idempotency_key)`.
pub struct IdempotencyCache {
    origin: Instant,
    entries: Vec<CacheEntry>,
}

/// The entry is stale at `now`: more than [`TTL_NANOS`] have passed.
pub open spec fn is_stale(e: EntryModel, now: nat) -> bool {
    now > e.stored_at + TTL_NANOS
}

/// The first entry at or after `i` for `(ns, key)`.
pub open spec fn find_key_from(es: Seq<EntryModel>, ns: Seq<char>, key: Seq<char>, i: int) -> Option<
    int,
>
    decreases es.len() - i,
{
    if i < 0 || i >= es.len() {
        None
    } else if es[i].namespace == ns && es[i].key == key {
        Some(i)
    } else {
        find_key_from(es, ns, key, i + 1)
    }
}

/// The first entry for `(ns, key)`.
pub open spec fn find_key(es: Seq<EntryModel>, ns: Seq<char>, key: Seq<char>) -> Option<int> {
    find_key_from(es, ns, key, 0)
}

/// What a lookup at `now` gives: the result of the entry for `(ns, key)`
/// while it is fresh.
pub open spec fn lookup_at(es: Seq<EntryModel>, ns: Seq<char>, key: Seq<char>, now: nat) -> Option<
    Seq<char>,
> {
    match find_key(es, ns, key) {
        Some(i) => if is_stale(es[i], now) {
            None
        } else {
            Some(es[i].result)
        },
        None => None,
    }
}

/// `es` without its leading run of stale entries.
pub open spec fn drop_stale_head(es: Seq<EntryModel>, now: nat) -> Seq<EntryModel>
    decreases es.len(),
{
    if es.len() > 0 && is_stale(es[0], now) {
        drop_stale_head(es.subrange(1, es.len() as int), now)
    } else {
        es
    }
}

/// The entries after storing `result` for `(ns, key)` at `now`: stale entries
/// at the head are dropped; an entry for the key is refreshed where it stands;
/// otherwise the oldest entry makes room when the cache is full and the new
/// entry goes last.
pub open spec fn stored(
    es: Seq<EntryModel>,
    ns: Seq<char>,
    key: Seq<char>,
    result: Seq<char>,
    now: nat,
) -> Seq<EntryModel> {
    let d = drop_stale_head(es, now);
    let e = EntryModel { namespace: ns, key: key, result: result, stored_at: now };
    match find_key(d, ns, key) {
        Some(i) => d.update(i, e),
        None => if d.len() >= MAX_ENTRIES {
            d.subrange(1, d.len() as int).push(e)
        } else {
            d.push(e)
        },
    }
}

/// No two entries share a key, and the capacity holds.
pub open spec fn entries_wf(es: Seq<EntryModel>) -> bool {
    &&& es.len() <= MAX_ENTRIES
    &&& forall|i: int, j: int|
        0 <= i < j < es.len() ==> !(es[i].namespace == es[j].namespace && es[i].key == es[j].key)
}

pub open spec fn opt_view(o: Option<String>) -> Option<Seq<char>> {
    match o {
        Some(s) => Some(s@),
        None => None,
    }
}

impl CacheEntry {
    spec fn model(&self) -> EntryModel {
        EntryModel {
            namespace: self.namespace@,
            key: self.key@,
            result: self.result@,
            stored_at: self.stored_at as nat,
        }
    }
}

impl IdempotencyCache {
    /// The stored entries, oldest first.
    pub closed spec fn entries(&self) -> Seq<EntryModel> {
        self.entries@.map_values(|e: CacheEntry| e.model())
    }

    /// An empty cache.
    pub fn new() -> (r: IdempotencyCache)
        ensures
            r.entries() == Seq::<EntryModel>::empty(),
            entries_wf(r.entries()),
    {
        let r = IdempotencyCache { origin: instant_now(), entries: Vec::new() };
        assert(r.entries() =~= Seq::<EntryModel>::empty());
        r
    }

    /// An empty cache, to be shared between handlers.
    pub fn shared() -> (r: Arc<IdempotencyCache>)
        ensures
            r.entries() == Seq::<EntryModel>::empty(),
    {
        Arc::new(Self::new())
    }

    /// The number of stored entries.
    pub fn len(&self) -> (r: usize)
        ensures
            r == self.entries().len(),
    {
        self.entries.len()
    }

    /// The index of the entry for `(ns, key)`.
    fn position(&self, ns: &Vec<char>, key: &Vec<char>) -> (r: Option<usize>)
        ensures
            r matches Some(i) ==> find_key(self.entries(), ns@, key@) == Some(i as int) && i
                < self.entries.len(),
            r is None ==> find_key(self.entries(), ns@, key@) is None,
    {
        let ghost es = self.entries();
        let mut i: usize = 0;
        while i < self.entries.len()
            invariant
                i <= self.entries.len(),
                es == self.entries(),
                find_key(es, ns@, key@) == find_key_from(es, ns@, key@, i as int),
            decreases self.entries.len() - i,
        {
            let e = &self.entries[i];
            let en = chars_of(e.namespace.as_str());
            let ek = chars_of(e.key.as_str());
            assert(es[i as int] == e.model());
            if crate::text::chars_eq(&en, ns) && crate::text::chars_eq(&ek, key) {
                return Some(i);
            }
            i = i + 1;
        }
        None
    }

    /// The result stored for `(namespace, key)`, if it is fresh at the clock
    /// reading `now` (see [`lookup_at`]).
    pub fn get_at(&self, namespace: &str, key: &str, now: u64) -> (r: Option<String>)
        ensures
            opt_view(r) == lookup_at(self.entries(), namespace@, key@, now as nat),
    {
        let ns = chars_of(namespace);
        let k = chars_of(key);
        match self.position(&ns, &k) {
            Some(i) => {
                let e = &self.entries[i];
                assert(self.entries()[i as int] == e.model());
                if now > e.stored_at && now - e.stored_at > TTL_NANOS {
                    None
                } else {
                    Some(string_of(&chars_of(e.result.as_str())))
                }
            },
            None => None,
        }
    }

    /// The result stored for `(namespace, key)` if it is still fresh now.
    /// The clock reading is not known to the contract: the result is the
    /// lookup at some reading.
    pub fn get(&self, namespace: &str, key: &str) -> (r: Option<String>)
        ensures
            exists|now: nat| opt_view(r) == lookup_at(self.entries(), namespace@, key@, now),
    {
        let now = nanos_since(&self.origin);
        let r = self.get_at(namespace, key, now);
        assert(opt_view(r) == lookup_at(self.entries(), namespace@, key@, now as nat));
        r
    }

    /// Stores `result` for `(namespace, key)` at the clock reading `now`
    /// (see [`stored`]).
    pub fn store_at(&mut self, namespace: &str, key: &str, result: String, now: u64)
        ensures
            final(self).entries() == stored(old(self).entries(), namespace@, key@, result@, now as nat),
            entries_wf(old(self).entries()) ==> entries_wf(final(self).entries()),
    {
        let ghost es0 = self.entries();
        while self.entries.len() > 0 && now > self.entries[0].stored_at && now
            - self.entries[0].stored_at > TTL_NANOS
            invariant
                drop_stale_head(es0, now as nat) == drop_stale_head(self.entries(), now as nat),
            decreases self.entries.len(),
        {
            let ghost before = self.entries();
            assert(before[0] == self.entries[0].model());
            let _old = self.entries.remove(0);
            assert(self.entries() =~= before.subrange(1, before.len() as int));
        }
        let ghost d = self.entries();
        proof {
            if d.len() > 0 {
                assert(d[0] == self.entries[0].model());
            }
            assert(drop_stale_head(d, now as nat) == d);
        }
        let ns = chars_of(namespace);
        let k = chars_of(key);
        let e = CacheEntry {
            namespace: string_of(&ns),
            key: string_of(&k),
            result: result,
            stored_at: now,
        };
        let ghost em = e.model();
        match self.position(&ns, &k) {
            Some(i) => {
                self.entries[i] = e;
                assert(self.entries() =~= d.update(i as int, em));
            },
            None => {
                if self.entries.len() >= MAX_ENTRIES {
                    let _oldest = self.entries.remove(0);
                    assert(self.entries() =~= d.subrange(1, d.len() as int));
                }
                let ghost mid = self.entries();
                self.entries.push(e);
                assert(self.entries() =~= mid.push(em));
            },
        }
        proof {
            if entries_wf(es0) {
                lemma_store_keeps_wf(es0, namespace@, key@, result@, now as nat);
            }
        }
    }

    /// Stores `result` for `(namespace, key)` now; see [`stored`]. The clock
    /// reading is not known to the contract.
    pub fn store(&mut self, namespace: &str, key: &str, result: String)
        ensures
            exists|now: nat|
                final(self).entries() == stored(
                    old(self).entries(),
                    namespace@,
                    key@,
                    result@,
                    now,
                ),
    {
        let now = nanos_since(&self.origin);
        let ghost r = result@;
        self.store_at(namespace, key, result, now);
        assert(self.entries() == stored(old(self).entries(), namespace@, key@, r, now as nat));
    }
}

// ---------------------------------------------------------------------------
// Laws
// ---------------------------------------------------------------------------

proof fn lemma_find_key_from(es: Seq<EntryModel>, ns: Seq<char>, key: Seq<char>, i: int)
    requires
        0 <= i,
    ensures
        find_key_from(es, ns, key, i) matches Some(j) ==> i <= j < es.len() && es[j].namespace == ns
            && es[j].key == key && forall|x: int|
            i <= x < j ==> !(es[x].namespace == ns && es[x].key == key),
        find_key_from(es, ns, key, i) is None ==> forall|x: int|
            i <= x < es.len() ==> !(es[x].namespace == ns && es[x].key == key),
    decreases es.len() - i,
{
    if i < es.len() && !(es[i].namespace == ns && es[i].key == key) {
        lemma_find_key_from(es, ns, key, i + 1);
    }
}

proof fn lemma_find_key_at(es: Seq<EntryModel>, ns: Seq<char>, key: Seq<char>, i: int, j: int)
    requires
        0 <= i <= j < es.len(),
        es[j].namespace == ns && es[j].key == key,
        forall|x: int| i <= x < j ==> !(es[x].namespace == ns && es[x].key == key),
    ensures
        find_key_from(es, ns, key, i) == Some(j),
    decreases j - i,
{
    if i < j {
        lemma_find_key_at(es, ns, key, i + 1, j);
    }
}

proof fn lemma_find_key_unique(es: Seq<EntryModel>, ns: Seq<char>, key: Seq<char>, i: int)
    requires
        entries_wf(es),
        0 <= i < es.len(),
        es[i].namespace == ns && es[i].key == key,
    ensures
        find_key(es, ns, key) == Some(i),
{
    lemma_find_key_at(es, ns, key, 0, i);
}

proof fn lemma_find_key_some(es: Seq<EntryModel>, ns: Seq<char>, key: Seq<char>)
    requires
        find_key(es, ns, key) is Some,
    ensures
        ({
            let i = find_key(es, ns, key)->0;
            0 <= i < es.len() && es[i].namespace == ns && es[i].key == key
        }),
{
    lemma_find_key_from(es, ns, key, 0);
}

/// The stale head that is dropped leaves a suffix of the entries.
proof fn lemma_drop_stale_head(es: Seq<EntryModel>, now: nat) -> (k: int)
    ensures
        0 <= k <= es.len(),
        drop_stale_head(es, now) == es.subrange(k, es.len() as int),
        forall|j: int| 0 <= j < k ==> is_stale(#[trigger] es[j], now),
    decreases es.len(),
{
    if es.len() > 0 && is_stale(es[0], now) {
        let rest = es.subrange(1, es.len() as int);
        let k1 = lemma_drop_stale_head(rest, now);
        assert(rest.subrange(k1, rest.len() as int) =~= es.subrange(k1 + 1, es.len() as int));
        assert forall|j: int| 0 <= j < k1 + 1 implies is_stale(#[trigger] es[j], now) by {
            if j > 0 {
                assert(es[j] == rest[j - 1]);
            }
        }
        k1 + 1
    } else {
        assert(es.subrange(0, es.len() as int) =~= es);
        0
    }
}

proof fn lemma_suffix_wf(es: Seq<EntryModel>, k: int)
    requires
        entries_wf(es),
        0 <= k <= es.len(),
    ensures
        entries_wf(es.subrange(k, es.len() as int)),
{
    let s = es.subrange(k, es.len() as int);
    assert forall|i: int, j: int| 0 <= i < j < s.len() implies !(s[i].namespace == s[j].namespace
        && s[i].key == s[j].key) by {
        assert(s[i] == es[i + k] && s[j] == es[j + k]);
    }
}

/// Storing keeps the cache within its capacity and one entry per key.
pub proof fn lemma_store_keeps_wf(
    es: Seq<EntryModel>,
    ns: Seq<char>,
    key: Seq<char>,
    result: Seq<char>,
    now: nat,
)
    requires
        entries_wf(es),
    ensures
        entries_wf(stored(es, ns, key, result, now)),
{
    let k = lemma_drop_stale_head(es, now);
    lemma_suffix_wf(es, k);
    let d = drop_stale_head(es, now);
    let e = EntryModel { namespace: ns, key: key, result: result, stored_at: now };
    let out = stored(es, ns, key, result, now);
    match find_key(d, ns, key) {
        Some(i) => {
            lemma_find_key_some(d, ns, key);
            assert forall|a: int, b: int| 0 <= a < b < out.len() implies !(out[a].namespace
                == out[b].namespace && out[a].key == out[b].key) by {
                if a != i && b != i {
                    assert(out[a] == d[a] && out[b] == d[b]);
                } else if a == i {
                    assert(out[b] == d[b]);
                } else {
                    assert(out[a] == d[a]);
                }
            }
        },
        None => {
            let d2 = if d.len() >= MAX_ENTRIES {
                d.subrange(1, d.len() as int)
            } else {
                d
            };
            if d.len() >= MAX_ENTRIES {
                lemma_suffix_wf(d, 1);
            }
            assert(out == d2.push(e));
            assert forall|a: int, b: int| 0 <= a < b < out.len() implies !(out[a].namespace
                == out[b].namespace && out[a].key == out[b].key) by {
                if b == out.len() - 1 {
                    let ia = if d.len() >= MAX_ENTRIES {
                        a + 1
                    } else {
                        a
                    };
                    assert(out[a] == d[ia]);
                    lemma_find_key_from(d, ns, key, 0);
                } else {
                    assert(out[a] == d2[a] && out[b] == d2[b]);
                }
            }
        },
    }
}

/// A stored result is given back for its key until it goes stale.
pub proof fn lemma_store_then_lookup(
    es: Seq<EntryModel>,
    ns: Seq<char>,
    key: Seq<char>,
    result: Seq<char>,
    now: nat,
    later: nat,
)
    requires
        entries_wf(es),
        now <= later <= now + TTL_NANOS,
    ensures
        lookup_at(stored(es, ns, key, result, now), ns, key, later) == Some(result),
{
    lemma_store_keeps_wf(es, ns, key, result, now);
    let out = stored(es, ns, key, result, now);
    let d = drop_stale_head(es, now);
    match find_key(d, ns, key) {
        Some(i) => {
            lemma_find_key_some(d, ns, key);
            lemma_find_key_unique(out, ns, key, i);
        },
        None => {
            lemma_find_key_unique(out, ns, key, out.len() - 1);
        },
    }
}

/// Storing again for a key already held (and fresh) refreshes it in place:
/// the number of entries does not grow.
pub proof fn lemma_refresh_does_not_grow(
    es: Seq<EntryModel>,
    ns: Seq<char>,
    key: Seq<char>,
    result: Seq<char>,
    now: nat,
)
    requires
        find_key(drop_stale_head(es, now), ns, key) is Some,
    ensures
        stored(es, ns, key, result, now).len() <= es.len(),
{
    let k = lemma_drop_stale_head(es, now);
    let d = drop_stale_head(es, now);
    let i = find_key(d, ns, key)->0;
    lemma_find_key_some(d, ns, key);
    let e = EntryModel { namespace: ns, key: key, result: result, stored_at: now };
    assert(stored(es, ns, key, result, now) == d.update(i, e));
}

/// Storing for one key never changes what another key gives at a later
/// reading, except that the other entry may have been evicted.
pub proof fn lemma_store_isolates_keys(
    es: Seq<EntryModel>,
    ns: Seq<char>,
    key: Seq<char>,
    result: Seq<char>,
    now: nat,
    other_ns: Seq<char>,
    other_key: Seq<char>,
    later: nat,
)
    requires
        entries_wf(es),
        !(other_ns == ns && other_key == key),
        now <= later,
    ensures
        lookup_at(stored(es, ns, key, result, now), other_ns, other_key, later) is None || lookup_at(
            stored(es, ns, key, result, now),
            other_ns,
            other_key,
            later,
        ) == lookup_at(es, other_ns, other_key, later),
{
    lemma_store_keeps_wf(es, ns, key, result, now);
    let out = stored(es, ns, key, result, now);
    match find_key(out, other_ns, other_key) {
        None => {},
        Some(j) => {
            lemma_find_key_some(out, other_ns, other_key);
            let k = lemma_drop_stale_head(es, now);
            lemma_suffix_wf(es, k);
            let d = drop_stale_head(es, now);
            // The entry that answers is an entry of `es`, unchanged.
            let src: int = match find_key(d, ns, key) {
                Some(i) => {
                    lemma_find_key_some(d, ns, key);
                    assert(j != i);
                    j + k
                },
                None => {
                    assert(j != out.len() - 1);
                    if d.len() >= MAX_ENTRIES {
                        j + 1 + k
                    } else {
                        j + k
                    }
                },
            };
            assert(0 <= src < es.len());
            assert(out[j] == es[src]);
            lemma_find_key_unique(es, other_ns, other_key, src);
        },
    }
}

/// One store: namespace, key, result and the time it happens.
pub type StoreOp = (Seq<char>, Seq<char>, Seq<char>, nat);

/// The entries after the stores `ops`, in order.
pub open spec fn stores(es: Seq<EntryModel>, ops: Seq<StoreOp>) -> Seq<EntryModel>
    decreases ops.len(),
{
    if ops.len() == 0 {
        es
    } else {
        let o = ops.last();
        stored(stores(es, ops.drop_last()), o.0, o.1, o.2, o.3)
    }
}

proof fn lemma_stores_wf(es: Seq<EntryModel>, ops: Seq<StoreOp>)
    requires
        entries_wf(es),
    ensures
        entries_wf(stores(es, ops)),
    decreases ops.len(),
{
    if ops.len() > 0 {
        lemma_stores_wf(es, ops.drop_last());
        let o = ops.last();
        lemma_store_keeps_wf(stores(es, ops.drop_last()), o.0, o.1, o.2, o.3);
    }
}

/// A stored result is gone once it is more than a day old, whatever stores of
/// other keys happen in between.
pub proof fn lemma_expired_despite_other_stores(
    es: Seq<EntryModel>,
    ns: Seq<char>,
    key: Seq<char>,
    result: Seq<char>,
    t0: nat,
    ops: Seq<StoreOp>,
    now: nat,
)
    requires
        entries_wf(es),
        forall|i: int| 0 <= i < ops.len() ==> !(#[trigger] ops[i].0 == ns && ops[i].1 == key),
        forall|i: int| 0 <= i < ops.len() ==> #[trigger] ops[i].3 <= now,
        now > t0 + TTL_NANOS,
    ensures
        lookup_at(stores(stored(es, ns, key, result, t0), ops), ns, key, now) is None,
    decreases ops.len(),
{
    let es1 = stored(es, ns, key, result, t0);
    lemma_store_keeps_wf(es, ns, key, result, t0);
    if ops.len() == 0 {
        match find_key(es1, ns, key) {
            Some(i) => {
                lemma_find_key_some(es1, ns, key);
                let d = drop_stale_head(es, t0);
                let k = lemma_drop_stale_head(es, t0);
                lemma_suffix_wf(es, k);
                match find_key(d, ns, key) {
                    Some(j) => {
                        lemma_find_key_some(d, ns, key);
                        lemma_find_key_unique(es1, ns, key, j);
                    },
                    None => {
                        lemma_find_key_unique(es1, ns, key, es1.len() - 1);
                    },
                }
            },
            None => {},
        }
    } else {
        let prev = ops.drop_last();
        assert forall|i: int| 0 <= i < prev.len() implies !(#[trigger] prev[i].0 == ns && prev[i].1 == key) by {
            assert(prev[i] == ops[i]);
        }
        assert forall|i: int| 0 <= i < prev.len() implies #[trigger] prev[i].3 <= now by {
            assert(prev[i] == ops[i]);
        }
        lemma_expired_despite_other_stores(es, ns, key, result, t0, prev, now);
        lemma_stores_wf(es1, prev);
        let o = ops.last();
        assert(o == ops[ops.len() - 1]);
        lemma_store_isolates_keys(stores(es1, prev), o.0, o.1, o.2, o.3, ns, key, now);
    }
}

/// While no entry is stale, a store changes only what it must: an entry
/// already held for the key is refreshed in place; a new key goes last, and
/// only when the cache is full does one entry make room, the first (the one
/// whose key came in earliest, since refreshing never moves an entry).
pub proof fn lemma_store_evicts_only_when_full(
    es: Seq<EntryModel>,
    ns: Seq<char>,
    key: Seq<char>,
    result: Seq<char>,
    now: nat,
)
    requires
        entries_wf(es),
        forall|j: int| 0 <= j < es.len() ==> !is_stale(#[trigger] es[j], now),
    ensures
        ({
            let e = EntryModel { namespace: ns, key: key, result: result, stored_at: now };
            let out = stored(es, ns, key, result, now);
            match find_key(es, ns, key) {
                Some(i) => out == es.update(i, e),
                None => if es.len() >= MAX_ENTRIES {
                    out == es.subrange(1, es.len() as int).push(e)
                } else {
                    out == es.push(e)
                },
            }
        }),
        stored(es, ns, key, result, now).len() <= MAX_ENTRIES,
        lookup_at(stored(es, ns, key, result, now), ns, key, now) == Some(result),
{
    let k = lemma_drop_stale_head(es, now);
    if k > 0 {
        assert(is_stale(es[0], now));
    }
    assert(es.subrange(0, es.len() as int) =~= es);
    lemma_store_keeps_wf(es, ns, key, result, now);
    lemma_store_then_lookup(es, ns, key, result, now, now);
}

} // verus!
