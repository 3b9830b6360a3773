//! World info (lorebook): entries whose keys, once mentioned, add their
//! content to the system prompt.
//!
//! Keys are found with an Aho-Corasick automaton in leftmost-longest mode, so
//! a longer key at a position hides a shorter one there (`人物42` over
//! `人物4`). Triggered entries are written highest priority first.
use vstd::prelude::*;
use crate::text::{chars_of, push_char, push_str, string_of, string_views};

verus! {

broadcast use vstd::string::group_string_axioms;

/// One lorebook entry.
#[derive(Debug, Clone)]
pub struct LorebookEntry {
    /// Keys that trigger the entry (any one of them).
    pub keys: Vec<String>,
    /// Text added to the prompt when triggered.
    pub content: String,
    /// `None` counts as enabled.
    pub enabled: Option<bool>,
    /// Higher comes first; `None` counts as 10.
    pub priority: Option<i32>,
    /// Free remark.
    pub comment: Option<String>,
}

/// A whole lorebook.
#[derive(Debug, Clone)]
pub struct Lorebook {
    pub entries: Vec<LorebookEntry>,
}

pub struct EntryModel {
    pub keys: Seq<Seq<char>>,
    pub content: Seq<char>,
    pub enabled: Option<bool>,
    pub priority: Option<i32>,
    pub comment: Option<Seq<char>>,
}

impl View for LorebookEntry {
    type V = EntryModel;

    open spec fn view(&self) -> EntryModel {
        EntryModel {
            keys: string_views(self.keys@),
            content: self.content@,
            enabled: self.enabled,
            priority: self.priority,
            comment: match self.comment {
                Some(c) => Some(c@),
                None => None,
            },
        }
    }
}

impl View for Lorebook {
    type V = Seq<EntryModel>;

    open spec fn view(&self) -> Seq<EntryModel> {
        entry_views(self.entries@)
    }
}

/// The views of the entries.
pub open spec fn entry_views(s: Seq<LorebookEntry>) -> Seq<EntryModel> {
    s.map_values(|e: LorebookEntry| e@)
}

/// The priority an entry sorts by.
pub open spec fn priority_of(e: EntryModel) -> int {
    match e.priority {
        Some(p) => p as int,
        None => 10,
    }
}

pub open spec fn is_enabled(e: EntryModel) -> bool {
    match e.enabled {
        Some(b) => b,
        None => true,
    }
}

// ---------------------------------------------------------------------------
// Stable sorting of indices by a key, highest first
// ---------------------------------------------------------------------------

/// The first position from `j` on whose key is below `p`.
pub open spec fn lower_pos(sorted: Seq<int>, key: Seq<int>, p: int, j: int) -> int
    decreases sorted.len() - j,
{
    if j < 0 || j >= sorted.len() || key[sorted[j]] < p {
        j
    } else {
        lower_pos(sorted, key, p, j + 1)
    }
}

/// `i` put after every index whose key is at least its own.
pub open spec fn insert_desc(sorted: Seq<int>, key: Seq<int>, i: int) -> Seq<int> {
    sorted.insert(lower_pos(sorted, key, key[i], 0), i)
}

/// The indices ordered by key, highest first, equal keys in their given order.
pub open spec fn sort_desc(idxs: Seq<int>, key: Seq<int>) -> Seq<int>
    decreases idxs.len(),
{
    if idxs.len() == 0 {
        Seq::empty()
    } else {
        insert_desc(sort_desc(idxs.drop_last(), key), key, idxs.last())
    }
}

proof fn lemma_lower_pos(sorted: Seq<int>, key: Seq<int>, p: int, j: int)
    requires
        0 <= j <= sorted.len(),
    ensures
        j <= lower_pos(sorted, key, p, j) <= sorted.len(),
        forall|x: int| j <= x < lower_pos(sorted, key, p, j) ==> key[sorted[x]] >= p,
        lower_pos(sorted, key, p, j) < sorted.len() ==> key[sorted[lower_pos(sorted, key, p, j)]]
            < p,
    decreases sorted.len() - j,
{
    if j < sorted.len() && key[sorted[j]] >= p {
        lemma_lower_pos(sorted, key, p, j + 1);
    }
}

/// Index `i` sorted into `out` (see [`insert_desc`]).
fn insert_desc_exec(out: &mut Vec<usize>, key: &Vec<i64>, i: usize)
    requires
        i < key.len(),
        forall|x: int| 0 <= x < old(out).len() ==> old(out)@[x] < key.len(),
    ensures
        ints(final(out)@) == insert_desc(ints(old(out)@), ints64(key@), i as int),
        forall|x: int| 0 <= x < final(out).len() ==> final(out)@[x] < key.len(),
{
    let ghost s = ints(out@);
    let ghost k = ints64(key@);
    let p = key[i];
    let mut j: usize = 0;
    while j < out.len() && key[out[j]] >= p
        invariant
            j <= out.len(),
            s == ints(out@),
            k == ints64(key@),
            forall|x: int| 0 <= x < out.len() ==> out@[x] < key.len(),
            lower_pos(s, k, p as int, 0) == lower_pos(s, k, p as int, j as int),
        decreases out.len() - j,
    {
        j = j + 1;
    }
    let ghost before = out@;
    out.insert(j, i);
    proof {
        assert(ints(out@) =~= s.insert(j as int, i as int));
        assert forall|x: int| 0 <= x < out.len() implies out@[x] < key.len() by {
            before.insert_ensures(j as int, i);
            if x > j {
                assert(out@[x] == before[x - 1]);
            }
        }
    }
}

/// Indices as integers.
pub open spec fn ints(s: Seq<usize>) -> Seq<int> {
    s.map_values(|x: usize| x as int)
}

/// Keys as integers.
pub open spec fn ints64(s: Seq<i64>) -> Seq<int> {
    s.map_values(|x: i64| x as int)
}

/// Sorts `idxs` by `key`, highest first, stably (see [`sort_desc`]).
pub(crate) fn sort_desc_exec(idxs: &Vec<usize>, key: &Vec<i64>) -> (r: Vec<usize>)
    requires
        forall|x: int| 0 <= x < idxs.len() ==> idxs@[x] < key.len(),
    ensures
        ints(r@) == sort_desc(ints(idxs@), ints64(key@)),
        forall|x: int| 0 <= x < r.len() ==> r@[x] < key.len(),
{
    let mut out: Vec<usize> = Vec::new();
    let mut n: usize = 0;
    proof {
        assert(ints(idxs@).take(0) =~= Seq::<int>::empty());
        assert(ints(out@) =~= Seq::<int>::empty());
    }
    while n < idxs.len()
        invariant
            n <= idxs.len(),
            forall|x: int| 0 <= x < idxs.len() ==> idxs@[x] < key.len(),
            forall|x: int| 0 <= x < out.len() ==> out@[x] < key.len(),
            ints(out@) == sort_desc(ints(idxs@).take(n as int), ints64(key@)),
        decreases idxs.len() - n,
    {
        proof {
            assert(ints(idxs@).take(n + 1).drop_last() =~= ints(idxs@).take(n as int));
            assert(ints(idxs@).take(n + 1).last() == idxs@[n as int] as int);
        }
        insert_desc_exec(&mut out, key, idxs[n]);
        n = n + 1;
    }
    proof {
        assert(ints(idxs@).take(idxs.len() as int) =~= ints(idxs@));
    }
    out
}

/// The key order holds: no index is followed by one with a higher key.
pub open spec fn is_sorted_desc(s: Seq<int>, key: Seq<int>) -> bool {
    forall|a: int, b: int| 0 <= a < b < s.len() ==> key[s[a]] >= key[s[b]]
}

proof fn lemma_insert_desc_sorted(sorted: Seq<int>, key: Seq<int>, i: int)
    requires
        is_sorted_desc(sorted, key),
    ensures
        is_sorted_desc(insert_desc(sorted, key, i), key),
        insert_desc(sorted, key, i).to_multiset() == sorted.to_multiset().insert(i),
{
    let j = lower_pos(sorted, key, key[i], 0);
    lemma_lower_pos(sorted, key, key[i], 0);
    let r = insert_desc(sorted, key, i);
    sorted.insert_ensures(j, i);
    assert forall|a: int, b: int| 0 <= a < b < r.len() implies key[r[a]] >= key[r[b]] by {
        if b < j {
        } else if a > j {
            assert(r[a] == sorted[a - 1] && r[b] == sorted[b - 1]);
        } else if a == j {
            assert(r[b] == sorted[b - 1]);
            assert(key[sorted[j]] < key[i]);
            if b - 1 > j {
                assert(key[sorted[j]] >= key[sorted[b - 1]]);
            }
        } else if b == j {
            assert(key[sorted[a]] >= key[i]);
        } else {
            assert(r[b] == sorted[b - 1]);
        }
    }
    vstd::seq_lib::lemma_seq_union_to_multiset_commutative(sorted.subrange(0, j).push(i), sorted.subrange(j, sorted.len() as int));
    assert(sorted =~= sorted.subrange(0, j) + sorted.subrange(j, sorted.len() as int));
    vstd::seq_lib::lemma_multiset_commutative(sorted.subrange(0, j).push(i), sorted.subrange(j, sorted.len() as int));
    vstd::seq_lib::lemma_multiset_commutative(sorted.subrange(0, j), sorted.subrange(j, sorted.len() as int));
    assert(sorted.subrange(0, j).push(i).to_multiset() =~= sorted.subrange(0, j).to_multiset().insert(i)) by {
        sorted.subrange(0, j).to_multiset_ensures();
    }
}

/// Sorting keeps every index once and orders them by key, highest first.
pub proof fn lemma_sort_desc(idxs: Seq<int>, key: Seq<int>)
    ensures
        is_sorted_desc(sort_desc(idxs, key), key),
        sort_desc(idxs, key).to_multiset() == idxs.to_multiset(),
    decreases idxs.len(),
{
    if idxs.len() == 0 {
        assert(sort_desc(idxs, key) =~= idxs);
    } else {
        lemma_sort_desc(idxs.drop_last(), key);
        lemma_insert_desc_sorted(sort_desc(idxs.drop_last(), key), key, idxs.last());
        assert(idxs =~= idxs.drop_last().push(idxs.last()));
        idxs.drop_last().to_multiset_ensures();
    }
}

// ---------------------------------------------------------------------------
// Copies
// ---------------------------------------------------------------------------

fn copy_string(s: &String) -> (r: String)
    ensures
        r@ == s@,
{
    string_of(&chars_of(s.as_str()))
}

fn copy_strings(v: &Vec<String>) -> (r: Vec<String>)
    ensures
        string_views(r@) == string_views(v@),
{
    let mut out: Vec<String> = Vec::new();
    let mut i: usize = 0;
    while i < v.len()
        invariant
            i <= v.len(),
            string_views(out@) == string_views(v@).take(i as int),
        decreases v.len() - i,
    {
        let c = copy_string(&v[i]);
        let ghost before = out@;
        out.push(c);
        proof {
            assert(string_views(out@) =~= string_views(before).push(c@));
            assert(string_views(v@).take(i + 1) =~= string_views(v@).take(i as int).push(
                v@[i as int]@,
            ));
        }
        i = i + 1;
        assert(string_views(out@) =~= string_views(v@).take(i as int));
    }
    assert(string_views(v@).take(v.len() as int) =~= string_views(v@));
    out
}

impl LorebookEntry {
    /// A copy with the same keys, content and settings.
    pub fn copy(&self) -> (r: LorebookEntry)
        ensures
            r@ == self@,
    {
        LorebookEntry {
            keys: copy_strings(&self.keys),
            content: copy_string(&self.content),
            enabled: self.enabled,
            priority: self.priority,
            comment: match &self.comment {
                Some(c) => Some(copy_string(c)),
                None => None,
            },
        }
    }
}

// ---------------------------------------------------------------------------
// Merging lorebooks
// ---------------------------------------------------------------------------

/// The entries of all books, book by book.
pub open spec fn all_entries(books: Seq<Seq<EntryModel>>) -> Seq<EntryModel>
    decreases books.len(),
{
    if books.len() == 0 {
        Seq::empty()
    } else {
        all_entries(books.drop_last()) + books.last()
    }
}

/// Whether some entry of `es` has the content `c`.
pub open spec fn has_content(es: Seq<EntryModel>, c: Seq<char>) -> bool {
    exists|i: int| 0 <= i < es.len() && es[i].content == c
}

/// The entries in order, each dropped when an earlier kept entry has the
/// same content.
pub open spec fn dedup_by_content(es: Seq<EntryModel>) -> Seq<EntryModel>
    decreases es.len(),
{
    if es.len() == 0 {
        Seq::empty()
    } else {
        let d = dedup_by_content(es.drop_last());
        if has_content(d, es.last().content) {
            d
        } else {
            d.push(es.last())
        }
    }
}

/// The priorities of the entries.
pub open spec fn priorities(es: Seq<EntryModel>) -> Seq<int> {
    es.map_values(|e: EntryModel| priority_of(e))
}

/// `0, 1, ..., n - 1`
pub open spec fn upto(n: nat) -> Seq<int> {
    Seq::new(n, |i: int| i)
}

/// The entries picked in the given order.
pub open spec fn pick(es: Seq<EntryModel>, order: Seq<int>) -> Seq<EntryModel> {
    order.map_values(|k: int| es[k])
}

/// The merged lorebook: entries with distinct contents (the first of each
/// kept), ordered by priority, highest first, equal priorities in book order.
pub open spec fn merged_entries(books: Seq<Seq<EntryModel>>) -> Seq<EntryModel> {
    let d = dedup_by_content(all_entries(books));
    pick(d, sort_desc(upto(d.len()), priorities(d)))
}

fn has_content_exec(es: &Vec<LorebookEntry>, c: &String) -> (r: bool)
    ensures
        r == has_content(entry_views(es@), c@),
{
    let ghost m = entry_views(es@);
    let mut i: usize = 0;
    while i < es.len()
        invariant
            i <= es.len(),
            m == entry_views(es@),
            forall|j: int| 0 <= j < i ==> m[j].content != c@,
        decreases es.len() - i,
    {
        if es[i].content == *c {
            assert(m[i as int].content == c@);
            return true;
        }
        i = i + 1;
    }
    false
}

/// Priorities as `i64` keys.
fn priority_keys(es: &Vec<LorebookEntry>) -> (r: Vec<i64>)
    ensures
        ints64(r@) == priorities(entry_views(es@)),
{
    let mut out: Vec<i64> = Vec::new();
    let mut i: usize = 0;
    while i < es.len()
        invariant
            i <= es.len(),
            ints64(out@) == priorities(entry_views(es@)).take(i as int),
        decreases es.len() - i,
    {
        let p: i64 = match es[i].priority {
            Some(p) => p as i64,
            None => 10,
        };
        let ghost before = out@;
        out.push(p);
        proof {
            let pr = priorities(entry_views(es@));
            assert(ints64(out@) =~= ints64(before).push(p as int));
            assert(pr.take(i + 1) =~= pr.take(i as int).push(pr[i as int]));
        }
        i = i + 1;
        assert(ints64(out@) =~= priorities(entry_views(es@)).take(i as int));
    }
    assert(priorities(entry_views(es@)).take(es.len() as int)
        =~= priorities(entry_views(es@)));
    out
}

/// Merges several lorebooks into one: an entry whose content an earlier
/// entry already has is dropped, and the rest are ordered by priority
/// (missing = 10), highest first; equal priorities keep their order.
pub fn merge_lorebooks(lorebooks: &[Lorebook]) -> (r: Lorebook)
    ensures
        r@ == merged_entries(lorebooks@.map_values(|b: Lorebook| b@)),
{
    let ghost books = lorebooks@.map_values(|b: Lorebook| b@);
    let mut kept: Vec<LorebookEntry> = Vec::new();
    let mut b: usize = 0;
    proof {
        assert(books.take(0) =~= Seq::<Seq<EntryModel>>::empty());
        assert(entry_views(kept@) =~= Seq::<EntryModel>::empty());
    }
    while b < lorebooks.len()
        invariant
            b <= lorebooks.len(),
            books == lorebooks@.map_values(|b: Lorebook| b@),
            entry_views(kept@) == dedup_by_content(
                all_entries(books.take(b as int)),
            ),
        decreases lorebooks.len() - b,
    {
        let book = &lorebooks[b];
        let ghost prefix = all_entries(books.take(b as int));
        let ghost es = book@;
        proof {
            assert(books.take(b + 1).drop_last() =~= books.take(b as int));
            assert(books.take(b + 1).last() == es);
        }
        let mut i: usize = 0;
        proof {
            assert(prefix + es.take(0) =~= prefix);
        }
        while i < book.entries.len()
            invariant
                i <= book.entries.len(),
                es == book@,
                entry_views(kept@) == dedup_by_content(prefix + es.take(i as int)),
            decreases book.entries.len() - i,
        {
            let e = &book.entries[i];
            proof {
                assert((prefix + es.take(i + 1)).drop_last() =~= prefix + es.take(i as int));
                assert((prefix + es.take(i + 1)).last() == e@);
            }
            let ghost before = entry_views(kept@);
            if !has_content_exec(&kept, &e.content) {
                let c = e.copy();
                kept.push(c);
                assert(entry_views(kept@) =~= before.push(e@));
            }
            i = i + 1;
        }
        proof {
            assert(es.take(book.entries.len() as int) =~= es);
        }
        b = b + 1;
    }
    proof {
        assert(books.take(lorebooks.len() as int) =~= books);
    }
    let ghost d = entry_views(kept@);
    let keys = priority_keys(&kept);
    let mut idxs: Vec<usize> = Vec::new();
    let mut k: usize = 0;
    while k < kept.len()
        invariant
            k <= kept.len(),
            idxs.len() == k,
            forall|x: int| 0 <= x < k ==> idxs@[x] == x,
        decreases kept.len() - k,
    {
        idxs.push(k);
        k = k + 1;
    }
    assert(ints(idxs@) =~= upto(d.len()));
    assert(ints64(keys@).len() == d.len());
    assert(keys.len() == kept.len());
    let order = sort_desc_exec(&idxs, &keys);
    let mut out: Vec<LorebookEntry> = Vec::new();
    let mut n: usize = 0;
    while n < order.len()
        invariant
            n <= order.len(),
            d == entry_views(kept@),
            forall|x: int| 0 <= x < order.len() ==> order@[x] < kept.len(),
            entry_views(out@) == pick(d, ints(order@)).take(n as int),
        decreases order.len() - n,
    {
        let c = kept[order[n]].copy();
        let ghost before = out@;
        out.push(c);
        proof {
            let pk = pick(d, ints(order@));
            assert(entry_views(out@) =~= entry_views(before).push(c@));
            assert(pk.take(n + 1) =~= pk.take(n as int).push(pk[n as int]));
        }
        n = n + 1;
        assert(entry_views(out@) =~= pick(d, ints(order@)).take(n as int));
    }
    assert(pick(d, ints(order@)).take(order.len() as int) =~= pick(d, ints(order@)));
    Lorebook { entries: out }
}

/// Merging never keeps two entries with the same content, and orders the
/// entries by priority, highest first.
pub proof fn lemma_merge_dedups_and_orders(books: Seq<Seq<EntryModel>>)
    ensures
        forall|a: int, b: int|
            0 <= a < b < merged_entries(books).len() ==> merged_entries(books)[a].content
                != merged_entries(books)[b].content,
        forall|a: int, b: int|
            0 <= a < b < merged_entries(books).len() ==> priority_of(merged_entries(books)[a])
                >= priority_of(merged_entries(books)[b]),
{
    let d = dedup_by_content(all_entries(books));
    lemma_dedup_distinct(all_entries(books));
    let order = sort_desc(upto(d.len()), priorities(d));
    lemma_sort_desc(upto(d.len()), priorities(d));
    let m = merged_entries(books);
    // The order is a permutation of the indices of `d`.
    assert forall|x: int| 0 <= x < order.len() implies 0 <= #[trigger] order[x] < d.len() && (
    forall|y: int| 0 <= y < order.len() && y != x ==> order[y] != order[x]) by {
        assert(order.to_multiset().count(order[x]) > 0) by {
            order.to_multiset_ensures();
            assert(order.contains(order[x]));
        }
        upto(d.len()).to_multiset_ensures();
        assert(upto(d.len()).contains(order[x]));
        let w = choose|w: int| 0 <= w < upto(d.len()).len() && upto(d.len())[w] == order[x];
        assert forall|y: int| 0 <= y < order.len() && y != x implies order[y] != order[x] by {
            if order[y] == order[x] {
                lemma_count_two(order, x, y);
                lemma_upto_count(d.len(), order[x]);
            }
        }
    }
    assert forall|a: int, b: int| 0 <= a < b < m.len() implies m[a].content != m[b].content by {
        assert(m[a] == d[order[a]] && m[b] == d[order[b]]);
        assert(order[a] != order[b]);
    }
    assert forall|a: int, b: int| 0 <= a < b < m.len() implies priority_of(m[a]) >= priority_of(
        m[b],
    ) by {
        assert(m[a] == d[order[a]] && m[b] == d[order[b]]);
        assert(priorities(d)[order[a]] >= priorities(d)[order[b]]);
    }
}

/// Sorting `0..n` by key keeps equal keys in increasing order, and yields
/// indices below `n`.
proof fn lemma_sort_upto_stable(n: nat, key: Seq<int>)
    ensures
        forall|x: int| 0 <= x < sort_desc(upto(n), key).len() ==> 0 <= #[trigger] sort_desc(upto(n), key)[x] < n,
        forall|a: int, b: int|
            0 <= a < b < sort_desc(upto(n), key).len() && key[sort_desc(upto(n), key)[a]]
                == key[sort_desc(upto(n), key)[b]] ==> sort_desc(upto(n), key)[a] < sort_desc(
                upto(n),
                key,
            )[b],
    decreases n,
{
    if n > 0 {
        let m = (n - 1) as nat;
        lemma_sort_upto_stable(m, key);
        assert(upto(n).drop_last() =~= upto(m));
        assert(upto(n).last() == m as int);
        let sorted = sort_desc(upto(m), key);
        lemma_sort_desc(upto(m), key);
        let i = m as int;
        let j = lower_pos(sorted, key, key[i], 0);
        lemma_lower_pos(sorted, key, key[i], 0);
        let r = sort_desc(upto(n), key);
        assert(r == sorted.insert(j, i));
        sorted.insert_ensures(j, i);
        assert forall|x: int| 0 <= x < r.len() implies 0 <= #[trigger] r[x] < n by {
            if x > j {
                assert(r[x] == sorted[x - 1]);
            }
        }
        assert forall|a: int, b: int| 0 <= a < b < r.len() && key[r[a]] == key[r[b]] implies r[a] < r[b] by {
            if b < j {
            } else if a > j {
                assert(r[a] == sorted[a - 1] && r[b] == sorted[b - 1]);
            } else if a == j {
                assert(r[b] == sorted[b - 1]);
                assert(key[sorted[j]] < key[i]);
                if b - 1 > j {
                    assert(key[sorted[j]] >= key[sorted[b - 1]]);
                }
            } else if b == j {
                assert(r[a] == sorted[a]);
            } else {
                assert(r[a] == sorted[a] && r[b] == sorted[b - 1]);
            }
        }
    }
}

proof fn lemma_dedup_covers(es: Seq<EntryModel>)
    ensures
        forall|k: int| 0 <= k < es.len() ==> has_content(dedup_by_content(es), #[trigger] es[k].content),
    decreases es.len(),
{
    if es.len() > 0 {
        let p = es.drop_last();
        lemma_dedup_covers(p);
        let d = dedup_by_content(p);
        assert forall|k: int| 0 <= k < es.len() implies has_content(dedup_by_content(es), #[trigger] es[k].content) by {
            if k < es.len() - 1 {
                assert(es[k] == p[k]);
                assert(has_content(d, p[k].content));
                let w = choose|w: int| 0 <= w < d.len() && d[w].content == p[k].content;
                if !has_content(d, es.last().content) {
                    assert(d.push(es.last())[w] == d[w]);
                }
            } else if !has_content(d, es.last().content) {
                assert(d.push(es.last())[d.len() as int] == es.last());
            }
        }
    }
}

/// The entries of the books with the first entry of each content kept, in
/// book order, then entry order.
pub open spec fn kept_entries(books: Seq<Seq<EntryModel>>) -> Seq<EntryModel> {
    dedup_by_content(all_entries(books))
}

/// Where each merged entry stands among [`kept_entries`].
pub open spec fn merge_order(books: Seq<Seq<EntryModel>>) -> Seq<int> {
    sort_desc(upto(kept_entries(books).len()), priorities(kept_entries(books)))
}

/// The merge is stable: its entries are those of the books with the first
/// entry of each content kept (in book order, then entry order), put in an
/// order that lists every one of them once, by priority, highest first, and
/// keeps entries of equal priority in book order; no content of the books is
/// lost.
pub proof fn lemma_merge_is_stable(books: Seq<Seq<EntryModel>>)
    ensures
        merged_entries(books).len() == kept_entries(books).len(),
        merge_order(books).len() == kept_entries(books).len(),
        forall|x: int| 0 <= x < merge_order(books).len() ==> 0 <= #[trigger] merge_order(books)[x] < kept_entries(books).len(),
        forall|x: int, y: int|
            0 <= x < y < merge_order(books).len() ==> merge_order(books)[x] != merge_order(books)[y],
        forall|x: int|
            0 <= x < merged_entries(books).len() ==> #[trigger] merged_entries(books)[x] == kept_entries(books)[merge_order(books)[x]],
        forall|a: int, b: int|
            0 <= a < b < merged_entries(books).len() && priority_of(merged_entries(books)[a]) == priority_of(
                merged_entries(books)[b],
            ) ==> merge_order(books)[a] < merge_order(books)[b],
        forall|k: int|
            0 <= k < all_entries(books).len() ==> has_content(merged_entries(books), #[trigger] all_entries(books)[k].content),
{
    let d = dedup_by_content(all_entries(books));
    let m = merged_entries(books);
    let order = sort_desc(upto(d.len()), priorities(d));
    lemma_sort_desc(upto(d.len()), priorities(d));
    lemma_sort_upto_stable(d.len(), priorities(d));
    order.to_multiset_ensures();
    upto(d.len()).to_multiset_ensures();
    assert(order.len() == d.len()) by {
        assert(order.to_multiset().len() == upto(d.len()).to_multiset().len());
        order.to_multiset_ensures();
    }
    assert forall|x: int, y: int| 0 <= x < y < order.len() implies order[x] != order[y] by {
        if order[x] == order[y] {
            lemma_count_two(order, x, y);
            lemma_upto_count(d.len(), order[x]);
        }
    }
    assert forall|a: int, b: int|
        0 <= a < b < m.len() && priority_of(m[a]) == priority_of(m[b]) implies order[a] < order[b] by {
        assert(m[a] == d[order[a]] && m[b] == d[order[b]]);
        assert(priorities(d)[order[a]] == priority_of(d[order[a]]));
        assert(priorities(d)[order[b]] == priority_of(d[order[b]]));
    }
    lemma_dedup_covers(all_entries(books));
    assert forall|k: int| 0 <= k < all_entries(books).len() implies has_content(m, #[trigger] all_entries(books)[k].content) by {
        let c = all_entries(books)[k].content;
        assert(has_content(d, c));
        let w = choose|w: int| 0 <= w < d.len() && d[w].content == c;
        assert(upto(d.len())[w] == w);
        assert(upto(d.len()).contains(w));
        assert(order.to_multiset().count(w) > 0);
        assert(order.contains(w));
        let x = choose|x: int| 0 <= x < order.len() && order[x] == w;
        assert(m[x] == d[w]);
    }
    assert(m.len() == d.len());
}

proof fn lemma_dedup_distinct(es: Seq<EntryModel>)
    ensures
        forall|a: int, b: int|
            0 <= a < b < dedup_by_content(es).len() ==> dedup_by_content(es)[a].content
                != dedup_by_content(es)[b].content,
    decreases es.len(),
{
    if es.len() > 0 {
        lemma_dedup_distinct(es.drop_last());
    }
}

proof fn lemma_count_two(s: Seq<int>, x: int, y: int)
    requires
        0 <= x < s.len(),
        0 <= y < s.len(),
        x != y,
        s[x] == s[y],
    ensures
        s.to_multiset().count(s[x]) >= 2,
    decreases s.len(),
{
    let last = s.len() - 1;
    s.drop_last().to_multiset_ensures();
    assert(s =~= s.drop_last().push(s.last()));
    if x == last || y == last {
        let other = if x == last {
            y
        } else {
            x
        };
        assert(s.drop_last()[other] == s[x]);
        s.drop_last().to_multiset_ensures();
        assert(s.drop_last().contains(s[x]));
    } else {
        assert(s.drop_last()[x] == s.drop_last()[y]);
        lemma_count_two(s.drop_last(), x, y);
    }
}

proof fn lemma_upto_count(n: nat, v: int)
    ensures
        upto(n).to_multiset().count(v) <= 1,
    decreases n,
{
    broadcast use vstd::multiset::group_multiset_axioms;

    if n == 0 {
        assert(upto(n) =~= Seq::<int>::empty());
        Seq::<int>::empty().to_multiset_ensures();
    }
    if n > 0 {
        lemma_upto_count((n - 1) as nat, v);
        assert(upto(n) =~= upto((n - 1) as nat).push(n - 1));
        upto((n - 1) as nat).to_multiset_ensures();
        if v == n - 1 {
            assert(!upto((n - 1) as nat).contains(v));
        }
    }
}

// ---------------------------------------------------------------------------
// Triggering
// ---------------------------------------------------------------------------

/// Whether Aho-Corasick can build an automaton for `patterns`
/// (`AhoCorasick::builder().build` succeeds).
pub uninterp spec fn ac_builds(patterns: Seq<Seq<char>>) -> bool;

/// The pattern index of each match that a leftmost-longest Aho-Corasick
/// automaton for `patterns` finds in `text`, in order (`find_iter`).
pub uninterp spec fn leftmost_longest(patterns: Seq<Seq<char>>, text: Seq<char>) -> Seq<usize>;

/// The length of the longest of the first `k` patterns that stands in `text`
/// at `pos`; 0 when none does.
pub open spec fn longest_at(patterns: Seq<Seq<char>>, text: Seq<char>, pos: int, k: nat) -> nat
    decreases k,
{
    if k == 0 {
        0
    } else {
        let prev = longest_at(patterns, text, pos, (k - 1) as nat);
        let p = patterns[k - 1];
        if p.len() > prev && 0 <= pos && pos + p.len() <= text.len() && text.subrange(pos, pos + p.len()) == p {
            p.len()
        } else {
            prev
        }
    }
}

/// The matches of a leftmost-longest, non-overlapping scan of `text` from
/// `pos`, as (start, length): at the first position where some pattern
/// stands, the longest pattern there; then on from the end of that match.
pub open spec fn scan_matches(patterns: Seq<Seq<char>>, text: Seq<char>, pos: int) -> Seq<(int, nat)>
    decreases text.len() - pos,
{
    if pos < 0 || pos >= text.len() {
        Seq::empty()
    } else {
        let l = longest_at(patterns, text, pos, patterns.len());
        if l > 0 && pos + l <= text.len() {
            seq![(pos, l)] + scan_matches(patterns, text, pos + l)
        } else {
            scan_matches(patterns, text, pos + 1)
        }
    }
}

/// `p` stands somewhere in `text`.
pub open spec fn occurs_in(text: Seq<char>, p: Seq<char>) -> bool {
    exists|i: int| 0 <= i && i + p.len() <= text.len() && #[trigger] text.subrange(i, i + p.len()) == p
}

/// The patterns are all non-empty.
pub open spec fn all_nonempty(patterns: Seq<Seq<char>>) -> bool {
    forall|i: int| 0 <= i < patterns.len() ==> #[trigger] patterns[i].len() > 0
}

/// Builds a leftmost-longest Aho-Corasick automaton for `patterns` and runs
/// `find_iter` over `text`, giving the pattern index of each match. The
/// contract claims: a result exactly when the build succeeds (`ac_builds`);
/// the indices are `leftmost_longest` of the patterns and the text; each
/// index names one of the patterns (the crate numbers patterns in the order
/// given); and, for non-empty patterns, the matches are those of the
/// leftmost-longest, non-overlapping scan [`scan_matches`], the pattern of
/// each index being the text of its match. (The crate matches bytes; a match
/// of UTF-8 patterns in UTF-8 text starts and ends on character boundaries,
/// and of two patterns standing at one place the longer in bytes is the
/// longer in characters. Which index is reported when two patterns are equal
/// is left to the name.)
#[verifier::external_body]
pub(crate) fn find_leftmost_longest(patterns: &Vec<String>, text: &str) -> (r: Option<Vec<usize>>)
    ensures
        r is Some == ac_builds(string_views(patterns@)),
        r matches Some(ids) ==> ids@ == leftmost_longest(string_views(patterns@), text@) && forall|
            k: int,
        | 0 <= k < ids.len() ==> ids@[k] < patterns.len(),
        r matches Some(ids) ==> all_nonempty(string_views(patterns@)) ==> ({
            let ms = scan_matches(string_views(patterns@), text@, 0);
            &&& ids.len() == ms.len()
            &&& forall|k: int|
                0 <= k < ms.len() ==> string_views(patterns@)[#[trigger] ids@[k] as int] == text@.subrange(
                    ms[k].0,
                    ms[k].0 + ms[k].1,
                )
        }),
{
    let ac = aho_corasick::AhoCorasick::builder().match_kind(
        aho_corasick::MatchKind::LeftmostLongest,
    ).build(patterns).ok()?;
    Some(ac.find_iter(text).map(|m| m.pattern().as_usize()).collect())
}

/// The leftmost-longest scan finds matches only within the text.
pub proof fn lemma_scan_in_text(patterns: Seq<Seq<char>>, text: Seq<char>, pos: int)
    ensures
        forall|k: int|
            0 <= k < scan_matches(patterns, text, pos).len() ==> {
                let m = #[trigger] scan_matches(patterns, text, pos)[k];
                0 <= pos <= m.0 && m.0 + m.1 <= text.len()
            },
    decreases text.len() - pos,
{
    if 0 <= pos < text.len() {
        let l = longest_at(patterns, text, pos, patterns.len());
        if l > 0 && pos + l <= text.len() {
            lemma_scan_in_text(patterns, text, pos + l);
            let rest = scan_matches(patterns, text, pos + l);
            assert forall|k: int| 0 <= k < scan_matches(patterns, text, pos).len() implies {
                let m = #[trigger] scan_matches(patterns, text, pos)[k];
                0 <= pos <= m.0 && m.0 + m.1 <= text.len()
            } by {
                if k > 0 {
                    assert(scan_matches(patterns, text, pos)[k] == rest[k - 1]);
                } else {
                    assert(scan_matches(patterns, text, pos)[0] == (pos, l));
                }
            }
        } else {
            lemma_scan_in_text(patterns, text, pos + 1);
            assert(scan_matches(patterns, text, pos) == scan_matches(patterns, text, pos + 1));
        }
    }
}

/// The keys that are not empty, in order.
pub open spec fn nonempty_keys(keys: Seq<Seq<char>>) -> Seq<Seq<char>>
    decreases keys.len(),
{
    if keys.len() == 0 {
        Seq::empty()
    } else if keys.last().len() > 0 {
        nonempty_keys(keys.drop_last()).push(keys.last())
    } else {
        nonempty_keys(keys.drop_last())
    }
}

/// The patterns of a lorebook (the non-empty keys of its enabled entries,
/// entry by entry) and, for each, the entry it belongs to.
pub open spec fn key_table(es: Seq<EntryModel>) -> (Seq<Seq<char>>, Seq<int>)
    decreases es.len(),
{
    if es.len() == 0 {
        (Seq::empty(), Seq::empty())
    } else {
        let (p, m) = key_table(es.drop_last());
        if is_enabled(es.last()) {
            let ks = nonempty_keys(es.last().keys);
            (p + ks, m + Seq::new(ks.len(), |x: int| es.len() - 1))
        } else {
            (p, m)
        }
    }
}

/// Some match belongs to entry `e`.
pub open spec fn is_hit(m: Seq<int>, ids: Seq<usize>, e: int) -> bool {
    exists|k: int| 0 <= k < ids.len() && m[ids[k] as int] == e
}

/// The entries below `n` that some match belongs to, in order.
pub open spec fn hits(m: Seq<int>, ids: Seq<usize>, n: nat) -> Seq<int>
    decreases n,
{
    if n == 0 {
        Seq::empty()
    } else if is_hit(m, ids, n - 1) {
        hits(m, ids, (n - 1) as nat).push(n - 1)
    } else {
        hits(m, ids, (n - 1) as nat)
    }
}

/// Each picked entry's content followed by a line feed.
pub open spec fn contents_block(es: Seq<EntryModel>, order: Seq<int>) -> Seq<char>
    decreases order.len(),
{
    if order.len() == 0 {
        Seq::empty()
    } else {
        contents_block(es, order.drop_last()) + es[order.last()].content + seq!['\n']
    }
}

/// The text the matches `ids` give: nothing when no entry was hit, else a
/// header and the contents of the hit entries, highest priority first.
pub open spec fn triggered_text(es: Seq<EntryModel>, ids: Seq<usize>) -> Seq<char> {
    let t = hits(key_table(es).1, ids, es.len());
    if t.len() == 0 {
        Seq::empty()
    } else {
        "\n[World Info/Lorebook Information]:\n"@ + contents_block(es, sort_desc(t, priorities(es)))
    }
}

proof fn lemma_key_table_len(es: Seq<EntryModel>)
    ensures
        key_table(es).0.len() == key_table(es).1.len(),
        forall|x: int| 0 <= x < key_table(es).1.len() ==> 0 <= #[trigger] key_table(es).1[x] < es.len(),
    decreases es.len(),
{
    if es.len() > 0 {
        lemma_key_table_len(es.drop_last());
    }
}

/// The lore text that `text` triggers in the entries `es` (see
/// [`Lorebook::trigger`]).
pub open spec fn trigger_result(es: Seq<EntryModel>, text: Seq<char>) -> Seq<char> {
    let pats = key_table(es).0;
    if pats.len() == 0 || !ac_builds(pats) {
        Seq::empty()
    } else {
        triggered_text(es, leftmost_longest(pats, text))
    }
}

impl Lorebook {
    /// The patterns and the entry of each (see [`key_table`]).
    fn key_table_exec(&self) -> (r: (Vec<String>, Vec<usize>))
        ensures
            string_views(r.0@) == key_table(self@).0,
            ints(r.1@) == key_table(self@).1,
    {
        let ghost es = self@;
        let mut pats: Vec<String> = Vec::new();
        let mut owner: Vec<usize> = Vec::new();
        let mut i: usize = 0;
        proof {
            assert(es.take(0) =~= Seq::<EntryModel>::empty());
            assert(string_views(pats@) =~= Seq::<Seq<char>>::empty());
            assert(ints(owner@) =~= Seq::<int>::empty());
        }
        while i < self.entries.len()
            invariant
                i <= self.entries.len(),
                es == self@,
                string_views(pats@) == key_table(es.take(i as int)).0,
                ints(owner@) == key_table(es.take(i as int)).1,
            decreases self.entries.len() - i,
        {
            let e = &self.entries[i];
            proof {
                assert(es.take(i + 1).drop_last() =~= es.take(i as int));
                assert(es.take(i + 1).last() == e@);
            }
            let enabled = match e.enabled {
                Some(b) => b,
                None => true,
            };
            if enabled {
                let ghost p0 = string_views(pats@);
                let ghost m0 = ints(owner@);
                let ghost ks = e@.keys;
                let mut j: usize = 0;
                proof {
                    assert(ks.take(0) =~= Seq::<Seq<char>>::empty());
                    assert(p0 + nonempty_keys(ks.take(0)) =~= p0);
                    assert(m0 + Seq::new(0, |x: int| i as int) =~= m0);
                }
                while j < e.keys.len()
                    invariant
                        j <= e.keys.len(),
                        ks == e@.keys,
                        string_views(pats@) == p0 + nonempty_keys(ks.take(j as int)),
                        ints(owner@) == m0 + Seq::new(
                            nonempty_keys(ks.take(j as int)).len(),
                            |x: int| i as int,
                        ),
                    decreases e.keys.len() - j,
                {
                    proof {
                        assert(ks.take(j + 1).drop_last() =~= ks.take(j as int));
                        assert(ks.take(j + 1).last() == e.keys@[j as int]@);
                    }
                    let k = &e.keys[j];
                    if k.unicode_len() > 0 {
                        let ghost bp = pats@;
                        let ghost bo = owner@;
                        pats.push(copy_string(k));
                        owner.push(i);
                        proof {
                            assert(string_views(pats@) =~= string_views(bp).push(k@));
                            assert(ints(owner@) =~= ints(bo).push(i as int));
                            let n0 = nonempty_keys(ks.take(j as int)).len();
                            assert(Seq::new(n0 + 1, |x: int| i as int) =~= Seq::new(
                                n0,
                                |x: int| i as int,
                            ).push(i as int));
                        }
                    }
                    j = j + 1;
                }
                proof {
                    assert(ks.take(e.keys.len() as int) =~= ks);
                }
            }
            i = i + 1;
        }
        proof {
            assert(es.take(self.entries.len() as int) =~= es);
        }
        (pats, owner)
    }

    /// The text that the matches `ids` (indices into the lorebook's patterns,
    /// see [`key_table`]) trigger (see [`triggered_text`]).
    pub fn trigger_matches(&self, ids: &Vec<usize>) -> (r: String)
        requires
            forall|k: int| 0 <= k < ids.len() ==> ids@[k] < key_table(self@).0.len(),
        ensures
            r@ == triggered_text(self@, ids@),
    {
        let (_pats, owner) = self.key_table_exec();
        let ghost m = key_table(self@).1;
        proof {
            lemma_key_table_len(self@);
        }
        let n = self.entries.len();
        let mut flags: Vec<bool> = Vec::new();
        let mut i: usize = 0;
        while i < n
            invariant
                i <= n,
                n == self.entries.len(),
                flags.len() == i,
                forall|x: int| 0 <= x < i ==> !flags@[x],
            decreases n - i,
        {
            flags.push(false);
            i = i + 1;
        }
        let mut k: usize = 0;
        while k < ids.len()
            invariant
                k <= ids.len(),
                flags.len() == n,
                n == self.entries.len(),
                m == key_table(self@).1,
                ints(owner@) == m,
                m.len() == key_table(self@).0.len(),
                forall|x: int| 0 <= x < m.len() ==> 0 <= #[trigger] m[x] < n,
                forall|x: int| 0 <= x < ids.len() ==> ids@[x] < key_table(self@).0.len(),
                forall|e: int|
                    0 <= e < n ==> (#[trigger] flags@[e] == exists|x: int|
                        0 <= x < k && m[ids@[x] as int] == e),
            decreases ids.len() - k,
        {
            let id = ids[k];
            let e = owner[id];
            assert(m[id as int] == e as int);
            let ghost before = flags@;
            flags.set(e, true);
            proof {
                assert forall|f: int| 0 <= f < n implies (#[trigger] flags@[f] == exists|x: int|
                    0 <= x < k + 1 && m[ids@[x] as int] == f) by {
                    if f == e {
                        assert(0 <= k < k + 1 && m[ids@[k as int] as int] == f);
                    } else {
                        assert(flags@[f] == before[f]);
                        if exists|x: int| 0 <= x < k + 1 && m[ids@[x] as int] == f {
                            let x = choose|x: int| 0 <= x < k + 1 && m[ids@[x] as int] == f;
                            assert(x < k);
                        }
                    }
                }
            }
            k = k + 1;
        }
        let mut hit: Vec<usize> = Vec::new();
        let mut e: usize = 0;
        while e < n
            invariant
                e <= n,
                flags.len() == n,
                n == self.entries.len(),
                forall|f: int|
                    0 <= f < n ==> (#[trigger] flags@[f] == is_hit(m, ids@, f)),
                ints(hit@) == hits(m, ids@, e as nat),
                forall|x: int| 0 <= x < hit.len() ==> hit@[x] < e,
            decreases n - e,
        {
            if flags[e] {
                let ghost before = hit@;
                hit.push(e);
                assert(ints(hit@) =~= ints(before).push(e as int));
            }
            e = e + 1;
        }
        if hit.len() == 0 {
            return String::new();
        }
        let keys = priority_keys(&self.entries);
        assert(ints64(keys@).len() == keys@.len());
        assert(priorities(self@).len() == self@.len());
        assert(keys.len() == n);
        let order = sort_desc_exec(&hit, &keys);
        let mut out = String::new();
        push_str(&mut out, "\n[World Info/Lorebook Information]:\n");
        let ghost head = out@;
        let ghost ord = ints(order@);
        let mut x: usize = 0;
        proof {
            assert(ord.take(0) =~= Seq::<int>::empty());
            assert(head + contents_block(self@, ord.take(0)) =~= head);
        }
        while x < order.len()
            invariant
                x <= order.len(),
                ord == ints(order@),
                n == self.entries.len(),
                forall|y: int| 0 <= y < order.len() ==> order@[y] < n,
                out@ == head + contents_block(self@, ord.take(x as int)),
            decreases order.len() - x,
        {
            proof {
                assert(ord.take(x + 1).drop_last() =~= ord.take(x as int));
                assert(ord.take(x + 1).last() == order@[x as int] as int);
            }
            let c = &self.entries[order[x]].content;
            push_str(&mut out, c.as_str());
            push_char(&mut out, '\n');
            x = x + 1;
        }
        proof {
            assert(ord.take(order.len() as int) =~= ord);
        }
        out
    }

    /// The lore text that `text` triggers: every enabled entry one of whose
    /// non-empty keys the leftmost-longest scan finds in `text`, highest
    /// priority first, under a header; nothing when no entry is hit, when the
    /// lorebook has no keys, or when no automaton can be built for them.
    pub fn trigger(&self, text: &str) -> (r: String)
        ensures
            r@ == trigger_result(self@, text@),
            (forall|k: int| 0 <= k < key_table(self@).0.len() ==> !occurs_in(text@, #[trigger] key_table(self@).0[k]))
                ==> r@.len() == 0,
    {
        let (pats, _owner) = self.key_table_exec();
        if pats.len() == 0 {
            return String::new();
        }
        match find_leftmost_longest(&pats, text) {
            None => String::new(),
            Some(ids) => {
                proof {
                    let ps = key_table(self@).0;
                    lemma_key_table_nonempty(self@);
                    if forall|k: int| 0 <= k < ps.len() ==> !occurs_in(text@, #[trigger] ps[k]) {
                        lemma_unmatched_scan(ps, text@, ids@);
                        lemma_no_hits(key_table(self@).1, ids@, self@.len());
                    }
                }
                self.trigger_matches(&ids)
            },
        }
    }
}

/// Non-empty keys are non-empty.
pub proof fn lemma_nonempty_keys(keys: Seq<Seq<char>>)
    ensures
        all_nonempty(nonempty_keys(keys)),
    decreases keys.len(),
{
    if keys.len() > 0 {
        lemma_nonempty_keys(keys.drop_last());
    }
}

proof fn lemma_key_table_nonempty(es: Seq<EntryModel>)
    ensures
        all_nonempty(key_table(es).0),
    decreases es.len(),
{
    if es.len() > 0 {
        lemma_key_table_nonempty(es.drop_last());
        lemma_nonempty_keys(es.last().keys);
        let (p, _m) = key_table(es.drop_last());
        let ks = nonempty_keys(es.last().keys);
        assert forall|i: int| 0 <= i < (p + ks).len() implies #[trigger] (p + ks)[i].len() > 0 by {
            if i >= p.len() {
                assert((p + ks)[i] == ks[i - p.len()]);
            }
        }
    }
}

/// When no pattern stands in the text, a scan that reports the text of each
/// match reports none.
pub proof fn lemma_unmatched_scan(patterns: Seq<Seq<char>>, text: Seq<char>, ids: Seq<usize>)
    requires
        forall|k: int| 0 <= k < patterns.len() ==> !occurs_in(text, #[trigger] patterns[k]),
        forall|k: int| 0 <= k < ids.len() ==> ids[k] < patterns.len(),
        ({
            let ms = scan_matches(patterns, text, 0);
            &&& ids.len() == ms.len()
            &&& forall|k: int| 0 <= k < ms.len() ==> patterns[#[trigger] ids[k] as int] == text.subrange(ms[k].0, ms[k].0 + ms[k].1)
        }),
    ensures
        ids.len() == 0,
{
    if ids.len() > 0 {
        let ms = scan_matches(patterns, text, 0);
        lemma_scan_in_text(patterns, text, 0);
        let m = ms[0];
        assert(0 <= m.0 && m.0 + m.1 <= text.len());
        let p = patterns[ids[0] as int];
        assert(p == text.subrange(m.0, m.0 + m.1));
        assert(p.len() == m.1);
        assert(text.subrange(m.0, m.0 + p.len()) == p);
        assert(occurs_in(text, p));
        assert(!occurs_in(text, patterns[ids[0] as int]));
    }
}

proof fn lemma_no_hits(m: Seq<int>, ids: Seq<usize>, n: nat)
    requires
        ids.len() == 0,
    ensures
        hits(m, ids, n).len() == 0,
    decreases n,
{
    if n > 0 {
        lemma_no_hits(m, ids, (n - 1) as nat);
        assert(!is_hit(m, ids, n - 1));
    }
}

proof fn lemma_owners_enabled(es: Seq<EntryModel>)
    ensures
        forall|x: int|
            0 <= x < key_table(es).1.len() ==> is_enabled(es[#[trigger] key_table(es).1[x]]),
    decreases es.len(),
{
    lemma_key_table_len(es);
    if es.len() > 0 {
        let init = es.drop_last();
        lemma_owners_enabled(init);
        lemma_key_table_len(init);
        let m0 = key_table(init).1;
        assert forall|x: int| 0 <= x < key_table(es).1.len() implies is_enabled(
            es[#[trigger] key_table(es).1[x]],
        ) by {
            if x < m0.len() {
                assert(key_table(es).1[x] == m0[x]);
                assert(es[m0[x]] == init[m0[x]]);
            }
        }
    }
}

proof fn lemma_hits_are_hit(m: Seq<int>, ids: Seq<usize>, n: nat)
    ensures
        forall|x: int| 0 <= x < hits(m, ids, n).len() ==> is_hit(m, ids, #[trigger] hits(m, ids, n)[x]),
    decreases n,
{
    if n > 0 {
        let prev = hits(m, ids, (n - 1) as nat);
        lemma_hits_are_hit(m, ids, (n - 1) as nat);
        assert forall|x: int| 0 <= x < hits(m, ids, n).len() implies is_hit(
            m,
            ids,
            #[trigger] hits(m, ids, n)[x],
        ) by {
            if x < prev.len() {
                assert(hits(m, ids, n)[x] == prev[x]);
            }
        }
    }
}

/// Only enabled entries are ever triggered: every entry that a set of
/// matches hits is enabled (disabled entries contribute no keys).
pub proof fn lemma_trigger_only_enabled(es: Seq<EntryModel>, ids: Seq<usize>)
    requires
        forall|k: int| 0 <= k < ids.len() ==> ids[k] < key_table(es).0.len(),
    ensures
        forall|x: int|
            0 <= x < hits(key_table(es).1, ids, es.len()).len() ==> is_enabled(
                es[#[trigger] hits(key_table(es).1, ids, es.len())[x]],
            ),
{
    let m = key_table(es).1;
    lemma_key_table_len(es);
    lemma_owners_enabled(es);
    lemma_hits_are_hit(m, ids, es.len());
    assert forall|x: int| 0 <= x < hits(m, ids, es.len()).len() implies is_enabled(
        es[#[trigger] hits(m, ids, es.len())[x]],
    ) by {
        let e = hits(m, ids, es.len())[x];
        assert(is_hit(m, ids, e));
        let k = choose|k: int| 0 <= k < ids.len() && m[ids[k] as int] == e;
        assert(is_enabled(es[m[ids[k] as int]]));
    }
}

} // verus!
