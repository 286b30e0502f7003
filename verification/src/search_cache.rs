//! The cache of search answers: kept for fifteen minutes, at most 64.
use vstd::prelude::*;
use crate::json::str_views;
use crate::keyed::{
    find_key, lemma_to_map_dom, lemma_to_map_push, lemma_to_map_remove, lemma_to_map_update,
    lemma_to_map_value, to_map, unique_keys,
};
use crate::text::same_text;

verus! {

/// How long an answer stays usable, in milliseconds.
pub const CACHE_TTL_MS: u64 = 900_000;

/// How many answers the cache holds at most.
pub const CACHE_MAX_ENTRIES: usize = 64;

/// A cached answer and when it was stored.
pub struct CachedEntry {
    pub body: String,
    pub inserted: u64,
}

/// The cached answers by key, and the keys from oldest to newest.
pub struct SearchCache {
    entries: Vec<(String, CachedEntry)>,
    order: Vec<String>,
}

pub struct CacheV {
    pub entries: Map<Seq<char>, (Seq<char>, u64)>,
    pub order: Seq<Seq<char>>,
}

pub open spec fn entry_views(v: Seq<(String, CachedEntry)>) -> Seq<(Seq<char>, (Seq<char>, u64))> {
    Seq::new(v.len(), |i: int| (v[i].0@, (v[i].1.body@, v[i].1.inserted)))
}

impl View for SearchCache {
    type V = CacheV;

    closed spec fn view(&self) -> CacheV {
        CacheV { entries: to_map(entry_views(self.entries@)), order: str_views(self.order@) }
    }
}

/// Whether an answer stored at `inserted` is too old at `now`.
pub open spec fn stale(inserted: u64, now: u64) -> bool {
    now > inserted && now - inserted > CACHE_TTL_MS
}

/// `s` without the occurrences of `k`.
pub open spec fn without(s: Seq<Seq<char>>, k: Seq<char>) -> Seq<Seq<char>>
    decreases s.len(),
{
    if s.len() == 0 {
        s
    } else if s.last() == k {
        without(s.drop_last(), k)
    } else {
        without(s.drop_last(), k).push(s.last())
    }
}

/// The cache's own consistency: each key once in the order, the order
/// naming exactly the stored keys, and at most 64 of them.
pub open spec fn cache_wf(c: CacheV) -> bool {
    &&& c.order.no_duplicates()
    &&& forall|k: Seq<char>| c.entries.contains_key(k) <==> c.order.contains(k)
    &&& c.order.len() <= CACHE_MAX_ENTRIES
}

/// What looking `key` up at `now` gives, and the cache after: a stale
/// answer is dropped.
pub open spec fn lookup(c: CacheV, key: Seq<char>, now: u64) -> (Option<Seq<char>>, CacheV) {
    if !c.entries.contains_key(key) {
        (None, c)
    } else if stale(c.entries[key].1, now) {
        (None, CacheV { entries: c.entries.remove(key), order: without(c.order, key) })
    } else {
        (Some(c.entries[key].0), c)
    }
}

/// The cache after storing `body` under `key` at `now`: a new key goes last
/// in the order, and the oldest keys go once there are more than 64.
pub open spec fn store(c: CacheV, key: Seq<char>, body: Seq<char>, now: u64) -> CacheV {
    let order1 = if c.entries.contains_key(key) {
        c.order
    } else {
        c.order.push(key)
    };
    let entries1 = c.entries.insert(key, (body, now));
    if order1.len() > CACHE_MAX_ENTRIES {
        let n = order1.len() - CACHE_MAX_ENTRIES;
        CacheV { entries: entries1.remove_keys(order1.take(n).to_set()), order: order1.skip(n) }
    } else {
        CacheV { entries: entries1, order: order1 }
    }
}

impl SearchCache {
    pub closed spec fn wf(&self) -> bool {
        &&& unique_keys(entry_views(self.entries@))
        &&& cache_wf(self@)
    }

    pub fn new() -> (r: SearchCache)
        ensures
            r.wf(),
            r@.entries == Map::<Seq<char>, (Seq<char>, u64)>::empty(),
            r@.order.len() == 0,
    {
        let r = SearchCache { entries: Vec::new(), order: Vec::new() };
        assert(entry_views(r.entries@) =~= Seq::empty());
        assert(str_views(r.order@) =~= Seq::empty());
        r
    }

    fn remove_from_order(&mut self, key: &str)
        ensures
            final(self).entries == old(self).entries,
            str_views(final(self).order@) == without(str_views(old(self).order@), key@),
    {
        let mut kept: Vec<String> = Vec::new();
        let ghost o = str_views(self.order@);
        let mut i: usize = 0;
        assert(o.take(0) =~= Seq::<Seq<char>>::empty());
        while i < self.order.len()
            invariant
                i <= self.order.len(),
                o == str_views(self.order@),
                str_views(kept@) == without(o.take(i as int), key@),
            decreases self.order.len() - i,
        {
            assert(o.take(i + 1).drop_last() =~= o.take(i as int));
            assert(o.take(i + 1).last() == self.order@[i as int]@);
            if !same_text(self.order[i].as_str(), key) {
                let ghost before = kept@;
                kept.push(self.order[i].clone());
                assert(str_views(kept@) =~= str_views(before).push(o[i as int]));
            }
            i += 1;
        }
        assert(o.take(self.order.len() as int) =~= o);
        self.order = kept;
    }

    /// The answer stored under `key`, unless it is stale at `now`, in which
    /// case it is dropped.
    pub fn cache_get(&mut self, key: &str, now: u64) -> (r: Option<String>)
        requires
            old(self).wf(),
        ensures
            final(self).wf(),
            (crate::json::string_opt(r), final(self)@) == lookup(old(self)@, key@, now),
    {
        let ghost es = entry_views(self.entries@);
        match find_key(&self.entries, key) {
            None => {
                proof {
                    lemma_to_map_dom(es, key@);
                }
                None
            },
            Some(i) => {
                proof {
                    lemma_to_map_value(es, i as int);
                }
                let inserted = self.entries[i].1.inserted;
                if now > inserted && now - inserted > CACHE_TTL_MS {
                    proof {
                        lemma_to_map_remove(es, i as int);
                    }
                    let _ = self.entries.remove(i);
                    assert(entry_views(self.entries@) =~= es.remove(i as int));
                    let ghost old_order = str_views(self.order@);
                    self.remove_from_order(key);
                    proof {
                        lemma_without(old_order, key@);
                        assert forall|k: Seq<char>| self@.entries.contains_key(k) <==> self@.order.contains(k) by {
                            assert(old(self)@.entries.contains_key(k) <==> old_order.contains(k));
                        }
                    }
                    None
                } else {
                    Some(self.entries[i].1.body.clone())
                }
            },
        }
    }

    /// Stores `body` under `key` at `now`, dropping the oldest answers
    /// beyond 64.
    pub fn cache_put(&mut self, key: String, body: String, now: u64)
        requires
            old(self).wf(),
        ensures
            final(self).wf(),
            final(self)@ == store(old(self)@, key@, body@, now),
    {
        let ghost c = self@;
        let ghost es = entry_views(self.entries@);
        let ghost kv = (body@, now);
        let found = find_key(&self.entries, key.as_str());
        match found {
            Some(i) => {
                proof {
                    lemma_to_map_value(es, i as int);
                    lemma_to_map_update(es, i as int, kv);
                }
                let k = self.entries[i].0.clone();
                self.entries.set(i, (k, CachedEntry { body, inserted: now }));
                assert(entry_views(self.entries@) =~= es.update(i as int, (es[i as int].0, kv)));
            },
            None => {
                proof {
                    lemma_to_map_dom(es, key@);
                    lemma_to_map_push(es, key@, kv);
                }
                let ghost before = self.order@;
                self.order.push(key.clone());
                assert(str_views(self.order@) =~= str_views(before).push(key@));
                self.entries.push((key, CachedEntry { body, inserted: now }));
                assert(entry_views(self.entries@) =~= es.push((key@, kv)));
            },
        }
        let ghost order1 = self@.order;
        let ghost entries1 = self@.entries;
        assert(order1 == (if c.entries.contains_key(key@) { c.order } else { c.order.push(key@) }));
        assert(entries1 == c.entries.insert(key@, kv));
        proof {
            if !c.entries.contains_key(key@) {
                assert(!c.order.contains(key@));
                lemma_push_no_dup(c.order, key@);
            }
            assert forall|k: Seq<char>| entries1.contains_key(k) <==> order1.contains(k) by {
                if k == key@ && !c.entries.contains_key(key@) {
                    assert(order1[order1.len() - 1] == key@);
                }
                if order1.contains(k) && !c.order.contains(k) {
                    let j = choose|j: int| 0 <= j < order1.len() && order1[j] == k;
                    if j < c.order.len() {
                        assert(order1[j] == c.order[j]);
                    }
                }
                if c.order.contains(k) {
                    let j = choose|j: int| 0 <= j < c.order.len() && c.order[j] == k;
                    assert(order1[j] == c.order[j]);
                }
            }
        }
        let mut dropped: usize = 0;
        while self.order.len() > CACHE_MAX_ENTRIES
            invariant
                unique_keys(entry_views(self.entries@)),
                order1.no_duplicates(),
                order1.len() <= CACHE_MAX_ENTRIES + 1,
                dropped <= order1.len(),
                dropped == 0 || order1.len() - dropped >= CACHE_MAX_ENTRIES,
                self@.order == order1.skip(dropped as int),
                self.order@.len() == order1.len() - dropped,
                self@.entries == entries1.remove_keys(order1.take(dropped as int).to_set()),
                forall|k: Seq<char>| entries1.contains_key(k) <==> order1.contains(k),
            decreases self.order.len(),
        {
            assert(str_views(self.order@)[0] == self.order@[0]@);
            assert(order1.skip(dropped as int)[0] == order1[dropped as int]);
            let ghost before_order = self.order@;
            let oldest = self.order.remove(0);
            assert(oldest@ == order1[dropped as int]);
            let ghost es2 = entry_views(self.entries@);
            match find_key(&self.entries, oldest.as_str()) {
                Some(i) => {
                    proof {
                        lemma_to_map_value(es2, i as int);
                        lemma_to_map_remove(es2, i as int);
                    }
                    let _ = self.entries.remove(i);
                    assert(entry_views(self.entries@) =~= es2.remove(i as int));
                },
                None => {
                    proof {
                        lemma_to_map_dom(es2, oldest@);
                    }
                },
            }
            proof {
                assert forall|j: int| 0 <= j < self.order@.len() implies #[trigger] self.order@[j]@ == order1[dropped + 1 + j] by {
                    assert(self.order@[j] == before_order[j + 1]);
                    assert(str_views(before_order)[j + 1] == before_order[j + 1]@);
                }
                assert(str_views(self.order@) =~= order1.skip(dropped + 1));
                assert(order1.take(dropped + 1).to_set() =~= order1.take(dropped as int).to_set().insert(
                    order1[dropped as int],
                )) by {
                    assert(order1.take(dropped + 1) =~= order1.take(dropped as int).push(order1[dropped as int]));
                    order1.take(dropped as int).lemma_push_to_set_commute(order1[dropped as int]);
                }
            }
            dropped += 1;
            assert(self@.entries =~= entries1.remove_keys(order1.take(dropped as int).to_set()));
        }
        proof {
            if order1.len() > CACHE_MAX_ENTRIES {
                assert(dropped == order1.len() - CACHE_MAX_ENTRIES);
            } else {
                assert(dropped == 0);
                assert(order1.skip(0) =~= order1);
                assert(entries1.remove_keys(order1.take(0).to_set()) =~= entries1);
            }
            let o = self@.order;
            let n = dropped as int;
            assert(o.no_duplicates()) by {
                assert forall|a: int, b: int| 0 <= a < o.len() && 0 <= b < o.len() && a != b implies o[a] != o[b] by {
                    assert(o[a] == order1[a + n] && o[b] == order1[b + n]);
                }
            }
            assert forall|k: Seq<char>| self@.entries.contains_key(k) <==> o.contains(k) by {
                if o.contains(k) {
                    let j = choose|j: int| 0 <= j < o.len() && o[j] == k;
                    assert(order1[j + n] == k);
                    assert(order1.contains(k));
                    if order1.take(n).to_set().contains(k) {
                        assert(order1.take(n).contains(k));
                        let m = choose|m: int| 0 <= m < n && order1.take(n)[m] == k;
                        assert(order1[m] == k);
                    }
                }
                if self@.entries.contains_key(k) {
                    assert(order1.contains(k));
                    let j = choose|j: int| 0 <= j < order1.len() && order1[j] == k;
                    if j < n {
                        assert(order1.take(n)[j] == k);
                        assert(order1.take(n).to_set().contains(k));
                    } else {
                        assert(o[j - n] == k);
                    }
                }
            }
        }
    }
}

proof fn lemma_push_no_dup(s: Seq<Seq<char>>, k: Seq<char>)
    requires
        s.no_duplicates(),
        !s.contains(k),
    ensures
        s.push(k).no_duplicates(),
{
    let p = s.push(k);
    assert forall|a: int, b: int| 0 <= a < p.len() && 0 <= b < p.len() && a != b implies p[a] != p[b] by {
        if a == s.len() {
            assert(p[b] == s[b]);
        } else if b == s.len() {
            assert(p[a] == s[a]);
        } else {
            assert(p[a] == s[a] && p[b] == s[b]);
        }
    }
}

proof fn lemma_without(s: Seq<Seq<char>>, k: Seq<char>)
    requires
        s.no_duplicates(),
    ensures
        without(s, k).no_duplicates(),
        forall|x: Seq<char>| without(s, k).contains(x) <==> (s.contains(x) && x != k),
        without(s, k).len() <= s.len(),
    decreases s.len(),
{
    if s.len() > 0 {
        let init = s.drop_last();
        assert(init.no_duplicates()) by {
            assert forall|a: int, b: int| 0 <= a < init.len() && 0 <= b < init.len() && a != b implies init[a]
                != init[b] by {
                assert(init[a] == s[a] && init[b] == s[b]);
            }
        }
        lemma_without(init, k);
        let w = without(init, k);
        assert forall|x: Seq<char>| s.contains(x) <==> (init.contains(x) || x == s.last()) by {
            if s.contains(x) {
                let j = choose|j: int| 0 <= j < s.len() && s[j] == x;
                if j < s.len() - 1 {
                    assert(init[j] == x);
                }
            }
            if init.contains(x) {
                let j = choose|j: int| 0 <= j < init.len() && init[j] == x;
                assert(s[j] == x);
            }
            if x == s.last() {
                assert(s[s.len() - 1] == x);
            }
        }
        if s.last() != k {
            assert(!init.contains(s.last())) by {
                if init.contains(s.last()) {
                    let j = choose|j: int| 0 <= j < init.len() && init[j] == s.last();
                    assert(s[j] == s[s.len() - 1]);
                }
            }
            lemma_push_no_dup(w, s.last());
            assert forall|x: Seq<char>| w.push(s.last()).contains(x) <==> (w.contains(x) || x == s.last()) by {
                if w.push(s.last()).contains(x) {
                    let j = choose|j: int| 0 <= j < w.len() + 1 && w.push(s.last())[j] == x;
                    if j < w.len() {
                        assert(w[j] == x);
                    }
                }
                if w.contains(x) {
                    let j = choose|j: int| 0 <= j < w.len() && w[j] == x;
                    assert(w.push(s.last())[j] == x);
                }
                if x == s.last() {
                    assert(w.push(s.last())[w.len() as int] == x);
                }
            }
        }
    }
}

/// An answer just stored is what a lookup of its key gives, until it turns
/// stale: storing never evicts the key it stores.
pub proof fn law_stored_answer_is_found(c: CacheV, key: Seq<char>, body: Seq<char>, now: u64, later: u64)
    requires
        cache_wf(c),
        !stale(now, later),
    ensures
        lookup(store(c, key, body, now), key, later).0 == Some(body),
{
    let c2 = store(c, key, body, now);
    let order1 = if c.entries.contains_key(key) { c.order } else { c.order.push(key) };
    if order1.len() > CACHE_MAX_ENTRIES {
        assert(!c.entries.contains_key(key)) by {
            if c.entries.contains_key(key) {
                assert(order1.len() == c.order.len());
            }
        }
        let n = order1.len() - CACHE_MAX_ENTRIES;
        assert(n == 1);
        assert(!order1.take(n).to_set().contains(key)) by {
            if order1.take(n).to_set().contains(key) {
                assert(order1.take(n).contains(key));
                assert(order1.take(n)[0] == key);
                assert(order1[0] == key);
                assert(c.order[0] == key);
                assert(c.order.contains(key));
            }
        }
    }
}

/// One use of the cache: a lookup, or storing an answer.
pub enum CacheOp {
    Get { key: Seq<char>, now: u64 },
    Put { key: Seq<char>, body: Seq<char>, now: u64 },
}

/// The cache after one use.
pub open spec fn apply_op(c: CacheV, op: CacheOp) -> CacheV {
    match op {
        CacheOp::Get { key, now } => lookup(c, key, now).1,
        CacheOp::Put { key, body, now } => store(c, key, body, now),
    }
}

/// The cache after a sequence of uses, in order.
pub open spec fn run_ops(c: CacheV, ops: Seq<CacheOp>) -> CacheV
    decreases ops.len(),
{
    if ops.len() == 0 {
        c
    } else {
        apply_op(run_ops(c, ops.drop_last()), ops.last())
    }
}

/// The keys that come after the last occurrence of `key` in `s`.
pub open spec fn keys_after(s: Seq<Seq<char>>, key: Seq<char>) -> Seq<Seq<char>>
    decreases s.len(),
{
    if s.len() == 0 || s.last() == key {
        Seq::empty()
    } else {
        keys_after(s.drop_last(), key).push(s.last())
    }
}

proof fn lemma_no_dup_init(s: Seq<Seq<char>>)
    requires
        s.len() > 0,
        s.no_duplicates(),
    ensures
        s.drop_last().no_duplicates(),
        !s.drop_last().contains(s.last()),
{
    let init = s.drop_last();
    assert forall|a: int, b: int| 0 <= a < init.len() && 0 <= b < init.len() && a != b implies init[a] != init[b] by {
        assert(init[a] == s[a] && init[b] == s[b]);
    }
    if init.contains(s.last()) {
        let j = choose|j: int| 0 <= j < init.len() && init[j] == s.last();
        assert(s[j] == s[s.len() - 1]);
    }
}

proof fn lemma_keys_after(s: Seq<Seq<char>>, key: Seq<char>)
    ensures
        forall|x: Seq<char>| #[trigger] keys_after(s, key).contains(x) ==> s.contains(x) && x != key,
        s.no_duplicates() ==> keys_after(s, key).no_duplicates(),
    decreases s.len(),
{
    if s.len() > 0 && s.last() != key {
        let init = s.drop_last();
        lemma_keys_after(init, key);
        let a = keys_after(init, key);
        assert forall|x: Seq<char>| #[trigger] keys_after(s, key).contains(x) implies s.contains(x) && x != key by {
            let j = choose|j: int| 0 <= j < a.len() + 1 && a.push(s.last())[j] == x;
            if j < a.len() {
                assert(a[j] == x);
                assert(a.contains(x));
                let m = choose|m: int| 0 <= m < init.len() && init[m] == x;
                assert(s[m] == x);
            } else {
                assert(s[s.len() - 1] == x);
            }
        }
        if s.no_duplicates() {
            lemma_no_dup_init(s);
            if a.contains(s.last()) {
                assert(init.contains(s.last()));
            }
            lemma_push_no_dup(a, s.last());
        }
    }
}

proof fn lemma_keys_after_without(s: Seq<Seq<char>>, key: Seq<char>, k: Seq<char>)
    requires
        k != key,
    ensures
        forall|x: Seq<char>| #[trigger] keys_after(without(s, k), key).contains(x) ==> keys_after(s, key).contains(x),
    decreases s.len(),
{
    if s.len() > 0 {
        let init = s.drop_last();
        lemma_keys_after_without(init, key, k);
        let w = without(init, k);
        if s.last() == key {
            assert(without(s, k) == w.push(key));
            assert(w.push(key).drop_last() =~= w);
            assert(keys_after(without(s, k), key) =~= Seq::<Seq<char>>::empty());
        } else if s.last() == k {
            assert forall|x: Seq<char>| #[trigger] keys_after(without(s, k), key).contains(x) implies keys_after(s, key).contains(x) by {
                let a = keys_after(init, key);
                let j = choose|j: int| 0 <= j < a.len() && a[j] == x;
                assert(a.push(s.last())[j] == x);
            }
        } else {
            assert(without(s, k) == w.push(s.last()));
            assert(w.push(s.last()).drop_last() =~= w);
            let b = keys_after(w, key);
            let a = keys_after(init, key);
            assert forall|x: Seq<char>| #[trigger] keys_after(without(s, k), key).contains(x) implies keys_after(s, key).contains(x) by {
                let j = choose|j: int| 0 <= j < b.len() + 1 && b.push(s.last())[j] == x;
                if j < b.len() {
                    assert(b[j] == x);
                    assert(b.contains(x));
                    assert(a.contains(x));
                    let m = choose|m: int| 0 <= m < a.len() && a[m] == x;
                    assert(a.push(s.last())[m] == x);
                } else {
                    assert(a.push(s.last())[a.len() as int] == x);
                }
            }
        }
    }
}

proof fn lemma_keys_after_push(s: Seq<Seq<char>>, key: Seq<char>, k: Seq<char>)
    requires
        k != key,
    ensures
        keys_after(s.push(k), key) == keys_after(s, key).push(k),
{
    assert(s.push(k).drop_last() =~= s);
}

proof fn lemma_keys_after_skip1(s: Seq<Seq<char>>, key: Seq<char>)
    requires
        s.len() > 0,
        s[0] != key,
    ensures
        forall|x: Seq<char>| #[trigger] keys_after(s.skip(1), key).contains(x) ==> keys_after(s, key).contains(x),
    decreases s.len(),
{
    if s.len() == 1 {
        assert(s.skip(1) =~= Seq::<Seq<char>>::empty());
    } else if s.last() == key {
        assert(s.skip(1).last() == key);
    } else {
        let init = s.drop_last();
        lemma_keys_after_skip1(init, key);
        assert(s.skip(1).drop_last() =~= init.skip(1));
        assert(s.skip(1).last() == s.last());
        let b = keys_after(init.skip(1), key);
        let a = keys_after(init, key);
        assert(keys_after(s.skip(1), key) == b.push(s.last()));
        assert forall|x: Seq<char>| #[trigger] keys_after(s.skip(1), key).contains(x) implies keys_after(s, key).contains(x) by {
            let j = choose|j: int| 0 <= j < b.len() + 1 && b.push(s.last())[j] == x;
            if j < b.len() {
                assert(b[j] == x);
                assert(b.contains(x));
                assert(a.contains(x));
                let m = choose|m: int| 0 <= m < a.len() && a[m] == x;
                assert(a.push(s.last())[m] == x);
            } else {
                assert(a.push(s.last())[a.len() as int] == x);
            }
        }
    }
}

proof fn lemma_keys_after_front(s: Seq<Seq<char>>, key: Seq<char>)
    requires
        s.len() > 0,
        s[0] == key,
        s.no_duplicates(),
    ensures
        keys_after(s, key).len() == s.len() - 1,
    decreases s.len(),
{
    if s.len() > 1 {
        assert(s.last() != key) by {
            assert(s[s.len() - 1] != s[0]);
        }
        lemma_no_dup_init(s);
        lemma_keys_after_front(s.drop_last(), key);
    }
}

/// Storing keeps the cache consistent.
proof fn lemma_store_wf(c: CacheV, key: Seq<char>, body: Seq<char>, now: u64)
    requires
        cache_wf(c),
    ensures
        cache_wf(store(c, key, body, now)),
{
    law_cache_bounded(c, key, body, now);
    let order1 = if c.entries.contains_key(key) { c.order } else { c.order.push(key) };
    let entries1 = c.entries.insert(key, (body, now));
    if !c.entries.contains_key(key) {
        lemma_push_no_dup(c.order, key);
    }
    assert forall|k: Seq<char>| order1.contains(k) implies entries1.contains_key(k) by {
        let j = choose|j: int| 0 <= j < order1.len() && order1[j] == k;
        if j < c.order.len() {
            assert(c.order[j] == k);
            assert(c.order.contains(k));
        }
    }
    let c2 = store(c, key, body, now);
    if order1.len() > CACHE_MAX_ENTRIES {
        let n = order1.len() - CACHE_MAX_ENTRIES;
        let o = order1.skip(n);
        assert(o.no_duplicates()) by {
            assert forall|a: int, b: int| 0 <= a < o.len() && 0 <= b < o.len() && a != b implies o[a] != o[b] by {
                assert(o[a] == order1[a + n] && o[b] == order1[b + n]);
            }
        }
        assert forall|k: Seq<char>| o.contains(k) implies c2.entries.contains_key(k) by {
            let j = choose|j: int| 0 <= j < o.len() && o[j] == k;
            assert(order1[j + n] == k);
            assert(order1.contains(k));
            if order1.take(n).to_set().contains(k) {
                assert(order1.take(n).contains(k));
                let m = choose|m: int| 0 <= m < n && order1.take(n)[m] == k;
                assert(order1[m] == k);
            }
        }
    }
}

/// A lookup keeps the cache consistent.
pub proof fn lemma_lookup_wf(c: CacheV, key: Seq<char>, now: u64)
    requires
        cache_wf(c),
    ensures
        cache_wf(lookup(c, key, now).1),
{
    lemma_without(c.order, key);
    let c2 = lookup(c, key, now).1;
    assert forall|k: Seq<char>| c2.entries.contains_key(k) <==> c2.order.contains(k) by {
        assert(c.entries.contains_key(k) <==> c.order.contains(k));
    }
}

/// One use of the cache, other than storing `key` or a stale lookup of it,
/// keeps `key`'s answer and keeps every key after it among `others`, as long
/// as the uses store only keys of `others`, fewer than 64 of them.
proof fn lemma_op_keeps_answer(
    c: CacheV,
    key: Seq<char>,
    body: Seq<char>,
    t: u64,
    op: CacheOp,
    others: Set<Seq<char>>,
)
    requires
        cache_wf(c),
        c.entries.contains_key(key),
        c.entries[key] == (body, t),
        others.finite(),
        others.len() < CACHE_MAX_ENTRIES,
        !others.contains(key),
        forall|x: Seq<char>| #[trigger] keys_after(c.order, key).contains(x) ==> others.contains(x),
        match op {
            CacheOp::Put { key: k, .. } => others.contains(k),
            CacheOp::Get { key: k, now } => k == key ==> !stale(t, now),
        },
    ensures
        cache_wf(apply_op(c, op)),
        apply_op(c, op).entries.contains_key(key),
        apply_op(c, op).entries[key] == (body, t),
        forall|x: Seq<char>| #[trigger] keys_after(apply_op(c, op).order, key).contains(x) ==> others.contains(x),
{
    match op {
        CacheOp::Get { key: k, now } => {
            lemma_lookup_wf(c, k, now);
            if k != key {
                lemma_keys_after_without(c.order, key, k);
            }
        },
        CacheOp::Put { key: k, body: b, now } => {
            lemma_store_wf(c, k, b, now);
            let order1 = if c.entries.contains_key(k) { c.order } else { c.order.push(k) };
            if !c.entries.contains_key(k) {
                lemma_keys_after_push(c.order, key, k);
                lemma_push_no_dup(c.order, k);
            }
            assert forall|x: Seq<char>| #[trigger] keys_after(order1, key).contains(x) implies others.contains(x) by {
                if !c.entries.contains_key(k) {
                    let a = keys_after(c.order, key);
                    let j = choose|j: int| 0 <= j < a.len() + 1 && a.push(k)[j] == x;
                    if j < a.len() {
                        assert(a[j] == x);
                        assert(a.contains(x));
                    }
                }
            }
            if order1.len() > CACHE_MAX_ENTRIES {
                let n = order1.len() - CACHE_MAX_ENTRIES;
                assert(n == 1);
                assert(c.order.contains(key));
                assert(order1[0] != key) by {
                    if order1[0] == key {
                        lemma_keys_after_front(order1, key);
                        lemma_keys_after(order1, key);
                        let a = keys_after(order1, key);
                        a.unique_seq_to_set();
                        assert(a.to_set().subset_of(others));
                        vstd::set_lib::lemma_len_subset(a.to_set(), others);
                    }
                }
                assert(order1.take(1).to_set() =~= set![order1[0]]) by {
                    assert(order1.take(1) =~= seq![order1[0]]);
                    assert forall|x: Seq<char>| order1.take(1).to_set().contains(x) <==> x == order1[0] by {
                        if x == order1[0] {
                            assert(order1.take(1)[0] == x);
                        }
                    }
                }
                lemma_keys_after_skip1(order1, key);
            }
        },
    }
}

proof fn lemma_ops_keep_answer(
    c: CacheV,
    key: Seq<char>,
    body: Seq<char>,
    t: u64,
    ops: Seq<CacheOp>,
    others: Set<Seq<char>>,
)
    requires
        cache_wf(c),
        c.entries.contains_key(key),
        c.entries[key] == (body, t),
        others.finite(),
        others.len() < CACHE_MAX_ENTRIES,
        !others.contains(key),
        forall|x: Seq<char>| #[trigger] keys_after(c.order, key).contains(x) ==> others.contains(x),
        forall|i: int| 0 <= i < ops.len() ==> match #[trigger] ops[i] {
            CacheOp::Put { key: k, .. } => others.contains(k),
            CacheOp::Get { key: k, now } => k == key ==> !stale(t, now),
        },
    ensures
        cache_wf(run_ops(c, ops)),
        run_ops(c, ops).entries.contains_key(key),
        run_ops(c, ops).entries[key] == (body, t),
        forall|x: Seq<char>| #[trigger] keys_after(run_ops(c, ops).order, key).contains(x) ==> others.contains(x),
    decreases ops.len(),
{
    if ops.len() > 0 {
        let init = ops.drop_last();
        assert forall|i: int| 0 <= i < init.len() implies match #[trigger] init[i] {
            CacheOp::Put { key: k, .. } => others.contains(k),
            CacheOp::Get { key: k, now } => k == key ==> !stale(t, now),
        } by {
            assert(init[i] == ops[i]);
        }
        lemma_ops_keep_answer(c, key, body, t, init, others);
        let last = ops[ops.len() - 1];
        assert(match last {
            CacheOp::Put { key: k, .. } => others.contains(k),
            CacheOp::Get { key: k, now } => k == key ==> !stale(t, now),
        });
        lemma_op_keeps_answer(run_ops(c, init), key, body, t, last, others);
    }
}

/// An answer stored under a key that was not cached is what a later lookup
/// of that key gives, as long as it is not stale then, whatever other keys
/// were looked up in between and whatever keys other than it were stored,
/// when those are fewer than 64.
pub proof fn law_answer_outlives_other_stores(
    c: CacheV,
    key: Seq<char>,
    body: Seq<char>,
    t: u64,
    ops: Seq<CacheOp>,
    others: Set<Seq<char>>,
    later: u64,
)
    requires
        cache_wf(c),
        !c.entries.contains_key(key),
        others.finite(),
        others.len() < CACHE_MAX_ENTRIES,
        !others.contains(key),
        forall|i: int| 0 <= i < ops.len() ==> match #[trigger] ops[i] {
            CacheOp::Put { key: k, .. } => others.contains(k),
            CacheOp::Get { key: k, now } => k == key ==> !stale(t, now),
        },
        !stale(t, later),
    ensures
        lookup(run_ops(store(c, key, body, t), ops), key, later).0 == Some(body),
{
    lemma_store_wf(c, key, body, t);
    let c1 = store(c, key, body, t);
    let order1 = c.order.push(key);
    assert(order1.drop_last() =~= c.order);
    assert(keys_after(order1, key) =~= Seq::<Seq<char>>::empty());
    if order1.len() > CACHE_MAX_ENTRIES {
        let n = order1.len() - CACHE_MAX_ENTRIES;
        assert(n == 1);
        assert(order1[0] != key) by {
            assert(c.order.len() > 0);
            assert(c.order.contains(c.order[0]));
        }
        assert(order1.take(1).to_set().contains(key) ==> order1.take(1).contains(key));
        assert(order1.take(1).contains(key) ==> order1[0] == key) by {
            if order1.take(1).contains(key) {
                let j = choose|j: int| 0 <= j < 1 && order1.take(1)[j] == key;
                assert(order1.take(1)[j] == order1[j]);
            }
        }
        lemma_keys_after_skip1(order1, key);
    }
    lemma_ops_keep_answer(c1, key, body, t, ops, others);
}

/// A lookup never gives a stale answer.
pub proof fn law_stale_answer_is_dropped(c: CacheV, key: Seq<char>, now: u64)
    requires
        c.entries.contains_key(key),
        stale(c.entries[key].1, now),
    ensures
        lookup(c, key, now).0 is None,
        !lookup(c, key, now).1.entries.contains_key(key),
{
}

/// The cache never holds more than 64 answers.
pub proof fn law_cache_bounded(c: CacheV, key: Seq<char>, body: Seq<char>, now: u64)
    requires
        cache_wf(c),
    ensures
        store(c, key, body, now).order.len() <= CACHE_MAX_ENTRIES,
        forall|k: Seq<char>| #[trigger] store(c, key, body, now).entries.contains_key(k) ==> store(
            c,
            key,
            body,
            now,
        ).order.contains(k),
{
    let order1 = if c.entries.contains_key(key) { c.order } else { c.order.push(key) };
    let entries1 = c.entries.insert(key, (body, now));
    assert forall|k: Seq<char>| #[trigger] entries1.contains_key(k) implies order1.contains(k) by {
        if k == key && !c.entries.contains_key(key) {
            assert(order1[order1.len() - 1] == key);
        } else if k != key {
            assert(c.order.contains(k));
            let j = choose|j: int| 0 <= j < c.order.len() && c.order[j] == k;
            assert(order1[j] == k);
        } else {
            assert(c.order.contains(k));
        }
    }
    if order1.len() > CACHE_MAX_ENTRIES {
        let n = order1.len() - CACHE_MAX_ENTRIES;
        assert forall|k: Seq<char>| #[trigger] store(c, key, body, now).entries.contains_key(k) implies store(
            c,
            key,
            body,
            now,
        ).order.contains(k) by {
            assert(entries1.contains_key(k));
            assert(!order1.take(n).to_set().contains(k));
            let j = choose|j: int| 0 <= j < order1.len() && order1[j] == k;
            if j < n {
                assert(order1.take(n)[j] == k);
                assert(order1.take(n).contains(k));
            } else {
                assert(order1.skip(n)[j - n] == k);
            }
        }
    }
}

} // verus!
