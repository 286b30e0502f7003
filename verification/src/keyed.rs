//! Lists of entries keyed by text, read as maps.
use vstd::prelude::*;
use crate::text::same_text;

verus! {

/// The map that a list of keyed entries stands for (later entries win).
pub open spec fn to_map<V>(es: Seq<(Seq<char>, V)>) -> Map<Seq<char>, V>
    decreases es.len(),
{
    if es.len() == 0 {
        Map::empty()
    } else {
        to_map(es.subrange(0, es.len() - 1)).insert(es[es.len() - 1].0, es[es.len() - 1].1)
    }
}

/// No key occurs twice.
pub open spec fn unique_keys<V>(es: Seq<(Seq<char>, V)>) -> bool {
    forall|i: int, j: int| 0 <= i < j < es.len() ==> es[i].0 != es[j].0
}

pub proof fn lemma_to_map_dom<V>(es: Seq<(Seq<char>, V)>, k: Seq<char>)
    ensures
        to_map(es).contains_key(k) <==> exists|i: int| 0 <= i < es.len() && es[i].0 == k,
    decreases es.len(),
{
    if es.len() > 0 {
        let init = es.subrange(0, es.len() - 1);
        lemma_to_map_dom(init, k);
        if exists|i: int| 0 <= i < init.len() && init[i].0 == k {
            let i = choose|i: int| 0 <= i < init.len() && init[i].0 == k;
            assert(es[i].0 == k);
        }
        if exists|i: int| 0 <= i < es.len() && es[i].0 == k {
            let i = choose|i: int| 0 <= i < es.len() && es[i].0 == k;
            if i < es.len() - 1 {
                assert(init[i].0 == k);
            }
        }
    }
}

pub proof fn lemma_to_map_value<V>(es: Seq<(Seq<char>, V)>, i: int)
    requires
        unique_keys(es),
        0 <= i < es.len(),
    ensures
        to_map(es).contains_key(es[i].0),
        to_map(es)[es[i].0] == es[i].1,
    decreases es.len(),
{
    let init = es.subrange(0, es.len() - 1);
    if i < es.len() - 1 {
        assert(unique_keys(init)) by {
            assert forall|a: int, b: int| 0 <= a < b < init.len() implies init[a].0 != init[b].0 by {
                assert(init[a] == es[a] && init[b] == es[b]);
            }
        }
        lemma_to_map_value(init, i);
        assert(init[i] == es[i]);
        assert(es[i].0 != es[es.len() - 1].0);
    }
}

pub proof fn lemma_to_map_remove<V>(es: Seq<(Seq<char>, V)>, i: int)
    requires
        unique_keys(es),
        0 <= i < es.len(),
    ensures
        to_map(es.remove(i)) == to_map(es).remove(es[i].0),
        unique_keys(es.remove(i)),
{
    let r = es.remove(i);
    let k = es[i].0;
    assert(unique_keys(r)) by {
        assert forall|a: int, b: int| 0 <= a < b < r.len() implies r[a].0 != r[b].0 by {
            let a2 = if a < i { a } else { a + 1 };
            let b2 = if b < i { b } else { b + 1 };
            assert(r[a] == es[a2] && r[b] == es[b2]);
        }
    }
    assert forall|key: Seq<char>| #[trigger] to_map(r).contains_key(key) == to_map(es).remove(
        k,
    ).contains_key(key) by {
        lemma_to_map_dom(r, key);
        lemma_to_map_dom(es, key);
        if exists|j: int| 0 <= j < es.len() && es[j].0 == key {
            let j = choose|j: int| 0 <= j < es.len() && es[j].0 == key;
            if key != k {
                let j2 = if j < i { j } else { j - 1 };
                assert(r[j2] == es[j]);
            }
        }
        if exists|j: int| 0 <= j < r.len() && r[j].0 == key {
            let j = choose|j: int| 0 <= j < r.len() && r[j].0 == key;
            let j2 = if j < i { j } else { j + 1 };
            assert(r[j] == es[j2]);
        }
    }
    assert forall|key: Seq<char>| #[trigger] to_map(r).contains_key(key) implies to_map(r)[key]
        == to_map(es)[key] by {
        lemma_to_map_dom(r, key);
        let j = choose|j: int| 0 <= j < r.len() && r[j].0 == key;
        let j2 = if j < i { j } else { j + 1 };
        assert(r[j] == es[j2]);
        lemma_to_map_value(r, j);
        lemma_to_map_value(es, j2);
    }
    assert(to_map(r) =~= to_map(es).remove(k));
}

pub proof fn lemma_to_map_push<V>(es: Seq<(Seq<char>, V)>, k: Seq<char>, v: V)
    requires
        unique_keys(es),
        !to_map(es).contains_key(k),
    ensures
        to_map(es.push((k, v))) == to_map(es).insert(k, v),
        unique_keys(es.push((k, v))),
{
    let p = es.push((k, v));
    assert(p.subrange(0, p.len() - 1) =~= es);
    assert forall|a: int, b: int| 0 <= a < b < p.len() implies p[a].0 != p[b].0 by {
        if b == p.len() - 1 {
            lemma_to_map_dom(es, k);
            assert(p[a] == es[a]);
        } else {
            assert(p[a] == es[a] && p[b] == es[b]);
        }
    }
}

pub proof fn lemma_to_map_update<V>(es: Seq<(Seq<char>, V)>, i: int, v: V)
    requires
        unique_keys(es),
        0 <= i < es.len(),
    ensures
        to_map(es.update(i, (es[i].0, v))) == to_map(es).insert(es[i].0, v),
        unique_keys(es.update(i, (es[i].0, v))),
{
    let u = es.update(i, (es[i].0, v));
    let k = es[i].0;
    assert(unique_keys(u)) by {
        assert forall|a: int, b: int| 0 <= a < b < u.len() implies u[a].0 != u[b].0 by {
            assert(u[a].0 == es[a].0 && u[b].0 == es[b].0);
        }
    }
    assert forall|key: Seq<char>| #[trigger] to_map(u).contains_key(key) == to_map(es).insert(
        k,
        v,
    ).contains_key(key) by {
        lemma_to_map_dom(u, key);
        lemma_to_map_dom(es, key);
        if exists|j: int| 0 <= j < es.len() && es[j].0 == key {
            let j = choose|j: int| 0 <= j < es.len() && es[j].0 == key;
            assert(u[j].0 == es[j].0);
        }
        if exists|j: int| 0 <= j < u.len() && u[j].0 == key {
            let j = choose|j: int| 0 <= j < u.len() && u[j].0 == key;
            assert(u[j].0 == es[j].0);
        }
        assert(u[i].0 == k);
    }
    assert forall|key: Seq<char>| #[trigger] to_map(u).contains_key(key) implies to_map(u)[key]
        == to_map(es).insert(k, v)[key] by {
        lemma_to_map_dom(u, key);
        let j = choose|j: int| 0 <= j < u.len() && u[j].0 == key;
        lemma_to_map_value(u, j);
        if j != i {
            assert(u[j] == es[j]);
            lemma_to_map_value(es, j);
        }
    }
    assert(to_map(u) =~= to_map(es).insert(k, v));
}


/// The position of the entry with key `k`.
pub fn find_key<T>(es: &Vec<(String, T)>, k: &str) -> (r: Option<usize>)
    ensures
        match r {
            Some(i) => i < es.len() && es@[i as int].0@ == k@,
            None => forall|i: int| 0 <= i < es.len() ==> es@[i].0@ != k@,
        },
{
    let mut i: usize = 0;
    while i < es.len()
        invariant
            i <= es.len(),
            forall|j: int| 0 <= j < i ==> es@[j].0@ != k@,
        decreases es.len() - i,
    {
        if same_text(es[i].0.as_str(), k) {
            return Some(i);
        }
        i += 1;
    }
    None
}

} // verus!
