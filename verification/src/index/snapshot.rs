//! Lists kept per key, and snapshots of such maps taken entry by entry.
use vstd::prelude::*;

use crate::text::{ends_with, str_ends_with};

verus! {

/// The list a map holds for `k`, empty when it holds none.
pub open spec fn list_at<T>(m: Map<Seq<char>, Seq<T>>, k: Seq<char>) -> Seq<T> {
    if m.contains_key(k) { m[k] } else { Seq::empty() }
}

/// The names a document's list holds, with `n` appended unless it is there already.
pub open spec fn with_name(names: Seq<Seq<char>>, n: Seq<char>) -> Seq<Seq<char>> {
    if names.contains(n) { names } else { names.push(n) }
}

/// The elements of every list of a snapshot, in snapshot order.
pub open spec fn flatten<T>(e: Seq<(String, Vec<T>)>) -> Seq<T>
    decreases e.len(),
{
    if e.len() == 0 { Seq::empty() } else { flatten(e.drop_last()) + e.last().1@ }
}

/// The elements of the lists of a snapshot whose key ends with `suffix`, in snapshot order.
pub open spec fn flatten_suffixed<T>(e: Seq<(String, Vec<T>)>, suffix: Seq<char>) -> Seq<T>
    decreases e.len(),
{
    if e.len() == 0 {
        Seq::empty()
    } else if ends_with(e.last().0@, suffix) {
        flatten_suffixed(e.drop_last(), suffix) + e.last().1@
    } else {
        flatten_suffixed(e.drop_last(), suffix)
    }
}

/// The name is listed after `with_name`.
pub proof fn lemma_with_name_contains(names: Seq<Seq<char>>, n: Seq<char>)
    ensures
        with_name(names, n).contains(n),
{
    if !names.contains(n) {
        assert(names.push(n)[names.len() as int] == n);
    }
}

/// All lists of a snapshot, joined in snapshot order.
pub fn flatten_entries<T>(entries: Vec<(String, Vec<T>)>) -> (r: Vec<T>)
    ensures
        r@ == flatten(entries@),
{
    let ghost all = entries@;
    let mut rest = entries;
    let mut r: Vec<T> = Vec::new();
    while rest.len() > 0
        invariant
            rest@.len() <= all.len(),
            rest@ == all.skip(all.len() - rest@.len()),
            r@ == flatten(all.take(all.len() - rest@.len())),
        decreases rest.len(),
    {
        let ghost k = all.len() - rest@.len();
        let (_key, mut list) = rest.remove(0);
        proof {
            assert(all.take(k + 1).drop_last() =~= all.take(k));
            assert(rest@ =~= all.skip(k + 1));
        }
        r.append(&mut list);
    }
    proof { assert(all.take(all.len() as int) =~= all); }
    r
}

/// The lists of a snapshot whose key ends with `suffix`, joined in snapshot order.
pub fn flatten_suffixed_entries<T>(entries: Vec<(String, Vec<T>)>, suffix: &str) -> (r: Vec<T>)
    ensures
        r@ == flatten_suffixed(entries@, suffix@),
{
    let ghost all = entries@;
    let mut rest = entries;
    let mut r: Vec<T> = Vec::new();
    while rest.len() > 0
        invariant
            rest@.len() <= all.len(),
            rest@ == all.skip(all.len() - rest@.len()),
            r@ == flatten_suffixed(all.take(all.len() - rest@.len()), suffix@),
        decreases rest.len(),
    {
        let ghost k = all.len() - rest@.len();
        let (key, mut list) = rest.remove(0);
        proof {
            assert(all.take(k + 1).drop_last() =~= all.take(k));
            assert(rest@ =~= all.skip(k + 1));
        }
        if str_ends_with(&key, suffix) {
            r.append(&mut list);
        }
    }
    proof { assert(all.take(all.len() as int) =~= all); }
    r
}

/// The elements of `s` whose flag in `keep` is set, in order.
pub open spec fn picked<T>(s: Seq<T>, keep: Seq<bool>) -> Seq<T>
    decreases s.len(),
{
    if s.len() == 0 {
        Seq::empty()
    } else {
        let p = picked(s.drop_last(), keep);
        if keep[s.len() - 1] { p.push(s.last()) } else { p }
    }
}


/// Every element of every list of a snapshot is among its flattened elements.
pub proof fn lemma_flatten_holds<T>(e: Seq<(String, Vec<T>)>, i: int, j: int)
    requires
        0 <= i < e.len(),
        0 <= j < e[i].1@.len(),
    ensures
        flatten(e).contains(e[i].1@[j]),
    decreases e.len(),
{
    let p = flatten(e.drop_last());
    if i < e.len() - 1 {
        assert(e.drop_last()[i] == e[i]);
        lemma_flatten_holds(e.drop_last(), i, j);
        let x = choose|x: int| 0 <= x < p.len() && p[x] == e[i].1@[j];
        assert(flatten(e)[x] == e[i].1@[j]);
    } else {
        assert(flatten(e)[p.len() + j] == e[i].1@[j]);
    }
}

/// Every element a map's lists hold is among the flattened elements of a snapshot of it.
pub proof fn lemma_snapshot_flatten_holds<T>(e: Seq<(String, Vec<T>)>, m: Map<Seq<char>, Seq<T>>, k: Seq<char>, j: int)
    requires
        crate::index::tables::list_snapshot_of(e, m),
        m.contains_key(k),
        0 <= j < m[k].len(),
    ensures
        flatten(e).contains(m[k][j]),
{
    let i = choose|i: int| 0 <= i < e.len() && #[trigger] e[i].0@ == k;
    assert(m.contains_key(e[i].0@) && m[e[i].0@] == e[i].1@);
    lemma_flatten_holds(e, i, j);
}

} // verus!
