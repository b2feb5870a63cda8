//! The interpolation symbols (`{{` and `}}`, or what `$interpolateProvider` sets in a
//! script), per script and as resolved for the workspace.
use vstd::prelude::*;

use crate::index::tables::{
    interpolation_map, interpolation_map_entries, interpolation_map_get, interpolation_map_insert,
    interpolation_map_new, interpolation_map_remove, snapshot_of,
};
use crate::text::chars_of;

verus! {

/// `a` comes before `b` in the order of their characters' code points (a prefix first).
pub open spec fn text_lt(a: Seq<char>, b: Seq<char>) -> bool
    decreases a.len(),
{
    if a.len() == 0 {
        b.len() > 0
    } else if b.len() == 0 {
        false
    } else if a[0] != b[0] {
        a[0] < b[0]
    } else {
        text_lt(a.skip(1), b.skip(1))
    }
}

/// The order of texts is transitive.
pub proof fn lemma_text_lt_transitive(a: Seq<char>, b: Seq<char>, c: Seq<char>)
    requires
        text_lt(a, b),
        text_lt(b, c),
    ensures
        text_lt(a, c),
    decreases a.len(),
{
    if a.len() > 0 && b.len() > 0 && c.len() > 0 && a[0] == b[0] && b[0] == c[0] {
        lemma_text_lt_transitive(a.skip(1), b.skip(1), c.skip(1));
    }
}

/// The order of texts is irreflexive and asymmetric.
pub proof fn lemma_text_lt_asymmetric(a: Seq<char>, b: Seq<char>)
    ensures
        !(text_lt(a, b) && text_lt(b, a)),
    decreases a.len(),
{
    if a.len() > 0 && b.len() > 0 && a[0] == b[0] {
        lemma_text_lt_asymmetric(a.skip(1), b.skip(1));
    }
}

/// Distinct texts are ordered one way or the other.
pub proof fn lemma_text_lt_total(a: Seq<char>, b: Seq<char>)
    requires
        a != b,
    ensures
        text_lt(a, b) || text_lt(b, a),
    decreases a.len(),
{
    if a.len() > 0 && b.len() > 0 && a[0] == b[0] {
        assert(a.skip(1) != b.skip(1)) by {
            if a.skip(1) == b.skip(1) {
                assert(a =~= seq![a[0]] + a.skip(1));
                assert(b =~= seq![b[0]] + b.skip(1));
            }
        }
        lemma_text_lt_total(a.skip(1), b.skip(1));
    } else if a.len() == 0 && b.len() == 0 {
        assert(a =~= b);
    }
}

/// Whether the characters of `a` come before those of `b`.
pub fn str_lt(a: &str, b: &str) -> (r: bool)
    ensures
        r == text_lt(a@, b@),
{
    let x = chars_of(a);
    let y = chars_of(b);
    let mut i: usize = 0;
    proof {
        assert(a@.skip(0) =~= a@);
        assert(b@.skip(0) =~= b@);
    }
    while i < x.len() && i < y.len() && x[i] == y[i]
        invariant
            i <= x@.len(),
            i <= y@.len(),
            x@ == a@,
            y@ == b@,
            text_lt(a@, b@) == text_lt(a@.skip(i as int), b@.skip(i as int)),
        decreases x.len() - i,
    {
        proof {
            let s = a@.skip(i as int);
            let t = b@.skip(i as int);
            assert(s.skip(1) =~= a@.skip(i + 1));
            assert(t.skip(1) =~= b@.skip(i + 1));
        }
        i += 1;
    }
    if i == x.len() {
        i < y.len()
    } else if i == y.len() {
        false
    } else {
        x[i] < y[i]
    }
}

/// The symbol of side `start` (else the end symbol) that a script sets, if it does.
pub open spec fn side(v: (Option<String>, Option<String>), start: bool) -> Option<String> {
    if start { v.0 } else { v.1 }
}

/// `k` is the first script, in text order, that sets the symbol of side `start`.
pub open spec fn first_setter(m: Map<Seq<char>, (Option<String>, Option<String>)>, start: bool, k: Seq<char>) -> bool {
    &&& m.contains_key(k)
    &&& side(m[k], start) is Some
    &&& forall|k2: Seq<char>| #[trigger] m.contains_key(k2) && side(m[k2], start) is Some ==> !text_lt(k2, k)
}

/// The symbol of side `start` in effect: that of the first script, in text order, that
/// sets one, else the default.
pub open spec fn resolved_side(m: Map<Seq<char>, (Option<String>, Option<String>)>, start: bool, r: Seq<char>) -> bool {
    if exists|k: Seq<char>| #[trigger] m.contains_key(k) && side(m[k], start) is Some {
        exists|k: Seq<char>| first_setter(m, start, k) && side(m[k], start).unwrap()@ == r
    } else {
        r == if start { "{{"@ } else { "}}"@ }
    }
}

/// What each script sets for the interpolation symbols.
pub struct InterpolateStore {
    js_detected: dashmap::DashMap<String, (Option<String>, Option<String>)>,
}

impl InterpolateStore {
    /// The start and end symbols each script sets.
    pub closed spec fn view(&self) -> Map<Seq<char>, (Option<String>, Option<String>)> {
        interpolation_map(self.js_detected)
    }

    pub fn new() -> (r: Self)
        ensures
            r@ =~= Map::empty(),
    {
        InterpolateStore { js_detected: interpolation_map_new() }
    }

    /// Records that `uri` sets the start symbol to `symbol`.
    pub fn set_start_symbol(&mut self, uri: String, symbol: String)
        ensures
            final(self)@ == old(self)@.insert(uri@, (Some(symbol),
                if old(self)@.contains_key(uri@) { old(self)@[uri@].1 } else { None })),
    {
        let end = match interpolation_map_get(&self.js_detected, &uri) {
            Some(v) => v.1,
            None => None,
        };
        interpolation_map_insert(&mut self.js_detected, uri, (Some(symbol), end));
    }

    /// Records that `uri` sets the end symbol to `symbol`.
    pub fn set_end_symbol(&mut self, uri: String, symbol: String)
        ensures
            final(self)@ == old(self)@.insert(uri@, (
                if old(self)@.contains_key(uri@) { old(self)@[uri@].0 } else { None }, Some(symbol))),
    {
        let start = match interpolation_map_get(&self.js_detected, &uri) {
            Some(v) => v.0,
            None => None,
        };
        interpolation_map_insert(&mut self.js_detected, uri, (start, Some(symbol)));
    }

    /// Forgets what `uri` set.
    pub fn clear_document(&mut self, uri: &str)
        ensures
            final(self)@ == old(self)@.remove(uri@),
    {
        interpolation_map_remove(&mut self.js_detected, uri);
    }

    pub fn clear_all(&mut self)
        ensures
            final(self)@ =~= Map::empty(),
    {
        self.js_detected = interpolation_map_new();
    }

    /// Every script with what it sets, in the map's own order.
    pub fn iter_js_detected_for_cache(&self) -> (r: Vec<(String, Option<String>, Option<String>)>)
        ensures
            exists|e: Seq<(String, (Option<String>, Option<String>))>| snapshot_of(e, self@)
                && r@ == e.map_values(|p: (String, (Option<String>, Option<String>))| (p.0, p.1.0, p.1.1)),
    {
        let entries = interpolation_map_entries(&self.js_detected);
        let ghost e = entries@;
        let mut rest = entries;
        let mut r: Vec<(String, Option<String>, Option<String>)> = Vec::new();
        while rest.len() > 0
            invariant
                rest@.len() <= e.len(),
                rest@ == e.skip(e.len() - rest@.len()),
                r@ == e.take(e.len() - rest@.len()).map_values(|p: (String, (Option<String>, Option<String>))| (p.0, p.1.0, p.1.1)),
            decreases rest.len(),
        {
            let ghost k = e.len() - rest@.len();
            let (uri, (s, t)) = rest.remove(0);
            proof { assert(rest@ =~= e.skip(k + 1)); }
            r.push((uri, s, t));
            proof {
                assert(e.take(k + 1).map_values(|p: (String, (Option<String>, Option<String>))| (p.0, p.1.0, p.1.1))
                    =~= e.take(k).map_values(|p: (String, (Option<String>, Option<String>))| (p.0, p.1.0, p.1.1)).push((e[k].0, e[k].1.0, e[k].1.1)));
            }
        }
        proof {
            assert(e.take(e.len() as int) =~= e);
            assert(snapshot_of(e, self@));
        }
        r
    }

    /// Restores what `uri` set, unless it set nothing.
    pub fn restore_from_cache(&mut self, uri: String, start: Option<String>, end: Option<String>)
        ensures
            if start is None && end is None { final(self)@ == old(self)@ } else { final(self)@ == old(self)@.insert(uri@, (start, end)) },
    {
        if start.is_none() && end.is_none() {
            return;
        }
        interpolation_map_insert(&mut self.js_detected, uri, (start, end));
    }

    /// The start and end symbols in effect: each that of the first script, in text order,
    /// that sets it, else `{{` and `}}`.
    pub fn resolved(&self) -> (r: (String, String))
        ensures
            resolved_side(self@, true, r.0@),
            resolved_side(self@, false, r.1@),
    {
        let entries = interpolation_map_entries(&self.js_detected);
        let start = best_setter(&entries, true);
        let end = best_setter(&entries, false);
        let s = match start {
            Some(i) => match &entries[i].1.0 {
                Some(x) => x.clone(),
                None => "{{".to_owned(),
            },
            None => "{{".to_owned(),
        };
        proof { reveal_strlit("{{"); }
        let t = match end {
            Some(i) => match &entries[i].1.1 {
                Some(x) => x.clone(),
                None => "}}".to_owned(),
            },
            None => "}}".to_owned(),
        };
        proof { reveal_strlit("}}"); }
        proof {
            reveal_strlit("{{");
            reveal_strlit("}}");
            lemma_resolved_from(self@, entries@, true, start, s@);
            lemma_resolved_from(self@, entries@, false, end, t@);
        }
        (s, t)
    }
}

/// What `best_setter` found decides the symbol in effect.
proof fn lemma_resolved_from(
    m: Map<Seq<char>, (Option<String>, Option<String>)>,
    e: Seq<(String, (Option<String>, Option<String>))>,
    start: bool,
    found: Option<usize>,
    r: Seq<char>,
)
    requires
        snapshot_of(e, m),
        match found {
            Some(i) => i < e.len() && side(e[i as int].1, start) is Some && side(e[i as int].1, start).unwrap()@ == r
                && forall|j: int| 0 <= j < e.len() && side((#[trigger] e[j]).1, start) is Some
                    ==> !text_lt(e[j].0@, e[i as int].0@),
            None => (forall|j: int| 0 <= j < e.len() ==> side((#[trigger] e[j]).1, start) is None)
                && r == if start { "{{"@ } else { "}}"@ },
        },
    ensures
        resolved_side(m, start, r),
{
    match found {
        Some(i) => {
            let k = e[i as int].0@;
            assert(m.contains_key(k));
            assert forall|k2: Seq<char>| #[trigger] m.contains_key(k2) && side(m[k2], start) is Some
                implies !text_lt(k2, k) by {
                let j2 = choose|j2: int| 0 <= j2 < e.len() && #[trigger] e[j2].0@ == k2;
                assert(side(e[j2].1, start) is Some);
            }
            assert(first_setter(m, start, k));
        },
        None => {
            assert forall|k: Seq<char>| #[trigger] m.contains_key(k) implies side(m[k], start) is None by {
                let j2 = choose|j2: int| 0 <= j2 < e.len() && #[trigger] e[j2].0@ == k;
                assert(side(e[j2].1, start) is None);
            }
        },
    }
}

/// Where in a snapshot the first script, in text order, that sets side `start` stands.
fn best_setter(entries: &Vec<(String, (Option<String>, Option<String>))>, start: bool) -> (r: Option<usize>)
    requires
        forall|i: int, j: int| 0 <= i < j < entries@.len() ==> entries@[i].0@ != entries@[j].0@,
    ensures
        match r {
            Some(i) => i < entries@.len() && side(entries@[i as int].1, start) is Some
                && forall|j: int| 0 <= j < entries@.len() && side((#[trigger] entries@[j]).1, start) is Some
                    ==> !text_lt(entries@[j].0@, entries@[i as int].0@),
            None => forall|j: int| 0 <= j < entries@.len() ==> side((#[trigger] entries@[j]).1, start) is None,
        },
{
    let mut best: Option<usize> = None;
    let mut i: usize = 0;
    while i < entries.len()
        invariant
            i <= entries@.len(),
            forall|a: int, b: int| 0 <= a < b < entries@.len() ==> entries@[a].0@ != entries@[b].0@,
            match best {
                Some(b) => b < i && side(entries@[b as int].1, start) is Some
                    && forall|j: int| 0 <= j < i && side((#[trigger] entries@[j]).1, start) is Some
                        ==> !text_lt(entries@[j].0@, entries@[b as int].0@),
                None => forall|j: int| 0 <= j < i ==> side((#[trigger] entries@[j]).1, start) is None,
            },
        decreases entries.len() - i,
    {
        let has = if start { entries[i].1.0.is_some() } else { entries[i].1.1.is_some() };
        if has {
            let replace = match best {
                None => true,
                Some(b) => str_lt(&entries[i].0, &entries[b].0),
            };
            if replace {
                proof {
                    if best is Some {
                        let b = best.unwrap();
                        assert forall|j: int| 0 <= j < i + 1 && side((#[trigger] entries@[j]).1, start) is Some
                            implies !text_lt(entries@[j].0@, entries@[i as int].0@) by {
                            if j < i {
                                if text_lt(entries@[j].0@, entries@[i as int].0@) {
                                    lemma_text_lt_transitive(entries@[j].0@, entries@[i as int].0@, entries@[b as int].0@);
                                }
                            } else {
                                lemma_text_lt_asymmetric(entries@[i as int].0@, entries@[i as int].0@);
                            }
                        }
                    } else {
                        assert forall|j: int| 0 <= j < i + 1 && side((#[trigger] entries@[j]).1, start) is Some
                            implies !text_lt(entries@[j].0@, entries@[i as int].0@) by {
                            lemma_text_lt_asymmetric(entries@[i as int].0@, entries@[i as int].0@);
                        }
                    }
                }
                best = Some(i);
            } else {
                proof {
                    let b = best.unwrap();
                    lemma_text_lt_asymmetric(entries@[i as int].0@, entries@[b as int].0@);
                    lemma_text_lt_total(entries@[i as int].0@, entries@[b as int].0@);
                }
            }
        }
        i += 1;
    }
    best
}

} // verus!
