//! The services and providers that AngularJS and its usual companion modules supply.
use vstd::prelude::*;

use crate::text::str_eq;

verus! {

/// The built-in service and provider names, in a fixed order.
pub open spec fn builtin_service_names() -> Seq<Seq<char>> {
    seq![
        "$scope"@,
        "$rootScope"@,
        "$rootElement"@,
        "$injector"@,
        "$provide"@,
        "$compile"@,
        "$compileProvider"@,
        "$controller"@,
        "$controllerProvider"@,
        "$parse"@,
        "$interpolate"@,
        "$interpolateProvider"@,
        "$filter"@,
        "$filterProvider"@,
        "$http"@,
        "$httpProvider"@,
        "$httpBackend"@,
        "$httpParamSerializer"@,
        "$httpParamSerializerJQLike"@,
        "$location"@,
        "$locationProvider"@,
        "$window"@,
        "$document"@,
        "$timeout"@,
        "$interval"@,
        "$q"@,
        "$log"@,
        "$logProvider"@,
        "$exceptionHandler"@,
        "$exceptionHandlerProvider"@,
        "$cacheFactory"@,
        "$templateCache"@,
        "$templateRequest"@,
        "$sce"@,
        "$sceProvider"@,
        "$sceDelegate"@,
        "$sceDelegateProvider"@,
        "$animate"@,
        "$animateProvider"@,
        "$animateCss"@,
        "$anchorScroll"@,
        "$anchorScrollProvider"@,
        "$xhrFactory"@,
        "$jsonpCallbacks"@,
        "$browser"@,
        "$route"@,
        "$routeProvider"@,
        "$routeParams"@,
        "$resource"@,
        "$resourceProvider"@,
        "$cookies"@,
        "$cookieStore"@,
        "$cookiesProvider"@,
        "$swipe"@,
        "$sanitize"@,
        "$sanitizeProvider"@,
        "$state"@,
        "$stateProvider"@,
        "$stateParams"@,
        "$urlRouter"@,
        "$urlRouterProvider"@,
        "$urlMatcherFactory"@,
        "$urlMatcherFactoryProvider"@,
        "$transitions"@,
        "$uiRouter"@,
        "$uiRouterProvider"@,
        "$uiViewScroll"@,
        "$uiViewScrollProvider"@
    ]
}

/// The built-in names as strings, in the order of [`builtin_service_names`].
pub fn builtin_services() -> (r: Vec<&'static str>)
    ensures
        r@.len() == builtin_service_names().len(),
        forall|i: int| 0 <= i < r@.len() ==> #[trigger] r@[i]@ == builtin_service_names()[i],
{
    let r: Vec<&'static str> = vec![
        "$scope",
        "$rootScope",
        "$rootElement",
        "$injector",
        "$provide",
        "$compile",
        "$compileProvider",
        "$controller",
        "$controllerProvider",
        "$parse",
        "$interpolate",
        "$interpolateProvider",
        "$filter",
        "$filterProvider",
        "$http",
        "$httpProvider",
        "$httpBackend",
        "$httpParamSerializer",
        "$httpParamSerializerJQLike",
        "$location",
        "$locationProvider",
        "$window",
        "$document",
        "$timeout",
        "$interval",
        "$q",
        "$log",
        "$logProvider",
        "$exceptionHandler",
        "$exceptionHandlerProvider",
        "$cacheFactory",
        "$templateCache",
        "$templateRequest",
        "$sce",
        "$sceProvider",
        "$sceDelegate",
        "$sceDelegateProvider",
        "$animate",
        "$animateProvider",
        "$animateCss",
        "$anchorScroll",
        "$anchorScrollProvider",
        "$xhrFactory",
        "$jsonpCallbacks",
        "$browser",
        "$route",
        "$routeProvider",
        "$routeParams",
        "$resource",
        "$resourceProvider",
        "$cookies",
        "$cookieStore",
        "$cookiesProvider",
        "$swipe",
        "$sanitize",
        "$sanitizeProvider",
        "$state",
        "$stateProvider",
        "$stateParams",
        "$urlRouter",
        "$urlRouterProvider",
        "$urlMatcherFactory",
        "$urlMatcherFactoryProvider",
        "$transitions",
        "$uiRouter",
        "$uiRouterProvider",
        "$uiViewScroll",
        "$uiViewScrollProvider"
    ];
    assert(r@.len() == builtin_service_names().len());
    r
}

/// Whether `name` is exactly one of the built-in names.
pub fn is_builtin_service(name: &str) -> (r: bool)
    ensures
        r == builtin_service_names().contains(name@),
{
    let all = builtin_services();
    let mut i: usize = 0;
    while i < all.len()
        invariant
            i <= all@.len(),
            all@.len() == builtin_service_names().len(),
            forall|j: int| 0 <= j < all@.len() ==> #[trigger] all@[j]@ == builtin_service_names()[j],
            forall|j: int| 0 <= j < i ==> builtin_service_names()[j] != name@,
        decreases all.len() - i,
    {
        if str_eq(name, all[i]) {
            assert(builtin_service_names()[i as int] == name@);
            return true;
        }
        i += 1;
    }
    false
}

/// The smaller of two naturals.
pub open spec fn min_nat(a: nat, b: nat) -> nat {
    if a <= b { a } else { b }
}

/// Edit distance (insertions, deletions and substitutions of single characters).
pub open spec fn edit_distance(a: Seq<char>, b: Seq<char>) -> nat
    decreases a.len() + b.len(),
{
    if a.len() == 0 {
        b.len()
    } else if b.len() == 0 {
        a.len()
    } else {
        let cost: nat = if a.last() == b.last() { 0 } else { 1 };
        min_nat(
            min_nat(edit_distance(a.drop_last(), b) + 1, edit_distance(a, b.drop_last()) + 1),
            edit_distance(a.drop_last(), b.drop_last()) + cost,
        )
    }
}

/// The edit distance never exceeds the longer length.
pub proof fn lemma_edit_distance_bound(a: Seq<char>, b: Seq<char>)
    ensures
        edit_distance(a, b) <= if a.len() >= b.len() { a.len() } else { b.len() },
    decreases a.len() + b.len(),
{
    if a.len() > 0 && b.len() > 0 {
        lemma_edit_distance_bound(a.drop_last(), b.drop_last());
    }
}

/// The distance is zero exactly between equal strings.
pub proof fn lemma_edit_distance_zero(a: Seq<char>, b: Seq<char>)
    ensures
        (edit_distance(a, b) == 0) == (a == b),
    decreases a.len() + b.len(),
{
    if a.len() > 0 && b.len() > 0 {
        lemma_edit_distance_zero(a.drop_last(), b.drop_last());
        if a.drop_last() == b.drop_last() && a.last() == b.last() {
            assert(a =~= b.drop_last().push(b.last()));
            assert(b =~= b.drop_last().push(b.last()));
        }
        if a == b {
            assert(a.drop_last() =~= b.drop_last());
        }
    } else if a.len() == 0 && b.len() == 0 {
        assert(a =~= b);
    }
}

/// The distance from `a` to `b` is the distance from `b` to `a`.
pub proof fn law_edit_distance_symmetric(a: Seq<char>, b: Seq<char>)
    ensures
        edit_distance(a, b) == edit_distance(b, a),
    decreases a.len() + b.len(),
{
    if a.len() > 0 && b.len() > 0 {
        law_edit_distance_symmetric(a.drop_last(), b);
        law_edit_distance_symmetric(a, b.drop_last());
        law_edit_distance_symmetric(a.drop_last(), b.drop_last());
    }
}

/// The distance is at least the difference of the lengths.
pub proof fn law_edit_distance_at_least_length_gap(a: Seq<char>, b: Seq<char>)
    ensures
        edit_distance(a, b) >= a.len() - b.len(),
        edit_distance(a, b) >= b.len() - a.len(),
    decreases a.len() + b.len(),
{
    if a.len() > 0 && b.len() > 0 {
        law_edit_distance_at_least_length_gap(a.drop_last(), b);
        law_edit_distance_at_least_length_gap(a, b.drop_last());
        law_edit_distance_at_least_length_gap(a.drop_last(), b.drop_last());
    }
}

/// Going through `b` is never shorter than going from `a` to `c` directly.
pub proof fn law_edit_distance_triangle(a: Seq<char>, b: Seq<char>, c: Seq<char>)
    ensures
        edit_distance(a, c) <= edit_distance(a, b) + edit_distance(b, c),
    decreases a.len() + b.len() + c.len(),
{
    if a.len() == 0 {
        law_edit_distance_at_least_length_gap(b, c);
    } else if c.len() == 0 {
        law_edit_distance_at_least_length_gap(a, b);
    } else if b.len() == 0 {
        lemma_edit_distance_bound(a, c);
    } else {
        let a1 = a.drop_last();
        let b1 = b.drop_last();
        let c1 = c.drop_last();
        let ab = edit_distance(a, b);
        let bc = edit_distance(b, c);
        let cost_ab: nat = if a.last() == b.last() { 0 } else { 1 };
        let cost_bc: nat = if b.last() == c.last() { 0 } else { 1 };
        if bc == edit_distance(b, c1) + 1 {
            law_edit_distance_triangle(a, b, c1);
        } else if ab == edit_distance(a1, b) + 1 {
            law_edit_distance_triangle(a1, b, c);
        } else if ab == edit_distance(a, b1) + 1 {
            if bc == edit_distance(b1, c) + 1 {
                law_edit_distance_triangle(a, b1, c);
            } else {
                assert(bc == edit_distance(b1, c1) + cost_bc);
                law_edit_distance_triangle(a, b1, c1);
            }
        } else {
            assert(ab == edit_distance(a1, b1) + cost_ab);
            if bc == edit_distance(b1, c) + 1 {
                law_edit_distance_triangle(a1, b1, c);
            } else {
                assert(bc == edit_distance(b1, c1) + cost_bc);
                law_edit_distance_triangle(a1, b1, c1);
            }
        }
    }
}

/// What an edit does at its position.
pub enum EditKind {
    Insert,
    Delete,
    Substitute,
}

/// One edit of a text: what it does, at which position, with which character (a
/// deletion takes none and ignores it).
pub type Edit = (EditKind, int, char);

/// The edit `e` has a position in `s`.
pub open spec fn edit_fits(s: Seq<char>, e: Edit) -> bool {
    match e.0 {
        EditKind::Insert => 0 <= e.1 <= s.len(),
        EditKind::Delete => 0 <= e.1 < s.len(),
        EditKind::Substitute => 0 <= e.1 < s.len(),
    }
}

/// `s` after the edit `e`.
pub open spec fn apply_edit(s: Seq<char>, e: Edit) -> Seq<char> {
    match e.0 {
        EditKind::Insert => s.take(e.1) + seq![e.2] + s.skip(e.1),
        EditKind::Delete => s.take(e.1) + s.skip(e.1 + 1),
        EditKind::Substitute => s.update(e.1, e.2),
    }
}

/// Each edit of `es`, in turn, has a position in what the ones before made of `s`.
pub open spec fn edits_fit(s: Seq<char>, es: Seq<Edit>) -> bool
    decreases es.len(),
{
    if es.len() == 0 { true } else { edits_fit(s, es.drop_last()) && edit_fits(apply_edits(s, es.drop_last()), es.last()) }
}

/// `s` after the edits `es`, in turn.
pub open spec fn apply_edits(s: Seq<char>, es: Seq<Edit>) -> Seq<char>
    decreases es.len(),
{
    if es.len() == 0 { s } else { apply_edit(apply_edits(s, es.drop_last()), es.last()) }
}

proof fn lemma_apply_concat(s: Seq<char>, e1: Seq<Edit>, e2: Seq<Edit>)
    ensures
        apply_edits(s, e1 + e2) == apply_edits(apply_edits(s, e1), e2),
        edits_fit(s, e1 + e2) == (edits_fit(s, e1) && edits_fit(apply_edits(s, e1), e2)),
    decreases e2.len(),
{
    if e2.len() == 0 {
        assert(e1 + e2 =~= e1);
    } else {
        lemma_apply_concat(s, e1, e2.drop_last());
        assert((e1 + e2).drop_last() =~= e1 + e2.drop_last());
        assert((e1 + e2).last() == e2.last());
    }
}

/// Edits that fit `s` act on `s` followed by `x` as on `s`, leaving `x` at the end.
proof fn lemma_apply_before_last(s: Seq<char>, x: char, es: Seq<Edit>)
    requires
        edits_fit(s, es),
    ensures
        edits_fit(s.push(x), es),
        apply_edits(s.push(x), es) == apply_edits(s, es).push(x),
    decreases es.len(),
{
    if es.len() > 0 {
        lemma_apply_before_last(s, x, es.drop_last());
        let t = apply_edits(s, es.drop_last());
        let (k, i, c) = es.last();
        match k {
            EditKind::Insert => {
                assert(t.push(x).take(i) + seq![c] + t.push(x).skip(i) =~= (t.take(i) + seq![c] + t.skip(i)).push(x));
            },
            EditKind::Delete => {
                assert(t.push(x).take(i) + t.push(x).skip(i + 1) =~= (t.take(i) + t.skip(i + 1)).push(x));
            },
            EditKind::Substitute => {
                assert(t.push(x).update(i, c) =~= t.update(i, c).push(x));
            },
        }
    }
}

/// A script of single-character edits turning `a` into `b`, following the choices the
/// edit distance makes.
pub open spec fn edit_script(a: Seq<char>, b: Seq<char>) -> Seq<Edit>
    decreases a.len() + b.len(),
{
    if a.len() == 0 {
        if b.len() == 0 {
            Seq::empty()
        } else {
            edit_script(a, b.drop_last()).push((EditKind::Insert, b.len() - 1, b.last()))
        }
    } else if b.len() == 0 {
        seq![(EditKind::Delete, a.len() - 1, ' ')] + edit_script(a.drop_last(), b)
    } else if edit_distance(a, b) == edit_distance(a.drop_last(), b) + 1 {
        seq![(EditKind::Delete, a.len() - 1, ' ')] + edit_script(a.drop_last(), b)
    } else if edit_distance(a, b) == edit_distance(a, b.drop_last()) + 1 {
        edit_script(a, b.drop_last()).push((EditKind::Insert, b.len() - 1, b.last()))
    } else if a.last() == b.last() {
        edit_script(a.drop_last(), b.drop_last())
    } else {
        edit_script(a.drop_last(), b.drop_last()).push((EditKind::Substitute, b.len() - 1, b.last()))
    }
}

proof fn lemma_delete_last(a: Seq<char>)
    requires
        a.len() > 0,
    ensures
        edits_fit(a, seq![(EditKind::Delete, a.len() - 1, ' ')]),
        apply_edits(a, seq![(EditKind::Delete, a.len() - 1, ' ')]) == a.drop_last(),
{
    let es = seq![(EditKind::Delete, a.len() - 1, ' ')];
    assert(es.drop_last() =~= Seq::<Edit>::empty());
    assert(apply_edits(a, Seq::<Edit>::empty()) == a);
    assert(es.len() == 1);
    assert(edits_fit(a, Seq::<Edit>::empty()));
    assert(a.take(a.len() - 1) + a.skip(a.len() as int) =~= a.drop_last());
}

#[verifier::spinoff_prover]
#[verifier::rlimit(60)]
proof fn lemma_edit_script(a: Seq<char>, b: Seq<char>)
    ensures
        edits_fit(a, edit_script(a, b)),
        apply_edits(a, edit_script(a, b)) == b,
        edit_script(a, b).len() == edit_distance(a, b),
    decreases a.len() + b.len(),
{
    let es = edit_script(a, b);
    if a.len() == 0 {
        if b.len() > 0 {
            let b1 = b.drop_last();
            assert(es == edit_script(a, b1).push((EditKind::Insert, b.len() - 1, b.last())));
            assert(es.drop_last() =~= edit_script(a, b1));
            lemma_edit_script(a, b1);
            assert(b1.take(b.len() - 1) + seq![b.last()] + b1.skip(b.len() - 1) =~= b);
        } else {
            assert(a =~= b);
        }
    } else if b.len() == 0 || edit_distance(a, b) == edit_distance(a.drop_last(), b) + 1 {
        lemma_edit_script(a.drop_last(), b);
        lemma_delete_last(a);
        lemma_apply_concat(a, seq![(EditKind::Delete, a.len() - 1, ' ')], edit_script(a.drop_last(), b));
        if b.len() == 0 {
            lemma_edit_distance_zero(a.drop_last(), a.drop_last());
        }
    } else if edit_distance(a, b) == edit_distance(a, b.drop_last()) + 1 {
        lemma_edit_script(a, b.drop_last());
        let b1 = b.drop_last();
        assert(es.drop_last() =~= edit_script(a, b1));
        assert(b1.take(b.len() - 1) + seq![b.last()] + b1.skip(b.len() - 1) =~= b);
    } else {
        let a1 = a.drop_last();
        let b1 = b.drop_last();
        lemma_edit_script(a1, b1);
        lemma_apply_before_last(a1, a.last(), edit_script(a1, b1));
        assert(a1.push(a.last()) =~= a);
        if a.last() == b.last() {
            assert(b1.push(a.last()) =~= b);
        } else {
            assert(es.drop_last() =~= edit_script(a1, b1));
            assert(b1.push(a.last()).update(b.len() - 1, b.last()) =~= b);
        }
    }
}

/// Deleting one character moves the text at most one step away.
proof fn lemma_one_deletion(p: Seq<char>, x: char, q: Seq<char>)
    ensures
        edit_distance(p.push(x) + q, p + q) <= 1,
    decreases q.len(),
{
    let a = p.push(x) + q;
    let b = p + q;
    if q.len() == 0 {
        assert(a =~= p.push(x));
        assert(b =~= p);
        assert(a.drop_last() =~= p);
        lemma_edit_distance_zero(p, p);
    } else {
        lemma_one_deletion(p, x, q.drop_last());
        assert(a.drop_last() =~= p.push(x) + q.drop_last());
        assert(b.drop_last() =~= p + q.drop_last());
        assert(a.last() == b.last());
    }
}

/// Replacing one character moves the text at most one step away.
proof fn lemma_one_substitution(p: Seq<char>, x: char, y: char, q: Seq<char>)
    ensures
        edit_distance(p.push(x) + q, p.push(y) + q) <= 1,
    decreases q.len(),
{
    let a = p.push(x) + q;
    let b = p.push(y) + q;
    if q.len() == 0 {
        assert(a =~= p.push(x));
        assert(b =~= p.push(y));
        assert(a.drop_last() =~= p);
        assert(b.drop_last() =~= p);
        lemma_edit_distance_zero(p, p);
    } else {
        lemma_one_substitution(p, x, y, q.drop_last());
        assert(a.drop_last() =~= p.push(x) + q.drop_last());
        assert(b.drop_last() =~= p.push(y) + q.drop_last());
        assert(a.last() == b.last());
    }
}

/// One edit moves the text at most one step away.
proof fn lemma_one_edit(s: Seq<char>, e: Edit)
    requires
        edit_fits(s, e),
    ensures
        edit_distance(s, apply_edit(s, e)) <= 1,
{
    let (k, i, c) = e;
    match k {
        EditKind::Insert => {
            let p = s.take(i);
            let q = s.skip(i);
            lemma_one_deletion(p, c, q);
            assert(p.push(c) + q =~= apply_edit(s, e));
            assert(p + q =~= s);
            law_edit_distance_symmetric(s, apply_edit(s, e));
        },
        EditKind::Delete => {
            let p = s.take(i);
            let q = s.skip(i + 1);
            lemma_one_deletion(p, s[i], q);
            assert(p.push(s[i]) + q =~= s);
            assert(p + q =~= apply_edit(s, e));
        },
        EditKind::Substitute => {
            let p = s.take(i);
            let q = s.skip(i + 1);
            lemma_one_substitution(p, s[i], c, q);
            assert(p.push(s[i]) + q =~= s);
            assert(p.push(c) + q =~= apply_edit(s, e));
        },
    }
}

/// The edit distance is the least number of single-character insertions, deletions and
/// substitutions that turn `a` into `b`: some script of that length does, and none
/// shorter does.
pub proof fn law_edit_distance_is_fewest_edits(a: Seq<char>, b: Seq<char>)
    ensures
        edits_fit(a, edit_script(a, b)) && apply_edits(a, edit_script(a, b)) == b
            && edit_script(a, b).len() == edit_distance(a, b),
        forall|es: Seq<Edit>| edits_fit(a, es) && #[trigger] apply_edits(a, es) == b ==> edit_distance(a, b) <= es.len(),
{
    lemma_edit_script(a, b);
    assert forall|es: Seq<Edit>| edits_fit(a, es) && #[trigger] apply_edits(a, es) == b implies edit_distance(a, b) <= es.len() by {
        lemma_script_bound(a, es);
    }
}

proof fn lemma_script_bound(a: Seq<char>, es: Seq<Edit>)
    requires
        edits_fit(a, es),
    ensures
        edit_distance(a, apply_edits(a, es)) <= es.len(),
    decreases es.len(),
{
    if es.len() == 0 {
        lemma_edit_distance_zero(a, a);
    } else {
        lemma_script_bound(a, es.drop_last());
        let t = apply_edits(a, es.drop_last());
        lemma_one_edit(t, es.last());
        law_edit_distance_triangle(a, t, apply_edit(t, es.last()));
    }
}

proof fn lemma_prefix_step(a: Seq<char>, i: int)
    requires
        0 < i <= a.len(),
    ensures
        a.take(i).drop_last() == a.take(i - 1),
        a.take(i).last() == a[i - 1],
        a.take(i).len() == i,
{
    assert(a.take(i).drop_last() =~= a.take(i - 1));
}

/// Levenshtein distance between `a` and `b`, counted in characters.
pub fn levenshtein(a: &str, b: &str) -> (r: usize)
    ensures
        r == edit_distance(a@, b@),
{
    let a_chars = crate::text::chars_of(a);
    let b_chars = crate::text::chars_of(b);
    let n = a_chars.len();
    let m = b_chars.len();
    if n == 0 {
        return m;
    }
    if m == 0 {
        return n;
    }
    let ghost sa = a@;
    let ghost sb = b@;
    let mut prev: Vec<usize> = Vec::new();
    let mut j: usize = 0;
    while j < m
        invariant
            j <= m,
            m == b_chars@.len(),
            n == a_chars@.len(),
            sa == a_chars@,
            sb == b_chars@,
            prev@.len() == j,
            forall|k: int| 0 <= k < j ==> prev@[k] == edit_distance(sa.take(0), sb.take(k)),
        decreases m - j,
    {
        proof {
            assert(sa.take(0).len() == 0);
            assert(sb.take(j as int).len() == j);
        }
        prev.push(j);
        j += 1;
    }
    proof {
        assert(sa.take(0).len() == 0);
        assert(sb.take(m as int).len() == m);
    }
    prev.push(m);
    let mut curr: Vec<usize> = prev.clone();
    let mut i: usize = 0;
    while i < n
        invariant
            i <= n,
            m == b_chars@.len(),
            n == a_chars@.len(),
            m > 0,
            sa == a_chars@,
            sb == b_chars@,
            prev@.len() == m + 1,
            curr@.len() == m + 1,
            forall|k: int| 0 <= k <= m ==> prev@[k] == edit_distance(sa.take(i as int), sb.take(k)),
        decreases n - i,
    {
        let row = i + 1;
        proof {
            assert(sb.take(0).len() == 0);
            assert(sa.take(row as int).len() == row);
        }
        curr.set(0, row);
        let mut j: usize = 0;
        while j < m
            invariant
                i < n,
                row == i + 1,
                j <= m,
                m == b_chars@.len(),
                n == a_chars@.len(),
                sa == a_chars@,
                sb == b_chars@,
                prev@.len() == m + 1,
                curr@.len() == m + 1,
                forall|k: int| 0 <= k <= m ==> prev@[k] == edit_distance(sa.take(i as int), sb.take(k)),
                forall|k: int| 0 <= k <= j ==> curr@[k] == edit_distance(sa.take(row as int), sb.take(k)),
            decreases m - j,
        {
            let col = j + 1;
            proof {
                lemma_prefix_step(sa, row as int);
                lemma_prefix_step(sb, col as int);
                lemma_edit_distance_bound(sa.take(i as int), sb.take(col as int));
                lemma_edit_distance_bound(sa.take(row as int), sb.take(j as int));
                lemma_edit_distance_bound(sa.take(i as int), sb.take(j as int));
            }
            let cost: usize = if a_chars[i] == b_chars[j] { 0 } else { 1 };
            let del = prev[col];
            let ins = curr[j];
            let sub = prev[j] + cost;
            let near = if del <= ins { del } else { ins };
            let best = if near < sub { near + 1 } else { sub };
            curr.set(col, best);
            j += 1;
        }
        std::mem::swap(&mut prev, &mut curr);
        i += 1;
    }
    proof {
        assert(sa.take(n as int) =~= sa);
        assert(sb.take(m as int) =~= sb);
    }
    prev[m]
}

/// The built-in name closest to `name` within `max_distance`, or `None` when `name` is
/// itself built in or no name is that close; of equally close names the first wins.
pub open spec fn suggestion_spec(name: Seq<char>, max_distance: nat) -> Option<int> {
    let names = builtin_service_names();
    if exists|k: int| 0 <= k < names.len() && names[k] == name {
        None
    } else if exists|k: int| 0 <= k < names.len() && edit_distance(name, names[k]) <= max_distance {
        Some(choose|k: int| {
            &&& 0 <= k < names.len()
            &&& edit_distance(name, names[k]) <= max_distance
            &&& forall|j: int| 0 <= j < names.len() ==> edit_distance(name, names[j]) >= edit_distance(name, names[k])
            &&& forall|j: int| 0 <= j < k ==> edit_distance(name, names[j]) > edit_distance(name, names[k])
        })
    } else {
        None
    }
}

/// A built-in name that `name` is probably a misspelling of: the closest one within
/// `max_distance`, the first of equally close ones; `None` for a built-in name itself.
pub fn suggest_builtin_service(name: &str, max_distance: usize) -> (r: Option<&'static str>)
    ensures
        match r {
            Some(s) => {
                &&& suggestion_spec(name@, max_distance as nat) is Some
                &&& s@ == builtin_service_names()[suggestion_spec(name@, max_distance as nat)->0]
            },
            None => suggestion_spec(name@, max_distance as nat) is None,
        },
{
    let all = builtin_services();
    let ghost names = builtin_service_names();
    let mut best: Option<(usize, usize)> = None;
    let mut i: usize = 0;
    while i < all.len()
        invariant
            i <= all@.len(),
            all@.len() == names.len(),
            names == builtin_service_names(),
            forall|j: int| 0 <= j < all@.len() ==> #[trigger] all@[j]@ == names[j],
            forall|j: int| 0 <= j < i ==> names[j] != name@,
            match best {
                Some((bk, bd)) => {
                    &&& bk < i
                    &&& bd == edit_distance(name@, names[bk as int])
                    &&& bd <= max_distance
                    &&& forall|j: int| 0 <= j < i && edit_distance(name@, names[j]) <= max_distance
                        ==> edit_distance(name@, names[j]) >= bd
                    &&& forall|j: int| 0 <= j < bk ==> edit_distance(name@, names[j]) > bd
                },
                None => forall|j: int| 0 <= j < i ==> edit_distance(name@, names[j]) > max_distance,
            },
        decreases all.len() - i,
    {
        let d = levenshtein(name, all[i]);
        proof {
            lemma_edit_distance_zero(name@, names[i as int]);
        }
        if d == 0 {
            proof {
                assert(names[i as int] == name@);
                assert(suggestion_spec(name@, max_distance as nat) is None);
            }
            return None;
        }
        let better = match best {
            Some((_, bd)) => d < bd,
            None => true,
        };
        if d <= max_distance && better {
            best = Some((i, d));
        }
        i += 1;
    }
    match best {
        Some((bk, bd)) => {
            proof {
                let spec_k = suggestion_spec(name@, max_distance as nat);
                assert(edit_distance(name@, names[bk as int]) <= max_distance);
                assert(spec_k is Some);
                let k = spec_k->0;
                if k < bk {
                    assert(edit_distance(name@, names[k]) > bd);
                    assert(edit_distance(name@, names[bk as int]) >= edit_distance(name@, names[k]));
                } else if k > bk {
                    assert(edit_distance(name@, names[k]) <= bd);
                    assert(edit_distance(name@, names[bk as int]) > edit_distance(name@, names[k]));
                }
            }
            Some(all[bk])
        },
        None => None,
    }
}

} // verus!
