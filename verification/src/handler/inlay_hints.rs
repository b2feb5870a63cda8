//! Inlay hints: `: $scope` after a renamed injected parameter, and `: MainCtrl`
//! after a controller alias (`vm`, `$ctrl`) in a template.
use vstd::prelude::*;
use vstd::string::StrSliceExecFns;

use crate::text::{first_index, lemma_first_index};
use crate::lsp::{Position, Range};
use crate::text::{chars_of, ends_with, find_char, str_eq, views};
use crate::uri::path_of;
use crate::util::{html_path, is_html_file, is_js_file};
use crate::handler::js_syntax::{
    check_nodes_fit, children, children_of, char_offsets, javascript_syntax, node_text, nodes_fit, offsets_table_of,
    parse_javascript, text_of, SyntaxNode,
};
use crate::index::controller_store::innermost;
use crate::index::query::component_alias_controller;
use crate::index::snapshot::list_at;
use crate::index::Index;
use crate::model::{ComponentTemplateUrl, HtmlControllerScope, HtmlScopeReference};
use dashmap::DashMap;

use std::collections::hash_map::DefaultHasher;
use std::hash::Hasher;
use vstd::std_specs::hash::DefaultHasherAdditionalSpecFns;

verus! {

/// An inlay hint: a label shown at a position.
#[derive(Debug, Clone)]
pub struct Hint {
    pub position: Position,
    pub label: String,
}

pub fn make_hint(position: Position, label: String) -> (r: Hint)
    ensures
        r.position == position,
        r.label == label,
{
    Hint { position, label }
}

/// `"vm.foo"` gives `("vm", "foo")`; a path without a dot, or with nothing before or
/// after its first dot, gives `None`.
pub fn split_alias(property_path: &str) -> (r: Option<(&str, &str)>)
    ensures
        match first_index(property_path@, '.') {
            Some(i) => if i > 0 && i + 1 < property_path@.len() {
                r matches Some((a, b)) && a@ == property_path@.take(i) && b@ == property_path@.skip(i + 1)
            } else {
                r is None
            },
            None => r is None,
        },
{
    let cs = chars_of(property_path);
    let dot = match find_char(&cs, '.') {
        Some(d) => d,
        None => {
            proof {
                assert(!(exists|i: int| 0 <= i < property_path@.len() && property_path@[i] == '.'));
            }
            return None;
        },
    };
    proof { lemma_first_index(cs@, '.', dot as int); }
    if dot == 0 || dot + 1 >= cs.len() {
        return None;
    }
    let alias = property_path.substring_char(0, dot);
    let rest = property_path.substring_char(dot + 1, cs.len());
    proof {
        assert(alias@ =~= property_path@.take(dot as int));
        assert(rest@ =~= property_path@.skip(dot + 1));
    }
    Some((alias, rest))
}

/// Whether `pos` lies in `range`, both ends included.
pub fn position_in_range(pos: Position, range: Range) -> (r: bool)
    ensures
        r == ({
            &&& range.start.line <= pos.line <= range.end.line
            &&& (pos.line == range.start.line ==> range.start.character <= pos.character)
            &&& (pos.line == range.end.line ==> pos.character <= range.end.character)
        }),
{
    if pos.line < range.start.line || pos.line > range.end.line {
        return false;
    }
    if pos.line == range.start.line && pos.character < range.start.character {
        return false;
    }
    if pos.line == range.end.line && pos.character > range.end.character {
        return false;
    }
    true
}

/// Bytes `c` takes in UTF-8.
pub open spec fn utf8_width(c: char) -> nat {
    let v = c as u32;
    if v < 0x80 { 1 } else if v < 0x800 { 2 } else if v < 0x10000 { 3 } else { 4 }
}

/// Code units `c` takes in UTF-16.
pub open spec fn utf16_width(c: char) -> nat {
    if (c as u32) >= 0x10000 { 2 } else { 1 }
}

/// Bytes `s` takes in UTF-8.
pub open spec fn utf8_len(s: Seq<char>) -> nat
    decreases s.len(),
{
    if s.len() == 0 { 0 } else { utf8_len(s.drop_last()) + utf8_width(s.last()) }
}

/// Code units `s` takes in UTF-16.
pub open spec fn utf16_len(s: Seq<char>) -> nat
    decreases s.len(),
{
    if s.len() == 0 { 0 } else { utf16_len(s.drop_last()) + utf16_width(s.last()) }
}

/// The number of characters whose UTF-8 encoding fills the first `end` bytes of `s`.
pub open spec fn chars_in_bytes(s: Seq<char>, end: int) -> int {
    choose|k: int| 0 <= k <= s.len() && utf8_len(s.take(k)) == end
}

/// `end` falls between two characters of `s` (or at its end).
pub open spec fn is_char_boundary_at(s: Seq<char>, end: int) -> bool {
    exists|k: int| 0 <= k <= s.len() && utf8_len(s.take(k)) == end
}

/// Index just after the last line break before `k` (0 when there is none).
pub open spec fn line_begin_before(s: Seq<char>, k: int) -> int
    decreases k,
{
    if k <= 0 { 0 } else if s[k - 1] == '\n' { k } else { line_begin_before(s, k - 1) }
}

/// The UTF-16 column of byte offset `off` (capped at the text's end) within its line.
pub open spec fn utf16_col_spec(s: Seq<char>, off: int) -> int {
    let end = if off <= utf8_len(s) { off } else { utf8_len(s) as int };
    let k = chars_in_bytes(s, end);
    utf16_len(s.subrange(line_begin_before(s, k), k)) as int
}

proof fn lemma_utf8_take_step(s: Seq<char>, k: int)
    requires
        0 <= k < s.len(),
    ensures
        utf8_len(s.take(k + 1)) == utf8_len(s.take(k)) + utf8_width(s[k]),
{
    assert(s.take(k + 1).drop_last() =~= s.take(k));
}

proof fn lemma_utf8_take_mono(s: Seq<char>, a: int, b: int)
    requires
        0 <= a <= b <= s.len(),
    ensures
        utf8_len(s.take(a)) + (b - a) <= utf8_len(s.take(b)),
    decreases b - a,
{
    if a < b {
        lemma_utf8_take_mono(s, a, b - 1);
        lemma_utf8_take_step(s, b - 1);
    }
}

proof fn lemma_split_sums(s: Seq<char>, a: int, b: int)
    requires
        0 <= a <= b <= s.len(),
    ensures
        utf8_len(s.take(b)) == utf8_len(s.take(a)) + utf8_len(s.subrange(a, b)),
        utf16_len(s.subrange(a, b)) <= utf8_len(s.subrange(a, b)),
    decreases b - a,
{
    if a < b {
        lemma_split_sums(s, a, b - 1);
        lemma_utf8_take_step(s, b - 1);
        assert(s.subrange(a, b).drop_last() =~= s.subrange(a, b - 1));
    } else {
        assert(s.subrange(a, b).len() == 0);
    }
}

proof fn lemma_line_begin_bounds(s: Seq<char>, k: int)
    requires
        0 <= k <= s.len(),
    ensures
        0 <= line_begin_before(s, k) <= k,
    decreases k,
{
    if k > 0 && s[k - 1] != '\n' {
        lemma_line_begin_bounds(s, k - 1);
    }
}

/// The UTF-16 column, within its line, of the byte offset `byte_offset` of `source`
/// (an offset past the end counts as the end). The offset must fall between characters.
pub fn byte_offset_to_utf16_col(source: &str, byte_offset: usize) -> (r: usize)
    requires
        is_char_boundary_at(source@, if byte_offset <= utf8_len(source@) { byte_offset as int } else { utf8_len(source@) as int }),
    ensures
        r == utf16_col_spec(source@, byte_offset as int),
{
    let cs = chars_of(source);
    let ghost s = source@;
    let ghost end = if byte_offset <= utf8_len(s) { byte_offset as int } else { utf8_len(s) as int };
    let mut k: usize = 0;
    let mut acc: usize = 0;
    loop
        invariant
            cs@ == s,
            0 <= k <= cs@.len(),
            acc == utf8_len(s.take(k as int)),
            acc <= byte_offset,
        ensures
            cs@ == s,
            0 <= k <= cs@.len(),
            acc == utf8_len(s.take(k as int)),
            acc <= byte_offset,
            k == cs@.len() || utf8_len(s.take(k + 1)) > byte_offset,
        decreases cs@.len() - k,
    {
        if k == cs.len() {
            break;
        }
        let v = cs[k] as u32;
        let w: usize = if v < 0x80 { 1 } else if v < 0x800 { 2 } else if v < 0x10000 { 3 } else { 4 };
        proof { lemma_utf8_take_step(s, k as int); }
        if w > byte_offset - acc {
            break;
        }
        acc = acc + w;
        k = k + 1;
    }
    proof {
        let kk = chars_in_bytes(s, end);
        assert(0 <= kk <= s.len() && utf8_len(s.take(kk)) == end);
        assert(s.take(s.len() as int) =~= s);
        lemma_utf8_take_mono(s, k as int, s.len() as int);
        if kk < k {
            lemma_utf8_take_mono(s, kk, k as int);
        }
        if kk > k {
            lemma_utf8_take_step(s, k as int);
            lemma_utf8_take_mono(s, k + 1, kk);
            lemma_utf8_take_mono(s, k + 1, s.len() as int);
        }
        assert(kk == k);
    }
    let mut ls = k;
    while ls > 0 && cs[ls - 1] != '\n'
        invariant
            cs@ == s,
            0 <= ls <= k <= cs@.len(),
            line_begin_before(s, ls as int) == line_begin_before(s, k as int),
        decreases ls,
    {
        ls -= 1;
    }
    proof {
        lemma_split_sums(s, ls as int, k as int);
    }
    let mut j = ls;
    let mut sum: usize = 0;
    while j < k
        invariant
            cs@ == s,
            0 <= ls <= j <= k <= cs@.len(),
            acc == utf8_len(s.take(k as int)),
            utf8_len(s.take(k as int)) == utf8_len(s.take(ls as int)) + utf8_len(s.subrange(ls as int, k as int)),
            sum == utf16_len(s.subrange(ls as int, j as int)),
            sum <= utf8_len(s.subrange(ls as int, j as int)),
        decreases k - j,
    {
        proof {
            lemma_split_sums(s, ls as int, j + 1);
            lemma_split_sums(s, ls as int, k as int);
            lemma_split_sums(s, j as int, k as int);
            assert(s.subrange(ls as int, j + 1).drop_last() =~= s.subrange(ls as int, j as int));
            lemma_split_sums(s, ls as int, j as int);
            lemma_split_sums(s, 0, j + 1);
            assert(s.subrange(0, j + 1) =~= s.take(j + 1));
            assert(s.subrange(0, ls as int) =~= s.take(ls as int));
        }
        let v = cs[j] as u32;
        let w: usize = if v >= 0x10000 { 2 } else { 1 };
        proof {
            lemma_utf8_take_mono(s, j + 1, k as int);
            lemma_split_sums(s, ls as int, j + 1);
        }
        sum = sum + w;
        j += 1;
    }
    sum
}

/// What `<str as Hash>::hash` writes into a hasher for the text `s`, as the byte strings
/// of its writes.
pub uninterp spec fn str_hash_writes(s: Seq<char>) -> Seq<Seq<u8>>;

/// The fingerprint of a text: what a fresh `DefaultHasher` finishes with once the text
/// is hashed into it.
pub open spec fn fingerprint(s: Seq<char>) -> u64 {
    DefaultHasher::spec_finish(str_hash_writes(s))
}

/// A fingerprint of a script's text, used to notice that it changed.
pub fn hash_source(s: &str) -> (r: u64)
    ensures
        r == fingerprint(s@),
{
    let mut hasher = DefaultHasher::new();
    hash_str_into(s, &mut hasher);
    proof { assert(Seq::<Seq<u8>>::empty() + str_hash_writes(s@) =~= str_hash_writes(s@)); }
    hasher.finish()
}

/// `<str as Hash>::hash`: feeds `s` into `hasher`, which records the writes made for
/// it; which bytes those are is not stated.
#[verifier::external_body]
fn hash_str_into(s: &str, hasher: &mut DefaultHasher)
    ensures
        final(hasher)@ == old(hasher)@ + str_hash_writes(s@),
{
    std::hash::Hash::hash(s, hasher);
}

/// A hint as its position and label.
pub open spec fn hint_view(h: Hint) -> (Position, Seq<char>) {
    (h.position, h.label@)
}

/// The positions and labels of `hs`.
pub open spec fn hints_view(hs: Seq<Hint>) -> Seq<(Position, Seq<char>)> {
    hs.map_values(|h: Hint| hint_view(h))
}

/// A string literal's value: its text without the matching quotes that open and close
/// it (`'`, `"` or a backquote), or the whole text when it is not so quoted.
pub open spec fn string_value(t: Seq<char>) -> Seq<char> {
    if t.len() >= 2 && (t[0] == '"' || t[0] == '\'' || t[0] == '`') && t[0] == t[t.len() - 1] {
        t.subrange(1, t.len() - 1)
    } else {
        t
    }
}

/// The values of the string literals among the nodes `ks`, in order.
pub open spec fn service_names(nodes: Seq<SyntaxNode>, src: Seq<char>, ks: Seq<int>) -> Seq<Seq<char>>
    decreases ks.len(),
{
    if ks.len() == 0 {
        Seq::empty()
    } else {
        let p = service_names(nodes, src, ks.drop_last());
        let n = nodes[ks.last()];
        if n.kind@ == "string"@ { p.push(string_value(node_text(src, n))) } else { p }
    }
}

/// A function expression or an arrow function.
pub open spec fn is_function_kind(kind: Seq<char>) -> bool {
    kind == "function_expression"@ || kind == "arrow_function"@
}

/// The last of the nodes `ks` that is a function.
pub open spec fn last_function(nodes: Seq<SyntaxNode>, ks: Seq<int>) -> Option<int>
    decreases ks.len(),
{
    if ks.len() == 0 {
        None
    } else if is_function_kind(nodes[ks.last()].kind@) {
        Some(ks.last())
    } else {
        last_function(nodes, ks.drop_last())
    }
}

/// Node `n` fills its parent's field `f`.
pub open spec fn fills_field(n: SyntaxNode, f: Seq<char>) -> bool {
    match n.field_name {
        Some(x) => x@ == f,
        None => false,
    }
}

/// The first of the nodes `ks` that fills the field `f`.
pub open spec fn first_with_field(nodes: Seq<SyntaxNode>, ks: Seq<int>, f: Seq<char>) -> Option<int>
    decreases ks.len(),
{
    if ks.len() == 0 {
        None
    } else {
        match first_with_field(nodes, ks.drop_last(), f) {
            Some(x) => Some(x),
            None => if fills_field(nodes[ks.last()], f) { Some(ks.last()) } else { None },
        }
    }
}

/// The identifiers among the nodes `ks`, in order.
pub open spec fn identifiers(nodes: Seq<SyntaxNode>, ks: Seq<int>) -> Seq<int>
    decreases ks.len(),
{
    if ks.len() == 0 {
        Seq::empty()
    } else {
        let p = identifiers(nodes, ks.drop_last());
        if nodes[ks.last()].kind@ == "identifier"@ { p.push(ks.last()) } else { p }
    }
}

/// The hint `: service` just after the parameter `id`.
pub open spec fn di_hint(nodes: Seq<SyntaxNode>, src: Seq<char>, id: int, service: Seq<char>) -> (Position, Seq<char>) {
    (Position { line: nodes[id].end_row as u32, character: utf16_col_spec(src, nodes[id].end_byte as int) as u32 }, ": "@ + service)
}

/// The hints of the first `n` parameters `ids` paired with the services `services`: one
/// for each parameter whose name differs from its service.
pub open spec fn param_hints(nodes: Seq<SyntaxNode>, src: Seq<char>, ids: Seq<int>, services: Seq<Seq<char>>, n: int) -> Seq<(Position, Seq<char>)>
    decreases n,
{
    if n <= 0 {
        Seq::empty()
    } else {
        let p = param_hints(nodes, src, ids, services, n - 1);
        let id = ids[n - 1];
        if node_text(src, nodes[id]) == services[n - 1] { p } else { p.push(di_hint(nodes, src, id, services[n - 1])) }
    }
}

/// The hints of node `i` when it is an injection array `['s1', 's2', function (a, b) {}]`:
/// its string elements are the services, its last function element the function, whose
/// parameters are paired with the services in order.
pub open spec fn own_di_hints(nodes: Seq<SyntaxNode>, src: Seq<char>, i: int) -> Seq<(Position, Seq<char>)> {
    if nodes[i].kind@ != "array"@ {
        Seq::empty()
    } else {
        let cs = children(nodes, i);
        let services = service_names(nodes, src, cs);
        match last_function(nodes, cs) {
            None => Seq::empty(),
            Some(f) => if services.len() == 0 {
                Seq::empty()
            } else {
                match first_with_field(nodes, children(nodes, f), "parameters"@) {
                    None => Seq::empty(),
                    Some(p) => {
                        let ids = identifiers(nodes, children(nodes, p));
                        param_hints(nodes, src, ids, services, if ids.len() <= services.len() { ids.len() as int } else { services.len() as int })
                    },
                }
            },
        }
    }
}

/// The injection hints of the first `n` nodes, in preorder.
pub open spec fn di_hints(nodes: Seq<SyntaxNode>, src: Seq<char>, n: int) -> Seq<(Position, Seq<char>)>
    decreases n,
{
    if n <= 0 {
        Seq::empty()
    } else {
        di_hints(nodes, src, n - 1) + own_di_hints(nodes, src, n - 1)
    }
}

/// The indices `ks` as integers.
pub open spec fn ints(ks: Seq<usize>) -> Seq<int> {
    ks.map_values(|k: usize| k as int)
}

/// See [`string_value`].
pub fn extract_string_value(raw: &str) -> (r: String)
    ensures
        r@ == string_value(raw@),
{
    let cs = chars_of(raw);
    let n = cs.len();
    if n >= 2 {
        let first = cs[0];
        let last = cs[n - 1];
        if (first == '"' || first == '\'' || first == '`') && first == last {
            return crate::text::string_from_chars(&cs, 1, n - 1);
        }
    }
    crate::text::string_from_chars(&cs, 0, n)
}

fn service_names_exec(nodes: &Vec<SyntaxNode>, cs: &Vec<char>, t: &Vec<Option<usize>>, kids: &Vec<usize>) -> (r: Vec<String>)
    requires
        offsets_table_of(cs@, t@),
        nodes_fit(nodes@, cs@),
        forall|j: int| 0 <= j < kids@.len() ==> kids@[j] < nodes@.len(),
    ensures
        views(r@) == service_names(nodes@, cs@, ints(kids@)),
{
    let mut r: Vec<String> = Vec::new();
    let mut j: usize = 0;
    while j < kids.len()
        invariant
            j <= kids@.len(),
            offsets_table_of(cs@, t@),
            nodes_fit(nodes@, cs@),
            forall|m: int| 0 <= m < kids@.len() ==> kids@[m] < nodes@.len(),
            views(r@) == service_names(nodes@, cs@, ints(kids@).take(j as int)),
        decreases kids.len() - j,
    {
        let n = &nodes[kids[j]];
        proof {
            assert(ints(kids@).take(j + 1).drop_last() =~= ints(kids@).take(j as int));
            assert(ints(kids@).take(j + 1).last() == kids@[j as int] as int);
        }
        if str_eq(&n.kind, "string") {
            proof { reveal_strlit("string"); }
            let text = text_of(cs, t, n);
            let v = extract_string_value(&text);
            r.push(v);
            proof { assert(views(r@) =~= service_names(nodes@, cs@, ints(kids@).take(j as int)).push(v@)); }
        } else {
            proof { reveal_strlit("string"); }
        }
        j += 1;
    }
    proof { assert(ints(kids@).take(kids@.len() as int) =~= ints(kids@)); }
    r
}

fn last_function_exec(nodes: &Vec<SyntaxNode>, kids: &Vec<usize>) -> (r: Option<usize>)
    requires
        forall|j: int| 0 <= j < kids@.len() ==> kids@[j] < nodes@.len(),
    ensures
        match r {
            Some(k) => last_function(nodes@, ints(kids@)) == Some(k as int) && k < nodes@.len(),
            None => last_function(nodes@, ints(kids@)) is None,
        },
{
    proof {
        reveal_strlit("function_expression");
        reveal_strlit("arrow_function");
    }
    let mut j = kids.len();
    proof { assert(ints(kids@).take(kids@.len() as int) =~= ints(kids@)); }
    while j > 0
        invariant
            j <= kids@.len(),
            forall|m: int| 0 <= m < kids@.len() ==> kids@[m] < nodes@.len(),
            last_function(nodes@, ints(kids@)) == last_function(nodes@, ints(kids@).take(j as int)),
        decreases j,
    {
        let k = kids[j - 1];
        proof {
            assert(ints(kids@).take(j as int).drop_last() =~= ints(kids@).take(j - 1));
            assert(ints(kids@).take(j as int).last() == k as int);
        }
        if str_eq(&nodes[k].kind, "function_expression") || str_eq(&nodes[k].kind, "arrow_function") {
            return Some(k);
        }
        j -= 1;
    }
    proof { assert(ints(kids@).take(0) =~= Seq::<int>::empty()); }
    None
}

fn first_with_field_exec(nodes: &Vec<SyntaxNode>, kids: &Vec<usize>, field: &str) -> (r: Option<usize>)
    requires
        forall|j: int| 0 <= j < kids@.len() ==> kids@[j] < nodes@.len(),
    ensures
        match r {
            Some(k) => first_with_field(nodes@, ints(kids@), field@) == Some(k as int) && k < nodes@.len(),
            None => first_with_field(nodes@, ints(kids@), field@) is None,
        },
{
    let mut j: usize = 0;
    while j < kids.len()
        invariant
            j <= kids@.len(),
            forall|m: int| 0 <= m < kids@.len() ==> kids@[m] < nodes@.len(),
            first_with_field(nodes@, ints(kids@).take(j as int), field@) is None,
        decreases kids.len() - j,
    {
        let k = kids[j];
        proof {
            assert(ints(kids@).take(j + 1).drop_last() =~= ints(kids@).take(j as int));
            assert(ints(kids@).take(j + 1).last() == k as int);
        }
        let fills = match &nodes[k].field_name {
            Some(f) => str_eq(f, field),
            None => false,
        };
        if fills {
            proof { lemma_first_with_field_prefix(nodes@, ints(kids@), field@, j + 1); }
            return Some(k);
        }
        j += 1;
    }
    proof { assert(ints(kids@).take(kids@.len() as int) =~= ints(kids@)); }
    None
}

/// Once a prefix has a node filling the field, longer prefixes keep it.
proof fn lemma_first_with_field_prefix(nodes: Seq<SyntaxNode>, ks: Seq<int>, f: Seq<char>, j: int)
    requires
        0 <= j <= ks.len(),
        first_with_field(nodes, ks.take(j), f) is Some,
    ensures
        first_with_field(nodes, ks, f) == first_with_field(nodes, ks.take(j), f),
    decreases ks.len() - j,
{
    if j < ks.len() {
        assert(ks.take(j + 1).drop_last() =~= ks.take(j));
        lemma_first_with_field_prefix(nodes, ks, f, j + 1);
    } else {
        assert(ks.take(j) =~= ks);
    }
}

fn identifiers_exec(nodes: &Vec<SyntaxNode>, kids: &Vec<usize>) -> (r: Vec<usize>)
    requires
        forall|j: int| 0 <= j < kids@.len() ==> kids@[j] < nodes@.len(),
    ensures
        ints(r@) == identifiers(nodes@, ints(kids@)),
        forall|j: int| 0 <= j < r@.len() ==> r@[j] < nodes@.len(),
{
    proof { reveal_strlit("identifier"); }
    let mut r: Vec<usize> = Vec::new();
    let mut j: usize = 0;
    while j < kids.len()
        invariant
            j <= kids@.len(),
            forall|m: int| 0 <= m < kids@.len() ==> kids@[m] < nodes@.len(),
            forall|m: int| 0 <= m < r@.len() ==> r@[m] < nodes@.len(),
            ints(r@) == identifiers(nodes@, ints(kids@).take(j as int)),
        decreases kids.len() - j,
    {
        let k = kids[j];
        proof {
            assert(ints(kids@).take(j + 1).drop_last() =~= ints(kids@).take(j as int));
            assert(ints(kids@).take(j + 1).last() == k as int);
        }
        if str_eq(&nodes[k].kind, "identifier") {
            r.push(k);
            proof { assert(ints(r@) =~= identifiers(nodes@, ints(kids@).take(j as int)).push(k as int)); }
        }
        j += 1;
    }
    proof { assert(ints(kids@).take(kids@.len() as int) =~= ints(kids@)); }
    r
}

/// The hints of the parameters `ids` paired with `services` (see [`param_hints`]).
fn param_hints_exec(nodes: &Vec<SyntaxNode>, source: &str, cs: &Vec<char>, t: &Vec<Option<usize>>, ids: &Vec<usize>, services: &Vec<String>) -> (r: Vec<Hint>)
    requires
        cs@ == source@,
        offsets_table_of(cs@, t@),
        nodes_fit(nodes@, cs@),
        forall|m: int| 0 <= m < ids@.len() ==> ids@[m] < nodes@.len(),
    ensures
        hints_view(r@) == param_hints(nodes@, source@, ints(ids@), views(services@),
            if ids@.len() <= services@.len() { ids@.len() as int } else { services@.len() as int }),
{
    let mut hints: Vec<Hint> = Vec::new();
    let ghost sv = views(services@);
    let n = if ids.len() <= services.len() { ids.len() } else { services.len() };
    let mut j: usize = 0;
    while j < n
        invariant
            j <= n,
            n <= ids@.len(),
            n <= services@.len(),
            sv == views(services@),
            cs@ == source@,
            offsets_table_of(cs@, t@),
            nodes_fit(nodes@, cs@),
            forall|m: int| 0 <= m < ids@.len() ==> ids@[m] < nodes@.len(),
            hints_view(hints@) == param_hints(nodes@, source@, ints(ids@), sv, j as int),
        decreases n - j,
    {
        let id = ids[j];
        let node = &nodes[id];
        let text = text_of(cs, t, node);
        proof { assert(sv[j as int] == services@[j as int]@); }
        if !str_eq(&text, &services[j]) {
            proof { crate::handler::js_syntax::lemma_boundary_within(source@, node.end_byte as int); }
            let col = byte_offset_to_utf16_col(source, node.end_byte);
            let label = crate::text::concat(": ", &services[j]);
            let h = make_hint(Position { line: #[verifier::truncate] (node.end_row as u32), character: #[verifier::truncate] (col as u32) }, label);
            hints.push(h);
            proof {
                assert(hints_view(hints@) =~= param_hints(nodes@, source@, ints(ids@), sv, j as int)
                    .push(di_hint(nodes@, source@, id as int, sv[j as int])));
            }
        }
        j += 1;
    }
    hints
}

/// The hints of node `i` (see [`own_di_hints`]).
fn own_di_hints_exec(nodes: &Vec<SyntaxNode>, source: &str, cs: &Vec<char>, t: &Vec<Option<usize>>, i: usize) -> (r: Vec<Hint>)
    requires
        i < nodes.len(),
        cs@ == source@,
        offsets_table_of(cs@, t@),
        nodes_fit(nodes@, cs@),
    ensures
        hints_view(r@) == own_di_hints(nodes@, source@, i as int),
{
    proof { reveal_strlit("array"); reveal_strlit("parameters"); }
    let hints: Vec<Hint> = Vec::new();
    if !str_eq(&nodes[i].kind, "array") {
        return hints;
    }
    let kids = children_of(nodes, i);
    let services = service_names_exec(nodes, cs, t, &kids);
    let f = match last_function_exec(nodes, &kids) {
        Some(f) => f,
        None => return hints,
    };
    if services.len() == 0 {
        return hints;
    }
    let fkids = children_of(nodes, f);
    let p = match first_with_field_exec(nodes, &fkids, "parameters") {
        Some(p) => p,
        None => return hints,
    };
    let pkids = children_of(nodes, p);
    let ids = identifiers_exec(nodes, &pkids);
    param_hints_exec(nodes, source, cs, t, &ids, &services)
}

/// The injection hints of a script whose preorder syntax nodes are `nodes`: after each
/// parameter of a function in an injection array whose name differs from the service
/// injected there, the label `: service`. Nodes are visited in preorder.
pub fn collect_di_rename_hints(nodes: &Vec<SyntaxNode>, source: &str) -> (r: Vec<Hint>)
    requires
        nodes_fit(nodes@, source@),
        utf8_len(source@) < usize::MAX,
    ensures
        hints_view(r@) == di_hints(nodes@, source@, nodes@.len() as int),
{
    let cs = chars_of(source);
    let t = char_offsets(&cs);
    let mut hints: Vec<Hint> = Vec::new();
    let mut i: usize = 0;
    while i < nodes.len()
        invariant
            i <= nodes@.len(),
            cs@ == source@,
            offsets_table_of(cs@, t@),
            nodes_fit(nodes@, cs@),
            hints_view(hints@) == di_hints(nodes@, source@, i as int),
        decreases nodes.len() - i,
    {
        let mut own = own_di_hints_exec(nodes, source, &cs, &t, i);
        let ghost before = hints@;
        let ghost o = own@;
        hints.append(&mut own);
        proof {
            assert(hints@ == before + o);
            assert(hints_view(hints@) =~= hints_view(before) + hints_view(o));
        }
        i += 1;
    }
    hints
}

/// What [`split_alias`] gives for `p`.
pub open spec fn alias_split(p: Seq<char>) -> Option<(Seq<char>, Seq<char>)> {
    match first_index(p, '.') {
        Some(i) => if i > 0 && i + 1 < p.len() { Some((p.take(i), p.skip(i + 1))) } else { None },
        None => None,
    }
}

/// The controller the alias `a` of a scope expression at `line` names: the controller
/// of the innermost template scope written with that alias there, else the controller of
/// the component binding `b` when its `controllerAs` is `a`.
pub open spec fn alias_controller(scopes: Seq<HtmlControllerScope>, b: Option<ComponentTemplateUrl>, line: int, a: Seq<char>) -> Option<Seq<char>> {
    match innermost(scopes, line, Some(a)) {
        Some(s) => Some(s.controller_name@),
        None => component_alias_controller(b, a),
    }
}

/// The hint of the scope expression `r`: `: Controller` just after its alias, when the
/// alias names a controller other than one of the alias's own name.
pub open spec fn alias_hint(scopes: Seq<HtmlControllerScope>, b: Option<ComponentTemplateUrl>, r: HtmlScopeReference) -> Option<(Position, Seq<char>)> {
    match alias_split(r.property_path@) {
        None => None,
        Some(parts) => match alias_controller(scopes, b, r.start_line as int, parts.0) {
            None => None,
            Some(c) => if c == parts.0 {
                None
            } else {
                Some((Position { line: r.start_line, character: (r.start_col + utf16_len(parts.0)) as u32 }, ": "@ + c))
            },
        },
    }
}

/// The alias hints of the scope expressions `refs`, in order.
pub open spec fn alias_hints(scopes: Seq<HtmlControllerScope>, b: Option<ComponentTemplateUrl>, refs: Seq<HtmlScopeReference>) -> Seq<(Position, Seq<char>)>
    decreases refs.len(),
{
    if refs.len() == 0 {
        Seq::empty()
    } else {
        let p = alias_hints(scopes, b, refs.drop_last());
        match alias_hint(scopes, b, refs.last()) {
            Some(h) => p.push(h),
            None => p,
        }
    }
}

/// Every alias hint column of the scope expressions `refs` fits in `u32`.
pub open spec fn alias_columns_fit(refs: Seq<HtmlScopeReference>) -> bool {
    forall|i: int| 0 <= i < refs.len() ==> match alias_split((#[trigger] refs[i]).property_path@) {
        Some(parts) => refs[i].start_col + utf16_len(parts.0) <= u32::MAX,
        None => true,
    }
}

proof fn lemma_utf16_take_mono(s: Seq<char>, k: int)
    requires
        0 <= k <= s.len(),
    ensures
        utf16_len(s.take(k)) <= utf16_len(s),
    decreases s.len() - k,
{
    if k < s.len() {
        lemma_utf16_take_mono(s, k + 1);
        assert(s.take(k + 1).drop_last() =~= s.take(k));
    } else {
        assert(s.take(k) =~= s);
    }
}

/// Whether `col` plus the UTF-16 length of `s` fits in `u32`.
fn fits_after(col: u32, s: &str) -> (r: bool)
    ensures
        r == (col + utf16_len(s@) <= u32::MAX),
{
    let cs = chars_of(s);
    let mut k: usize = 0;
    let mut sum: u64 = col as u64;
    while k < cs.len()
        invariant
            cs@ == s@,
            k <= cs@.len(),
            sum == col + utf16_len(s@.take(k as int)),
            sum <= u32::MAX,
        decreases cs.len() - k,
    {
        proof {
            assert(s@.take(k + 1).drop_last() =~= s@.take(k as int));
        }
        let w: u64 = if (cs[k] as u32) >= 0x10000 { 2 } else { 1 };
        sum = sum + w;
        if sum > 0xffff_ffff {
            proof { lemma_utf16_take_mono(s@, k + 1); }
            return false;
        }
        k += 1;
    }
    proof { assert(s@.take(cs@.len() as int) =~= s@); }
    true
}

/// The UTF-16 length of `s`, known to fit in `u32`.
fn utf16_count(s: &str) -> (r: u32)
    requires
        utf16_len(s@) <= u32::MAX,
    ensures
        r == utf16_len(s@),
{
    let cs = chars_of(s);
    let mut k: usize = 0;
    let mut sum: u32 = 0;
    while k < cs.len()
        invariant
            cs@ == s@,
            k <= cs@.len(),
            utf16_len(s@) <= u32::MAX,
            sum == utf16_len(s@.take(k as int)),
        decreases cs.len() - k,
    {
        proof {
            assert(s@.take(k + 1).drop_last() =~= s@.take(k as int));
            lemma_utf16_take_mono(s@, k + 1);
        }
        let w: u32 = if (cs[k] as u32) >= 0x10000 { 2 } else { 1 };
        sum = sum + w;
        k += 1;
    }
    proof { assert(s@.take(cs@.len() as int) =~= s@); }
    sum
}

/// A script's syntax tree kept with a fingerprint of the text it was made from.
#[derive(Debug, Clone)]
pub struct CachedJsTree {
    pub source_hash: u64,
    pub tree: Vec<SyntaxNode>,
}

/// Syntax trees of scripts by document, reused while a document's text is unchanged.
pub type JsTreeCache = DashMap<String, CachedJsTree>;

/// What a tree cache holds.
pub uninterp spec fn cached_trees(m: DashMap<String, CachedJsTree>) -> Map<Seq<char>, CachedJsTree>;

/// `DashMap::new`: an empty tree cache.
#[verifier::external_body]
pub fn new_js_tree_cache() -> (r: JsTreeCache)
    ensures
        cached_trees(r) =~= Map::empty(),
{
    DashMap::new()
}

/// `DashMap::get`, the entry cloned out: the cached tree of `key`, if any.
#[verifier::external_body]
fn cached_tree_get(m: &JsTreeCache, key: &str) -> (r: Option<CachedJsTree>)
    ensures
        match r {
            Some(v) => cached_trees(*m).contains_key(key@) && v == cached_trees(*m)[key@],
            None => !cached_trees(*m).contains_key(key@),
        },
{
    m.get(key).map(|e| e.value().clone())
}

/// `DashMap::insert`: records `v` under `key`, replacing what was there.
#[verifier::external_body]
fn cached_tree_insert(m: &mut JsTreeCache, key: String, v: CachedJsTree)
    ensures
        cached_trees(*final(m)) == cached_trees(*old(m)).insert(key@, v),
{
    m.insert(key, v);
}

/// `t` is the tree used for the text `src` of `uri`, `c` the cache before and `c2` after,
/// `h` being the text's fingerprint: the cached tree of `uri` when its fingerprint is
/// `h`, the cache unchanged; otherwise the tree the grammar makes of `src`, recorded under
/// `uri` with `h` when there is one.
pub open spec fn tree_choice(c: Map<Seq<char>, CachedJsTree>, uri: Seq<char>, src: Seq<char>, h: u64, t: Option<Seq<SyntaxNode>>, c2: Map<Seq<char>, CachedJsTree>) -> bool {
    if c.contains_key(uri) && c[uri].source_hash == h {
        t == Some(c[uri].tree@) && c2 == c
    } else {
        t == javascript_syntax(src) && match t {
            Some(v) => exists|e: CachedJsTree| e.source_hash == h && e.tree@ == v && c2 == c.insert(uri, e),
            None => c2 == c,
        }
    }
}

/// The nodes of an optional tree.
pub open spec fn opt_nodes(r: Option<Vec<SyntaxNode>>) -> Option<Seq<SyntaxNode>> {
    match r {
        Some(v) => Some(v@),
        None => None,
    }
}

/// The injection hints a tree `t` of the text `src` gives: none without a tree, or when
/// its byte ranges do not fall between characters of the text.
pub open spec fn tree_hints(t: Option<Seq<SyntaxNode>>, src: Seq<char>) -> Seq<(Position, Seq<char>)> {
    match t {
        Some(v) => if nodes_fit(v, src) && utf8_len(src) < usize::MAX { di_hints(v, src, v.len() as int) } else { Seq::empty() },
        None => Seq::empty(),
    }
}

/// The hints within `range` (all of them without one).
pub open spec fn in_range(hs: Seq<(Position, Seq<char>)>, range: Option<Range>) -> Seq<(Position, Seq<char>)> {
    match range {
        Some(r) => hs.filter(|h: (Position, Seq<char>)| position_within(h.0, r)),
        None => hs,
    }
}

/// `pos` lies in `range`, both ends included.
pub open spec fn position_within(pos: Position, range: Range) -> bool {
    &&& range.start.line <= pos.line <= range.end.line
    &&& (pos.line == range.start.line ==> range.start.character <= pos.character)
    &&& (pos.line == range.end.line ==> pos.character <= range.end.character)
}

/// `r` is the injection hints of the script `uri` whose text is `source`, the cache
/// going from `c` to `c2`: none without the text; otherwise those of the tree
/// [`tree_choice`] picks for some fingerprint of the text.
pub open spec fn js_hints_are(uri: Seq<char>, source: Option<Seq<char>>, c: Map<Seq<char>, CachedJsTree>, c2: Map<Seq<char>, CachedJsTree>, r: Seq<(Position, Seq<char>)>) -> bool {
    match source {
        None => r.len() == 0 && c2 == c,
        Some(src) => script_hints_are(uri, src, c, c2, r),
    }
}

/// `r` is the injection hints of the text `src` of `uri` for the tree [`tree_choice`]
/// picks for some fingerprint of the text, the cache going from `c` to `c2`.
pub open spec fn script_hints_are(uri: Seq<char>, src: Seq<char>, c: Map<Seq<char>, CachedJsTree>, c2: Map<Seq<char>, CachedJsTree>, r: Seq<(Position, Seq<char>)>) -> bool {
    exists|h: u64, t: Option<Seq<SyntaxNode>>| #[trigger] tree_choice(c, uri, src, h, t, c2) && r == tree_hints(t, src)
}

/// Inlay hints over an index, with a cache of script syntax trees.
pub struct InlayHintsHandler<'a> {
    pub index: &'a Index,
    pub js_tree_cache: JsTreeCache,
}

impl<'a> InlayHintsHandler<'a> {
    pub fn new(index: &'a Index, js_tree_cache: JsTreeCache) -> (r: Self)
        ensures
            r.index == index,
            cached_trees(r.js_tree_cache) == cached_trees(js_tree_cache),
    {
        InlayHintsHandler { index, js_tree_cache }
    }

    /// `r` is the alias hints of the template `uri`, for some component binding `b` the
    /// template has.
    pub open spec fn html_hints_are(&self, uri: Seq<char>, r: Seq<(Position, Seq<char>)>) -> bool {
        exists|b: Option<ComponentTemplateUrl>| #[trigger] self.index.components.binding_for_template_is(uri, b)
            && r == alias_hints(list_at(self.index.controllers.html_scopes(), uri), b, list_at(self.index.html@.scope_references, uri))
    }

    /// Whether every alias hint column of the template `uri` fits in `u32`.
    pub fn hint_columns_fit(&self, uri: &str) -> (r: bool)
        ensures
            r == alias_columns_fit(list_at(self.index.html@.scope_references, uri@)),
    {
        let refs = self.index.html.get_html_scope_references(uri);
        let mut i: usize = 0;
        while i < refs.len()
            invariant
                i <= refs@.len(),
                refs@ == list_at(self.index.html@.scope_references, uri@),
                forall|k: int| 0 <= k < i ==> match alias_split((#[trigger] refs@[k]).property_path@) {
                    Some(parts) => refs@[k].start_col + utf16_len(parts.0) <= u32::MAX,
                    None => true,
                },
            decreases refs.len() - i,
        {
            let r = &refs[i];
            match split_alias(&r.property_path) {
                Some((alias, _rest)) => {
                    if !fits_after(r.start_col, alias) {
                        return false;
                    }
                },
                None => {},
            }
            i += 1;
        }
        true
    }

    /// The alias hints of the template `uri`: after each `alias.` of a scope expression
    /// whose alias names a controller (an `ng-controller` written with it, else the
    /// template's component), `: Controller`.
    fn collect_html_hints(&self, uri: &str) -> (r: Vec<Hint>)
        requires
            alias_columns_fit(list_at(self.index.html@.scope_references, uri@)),
        ensures
            self.html_hints_are(uri@, hints_view(r@)),
    {
        let component_binding = self.index.components.get_component_binding_for_template(uri);
        let ghost b = component_binding;
        let ghost scopes = list_at(self.index.controllers.html_scopes(), uri@);
        let refs = self.index.html.get_html_scope_references(uri);
        let mut hints: Vec<Hint> = Vec::new();
        let mut i: usize = 0;
        while i < refs.len()
            invariant
                i <= refs@.len(),
                refs@ == list_at(self.index.html@.scope_references, uri@),
                scopes == list_at(self.index.controllers.html_scopes(), uri@),
                b == component_binding,
                alias_columns_fit(refs@),
                hints_view(hints@) == alias_hints(scopes, b, refs@.take(i as int)),
            decreases refs.len() - i,
        {
            let r = &refs[i];
            proof {
                assert(refs@.take(i + 1).drop_last() =~= refs@.take(i as int));
                assert(refs@.take(i + 1).last() == refs@[i as int]);
            }
            match self.alias_hint_of(uri, r, &component_binding) {
                Some(h) => {
                    let ghost before = hints@;
                    hints.push(h);
                    proof { assert(hints_view(hints@) =~= hints_view(before).push(hint_view(h))); }
                },
                None => {},
            }
            i += 1;
        }
        proof {
            assert(refs@.take(refs@.len() as int) =~= refs@);
            assert(self.index.components.binding_for_template_is(uri@, b));
        }
        hints
    }

    fn alias_hint_of(&self, uri: &str, r: &HtmlScopeReference, component_binding: &Option<ComponentTemplateUrl>) -> (h: Option<Hint>)
        requires
            match alias_split(r.property_path@) {
                Some(parts) => r.start_col + utf16_len(parts.0) <= u32::MAX,
                None => true,
            },
        ensures
            match h {
                Some(x) => alias_hint(list_at(self.index.controllers.html_scopes(), uri@), *component_binding, *r) == Some(hint_view(x)),
                None => alias_hint(list_at(self.index.controllers.html_scopes(), uri@), *component_binding, *r) is None,
            },
    {
        let (alias, _rest) = match split_alias(&r.property_path) {
            Some(p) => p,
            None => return None,
        };
        let controller_name = match self.index.controllers.resolve_controller_by_alias(uri, r.start_line, alias) {
            Some(c) => c,
            None => match component_binding {
                Some(t) => if str_eq(&t.controller_as, alias) {
                    match &t.controller_name {
                        Some(c) => c.clone(),
                        None => return None,
                    }
                } else {
                    return None;
                },
                None => return None,
            },
        };
        if str_eq(alias, &controller_name) {
            return None;
        }
        let width = utf16_count(alias);
        let label = crate::text::concat(": ", &controller_name);
        Some(make_hint(Position { line: r.start_line, character: r.start_col + width }, label))
    }

    fn get_or_parse_js_tree(&mut self, uri: &str, source: &str) -> (r: Option<Vec<SyntaxNode>>)
        ensures
            final(self).index == old(self).index,
            exists|h: u64| #[trigger] tree_choice(cached_trees(old(self).js_tree_cache), uri@, source@, h,
                opt_nodes(r), cached_trees(final(self).js_tree_cache)),
    {
        let new_hash = hash_source(source);
        match cached_tree_get(&self.js_tree_cache, uri) {
            Some(entry) => {
                if entry.source_hash == new_hash {
                    let ghost c = cached_trees(self.js_tree_cache);
                    assert(tree_choice(c, uri@, source@, new_hash, Some(entry.tree@), c));
                    return Some(entry.tree);
                }
            },
            None => {},
        }
        let ghost c = cached_trees(self.js_tree_cache);
        let tree = match parse_javascript(source) {
            Some(t) => t,
            None => {
                assert(tree_choice(c, uri@, source@, new_hash, None, c));
                return None;
            },
        };
        let e = CachedJsTree { source_hash: new_hash, tree };
        let ghost ev = e;
        cached_tree_insert(&mut self.js_tree_cache, uri.to_owned(), e);
        assert(tree_choice(c, uri@, source@, new_hash, Some(ev.tree@), c.insert(uri@, ev)));
        match cached_tree_get(&self.js_tree_cache, uri) {
            Some(v) => Some(v.tree),
            None => None,
        }
    }

    fn collect_js_hints(&mut self, uri: &str, source: Option<&str>) -> (r: Vec<Hint>)
        ensures
            final(self).index == old(self).index,
            js_hints_are(uri@, match source { Some(s) => Some(s@), None => None },
                cached_trees(old(self).js_tree_cache), cached_trees(final(self).js_tree_cache), hints_view(r@)),
    {
        proof { assert(hints_view(Seq::<Hint>::empty()) =~= Seq::<(Position, Seq<char>)>::empty()); }
        let src = match source {
            Some(s) => s,
            None => return Vec::new(),
        };
        let ghost c0 = cached_trees(self.js_tree_cache);
        let tree = self.get_or_parse_js_tree(uri, src);
        let ghost gt = opt_nodes(tree);
        let ghost h = choose|h: u64| tree_choice(c0, uri@, src@, h, gt, cached_trees(self.js_tree_cache));
        assert(tree_choice(c0, uri@, src@, h, gt, cached_trees(self.js_tree_cache)));
        let nodes = match tree {
            Some(v) => v,
            None => {
                assert(tree_hints(gt, src@) =~= Seq::empty());
                return Vec::new();
            },
        };
        let len = crate::text::byte_len(src);
        if len == usize::MAX {
            return Vec::new();
        }
        let cs = chars_of(src);
        let offsets = char_offsets(&cs);
        if !check_nodes_fit(&nodes, &cs, &offsets) {
            return Vec::new();
        }
        collect_di_rename_hints(&nodes, src)
    }

    /// `r` is the inlay hints of `uri` whose text is `source`, within `range`, the tree
    /// cache going from `c` to `c2`: for a script, its injection hints; for a template,
    /// its alias hints (the cache unchanged); none for another document.
    pub open spec fn inlay_hints_are(&self, uri: Seq<char>, source: Option<Seq<char>>, range: Option<Range>,
        c: Map<Seq<char>, CachedJsTree>, c2: Map<Seq<char>, CachedJsTree>, r: Option<Seq<(Position, Seq<char>)>>) -> bool
    {
        if ends_with(path_of(uri), ".js"@) {
            exists|hs: Seq<(Position, Seq<char>)>| #[trigger] js_hints_are(uri, source, c, c2, hs) && r == Some(in_range(hs, range))
        } else if html_path(path_of(uri)) {
            c2 == c && exists|hs: Seq<(Position, Seq<char>)>| #[trigger] self.html_hints_are(uri, hs) && r == Some(in_range(hs, range))
        } else {
            r is None && c2 == c
        }
    }

    /// The inlay hints of `uri`, whose text is `source` when the document is open, within
    /// `range` (both ends included; the whole document without one).
    pub fn inlay_hints(&mut self, uri: &str, source: Option<&str>, range: Option<Range>) -> (r: Option<Vec<Hint>>)
        requires
            !ends_with(path_of(uri@), ".js"@) && html_path(path_of(uri@))
                ==> alias_columns_fit(list_at(old(self).index.html@.scope_references, uri@)),
        ensures
            final(self).index == old(self).index,
            old(self).inlay_hints_are(uri@, match source { Some(s) => Some(s@), None => None }, range,
                cached_trees(old(self).js_tree_cache), cached_trees(final(self).js_tree_cache),
                match r { Some(v) => Some(hints_view(v@)), None => None }),
    {
        let hints = if is_js_file(uri) {
            self.collect_js_hints(uri, source)
        } else if is_html_file(uri) {
            self.collect_html_hints(uri)
        } else {
            return None;
        };
        let ghost hv = hints_view(hints@);
        let filtered = match range {
            Some(r) => keep_in_range(hints, r),
            None => hints,
        };
        proof {
            if ends_with(path_of(uri@), ".js"@) {
                assert(js_hints_are(uri@, match source { Some(s) => Some(s@), None => None },
                    cached_trees(old(self).js_tree_cache), cached_trees(self.js_tree_cache), hv));
            } else {
                assert(self.html_hints_are(uri@, hv));
            }
        }
        Some(filtered)
    }
}

/// The hints of `hints` within `range`, in order.
fn keep_in_range(hints: Vec<Hint>, range: Range) -> (r: Vec<Hint>)
    ensures
        hints_view(r@) == hints_view(hints@).filter(|h: (Position, Seq<char>)| position_within(h.0, range)),
{
    let ghost all = hints_view(hints@);
    let ghost raw = hints@;
    let mut rest = hints;
    let mut r: Vec<Hint> = Vec::new();
    while rest.len() > 0
        invariant
            rest@.len() <= raw.len(),
            all == hints_view(raw),
            rest@ == raw.skip(raw.len() - rest@.len()),
            hints_view(r@) == all.take(raw.len() - rest@.len()).filter(|h: (Position, Seq<char>)| position_within(h.0, range)),
        decreases rest.len(),
    {
        let ghost k = raw.len() - rest@.len();
        let ghost before = r@;
        let h = rest.remove(0);
        proof {
            assert(all.take(k + 1).drop_last() =~= all.take(k));
            assert(all.take(k + 1).last() == hint_view(h));
            assert(rest@ =~= raw.skip(k + 1));
            reveal_with_fuel(Seq::filter, 1);
        }
        if position_in_range(h.position, range) {
            r.push(h);
            proof { assert(hints_view(r@) =~= hints_view(before).push(hint_view(h))); }
        }
    }
    proof { assert(all.take(raw.len() as int) =~= all); }
    r
}

} // verus!