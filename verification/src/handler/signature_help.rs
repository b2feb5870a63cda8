//! Signature help: inside the argument list of a call, the signature of the function
//! called and the parameter the cursor is on.
use vstd::prelude::*;

use crate::handler::code_lens::{comma_joined, joined_names};
use crate::handler::inlay_hints::{chars_in_bytes, is_char_boundary_at, utf8_len, utf8_width};
use crate::handler::js_syntax::{lemma_boundary_index, lemma_take_step, lemma_take_strict};
use crate::index::html_resolve::{is_ident, is_identifier_char, line_text};
use crate::index::query::opt_view;
use crate::index::snapshot::list_at;
use crate::index::Index;
use crate::model::Symbol;
use crate::text::{chars_of, concat, lemma_line_bounds_ok, line_range, string_from_chars, views};

verus! {

/// The text of line `line` of `s` before byte column `col` (the whole line when `col`
/// is at or past its end).
pub open spec fn text_before_cursor(s: Seq<char>, line: nat, col: nat) -> Option<Seq<char>> {
    match line_text(s, line) {
        None => None,
        Some(l) => Some(if col >= utf8_len(l) { l } else { l.take(chars_in_bytes(l, col as int)) }),
    }
}

/// The cursor's line can be cut at byte column `col` (it lies between two characters or
/// at or past the end), and its depth counters fit in an `i32`.
pub open spec fn cursor_fits(s: Seq<char>, line: nat, col: nat) -> bool {
    match line_text(s, line) {
        None => true,
        Some(l) => (col >= utf8_len(l) || is_char_boundary_at(l, col as int)) && l.len() <= i32::MAX,
    }
}

/// Scanning `t[..i]` backwards with `depth` closing parentheses pending: the index of
/// the first `(` met with none pending.
pub open spec fn open_paren_before(t: Seq<char>, i: int, depth: int) -> Option<int>
    decreases i,
{
    if i <= 0 {
        None
    } else if t[i - 1] == ')' {
        open_paren_before(t, i - 1, depth + 1)
    } else if t[i - 1] == '(' {
        if depth == 0 { Some(i - 1) } else { open_paren_before(t, i - 1, depth - 1) }
    } else {
        open_paren_before(t, i - 1, depth)
    }
}

/// The name before an opening parenthesis: read backwards, identifier characters and the
/// dots between them, starting at the last identifier character and stopping at the
/// first other character after one (`found`: an identifier character was the last taken).
pub open spec fn name_scan(t: Seq<char>, found: bool) -> Seq<char>
    decreases t.len(),
{
    if t.len() == 0 {
        Seq::empty()
    } else {
        let c = t.last();
        if is_identifier_char(c) {
            name_scan(t.drop_last(), true).push(c)
        } else if c == '.' && found {
            name_scan(t.drop_last(), false).push(c)
        } else if found {
            Seq::empty()
        } else {
            name_scan(t.drop_last(), found)
        }
    }
}

/// Commas counted so far, then the depths of `()`, `[]` and `{}`, after reading `t`:
/// a closer lowers its depth, and a comma counts only with all three at zero.
pub open spec fn comma_state(t: Seq<char>) -> (int, int, int, int)
    decreases t.len(),
{
    if t.len() == 0 {
        (0, 0, 0, 0)
    } else {
        let (n, p, b, c) = comma_state(t.drop_last());
        let x = t.last();
        if x == '(' {
            (n, p + 1, b, c)
        } else if x == ')' {
            (n, p - 1, b, c)
        } else if x == '[' {
            (n, p, b + 1, c)
        } else if x == ']' {
            (n, p, b - 1, c)
        } else if x == '{' {
            (n, p, b, c + 1)
        } else if x == '}' {
            (n, p, b, c - 1)
        } else if x == ',' && p == 0 && b == 0 && c == 0 {
            (n + 1, p, b, c)
        } else {
            (n, p, b, c)
        }
    }
}

/// The call the cursor is in, given the text before it: the name before the innermost
/// unclosed `(` and the number of top-level commas after it.
pub open spec fn call_context(t: Seq<char>) -> Option<(Seq<char>, int)> {
    match open_paren_before(t, t.len() as int, 0) {
        None => None,
        Some(k) => {
            let name = name_scan(t.take(k), false);
            if name.len() == 0 {
                None
            } else {
                Some((name, comma_state(t.subrange(k + 1, t.len() as int)).0))
            }
        },
    }
}

/// The call context at `(line, col)` of `s`.
pub open spec fn call_context_at(s: Seq<char>, line: nat, col: nat) -> Option<(Seq<char>, int)> {
    match text_before_cursor(s, line, col) {
        None => None,
        Some(t) => call_context(t),
    }
}

proof fn lemma_open_paren_bounds(t: Seq<char>, i: int, depth: int)
    requires
        0 <= i <= t.len(),
    ensures
        open_paren_before(t, i, depth) matches Some(k) ==> 0 <= k < i && t[k] == '(',
    decreases i,
{
    if i > 0 {
        if t[i - 1] == ')' {
            lemma_open_paren_bounds(t, i - 1, depth + 1);
        } else if t[i - 1] == '(' {
            lemma_open_paren_bounds(t, i - 1, depth - 1);
        } else {
            lemma_open_paren_bounds(t, i - 1, depth);
        }
    }
}

/// Where `cs[a..b]`, cut at byte `col`, ends: the character index (from `a`) of that
/// byte, or `b - a` when `col` is at or past the end.
pub(crate) fn cut_index(cs: &Vec<char>, a: usize, b: usize, col: u32) -> (r: usize)
    requires
        a <= b <= cs@.len(),
        col >= utf8_len(cs@.subrange(a as int, b as int)) || is_char_boundary_at(cs@.subrange(a as int, b as int), col as int),
    ensures
        cs@.subrange(a as int, b as int).take(r as int) == (if col >= utf8_len(cs@.subrange(a as int, b as int)) {
            cs@.subrange(a as int, b as int)
        } else {
            cs@.subrange(a as int, b as int).take(chars_in_bytes(cs@.subrange(a as int, b as int), col as int))
        }),
        r <= b - a,
{
    let ghost l = cs@.subrange(a as int, b as int);
    let ghost below = col < utf8_len(l);
    let ghost j: int = if below { chars_in_bytes(l, col as int) } else { l.len() as int };
    proof {
        if below {
            let w = choose|w: int| 0 <= w <= l.len() && utf8_len(l.take(w)) == col;
            lemma_boundary_index(l, w);
        }
    }
    let mut n: u64 = 0;
    let mut k: usize = 0;
    while k < b - a && n < col as u64
        invariant
            a <= b <= cs@.len(),
            l == cs@.subrange(a as int, b as int),
            k <= b - a,
            n == utf8_len(l.take(k as int)),
            n <= col + 4,
            0 <= j <= l.len(),
            k <= j,
            below ==> utf8_len(l.take(j)) == col,
            !below ==> j == l.len() && utf8_len(l) <= col,
        decreases b - a - k,
    {
        proof {
            lemma_take_step(l, k as int);
            if (k as int) + 1 < j {
                lemma_take_strict(l, k + 1, j);
            }
        }
        let c = cs[a + k];
        let w: u64 = if (c as u32) < 0x80 { 1 } else if (c as u32) < 0x800 { 2 } else if (c as u32) < 0x10000 { 3 } else { 4 };
        n = n + w;
        k += 1;
    }
    proof {
        if (k as int) < j {
            lemma_take_strict(l, k as int, j);
        }
        if !below {
            assert(l.take(l.len() as int) =~= l);
        }
    }
    k
}

/// The index (from `a`) of the innermost unclosed `(` in `cs[a..a + e]`.
fn open_paren_index(cs: &Vec<char>, a: usize, e: usize) -> (r: Option<usize>)
    requires
        a + e <= cs@.len(),
    ensures
        match r {
            Some(k) => open_paren_before(cs@.subrange(a as int, a + e), e as int, 0) == Some(k as int) && k < e,
            None => open_paren_before(cs@.subrange(a as int, a + e), e as int, 0) is None,
        },
{
    let ghost t = cs@.subrange(a as int, a + e);
    proof { lemma_open_paren_bounds(t, e as int, 0); }
    let mut i: usize = e;
    let mut depth: usize = 0;
    let len = cs.len();
    while i > 0
        invariant
            a + e <= cs@.len(),
            cs@.len() == len,
            t == cs@.subrange(a as int, a + e),
            i <= e,
            depth <= e - i,
            open_paren_before(t, e as int, 0) == open_paren_before(t, i as int, depth as int),
        decreases i,
    {
        let c = cs[a + i - 1];
        if c == ')' {
            depth += 1;
        } else if c == '(' {
            if depth == 0 {
                return Some(i - 1);
            }
            depth -= 1;
        }
        i -= 1;
    }
    None
}

/// `name_scan(cs[a..a + k], false)`.
fn function_name(cs: &Vec<char>, a: usize, k: usize) -> (r: Vec<char>)
    requires
        a + k <= cs@.len(),
    ensures
        r@ == name_scan(cs@.subrange(a as int, a + k), false),
{
    let ghost t = cs@.subrange(a as int, a + k);
    let mut acc: Vec<char> = Vec::new();
    let mut found = false;
    let mut i: usize = k;
    proof { assert(t.take(k as int) =~= t); }
    let len = cs.len();
    while i > 0
        invariant
            a + k <= cs@.len(),
            cs@.len() == len,
            t == cs@.subrange(a as int, a + k),
            i <= k,
            name_scan(t, false) == name_scan(t.take(i as int), found) + acc@,
        decreases i,
    {
        let c = cs[a + i - 1];
        let ghost u = t.take(i as int);
        let ghost acc0 = acc@;
        let ghost f0 = found;
        proof {
            assert(u.last() == c);
            assert(u.drop_last() =~= t.take(i - 1));
        }
        if is_ident(c) {
            acc.insert(0, c);
            found = true;
            proof {
                assert(name_scan(u, f0) == name_scan(t.take(i - 1), true).push(c));
                assert(name_scan(u, f0) + acc0 =~= name_scan(t.take(i - 1), found) + acc@);
            }
        } else if c == '.' && found {
            acc.insert(0, c);
            found = false;
            proof {
                assert(name_scan(u, f0) == name_scan(t.take(i - 1), false).push(c));
                assert(name_scan(u, f0) + acc0 =~= name_scan(t.take(i - 1), found) + acc@);
            }
        } else if found {
            proof {
                assert(name_scan(u, f0) == Seq::<char>::empty());
                assert(name_scan(t, false) =~= acc@);
            }
            return acc;
        } else {
            proof { assert(name_scan(u, f0) == name_scan(t.take(i - 1), found)); }
        }
        i -= 1;
    }
    proof { assert(name_scan(t.take(0), found) == Seq::<char>::empty()); assert(name_scan(t, false) =~= acc@); }
    acc
}

/// `comma_state(cs[a..b]).0`.
fn count_commas(cs: &Vec<char>, a: usize, b: usize) -> (r: u32)
    requires
        a <= b <= cs@.len(),
        b - a <= i32::MAX,
    ensures
        r == comma_state(cs@.subrange(a as int, b as int)).0,
{
    let ghost t = cs@.subrange(a as int, b as int);
    let mut count: u32 = 0;
    let mut paren: i64 = 0;
    let mut bracket: i64 = 0;
    let mut brace: i64 = 0;
    let mut j: usize = a;
    while j < b
        invariant
            a <= j <= b <= cs@.len(),
            b - a <= i32::MAX,
            t == cs@.subrange(a as int, b as int),
            comma_state(t.take(j - a)) == (count as int, paren as int, bracket as int, brace as int),
            count <= j - a,
            -(j - a) <= paren <= j - a,
            -(j - a) <= bracket <= j - a,
            -(j - a) <= brace <= j - a,
        decreases b - j,
    {
        let x = cs[j];
        proof {
            assert(t.take(j - a + 1).drop_last() =~= t.take(j - a));
            assert(t.take(j - a + 1).last() == x);
        }
        if x == '(' {
            paren += 1;
        } else if x == ')' {
            paren -= 1;
        } else if x == '[' {
            bracket += 1;
        } else if x == ']' {
            bracket -= 1;
        } else if x == '{' {
            brace += 1;
        } else if x == '}' {
            brace -= 1;
        } else if x == ',' && paren == 0 && bracket == 0 && brace == 0 {
            count += 1;
        }
        j += 1;
    }
    proof { assert(t.take(b - a) =~= t); }
    count
}

/// The call context at `(line, col)` of `source`: the name called and the index of the
/// argument the cursor is in.
pub fn find_call_context(source: &str, line: u32, col: u32) -> (r: Option<(String, u32)>)
    requires
        cursor_fits(source@, line as nat, col as nat),
    ensures
        match r {
            Some((name, active)) => call_context_at(source@, line as nat, col as nat) == Some((name@, active as int)),
            None => call_context_at(source@, line as nat, col as nat) is None,
        },
{
    let cs = chars_of(source);
    let (a, b) = match line_range(&cs, line) {
        Some(bounds) => bounds,
        None => {
            return None;
        },
    };
    proof { lemma_line_bounds_ok(cs@, line as nat); }
    let ghost l = cs@.subrange(a as int, b as int);
    let e = cut_index(&cs, a, b, col);
    let ghost t = l.take(e as int);
    proof { assert(t =~= cs@.subrange(a as int, a + e)); }
    let k = match open_paren_index(&cs, a, e) {
        Some(k) => k,
        None => {
            return None;
        },
    };
    let name = function_name(&cs, a, k);
    proof { assert(t.take(k as int) =~= cs@.subrange(a as int, a + k)); }
    if name.len() == 0 {
        return None;
    }
    let active = count_commas(&cs, a + k + 1, a + e);
    proof { assert(t.subrange(k + 1, t.len() as int) =~= cs@.subrange(a + k + 1, a + e)); }
    let s = string_from_chars(&name, 0, name.len());
    proof { assert(name@.subrange(0, name@.len() as int) =~= name@); }
    Some((s, active))
}

/// The signature of the function called at the cursor.
pub struct SignatureHelp {
    /// The name with its parameters, as `name(a, b)`.
    pub label: String,
    pub parameters: Vec<String>,
    /// The definition's documentation, in Markdown.
    pub documentation: Option<String>,
    /// The parameter the cursor is on, counted from 0.
    pub active_parameter: u32,
}

/// A signature as its label, parameters, documentation and active parameter.
pub type SignatureView = (Seq<char>, Seq<Seq<char>>, Option<Seq<char>>, u32);

pub open spec fn signature_view(h: Option<SignatureHelp>) -> Option<SignatureView> {
    match h {
        Some(h) => Some((h.label@, views(h.parameters@), opt_view(h.documentation), h.active_parameter)),
        None => None,
    }
}

pub open spec fn parameters_view(p: Option<Vec<String>>) -> Option<Seq<Seq<char>>> {
    match p {
        Some(v) => Some(views(v@)),
        None => None,
    }
}

/// The signature shown for a definition named `name`: none without parameters, else
/// `name(p1, p2, ...)` with the parameters and documentation.
pub open spec fn signature_of(name: Seq<char>, params: Option<Seq<Seq<char>>>, docs: Option<Seq<char>>, active: u32) -> Option<SignatureView> {
    match params {
        None => None,
        Some(ps) => if ps.len() == 0 {
            None
        } else {
            Some((name + "("@ + comma_joined(ps) + ")"@, ps, docs, active))
        },
    }
}

/// The signature help at `(line, col)` of `s`: that of the first definition of the name
/// called, with the argument the cursor is in as the active parameter.
pub open spec fn signature_help_is(idx: &Index, s: Seq<char>, line: nat, col: nat, r: Option<SignatureView>) -> bool {
    match call_context_at(s, line, col) {
        None => r is None,
        Some((name, active)) => {
            let ds = list_at(idx.definitions.defs(), name);
            if ds.len() == 0 {
                r is None
            } else {
                r == signature_of(ds[0].name@, parameters_view(ds[0].parameters), opt_view(ds[0].docs), active as u32)
            }
        },
    }
}

pub struct SignatureHelpHandler<'a> {
    pub index: &'a Index,
}

impl<'a> SignatureHelpHandler<'a> {
    pub fn new(index: &'a Index) -> (r: Self)
        ensures
            r.index == index,
    {
        SignatureHelpHandler { index }
    }

    /// The signature of the call the cursor at `(line, col)` of `source` is in; `uri`
    /// names the document and does not change which definition is shown.
    pub fn signature_help(&self, uri: &str, line: u32, col: u32, source: &str) -> (r: Option<SignatureHelp>)
        requires
            cursor_fits(source@, line as nat, col as nat),
        ensures
            signature_help_is(self.index, source@, line as nat, col as nat, signature_view(r)),
    {
        let _ = uri;
        let (name, active) = match find_call_context(source, line, col) {
            Some(c) => c,
            None => {
                return None;
            },
        };
        let symbol = match self.find_symbol_definition(&name) {
            Some(s) => s,
            None => {
                return None;
            },
        };
        build_signature_help(symbol.name, symbol.parameters, symbol.docs, active)
    }

    /// The first definition of `name`.
    fn find_symbol_definition(&self, name: &str) -> (r: Option<Symbol>)
        ensures
            r == (if list_at(self.index.definitions.defs(), name@).len() == 0 {
                None::<Symbol>
            } else {
                Some(list_at(self.index.definitions.defs(), name@)[0])
            }),
    {
        let mut defs = self.index.definitions.get_definitions(name);
        if defs.len() == 0 {
            None
        } else {
            Some(defs.remove(0))
        }
    }
}

/// The signature of a definition named `name`, with `active` as the active parameter.
fn build_signature_help(name: String, parameters: Option<Vec<String>>, docs: Option<String>, active: u32) -> (r: Option<SignatureHelp>)
    ensures
        signature_view(r) == signature_of(name@, parameters_view(parameters), opt_view(docs), active),
{
    let params = match parameters {
        Some(p) => p,
        None => {
            return None;
        },
    };
    if params.len() == 0 {
        return None;
    }
    let joined = joined_names(&params);
    let opened = concat(&name, "(");
    let inner = concat(&opened, &joined);
    let label = concat(&inner, ")");
    proof {
        reveal_strlit("(");
        reveal_strlit(")");
    }
    Some(SignatureHelp { label, parameters: params, documentation: docs, active_parameter: active })
}

} // verus!
