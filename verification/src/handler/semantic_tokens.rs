//! Semantic tokens for templates: scope properties and methods, local variables,
//! form bindings and directives, delta-encoded as the protocol wants them.
use vstd::prelude::*;

use crate::handler::code_action::split_alias_and_property;
use crate::handler::definition::first_with_definitions;
use crate::handler::diagnostics::path_alias;
use crate::handler::references::scope_prop;
use crate::handler::resolve::{alias_step, controllers_step};
use crate::index::html_store::local_reference_in;
use crate::index::query::opt_view;
use crate::index::snapshot::{flatten, list_at};
use crate::index::tables::list_snapshot_of;
use crate::index::Index;
use crate::model::{HtmlDirectiveReference, HtmlFormBinding, HtmlLocalVariable, HtmlLocalVariableReference, HtmlScopeReference, Symbol, SymbolKind};
use crate::text::{chars_of, concat, string_from_chars, views};
use crate::uri::path_of;
use crate::util::{html_path, is_html_file};

verus! {

/// Token type: a scope property.
pub const TOKEN_TYPE_PROPERTY: u32 = 0;
/// Token type: a scope method.
pub const TOKEN_TYPE_METHOD: u32 = 1;
/// Token type: a local variable or a form binding.
pub const TOKEN_TYPE_VARIABLE: u32 = 2;
/// Token type: a directive.
pub const TOKEN_TYPE_MACRO: u32 = 3;
/// Modifier bit: read-only (form bindings).
pub const TOKEN_MOD_READONLY: u32 = 1;
/// Modifier bit: static (`$rootScope`).
pub const TOKEN_MOD_STATIC: u32 = 2;
/// Modifier bit: a declaration.
pub const TOKEN_MOD_DECLARATION: u32 = 4;

/// A token at an absolute position, before encoding.
#[derive(Debug, Clone, Copy, PartialEq, Eq, Structural)]
pub struct RawSemanticToken {
    pub line: u32,
    pub start_col: u32,
    pub length: u32,
    pub token_type: u32,
    pub token_modifiers: u32,
}

/// A token relative to the one before it, as the protocol encodes it.
#[derive(Debug, Clone, Copy, PartialEq, Eq, Structural)]
pub struct SemanticToken {
    pub delta_line: u32,
    pub delta_start: u32,
    pub length: u32,
    pub token_type: u32,
    pub token_modifiers_bitset: u32,
}

/// `a` sorts strictly before `b`: by line, then column, then longer first.
pub open spec fn token_before(a: RawSemanticToken, b: RawSemanticToken) -> bool {
    a.line < b.line || (a.line == b.line && (a.start_col < b.start_col
        || (a.start_col == b.start_col && a.length > b.length)))
}

/// `s` with `x` inserted after every element that does not sort strictly after `x`.
pub open spec fn insert_sorted(s: Seq<RawSemanticToken>, x: RawSemanticToken) -> Seq<RawSemanticToken>
    decreases s.len(),
{
    if s.len() == 0 {
        seq![x]
    } else if token_before(x, s.last()) {
        insert_sorted(s.drop_last(), x).push(s.last())
    } else {
        s.push(x)
    }
}

/// The tokens of positive length, stably sorted by [`token_before`].
pub open spec fn sorted_tokens(s: Seq<RawSemanticToken>) -> Seq<RawSemanticToken>
    decreases s.len(),
{
    if s.len() == 0 {
        Seq::empty()
    } else if s.last().length > 0 {
        insert_sorted(sorted_tokens(s.drop_last()), s.last())
    } else {
        sorted_tokens(s.drop_last())
    }
}

/// What the encoder remembers of the last token it kept.
pub struct EncoderState {
    pub prev_line: u32,
    pub prev_col: u32,
    pub prev_end: u32,
    pub first: bool,
}

/// The encoder keeps `t` unless it repeats or overlaps the last kept token on that line.
pub open spec fn keeps(st: EncoderState, t: RawSemanticToken) -> bool {
    !(!st.first && t.line == st.prev_line && t.start_col == st.prev_col
        && t.start_col + t.length == st.prev_end)
    && !(!st.first && t.line == st.prev_line && t.start_col < st.prev_end)
}

/// `t` relative to the last kept token.
pub open spec fn encode_one(st: EncoderState, t: RawSemanticToken) -> SemanticToken {
    let dl: u32 = if t.line >= st.prev_line { (t.line - st.prev_line) as u32 } else { 0 };
    let ds: u32 = if dl == 0 {
        if t.start_col >= st.prev_col { (t.start_col - st.prev_col) as u32 } else { 0 }
    } else {
        t.start_col
    };
    SemanticToken {
        delta_line: dl,
        delta_start: ds,
        length: t.length,
        token_type: t.token_type,
        token_modifiers_bitset: t.token_modifiers,
    }
}

/// Runs the encoder over sorted tokens: the output and the final state.
pub open spec fn encode_scan(s: Seq<RawSemanticToken>) -> (Seq<SemanticToken>, EncoderState)
    decreases s.len(),
{
    if s.len() == 0 {
        (Seq::empty(), EncoderState { prev_line: 0, prev_col: 0, prev_end: 0, first: true })
    } else {
        let (out, st) = encode_scan(s.drop_last());
        let t = s.last();
        if keeps(st, t) {
            (out.push(encode_one(st, t)), EncoderState {
                prev_line: t.line,
                prev_col: t.start_col,
                prev_end: (t.start_col + t.length) as u32,
                first: false,
            })
        } else {
            (out, st)
        }
    }
}

/// The tokens the encoder keeps of `s`, in order.
pub open spec fn kept_tokens(s: Seq<RawSemanticToken>) -> Seq<RawSemanticToken>
    decreases s.len(),
{
    if s.len() == 0 {
        Seq::empty()
    } else if keeps(encode_scan(s.drop_last()).1, s.last()) {
        kept_tokens(s.drop_last()).push(s.last())
    } else {
        kept_tokens(s.drop_last())
    }
}

/// Where decoding `out` from the start of the document ends: the line and column of its
/// last token.
pub open spec fn decode_position(out: Seq<SemanticToken>) -> (int, int)
    decreases out.len(),
{
    if out.len() == 0 {
        (0, 0)
    } else {
        let (l, c) = decode_position(out.drop_last());
        let t = out.last();
        if t.delta_line == 0 { (l, c + t.delta_start) } else { (l + t.delta_line, t.delta_start as int) }
    }
}

/// A token as line, column, length, type and modifiers.
pub type TokenView = (int, int, u32, u32, u32);

pub open spec fn raw_view(t: RawSemanticToken) -> TokenView {
    (t.line as int, t.start_col as int, t.length, t.token_type, t.token_modifiers)
}

/// The tokens `out` encodes: each moves `delta_line` lines down, then to column
/// `delta_start` on a new line or `delta_start` further on the same one.
pub open spec fn decoded(out: Seq<SemanticToken>) -> Seq<TokenView>
    decreases out.len(),
{
    if out.len() == 0 {
        Seq::empty()
    } else {
        let (l, c) = decode_position(out);
        let t = out.last();
        decoded(out.drop_last()).push((l, c, t.length, t.token_type, t.token_modifiers_bitset))
    }
}

/// The last kept token does not come after `t` by line and column.
pub open spec fn state_not_after(st: EncoderState, t: RawSemanticToken) -> bool {
    st.prev_line < t.line || (st.prev_line == t.line && st.prev_col <= t.start_col)
}

proof fn lemma_decode_scan(s: Seq<RawSemanticToken>)
    requires
        is_sorted(s),
    ensures
        decoded(encode_scan(s).0) == kept_tokens(s).map_values(|t: RawSemanticToken| raw_view(t)),
        encode_scan(s).1.first ==> encode_scan(s).0.len() == 0,
        !encode_scan(s).1.first ==> decode_position(encode_scan(s).0) == (encode_scan(s).1.prev_line as int, encode_scan(s).1.prev_col as int),
        s.len() > 0 && !encode_scan(s).1.first ==> state_not_after(encode_scan(s).1, s.last()),
        !encode_scan(s).1.first ==> kept_tokens(s).len() > 0 && encode_scan(s).1.prev_line == kept_tokens(s).last().line
            && encode_scan(s).1.prev_col == kept_tokens(s).last().start_col,
        encode_scan(s).1.first ==> kept_tokens(s).len() == 0,
    decreases s.len(),
{
    if s.len() > 0 {
        let p = s.drop_last();
        assert(is_sorted(p)) by {
            assert forall|i: int| 0 < i < p.len() implies !token_before(#[trigger] p[i], p[i - 1]) by {
                assert(p[i] == s[i] && p[i - 1] == s[i - 1]);
            }
        }
        lemma_decode_scan(p);
        let (out, st) = encode_scan(p);
        let t = s.last();
        let kp = kept_tokens(p);
        if p.len() > 0 && !st.first {
            assert(s[s.len() - 1] == t && s[s.len() - 2] == p.last());
            assert(!token_before(t, p.last()));
        }
        if keeps(st, t) {
            let e = encode_one(st, t);
            let out2 = out.push(e);
            assert(out2.drop_last() =~= out);
            assert(out2.last() == e);
            if !st.first {
                assert(state_not_after(st, t));
                assert(decode_position(out) == (st.prev_line as int, st.prev_col as int));
            } else {
                assert(decode_position(out) == (0int, 0int));
            }
            assert(decode_position(out2) == (t.line as int, t.start_col as int));
            assert(decoded(out2) == decoded(out).push(raw_view(t)));
            assert(kept_tokens(s) == kp.push(t));
            assert(kept_tokens(s).map_values(|x: RawSemanticToken| raw_view(x))
                =~= kp.map_values(|x: RawSemanticToken| raw_view(x)).push(raw_view(t)));
        } else {
            assert(kept_tokens(s) == kp);
        }
    }
}

/// Decoding what the encoder writes gives back exactly the tokens it keeps, in order:
/// each later on its line than the end of the one before, none empty.
pub proof fn law_decoding_gives_back_kept_tokens(raw: Seq<RawSemanticToken>)
    ensures
        decoded(encode_scan(sorted_tokens(raw)).0) == kept_tokens(sorted_tokens(raw)).map_values(|t: RawSemanticToken| raw_view(t)),
{
    lemma_sorted_tokens(raw);
    lemma_decode_scan(sorted_tokens(raw));
}

proof fn lemma_scan_end(s: Seq<RawSemanticToken>)
    requires
        ends_fit(s),
        forall|i: int| 0 <= i < s.len() ==> (#[trigger] s[i]).length > 0,
    ensures
        encode_scan(s).1.first <==> kept_tokens(s).len() == 0,
        kept_tokens(s).len() > 0 ==> kept_tokens(s).last().length > 0
            && encode_scan(s).1.prev_end == encode_scan(s).1.prev_col + kept_tokens(s).last().length,
    decreases s.len(),
{
    if s.len() > 0 {
        let p = s.drop_last();
        assert forall|i: int| 0 <= i < p.len() implies (#[trigger] p[i]).length > 0 && p[i].start_col + p[i].length <= u32::MAX by {
            assert(p[i] == s[i]);
        }
        lemma_scan_end(p);
        assert(s[s.len() - 1] == s.last());
    }
}

/// The encoder drops a token exactly when it lies on the line of the last token kept and
/// starts before that one's end: each sorted token, in turn, is kept unless so.
pub proof fn law_encoder_drops_exactly_overlaps(raw: Seq<RawSemanticToken>, k: int)
    requires
        ends_fit(raw),
        0 <= k < sorted_tokens(raw).len(),
    ensures
        ({
            let s = sorted_tokens(raw);
            let kp = kept_tokens(s.take(k));
            kept_tokens(s.take(k + 1)) == if kp.len() == 0 || s[k].line != kp.last().line
                || s[k].start_col >= kp.last().start_col + kp.last().length {
                kp.push(s[k])
            } else {
                kp
            }
        }),
{
    lemma_sorted_tokens(raw);
    let s = sorted_tokens(raw);
    let q = s.take(k);
    assert forall|i: int| 0 <= i < q.len() implies (#[trigger] q[i]).length > 0 && q[i].start_col + q[i].length <= u32::MAX by {
        assert(q[i] == s[i]);
        assert(raw.contains(s[i]));
        let j = choose|j: int| 0 <= j < raw.len() && raw[j] == s[i];
    }
    assert(is_sorted(q)) by {
        assert forall|i: int| 0 < i < q.len() implies !token_before(#[trigger] q[i], q[i - 1]) by {
            assert(q[i] == s[i] && q[i - 1] == s[i - 1]);
        }
    }
    lemma_scan_end(q);
    lemma_decode_scan(q);
    assert(s.take(k + 1).drop_last() =~= q);
    assert(s.take(k + 1).last() == s[k]);
}

/// The tokens of `raw` that the encoder sorts are exactly its tokens of positive length,
/// each as often as it comes: none of positive length is lost, none empty kept.
pub proof fn law_sorted_tokens_are_the_positive_ones(raw: Seq<RawSemanticToken>)
    ensures
        sorted_tokens(raw).to_multiset() == raw.filter(|t: RawSemanticToken| t.length > 0).to_multiset(),
    decreases raw.len(),
{
    broadcast use vstd::seq_lib::group_to_multiset_ensures;
    reveal_with_fuel(Seq::filter, 1);
    let pos = |t: RawSemanticToken| t.length > 0;
    if raw.len() == 0 {
        assert(raw.filter(pos) =~= Seq::<RawSemanticToken>::empty());
        assert(sorted_tokens(raw).to_multiset() =~= vstd::multiset::Multiset::empty());
        assert(raw.filter(pos).to_multiset() =~= vstd::multiset::Multiset::empty());
    } else {
        let p = raw.drop_last();
        law_sorted_tokens_are_the_positive_ones(p);
        lemma_sorted_tokens(p);
        if raw.last().length > 0 {
            lemma_insert_sorted(sorted_tokens(p), raw.last());
            vstd::seq_lib::to_multiset_build(p.filter(pos), raw.last());
            assert(raw.filter(pos) == p.filter(pos).push(raw.last()));
        } else {
            assert(raw.filter(pos) == p.filter(pos));
        }
    }
}

proof fn lemma_scan_nonempty(s: Seq<RawSemanticToken>)
    ensures
        s.len() > 0 ==> encode_scan(s).0.len() > 0 && !encode_scan(s).1.first,
        s.len() == 0 ==> encode_scan(s).1.first,
    decreases s.len(),
{
    if s.len() > 0 {
        lemma_scan_nonempty(s.drop_last());
    }
}

/// Tokens of positive length are never all dropped: the encoder writes at least one token
/// exactly when some raw token has positive length, and a lone token of positive length is
/// written as it is, relative to the start of the document.
pub proof fn law_encoding_keeps_some_positive_token(raw: Seq<RawSemanticToken>)
    ensures
        (encode_scan(sorted_tokens(raw)).0.len() > 0) == (exists|i: int| 0 <= i < raw.len() && (#[trigger] raw[i]).length > 0),
        raw.len() == 1 && raw[0].length > 0 ==> encode_scan(sorted_tokens(raw)).0 == seq![SemanticToken {
            delta_line: raw[0].line,
            delta_start: raw[0].start_col,
            length: raw[0].length,
            token_type: raw[0].token_type,
            token_modifiers_bitset: raw[0].token_modifiers,
        }],
{
    let s = sorted_tokens(raw);
    law_sorted_tokens_are_the_positive_ones(raw);
    lemma_scan_nonempty(s);
    let pos = |t: RawSemanticToken| t.length > 0;
    if exists|i: int| 0 <= i < raw.len() && (#[trigger] raw[i]).length > 0 {
        let i = choose|i: int| 0 <= i < raw.len() && (#[trigger] raw[i]).length > 0;
        raw.lemma_filter_contains(pos, i);
        assert(raw.filter(pos).to_multiset().count(raw[i]) > 0) by {
            broadcast use vstd::seq_lib::group_to_multiset_ensures;
        }
        assert(s.to_multiset().count(raw[i]) > 0);
        assert(s.len() > 0) by {
            broadcast use vstd::seq_lib::group_to_multiset_ensures;
            if s.len() == 0 {
                assert(s =~= Seq::<RawSemanticToken>::empty());
            }
        }
    } else {
        lemma_sorted_tokens(raw);
        if s.len() > 0 {
            assert(raw.contains(s[0]));
        }
    }
    if raw.len() == 1 && raw[0].length > 0 {
        let t = raw[0];
        assert(raw.drop_last() =~= Seq::<RawSemanticToken>::empty());
        assert(sorted_tokens(raw.drop_last()) == Seq::<RawSemanticToken>::empty());
        assert(raw.last() == t);
        assert(s == insert_sorted(Seq::<RawSemanticToken>::empty(), t));
        assert(s =~= seq![t]);
        assert(s.drop_last() =~= Seq::<RawSemanticToken>::empty());
        let init = EncoderState { prev_line: 0, prev_col: 0, prev_end: 0, first: true };
        assert(encode_scan(s.drop_last()) == (Seq::<SemanticToken>::empty(), init));
        assert(keeps(init, t));
        assert(encode_scan(s).0 =~= seq![encode_one(init, t)]);
    }
}

/// Every token's end column fits in `u32`.
pub open spec fn ends_fit(s: Seq<RawSemanticToken>) -> bool {
    forall|i: int| 0 <= i < s.len() ==> s[i].start_col + s[i].length <= u32::MAX
}

/// Consecutive elements are in order (none sorts strictly before its predecessor).
pub open spec fn is_sorted(s: Seq<RawSemanticToken>) -> bool {
    forall|i: int| 0 < i < s.len() ==> !token_before(#[trigger] s[i], s[i - 1])
}

proof fn lemma_insert_sorted(s: Seq<RawSemanticToken>, x: RawSemanticToken)
    requires
        is_sorted(s),
    ensures
        is_sorted(insert_sorted(s, x)),
        insert_sorted(s, x).len() == s.len() + 1,
        insert_sorted(s, x).to_multiset() == s.to_multiset().insert(x),
        forall|i: int| 0 <= i < insert_sorted(s, x).len() ==> (#[trigger] insert_sorted(s, x)[i] == x
            || s.contains(insert_sorted(s, x)[i])),
    decreases s.len(),
{
    broadcast use vstd::seq_lib::group_seq_properties;
    if s.len() > 0 {
        if token_before(x, s.last()) {
            let p = s.drop_last();
            assert(is_sorted(p));
            lemma_insert_sorted(p, x);
            let q = insert_sorted(p, x);
            assert(s =~= p.push(s.last()));
            assert forall|i: int| 0 < i < q.push(s.last()).len() implies !token_before(#[trigger] q.push(s.last())[i], q.push(s.last())[i - 1]) by {
                if i == q.len() {
                    let y = q[i - 1];
                    if y == x {
                    } else {
                        assert(p.contains(y));
                        let k = choose|k: int| 0 <= k < p.len() && p[k] == y;
                        lemma_sorted_le_last(s, k);
                    }
                }
            }
            assert(q.push(s.last()).to_multiset() =~= s.to_multiset().insert(x)) by {
                vstd::seq_lib::lemma_multiset_commutative(q, seq![s.last()]);
                vstd::seq_lib::lemma_multiset_commutative(p, seq![s.last()]);
            }
            assert forall|i: int| 0 <= i < q.push(s.last()).len() implies (#[trigger] q.push(s.last())[i] == x
                || s.contains(q.push(s.last())[i])) by {
                if i < q.len() {
                    if q[i] != x {
                        let k = choose|k: int| 0 <= k < p.len() && p[k] == q[i];
                        assert(s[k] == q[i]);
                    }
                } else {
                    assert(s[s.len() - 1] == s.last());
                }
            }
        } else {
            assert forall|i: int| 0 <= i < s.push(x).len() implies (#[trigger] s.push(x)[i] == x
                || s.contains(s.push(x)[i])) by {
                if i < s.len() {
                    assert(s[i] == s.push(x)[i]);
                }
            }
        }
    }
}

proof fn lemma_sorted_le_last(s: Seq<RawSemanticToken>, k: int)
    requires
        is_sorted(s),
        0 <= k < s.len(),
    ensures
        !token_before(s.last(), s[k]),
    decreases s.len() - k,
{
    if k < s.len() - 1 {
        lemma_sorted_le_last(s, k + 1);
        assert(!token_before(s[k + 1], s[k]));
    }
}

proof fn lemma_sorted_tokens(s: Seq<RawSemanticToken>)
    ensures
        is_sorted(sorted_tokens(s)),
        forall|i: int| 0 <= i < sorted_tokens(s).len() ==> s.contains(#[trigger] sorted_tokens(s)[i]),
        forall|i: int| 0 <= i < sorted_tokens(s).len() ==> (#[trigger] sorted_tokens(s)[i]).length > 0,
    decreases s.len(),
{
    if s.len() > 0 {
        let p = s.drop_last();
        lemma_sorted_tokens(p);
        let q = sorted_tokens(p);
        if s.last().length > 0 {
            lemma_insert_sorted(q, s.last());
            assert forall|i: int| 0 <= i < sorted_tokens(s).len() implies s.contains(#[trigger] sorted_tokens(s)[i]) by {
                let y = sorted_tokens(s)[i];
                if y == s.last() {
                    assert(s[s.len() - 1] == y);
                } else {
                    let j = choose|j: int| 0 <= j < q.len() && q[j] == y;
                    assert(p.contains(q[j]));
                    let k = choose|k: int| 0 <= k < p.len() && p[k] == y;
                    assert(s[k] == y);
                }
            }
        } else {
            assert forall|i: int| 0 <= i < sorted_tokens(s).len() implies s.contains(#[trigger] sorted_tokens(s)[i]) by {
                let y = sorted_tokens(s)[i];
                let k = choose|k: int| 0 <= k < p.len() && p[k] == y;
                assert(s[k] == y);
            }
        }
    }
}

/// Drops empty tokens, sorts the rest by line, column and longest first, drops any
/// token that repeats or overlaps the last kept one on its line, and encodes each
/// kept token relative to the one before. The output never holds an empty token,
/// and a token on the same line as its predecessor starts at or after that one's end.
pub fn encode_tokens(raw_tokens: Vec<RawSemanticToken>) -> (r: Vec<SemanticToken>)
    requires
        ends_fit(raw_tokens@),
    ensures
        r@ == encode_scan(sorted_tokens(raw_tokens@)).0,
        forall|k: int| 0 <= k < r@.len() ==> (#[trigger] r@[k]).length > 0,
        forall|k: int| 1 <= k < r@.len() && (#[trigger] r@[k]).delta_line == 0
            ==> r@[k].delta_start >= r@[k - 1].length,
{
    let ghost input = raw_tokens@;
    let mut sorted: Vec<RawSemanticToken> = Vec::new();
    let mut i: usize = 0;
    while i < raw_tokens.len()
        invariant
            i <= raw_tokens@.len(),
            input == raw_tokens@,
            sorted@ == sorted_tokens(input.take(i as int)),
        decreases raw_tokens.len() - i,
    {
        let t = raw_tokens[i];
        proof {
            assert(input.take(i + 1).drop_last() =~= input.take(i as int));
            lemma_sorted_tokens(input.take(i as int));
        }
        if t.length > 0 {
            let ghost before = sorted@;
            let mut j = sorted.len();
            proof {
                assert(before.take(j as int) =~= before);
                assert(insert_sorted(before, t) + before.skip(j as int) =~= insert_sorted(before, t));
            }
            while j > 0 && (t.line < sorted[j - 1].line || (t.line == sorted[j - 1].line
                && (t.start_col < sorted[j - 1].start_col
                || (t.start_col == sorted[j - 1].start_col && t.length > sorted[j - 1].length))))
                invariant
                    before == sorted@,
                    j <= sorted@.len(),
                    insert_sorted(before, t) == insert_sorted(before.take(j as int), t) + before.skip(j as int),
                decreases j,
            {
                proof {
                    assert(before.take(j as int).drop_last() =~= before.take(j - 1));
                    assert(before.take(j as int).last() == before[j - 1]);
                    assert(before.skip(j - 1) =~= seq![before[j - 1]] + before.skip(j as int));
                    assert(insert_sorted(before.take(j - 1), t).push(before[j - 1]) + before.skip(j as int)
                        =~= insert_sorted(before.take(j - 1), t) + before.skip(j - 1));
                }
                j -= 1;
            }
            proof {
                if j > 0 {
                    assert(before.take(j as int).last() == before[j - 1]);
                }
                assert(insert_sorted(before.take(j as int), t) =~= before.take(j as int).push(t));
            }
            sorted.insert(j, t);
            proof {
                assert(sorted@ =~= before.take(j as int).push(t) + before.skip(j as int));
            }
        }
        i += 1;
    }
    proof {
        assert(input.take(i as int) =~= input);
        lemma_sorted_tokens(input);
    }
    let ghost srt = sorted@;
    let mut encoded: Vec<SemanticToken> = Vec::new();
    let mut prev_line: u32 = 0;
    let mut prev_col: u32 = 0;
    let mut prev_end: u32 = 0;
    let mut first = true;
    let mut k: usize = 0;
    while k < sorted.len()
        invariant
            k <= sorted@.len(),
            srt == sorted@,
            srt == sorted_tokens(input),
            is_sorted(srt),
            ends_fit(input),
            forall|i: int| 0 <= i < srt.len() ==> input.contains(#[trigger] srt[i]),
            forall|i: int| 0 <= i < srt.len() ==> (#[trigger] srt[i]).length > 0,
            (encoded@, EncoderState { prev_line, prev_col, prev_end, first }) == encode_scan(srt.take(k as int)),
            forall|m: int| 0 <= m < encoded@.len() ==> (#[trigger] encoded@[m]).length > 0,
            forall|m: int| 1 <= m < encoded@.len() && (#[trigger] encoded@[m]).delta_line == 0
                ==> encoded@[m].delta_start >= encoded@[m - 1].length,
            first == (encoded@.len() == 0),
            !first ==> prev_end == prev_col + encoded@.last().length,
            !first ==> exists|j: int| 0 <= j < k && srt[j].line == prev_line && srt[j].start_col == prev_col,
        decreases sorted.len() - k,
    {
        let token = sorted[k];
        proof {
            assert(srt.take(k + 1).drop_last() =~= srt.take(k as int));
            assert(srt.take(k + 1).last() == token);
            let j = choose|j: int| 0 <= input.len() && 0 <= j < input.len() && input[j] == token;
            assert(input.contains(srt[k as int]));
        }
        let keep = !(!first && token.line == prev_line && token.start_col == prev_col
            && token.start_col + token.length == prev_end)
            && !(!first && token.line == prev_line && token.start_col < prev_end);
        if keep {
            let delta_line = token.line.saturating_sub(prev_line);
            let delta_start = if delta_line == 0 {
                token.start_col.saturating_sub(prev_col)
            } else {
                token.start_col
            };
            proof {
                if !first && delta_line == 0 {
                    let j = choose|j: int| 0 <= j < k && srt[j].line == prev_line && srt[j].start_col == prev_col;
                    lemma_sorted_order(srt, j, k as int);
                    assert(token.line == prev_line);
                }
            }
            encoded.push(SemanticToken {
                delta_line,
                delta_start,
                length: token.length,
                token_type: token.token_type,
                token_modifiers_bitset: token.token_modifiers,
            });
            prev_line = token.line;
            prev_col = token.start_col;
            prev_end = token.start_col + token.length;
            first = false;
        }
        k += 1;
    }
    proof {
        assert(srt.take(k as int) =~= srt);
    }
    encoded
}

proof fn lemma_sorted_order(s: Seq<RawSemanticToken>, a: int, b: int)
    requires
        is_sorted(s),
        0 <= a <= b < s.len(),
    ensures
        s[a].line <= s[b].line,
        s[a].line == s[b].line ==> s[a].start_col <= s[b].start_col,
    decreases b - a,
{
    if a < b {
        lemma_sorted_order(s, a, b - 1);
        assert(!token_before(s[b], s[b - 1]));
    }
}


/// The protocol's token types, in legend order.
#[derive(Debug, Clone, Copy, PartialEq, Eq, Structural)]
pub enum LegendTokenType {
    Property,
    Method,
    Variable,
    Macro,
}

/// The protocol's token modifiers, in legend order.
#[derive(Debug, Clone, Copy, PartialEq, Eq, Structural)]
pub enum LegendTokenModifier {
    Readonly,
    Static,
    Declaration,
}

/// The legend: which type and modifier each index names.
pub struct SemanticTokensLegend {
    pub token_types: Vec<LegendTokenType>,
    pub token_modifiers: Vec<LegendTokenModifier>,
}

/// Type and modifier of a template scope expression whose first definition has kind `k`
/// under `$scope`.
pub open spec fn scope_token_kind(k: SymbolKind) -> (u32, u32) {
    match k {
        SymbolKind::ScopeMethod => (TOKEN_TYPE_METHOD, 0),
        SymbolKind::ScopeProperty => (TOKEN_TYPE_PROPERTY, 0),
        SymbolKind::RootScopeMethod => (TOKEN_TYPE_METHOD, TOKEN_MOD_STATIC),
        SymbolKind::RootScopeProperty => (TOKEN_TYPE_PROPERTY, TOKEN_MOD_STATIC),
        _ => (TOKEN_TYPE_PROPERTY, 0),
    }
}

/// Type and modifier of an aliased expression whose first definition on the controller
/// itself has kind `k`.
pub open spec fn method_token_kind(k: SymbolKind) -> (u32, u32) {
    match k {
        SymbolKind::ScopeMethod | SymbolKind::Method => (TOKEN_TYPE_METHOD, 0),
        _ => (TOKEN_TYPE_PROPERTY, 0),
    }
}

/// The spans the tokens of `uri` come from all run left to right.
pub open spec fn token_spans_ordered(ix: &Index, uri: Seq<char>) -> bool {
    &&& forall|i: int| 0 <= i < list_at(ix.html@.scope_references, uri).len()
        ==> (#[trigger] list_at(ix.html@.scope_references, uri)[i]).start_col <= list_at(ix.html@.scope_references, uri)[i].end_col
    &&& forall|i: int| 0 <= i < list_at(ix.html@.local_variables, uri).len()
        ==> (#[trigger] list_at(ix.html@.local_variables, uri)[i]).name_start_col <= list_at(ix.html@.local_variables, uri)[i].name_end_col
    &&& forall|n: Seq<char>, i: int| ix.html@.local_variable_references.contains_key(n) && 0 <= i < ix.html@.local_variable_references[n].len()
        && (#[trigger] ix.html@.local_variable_references[n][i]).uri@ == uri
        ==> ix.html@.local_variable_references[n][i].start_col <= ix.html@.local_variable_references[n][i].end_col
    &&& forall|i: int| 0 <= i < list_at(ix.html@.form_bindings, uri).len()
        ==> (#[trigger] list_at(ix.html@.form_bindings, uri)[i]).name_start_col <= list_at(ix.html@.form_bindings, uri)[i].name_end_col
    &&& forall|i: int| 0 <= i < list_at(ix.html@.directive_references, uri).len()
        ==> (#[trigger] list_at(ix.html@.directive_references, uri)[i]).start_col <= list_at(ix.html@.directive_references, uri)[i].end_col
}

/// A token of `length` columns at `(line, col)`.
pub open spec fn raw(line: u32, col: u32, length: int, token_type: u32, token_modifiers: u32) -> RawSemanticToken {
    RawSemanticToken { line, start_col: col, length: length as u32, token_type, token_modifiers }
}

/// Semantic tokens of templates over an index.
pub struct SemanticTokensHandler<'a> {
    pub index: &'a Index,
}

impl<'a> SemanticTokensHandler<'a> {
    pub fn new(index: &'a Index) -> (r: Self)
        ensures
            r.index == index,
    {
        SemanticTokensHandler { index }
    }

    /// The legend: property, method, variable, macro; readonly, static, declaration.
    pub fn legend() -> (r: SemanticTokensLegend)
        ensures
            r.token_types@ == seq![LegendTokenType::Property, LegendTokenType::Method, LegendTokenType::Variable, LegendTokenType::Macro],
            r.token_modifiers@ == seq![LegendTokenModifier::Readonly, LegendTokenModifier::Static, LegendTokenModifier::Declaration],
    {
        SemanticTokensLegend {
            token_types: vec![LegendTokenType::Property, LegendTokenType::Method, LegendTokenType::Variable, LegendTokenType::Macro],
            token_modifiers: vec![LegendTokenModifier::Readonly, LegendTokenModifier::Static, LegendTokenModifier::Declaration],
        }
    }

    /// `t` is the type and modifier of the scope expression `r` of `uri`: from the kind of
    /// the first definition of the first controller it can mean that defines it on
    /// `$scope`, else (for an alias) on the controller itself; a plain property otherwise.
    pub open spec fn scope_token_is(&self, uri: Seq<char>, r: HtmlScopeReference, t: (u32, u32)) -> bool {
        let defs = self.index.definitions.defs();
        let p = r.property_path@;
        let line = r.start_line as int;
        exists|res: Option<Seq<char>>| #[trigger] alias_step(self.index, uri, line, p, res) && {
            exists|cs: Seq<Seq<char>>| #[trigger] controllers_step(self.index, uri, line, res, cs) && {
                let prop = scope_prop(p, res);
                match first_with_definitions(defs, cs, ".$scope."@, prop) {
                    Some(k) => t == scope_token_kind(list_at(defs, cs[k] + ".$scope."@ + prop)[0].kind),
                    None => match (if res is Some { first_with_definitions(defs, cs, "."@, prop) } else { None }) {
                        Some(k) => t == method_token_kind(list_at(defs, cs[k] + "."@ + prop)[0].kind),
                        None => t == (TOKEN_TYPE_PROPERTY, 0u32),
                    },
                }
            }
        }
    }

    /// The type and modifier of the scope expression `scope_ref` of `uri`.
    fn determine_scope_token_type(&self, uri: &str, scope_ref: &HtmlScopeReference) -> (t: (u32, u32))
        ensures
            self.scope_token_is(uri@, *scope_ref, t),
    {
        let path = scope_ref.property_path.as_str();
        let line = scope_ref.start_line;
        let (alias, rest) = split_alias_and_property(path);
        assert(opt_view(alias) == path_alias(path@));
        let resolved: Option<String> = match &alias {
            Some(a) => self.index.resolve_controller_by_alias(uri, line, a.as_str()),
            None => None,
        };
        assert(alias_step(self.index, uri@, line as int, path@, opt_view(resolved)));
        let is_as = resolved.is_some();
        let property_path: String = if is_as {
            rest
        } else {
            let cs = chars_of(path);
            let p = string_from_chars(&cs, 0, cs.len());
            assert(p@ =~= path@);
            p
        };
        assert(property_path@ == scope_prop(path@, opt_view(resolved)));
        let controllers: Vec<String> = match resolved {
            Some(c) => {
                let mut v: Vec<String> = Vec::new();
                let ghost cv = c@;
                v.push(c);
                assert(views(v@) =~= seq![cv]);
                v
            },
            None => self.index.resolve_controllers_for_html(uri, line),
        };
        assert(controllers_step(self.index, uri@, line as int, opt_view(resolved), views(controllers@)));
        self.token_among(&controllers, property_path.as_str(), is_as)
    }

    fn token_among(&self, controllers: &Vec<String>, prop: &str, is_as: bool) -> (t: (u32, u32))
        ensures
            ({
                let defs = self.index.definitions.defs();
                let cs = views(controllers@);
                match first_with_definitions(defs, cs, ".$scope."@, prop@) {
                    Some(k) => t == scope_token_kind(list_at(defs, cs[k] + ".$scope."@ + prop@)[0].kind),
                    None => match (if is_as { first_with_definitions(defs, cs, "."@, prop@) } else { None }) {
                        Some(k) => t == method_token_kind(list_at(defs, cs[k] + "."@ + prop@)[0].kind),
                        None => t == (TOKEN_TYPE_PROPERTY, 0u32),
                    },
                }
            }),
    {
        match first_definitions_among(self.index, controllers, ".$scope.", prop) {
            Some(defs) => {
                let k = defs[0].kind;
                return match k {
                    SymbolKind::ScopeMethod => (TOKEN_TYPE_METHOD, 0),
                    SymbolKind::ScopeProperty => (TOKEN_TYPE_PROPERTY, 0),
                    SymbolKind::RootScopeMethod => (TOKEN_TYPE_METHOD, TOKEN_MOD_STATIC),
                    SymbolKind::RootScopeProperty => (TOKEN_TYPE_PROPERTY, TOKEN_MOD_STATIC),
                    _ => (TOKEN_TYPE_PROPERTY, 0),
                };
            },
            None => {},
        }
        if is_as {
            match first_definitions_among(self.index, controllers, ".", prop) {
                Some(defs) => {
                    let k = defs[0].kind;
                    return match k {
                        SymbolKind::ScopeMethod | SymbolKind::Method => (TOKEN_TYPE_METHOD, 0),
                        _ => (TOKEN_TYPE_PROPERTY, 0),
                    };
                },
                None => {},
            }
        }
        (TOKEN_TYPE_PROPERTY, 0)
    }

    /// `r` is the raw tokens of the template `uri`: its scope expressions (each typed as
    /// [`Self::scope_token_is`] says), its local variable definitions, its local
    /// variable references, its forms and its directive references.
    pub open spec fn html_tokens_are(&self, uri: Seq<char>, r: Seq<RawSemanticToken>) -> bool {
        let scopes = list_at(self.index.html@.scope_references, uri);
        let vars = list_at(self.index.html@.local_variables, uri);
        let forms = list_at(self.index.html@.form_bindings, uri);
        let dirs = list_at(self.index.html@.directive_references, uri);
        exists|types: Seq<(u32, u32)>, lrefs: Seq<HtmlLocalVariableReference>|
            #![trigger self.index.html.local_references_in_are(uri, lrefs), scope_tokens(scopes, types)]
            types.len() == scopes.len()
            && (forall|i: int| 0 <= i < scopes.len() ==> #[trigger] self.scope_token_is(uri, scopes[i], types[i]))
            && self.index.html.local_references_in_are(uri, lrefs)
            && r == scope_tokens(scopes, types)
                + vars.map_values(|v: HtmlLocalVariable| raw(v.name_start_line, v.name_start_col, v.name_end_col - v.name_start_col, TOKEN_TYPE_VARIABLE, TOKEN_MOD_DECLARATION))
                + lrefs.map_values(|x: HtmlLocalVariableReference| raw(x.start_line, x.start_col, x.end_col - x.start_col, TOKEN_TYPE_VARIABLE, 0))
                + forms.map_values(|b: HtmlFormBinding| raw(b.name_start_line, b.name_start_col, b.name_end_col - b.name_start_col, TOKEN_TYPE_VARIABLE, TOKEN_MOD_READONLY | TOKEN_MOD_DECLARATION))
                + dirs.map_values(|d: HtmlDirectiveReference| raw(d.start_line, d.start_col, d.end_col - d.start_col, TOKEN_TYPE_MACRO, 0))
    }

    /// The semantic tokens of the template `uri`, encoded; none for another document.
    pub fn semantic_tokens_full(&self, uri: &str) -> (r: Option<Vec<SemanticToken>>)
        requires
            token_spans_ordered(self.index, uri@),
        ensures
            !html_path(path_of(uri@)) ==> r is None,
            html_path(path_of(uri@)) ==> r is Some && exists|raws: Seq<RawSemanticToken>| #[trigger] self.html_tokens_are(uri@, raws)
                && r->0@ == encode_scan(sorted_tokens(raws)).0,
    {
        if !is_html_file(uri) {
            return None;
        }
        let raws = self.collect_html_tokens(uri);
        let ghost rv = raws@;
        let encoded = encode_tokens(raws);
        assert(self.html_tokens_are(uri@, rv));
        Some(encoded)
    }

    fn collect_html_tokens(&self, uri: &str) -> (r: Vec<RawSemanticToken>)
        requires
            token_spans_ordered(self.index, uri@),
        ensures
            self.html_tokens_are(uri@, r@),
            ends_fit(r@),
    {
        let scopes = self.index.html.get_html_scope_references(uri);
        let mut tokens: Vec<RawSemanticToken> = Vec::new();
        let ghost mut types: Seq<(u32, u32)> = Seq::empty();
        let mut i: usize = 0;
        while i < scopes.len()
            invariant
                i <= scopes@.len(),
                scopes@ == list_at(self.index.html@.scope_references, uri@),
                token_spans_ordered(self.index, uri@),
                types.len() == i,
                forall|k: int| 0 <= k < i ==> #[trigger] self.scope_token_is(uri@, scopes@[k], types[k]),
                tokens@ == scope_tokens(scopes@.take(i as int), types),
                ends_fit(tokens@),
            decreases scopes.len() - i,
        {
            let s = &scopes[i];
            assert(list_at(self.index.html@.scope_references, uri@)[i as int] == scopes@[i as int]);
            let t = self.determine_scope_token_type(uri, s);
            tokens.push(RawSemanticToken { line: s.start_line, start_col: s.start_col, length: s.end_col - s.start_col, token_type: t.0, token_modifiers: t.1 });
            proof {
                assert(scopes@.take(i + 1).drop_last() =~= scopes@.take(i as int));
                assert(types.push(t).drop_last() =~= types);
                types = types.push(t);
            }
            i += 1;
        }
        proof { assert(scopes@.take(scopes@.len() as int) =~= scopes@); }
        let ghost a = tokens@;
        let vars = self.index.html.get_all_local_variables(uri);
        let mut j: usize = 0;
        while j < vars.len()
            invariant
                j <= vars@.len(),
                vars@ == list_at(self.index.html@.local_variables, uri@),
                token_spans_ordered(self.index, uri@),
                tokens@ == a + vars@.take(j as int).map_values(|v: HtmlLocalVariable| raw(v.name_start_line, v.name_start_col, v.name_end_col - v.name_start_col, TOKEN_TYPE_VARIABLE, TOKEN_MOD_DECLARATION)),
                ends_fit(tokens@),
            decreases vars.len() - j,
        {
            let v = &vars[j];
            assert(list_at(self.index.html@.local_variables, uri@)[j as int] == vars@[j as int]);
            tokens.push(RawSemanticToken { line: v.name_start_line, start_col: v.name_start_col, length: v.name_end_col - v.name_start_col, token_type: TOKEN_TYPE_VARIABLE, token_modifiers: TOKEN_MOD_DECLARATION });
            proof {
                assert(vars@.take(j + 1).map_values(|v: HtmlLocalVariable| raw(v.name_start_line, v.name_start_col, v.name_end_col - v.name_start_col, TOKEN_TYPE_VARIABLE, TOKEN_MOD_DECLARATION))
                    =~= vars@.take(j as int).map_values(|v: HtmlLocalVariable| raw(v.name_start_line, v.name_start_col, v.name_end_col - v.name_start_col, TOKEN_TYPE_VARIABLE, TOKEN_MOD_DECLARATION)).push(tokens@.last()));
            }
            j += 1;
        }
        proof { assert(vars@.take(vars@.len() as int) =~= vars@); }
        let ghost b = tokens@;
        let lrefs = self.index.html.get_all_local_variable_references_for_uri(uri);
        proof { lemma_local_refs_in(self.index, uri@, lrefs@); }
        let mut k: usize = 0;
        while k < lrefs.len()
            invariant
                k <= lrefs@.len(),
                forall|x: int| 0 <= x < lrefs@.len() ==> (#[trigger] lrefs@[x]).start_col <= lrefs@[x].end_col,
                tokens@ == b + lrefs@.take(k as int).map_values(|x: HtmlLocalVariableReference| raw(x.start_line, x.start_col, x.end_col - x.start_col, TOKEN_TYPE_VARIABLE, 0)),
                ends_fit(tokens@),
            decreases lrefs.len() - k,
        {
            let x = &lrefs[k];
            tokens.push(RawSemanticToken { line: x.start_line, start_col: x.start_col, length: x.end_col - x.start_col, token_type: TOKEN_TYPE_VARIABLE, token_modifiers: 0 });
            proof {
                assert(lrefs@.take(k + 1).map_values(|x: HtmlLocalVariableReference| raw(x.start_line, x.start_col, x.end_col - x.start_col, TOKEN_TYPE_VARIABLE, 0))
                    =~= lrefs@.take(k as int).map_values(|x: HtmlLocalVariableReference| raw(x.start_line, x.start_col, x.end_col - x.start_col, TOKEN_TYPE_VARIABLE, 0)).push(tokens@.last()));
            }
            k += 1;
        }
        proof { assert(lrefs@.take(lrefs@.len() as int) =~= lrefs@); }
        let ghost c = tokens@;
        let forms = self.index.html.get_all_form_bindings(uri);
        let mut m: usize = 0;
        while m < forms.len()
            invariant
                m <= forms@.len(),
                forms@ == list_at(self.index.html@.form_bindings, uri@),
                token_spans_ordered(self.index, uri@),
                tokens@ == c + forms@.take(m as int).map_values(|b: HtmlFormBinding| raw(b.name_start_line, b.name_start_col, b.name_end_col - b.name_start_col, TOKEN_TYPE_VARIABLE, TOKEN_MOD_READONLY | TOKEN_MOD_DECLARATION)),
                ends_fit(tokens@),
            decreases forms.len() - m,
        {
            let f = &forms[m];
            assert(list_at(self.index.html@.form_bindings, uri@)[m as int] == forms@[m as int]);
            tokens.push(RawSemanticToken { line: f.name_start_line, start_col: f.name_start_col, length: f.name_end_col - f.name_start_col, token_type: TOKEN_TYPE_VARIABLE, token_modifiers: TOKEN_MOD_READONLY | TOKEN_MOD_DECLARATION });
            proof {
                assert(forms@.take(m + 1).map_values(|b: HtmlFormBinding| raw(b.name_start_line, b.name_start_col, b.name_end_col - b.name_start_col, TOKEN_TYPE_VARIABLE, TOKEN_MOD_READONLY | TOKEN_MOD_DECLARATION))
                    =~= forms@.take(m as int).map_values(|b: HtmlFormBinding| raw(b.name_start_line, b.name_start_col, b.name_end_col - b.name_start_col, TOKEN_TYPE_VARIABLE, TOKEN_MOD_READONLY | TOKEN_MOD_DECLARATION)).push(tokens@.last()));
            }
            m += 1;
        }
        proof { assert(forms@.take(forms@.len() as int) =~= forms@); }
        let ghost d = tokens@;
        let dirs = self.index.html.get_all_directive_references_for_uri(uri);
        let mut n: usize = 0;
        while n < dirs.len()
            invariant
                n <= dirs@.len(),
                dirs@ == list_at(self.index.html@.directive_references, uri@),
                token_spans_ordered(self.index, uri@),
                tokens@ == d + dirs@.take(n as int).map_values(|x: HtmlDirectiveReference| raw(x.start_line, x.start_col, x.end_col - x.start_col, TOKEN_TYPE_MACRO, 0)),
                ends_fit(tokens@),
            decreases dirs.len() - n,
        {
            let x = &dirs[n];
            assert(list_at(self.index.html@.directive_references, uri@)[n as int] == dirs@[n as int]);
            tokens.push(RawSemanticToken { line: x.start_line, start_col: x.start_col, length: x.end_col - x.start_col, token_type: TOKEN_TYPE_MACRO, token_modifiers: 0 });
            proof {
                assert(dirs@.take(n + 1).map_values(|x: HtmlDirectiveReference| raw(x.start_line, x.start_col, x.end_col - x.start_col, TOKEN_TYPE_MACRO, 0))
                    =~= dirs@.take(n as int).map_values(|x: HtmlDirectiveReference| raw(x.start_line, x.start_col, x.end_col - x.start_col, TOKEN_TYPE_MACRO, 0)).push(tokens@.last()));
            }
            n += 1;
        }
        proof {
            assert(dirs@.take(dirs@.len() as int) =~= dirs@);
            assert(self.index.html.local_references_in_are(uri@, lrefs@));
            assert(tokens@ == scope_tokens(scopes@, types)
                + vars@.map_values(|v: HtmlLocalVariable| raw(v.name_start_line, v.name_start_col, v.name_end_col - v.name_start_col, TOKEN_TYPE_VARIABLE, TOKEN_MOD_DECLARATION))
                + lrefs@.map_values(|x: HtmlLocalVariableReference| raw(x.start_line, x.start_col, x.end_col - x.start_col, TOKEN_TYPE_VARIABLE, 0))
                + forms@.map_values(|b: HtmlFormBinding| raw(b.name_start_line, b.name_start_col, b.name_end_col - b.name_start_col, TOKEN_TYPE_VARIABLE, TOKEN_MOD_READONLY | TOKEN_MOD_DECLARATION))
                + dirs@.map_values(|x: HtmlDirectiveReference| raw(x.start_line, x.start_col, x.end_col - x.start_col, TOKEN_TYPE_MACRO, 0)));
        }
        tokens
    }
}

/// The tokens of the scope expressions `scopes`, typed by `types`.
pub open spec fn scope_tokens(scopes: Seq<HtmlScopeReference>, types: Seq<(u32, u32)>) -> Seq<RawSemanticToken>
    decreases scopes.len(),
{
    if scopes.len() == 0 || types.len() < scopes.len() {
        Seq::empty()
    } else {
        let k = scopes.len() - 1;
        let s = scopes[k];
        scope_tokens(scopes.drop_last(), types.take(k)).push(raw(s.start_line, s.start_col, s.end_col - s.start_col, types[k].0, types[k].1))
    }
}

/// The local variable references made in `uri` run left to right when every one does.
proof fn lemma_local_refs_in(ix: &Index, uri: Seq<char>, lrefs: Seq<HtmlLocalVariableReference>)
    requires
        token_spans_ordered(ix, uri),
        ix.html.local_references_in_are(uri, lrefs),
    ensures
        forall|x: int| 0 <= x < lrefs.len() ==> (#[trigger] lrefs[x]).start_col <= lrefs[x].end_col,
{
    let e = choose|e: Seq<(String, Vec<HtmlLocalVariableReference>)>| list_snapshot_of(e, ix.html@.local_variable_references)
        && lrefs == flatten(e).filter(local_reference_in(uri));
    assert forall|x: int| 0 <= x < lrefs.len() implies (#[trigger] lrefs[x]).start_col <= lrefs[x].end_col by {
        lemma_filter_member(flatten(e), local_reference_in(uri), x);
        let y = choose|y: int| 0 <= y < flatten(e).len() && flatten(e)[y] == lrefs[x];
        lemma_flatten_member(e, y);
        let (a, b) = choose|a: int, b: int| 0 <= a < e.len() && 0 <= b < e[a].1@.len() && e[a].1@[b] == flatten(e)[y];
        assert(ix.html@.local_variable_references.contains_key(e[a].0@));
        assert(ix.html@.local_variable_references[e[a].0@][b] == lrefs[x]);
    }
}

/// An element of a filtered sequence comes from the sequence and passes the filter.
proof fn lemma_filter_member<T>(s: Seq<T>, p: spec_fn(T) -> bool, x: int)
    requires
        0 <= x < s.filter(p).len(),
    ensures
        exists|y: int| 0 <= y < s.len() && s[y] == s.filter(p)[x],
        p(s.filter(p)[x]),
{
    s.lemma_filter_pred(p, x);
    assert(s.filter(p).contains(s.filter(p)[x]));
    s.lemma_filter_contains_rev(p, s.filter(p)[x]);
}

/// An element of a flattened snapshot is an element of one of its lists.
proof fn lemma_flatten_member<T>(e: Seq<(String, Vec<T>)>, y: int)
    requires
        0 <= y < flatten(e).len(),
    ensures
        exists|a: int, b: int| 0 <= a < e.len() && 0 <= b < e[a].1@.len() && e[a].1@[b] == flatten(e)[y],
    decreases e.len(),
{
    if e.len() > 0 {
        let rest = flatten(e.drop_last());
        if y < rest.len() {
            lemma_flatten_member(e.drop_last(), y);
            let (a, b) = choose|a: int, b: int| 0 <= a < e.drop_last().len() && 0 <= b < e.drop_last()[a].1@.len() && e.drop_last()[a].1@[b] == rest[y];
            assert(e[a] == e.drop_last()[a]);
        } else {
            assert(e[e.len() - 1].1@[y - rest.len()] == flatten(e)[y]);
        }
    }
}

/// The definitions of the first of `controllers` with definitions of `c + mid + prop`.
fn first_definitions_among(index: &Index, controllers: &Vec<String>, mid: &str, prop: &str) -> (r: Option<Vec<Symbol>>)
    ensures
        match r {
            Some(defs) => exists|k: int| first_with_definitions(index.definitions.defs(), views(controllers@), mid@, prop@) == Some(k)
                && 0 <= k < controllers@.len()
                && defs@ == list_at(index.definitions.defs(), views(controllers@)[k] + mid@ + prop@) && defs@.len() > 0,
            None => first_with_definitions(index.definitions.defs(), views(controllers@), mid@, prop@) is None,
        },
{
    let ghost cs = views(controllers@);
    let ghost defs = index.definitions.defs();
    let mut k: usize = 0;
    while k < controllers.len()
        invariant
            k <= controllers@.len(),
            cs == views(controllers@),
            defs == index.definitions.defs(),
            forall|j: int| 0 <= j < k ==> list_at(defs, #[trigger] cs[j] + mid@ + prop@).len() == 0,
        decreases controllers.len() - k,
    {
        let name = concat(concat(controllers[k].as_str(), mid).as_str(), prop);
        assert(name@ == cs[k as int] + mid@ + prop@);
        let found = index.definitions.get_definitions(name.as_str());
        if found.len() > 0 {
            proof { crate::handler::definition::lemma_first_with_definitions(defs, cs, mid@, prop@, k as int); }
            return Some(found);
        }
        k += 1;
    }
    None
}

} // verus!
