//! Scripts as syntax trees: the nodes the JavaScript grammar gives a script, listed in
//! preorder with their depth, and the text each node covers.
use vstd::prelude::*;

use crate::handler::inlay_hints::{is_char_boundary_at, utf8_len, utf8_width, chars_in_bytes};

verus! {

/// A node of a script's syntax tree. A tree is the list of its nodes in preorder; the
/// children of a node are the nodes one level deeper that follow it before the next node
/// at its depth or above.
#[derive(Debug, Clone)]
pub struct SyntaxNode {
    /// The grammar's name of the node (`array`, `string`, `identifier`, or the token
    /// itself for punctuation).
    pub kind: String,
    /// The field of its parent the node fills (`parameters`), if any.
    pub field_name: Option<String>,
    pub start_byte: usize,
    pub end_byte: usize,
    /// The zero-based row the node ends on.
    pub end_row: usize,
    /// How many levels below the root the node is.
    pub depth: u32,
}

/// The preorder nodes of the tree the JavaScript grammar makes of `source`, when it makes
/// one.
pub uninterp spec fn javascript_syntax(source: Seq<char>) -> Option<Seq<SyntaxNode>>;

/// `tree_sitter::Parser::parse` with the grammar `tree_sitter_javascript::LANGUAGE`; the
/// tree is read with a `tree_sitter::TreeCursor` moved to each descendant of the root in
/// turn (`goto_descendant`, preorder), each node taken as its kind, the field name the
/// cursor reports, its byte range, its end row and the cursor's depth. The result is
/// claimed to be a function of the source text alone, and nothing more.
#[verifier::external_body]
pub fn parse_javascript(source: &str) -> (r: Option<Vec<SyntaxNode>>)
    ensures
        match r {
            Some(v) => javascript_syntax(source@) == Some(v@),
            None => javascript_syntax(source@) is None,
        },
{
    let mut parser = tree_sitter::Parser::new();
    parser.set_language(&tree_sitter_javascript::LANGUAGE.into()).ok()?;
    let tree = parser.parse(source, None)?;
    let mut cursor = tree.walk();
    let nodes = (0..tree.root_node().descendant_count()).map(|i| {
        cursor.goto_descendant(i);
        let n = cursor.node();
        let field_name = cursor.field_name().map(|f| f.to_string());
        SyntaxNode { kind: n.kind().to_string(), field_name, start_byte: n.start_byte(),
            end_byte: n.end_byte(), end_row: n.end_position().row, depth: cursor.depth() }
    });
    Some(nodes.collect())
}

/// The indices of the children of a node at depth `d`, scanning from `j`: the nodes at
/// depth `d + 1` before the first node at depth `d` or above.
pub open spec fn children_from(nodes: Seq<SyntaxNode>, d: int, j: int) -> Seq<int>
    decreases nodes.len() - j,
{
    if j < 0 || j >= nodes.len() || nodes[j].depth <= d {
        Seq::empty()
    } else if nodes[j].depth == d + 1 {
        seq![j] + children_from(nodes, d, j + 1)
    } else {
        children_from(nodes, d, j + 1)
    }
}

/// The indices of the children of node `i`, in order.
pub open spec fn children(nodes: Seq<SyntaxNode>, i: int) -> Seq<int> {
    children_from(nodes, nodes[i].depth as int, i + 1)
}

/// Every node's byte range lies between characters of `source`.
pub open spec fn nodes_fit(nodes: Seq<SyntaxNode>, source: Seq<char>) -> bool {
    forall|k: int| 0 <= k < nodes.len() ==> {
        &&& is_char_boundary_at(source, (#[trigger] nodes[k]).start_byte as int)
        &&& is_char_boundary_at(source, nodes[k].end_byte as int)
        &&& nodes[k].start_byte <= nodes[k].end_byte
    }
}

/// The text node `n` covers in `source`.
pub open spec fn node_text(source: Seq<char>, n: SyntaxNode) -> Seq<char> {
    source.subrange(chars_in_bytes(source, n.start_byte as int), chars_in_bytes(source, n.end_byte as int))
}

/// For each byte offset of `s` (its end included), the index of the character that
/// starts there, or none inside a character.
pub open spec fn offsets_table_of(s: Seq<char>, t: Seq<Option<usize>>) -> bool {
    &&& t.len() == utf8_len(s) + 1
    &&& forall|b: int| 0 <= b < t.len() ==> match #[trigger] t[b] {
        Some(k) => k <= s.len() && utf8_len(s.take(k as int)) == b,
        None => !is_char_boundary_at(s, b),
    }
}

/// One more character adds its width to the UTF-8 length of a prefix.
pub proof fn lemma_take_step(s: Seq<char>, k: int)
    requires
        0 <= k < s.len(),
    ensures
        utf8_len(s.take(k + 1)) == utf8_len(s.take(k)) + utf8_width(s[k]),
{
    assert(s.take(k + 1).drop_last() =~= s.take(k));
}

/// A longer prefix takes strictly more bytes.
pub proof fn lemma_take_strict(s: Seq<char>, a: int, b: int)
    requires
        0 <= a < b <= s.len(),
    ensures
        utf8_len(s.take(a)) < utf8_len(s.take(b)),
    decreases b - a,
{
    lemma_take_step(s, b - 1);
    if a < b - 1 {
        lemma_take_strict(s, a, b - 1);
    }
}

/// The character index of a boundary is the one `chars_in_bytes` names.
pub proof fn lemma_boundary_index(s: Seq<char>, k: int)
    requires
        0 <= k <= s.len(),
    ensures
        is_char_boundary_at(s, utf8_len(s.take(k)) as int),
        chars_in_bytes(s, utf8_len(s.take(k)) as int) == k,
{
    let b = utf8_len(s.take(k)) as int;
    assert(is_char_boundary_at(s, b));
    let c = chars_in_bytes(s, b);
    if c < k {
        lemma_take_strict(s, c, k);
    } else if c > k {
        lemma_take_strict(s, k, c);
    }
}

/// Boundaries come in the order of their character indices.
proof fn lemma_boundary_order(s: Seq<char>, a: int, b: int)
    requires
        is_char_boundary_at(s, a),
        is_char_boundary_at(s, b),
        a <= b,
    ensures
        0 <= chars_in_bytes(s, a) <= chars_in_bytes(s, b) <= s.len(),
        utf8_len(s.take(chars_in_bytes(s, a))) == a,
        utf8_len(s.take(chars_in_bytes(s, b))) == b,
{
    let ka = chars_in_bytes(s, a);
    let kb = chars_in_bytes(s, b);
    if ka > kb {
        lemma_take_strict(s, kb, ka);
    }
}

/// The offsets table of `cs`.
pub fn char_offsets(cs: &Vec<char>) -> (t: Vec<Option<usize>>)
    requires
        utf8_len(cs@) < usize::MAX,
    ensures
        offsets_table_of(cs@, t@),
{
    let ghost s = cs@;
    let mut t: Vec<Option<usize>> = Vec::new();
    let mut k: usize = 0;
    while k < cs.len()
        invariant
            s == cs@,
            k <= s.len(),
            utf8_len(s) < usize::MAX,
            t@.len() == utf8_len(s.take(k as int)),
            forall|b: int| 0 <= b < t@.len() ==> match #[trigger] t@[b] {
                Some(j) => j <= s.len() && utf8_len(s.take(j as int)) == b,
                None => !is_char_boundary_at(s, b),
            },
        decreases s.len() - k,
    {
        proof {
            lemma_take_step(s, k as int);
            if k + 1 < s.len() {
                lemma_take_strict(s, k + 1, s.len() as int);
            }
            assert(s.take(s.len() as int) =~= s);
        }
        let v = cs[k] as u32;
        let w: usize = if v < 0x80 { 1 } else if v < 0x800 { 2 } else if v < 0x10000 { 3 } else { 4 };
        let ghost base = t@.len() as int;
        t.push(Some(k));
        let mut e: usize = 1;
        while e < w
            invariant
                s == cs@,
                k < s.len(),
                1 <= e <= w,
                w == utf8_width(s[k as int]),
                base == utf8_len(s.take(k as int)),
                utf8_len(s.take(k + 1)) == base + w,
                t@.len() == base + e,
                forall|b: int| 0 <= b < t@.len() ==> match #[trigger] t@[b] {
                    Some(j) => j <= s.len() && utf8_len(s.take(j as int)) == b,
                    None => !is_char_boundary_at(s, b),
                },
            decreases w - e,
        {
            proof {
                let b = base + e;
                if is_char_boundary_at(s, b) {
                    let j = choose|j: int| 0 <= j <= s.len() && utf8_len(s.take(j)) == b;
                    if j <= k {
                        if j < k {
                            lemma_take_strict(s, j, k as int);
                        }
                    } else {
                        if j > k + 1 {
                            lemma_take_strict(s, k + 1, j);
                        }
                    }
                }
            }
            t.push(None);
            e += 1;
        }
        k += 1;
    }
    proof {
        assert(s.take(s.len() as int) =~= s);
    }
    t.push(Some(k));
    t
}

/// The character index at byte `b` of a text whose offsets table is `t`, when a
/// character starts there.
pub fn char_index_at(t: &Vec<Option<usize>>, b: usize) -> (r: Option<usize>)
    ensures
        r == (if b < t@.len() { t@[b as int] } else { None::<usize> }),
{
    if b < t.len() { t[b] } else { None }
}

/// Whether every node's byte range lies between characters of the text whose offsets
/// table is `t`.
pub fn check_nodes_fit(nodes: &Vec<SyntaxNode>, cs: &Vec<char>, t: &Vec<Option<usize>>) -> (r: bool)
    requires
        offsets_table_of(cs@, t@),
    ensures
        r == nodes_fit(nodes@, cs@),
{
    let mut i: usize = 0;
    while i < nodes.len()
        invariant
            i <= nodes@.len(),
            offsets_table_of(cs@, t@),
            forall|k: int| 0 <= k < i ==> {
                &&& is_char_boundary_at(cs@, (#[trigger] nodes@[k]).start_byte as int)
                &&& is_char_boundary_at(cs@, nodes@[k].end_byte as int)
                &&& nodes@[k].start_byte <= nodes@[k].end_byte
            },
        decreases nodes.len() - i,
    {
        let n = &nodes[i];
        let a = char_index_at(t, n.start_byte);
        let b = char_index_at(t, n.end_byte);
        proof {
            if n.start_byte as int >= t@.len() && is_char_boundary_at(cs@, n.start_byte as int) {
                let j = choose|j: int| 0 <= j <= cs@.len() && utf8_len(cs@.take(j)) == n.start_byte;
                lemma_take_mono_len(cs@, j);
            }
            if n.end_byte as int >= t@.len() && is_char_boundary_at(cs@, n.end_byte as int) {
                let j = choose|j: int| 0 <= j <= cs@.len() && utf8_len(cs@.take(j)) == n.end_byte;
                lemma_take_mono_len(cs@, j);
            }
        }
        if a.is_none() || b.is_none() || n.start_byte > n.end_byte {
            return false;
        }
        i += 1;
    }
    true
}

/// A boundary lies within the text.
pub proof fn lemma_boundary_within(s: Seq<char>, b: int)
    requires
        is_char_boundary_at(s, b),
    ensures
        0 <= b <= utf8_len(s),
{
    let j = choose|j: int| 0 <= j <= s.len() && utf8_len(s.take(j)) == b;
    lemma_take_mono_len(s, j);
}

proof fn lemma_take_mono_len(s: Seq<char>, j: int)
    requires
        0 <= j <= s.len(),
    ensures
        utf8_len(s.take(j)) <= utf8_len(s),
{
    assert(s.take(s.len() as int) =~= s);
    if j < s.len() {
        lemma_take_strict(s, j, s.len() as int);
    }
}

/// The text node `n` covers.
pub fn text_of(cs: &Vec<char>, t: &Vec<Option<usize>>, n: &SyntaxNode) -> (r: String)
    requires
        offsets_table_of(cs@, t@),
        is_char_boundary_at(cs@, n.start_byte as int),
        is_char_boundary_at(cs@, n.end_byte as int),
        n.start_byte <= n.end_byte,
    ensures
        r@ == node_text(cs@, *n),
{
    proof {
        lemma_boundary_order(cs@, n.start_byte as int, n.end_byte as int);
        let ka = chars_in_bytes(cs@, n.start_byte as int);
        let kb = chars_in_bytes(cs@, n.end_byte as int);
        lemma_take_mono_len(cs@, ka);
        lemma_take_mono_len(cs@, kb);
    }
    let a = match char_index_at(t, n.start_byte) {
        Some(k) => k,
        None => 0,
    };
    let b = match char_index_at(t, n.end_byte) {
        Some(k) => k,
        None => 0,
    };
    proof {
        lemma_boundary_index(cs@, a as int);
        lemma_boundary_index(cs@, b as int);
    }
    crate::text::string_from_chars(cs, a, b)
}

/// The indices of the children of node `i`.
pub fn children_of(nodes: &Vec<SyntaxNode>, i: usize) -> (r: Vec<usize>)
    requires
        i < nodes.len(),
    ensures
        r@.map_values(|k: usize| k as int) == children(nodes@, i as int),
        forall|j: int| 0 <= j < r@.len() ==> r@[j] < nodes@.len(),
{
    let d = nodes[i].depth;
    let ghost dd = d as int;
    let mut r: Vec<usize> = Vec::new();
    let mut j = i + 1;
    while j < nodes.len() && nodes[j].depth > d
        invariant
            i < j <= nodes@.len(),
            dd == nodes@[i as int].depth,
            d == nodes@[i as int].depth,
            forall|m: int| 0 <= m < r@.len() ==> r@[m] < nodes@.len(),
            r@.map_values(|k: usize| k as int) + children_from(nodes@, dd, j as int) == children(nodes@, i as int),
        decreases nodes.len() - j,
    {
        let ghost before = r@;
        if nodes[j].depth - 1 == d {
            r.push(j);
            proof {
                assert(children_from(nodes@, dd, j as int) == seq![j as int] + children_from(nodes@, dd, j + 1));
                assert(r@.map_values(|k: usize| k as int) =~= before.map_values(|k: usize| k as int) + seq![j as int]);
                assert(r@.map_values(|k: usize| k as int) + children_from(nodes@, dd, j + 1)
                    =~= before.map_values(|k: usize| k as int) + children_from(nodes@, dd, j as int));
            }
        } else {
            assert(children_from(nodes@, dd, j as int) == children_from(nodes@, dd, j + 1));
        }
        j += 1;
    }
    proof {
        assert(children_from(nodes@, dd, j as int) =~= Seq::empty());
        assert(r@.map_values(|k: usize| k as int) + Seq::<int>::empty() =~= r@.map_values(|k: usize| k as int));
    }
    r
}

} // verus!
