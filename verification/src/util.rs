//! Template paths: how a `templateUrl` is normalised, and how an include is resolved
//! against the template that includes it.
use vstd::prelude::*;

use crate::text::{push_char, chars_of, find_char, first_index, lemma_first_index, rfind_char, str_ends_with, string_from_chars, ends_with};
use crate::uri::{path_of, uri_path};

verus! {

/// The text before the first `?` (all of it when there is none).
pub open spec fn before_query(p: Seq<char>) -> Seq<char> {
    match first_index(p, '?') {
        Some(i) => p.take(i),
        None => p,
    }
}

/// `p` with every leading `../` removed.
pub open spec fn strip_parents(p: Seq<char>) -> Seq<char>
    decreases p.len(),
{
    if p.len() >= 3 && p.take(3) == "../"@ { strip_parents(p.skip(3)) } else { p }
}

/// `p` with every leading `./` removed.
pub open spec fn strip_dots(p: Seq<char>) -> Seq<char>
    decreases p.len(),
{
    if p.len() >= 2 && p.take(2) == "./"@ { strip_dots(p.skip(2)) } else { p }
}

/// A template path as it is compared: without query, without the leading `../`s, then
/// without the leading `./`s, then without one leading `/`.
pub open spec fn normalized_template_path(p: Seq<char>) -> Seq<char> {
    let q = strip_dots(strip_parents(before_query(p)));
    if q.len() > 0 && q[0] == '/' { q.skip(1) } else { q }
}

/// The normalised form of a template path: the query dropped, then the leading `../`s,
/// the leading `./`s and one leading `/`.
pub fn normalize_template_path(path: &str) -> (r: String)
    ensures
        r@ == normalized_template_path(path@),
{
    let cs = chars_of(path);
    let end = match find_char(&cs, '?') {
        Some(i) => {
            proof { lemma_first_index(cs@, '?', i as int); }
            i
        },
        None => cs.len(),
    };
    let ghost q = before_query(path@);
    proof { assert(q =~= cs@.take(end as int)); }
    let head = string_from_chars(&cs, 0, end);
    let hs = chars_of(&head);
    proof {
        reveal_strlit("../");
        reveal_strlit("./");
        assert(hs@.skip(0) =~= hs@);
    }
    let mut i: usize = 0;
    while hs.len() - i >= 3 && hs[i] == '.' && hs[i + 1] == '.' && hs[i + 2] == '/'
        invariant
            i <= hs@.len(),
            hs@ == q,
            strip_parents(hs@.skip(i as int)) == strip_parents(q),
        decreases hs.len() - i,
    {
        proof {
            reveal_strlit("../");
            assert(hs@.skip(i as int).take(3) =~= "../"@);
            assert(hs@.skip(i as int).skip(3) =~= hs@.skip(i + 3));
        }
        i += 3;
    }
    proof {
        reveal_strlit("../");
        let t = hs@.skip(i as int);
        if t.len() >= 3 && t.take(3) == "../"@ {
            assert(t.take(3)[0] == '.' && t.take(3)[1] == '.' && t.take(3)[2] == '/');
            assert(hs@[i as int] == '.' && hs@[i + 1] == '.' && hs@[i + 2] == '/');
        }
        assert(strip_parents(hs@.skip(i as int)) == hs@.skip(i as int));
    }
    while hs.len() - i >= 2 && hs[i] == '.' && hs[i + 1] == '/'
        invariant
            i <= hs@.len(),
            hs@ == q,
            strip_dots(hs@.skip(i as int)) == strip_dots(strip_parents(q)),
        decreases hs.len() - i,
    {
        proof {
            reveal_strlit("./");
            assert(hs@.skip(i as int).take(2) =~= "./"@);
            assert(hs@.skip(i as int).skip(2) =~= hs@.skip(i + 2));
        }
        i += 2;
    }
    proof {
        reveal_strlit("./");
        let t = hs@.skip(i as int);
        if t.len() >= 2 && t.take(2) == "./"@ {
            assert(t.take(2)[0] == '.' && t.take(2)[1] == '/');
            assert(hs@[i as int] == '.' && hs@[i + 1] == '/');
        }
        assert(strip_dots(hs@.skip(i as int)) == hs@.skip(i as int));
    }
    if i < hs.len() && hs[i] == '/' {
        proof { assert(hs@.skip(i as int).skip(1) =~= hs@.skip(i + 1)); }
        i += 1;
    }
    let r = string_from_chars(&hs, i, hs.len());
    proof { assert(r@ =~= normalized_template_path(path@)); }
    r
}

/// The path of `uri` ends with `.html` or `.htm`, compared without case.
pub open spec fn html_path(p: Seq<char>) -> bool {
    ends_with(lower_of(p), ".html"@) || ends_with(lower_of(p), ".htm"@)
}

/// What `str::to_lowercase` gives for `s` (Unicode lower case, which may change lengths).
pub uninterp spec fn lower_of(s: Seq<char>) -> Seq<char>;

/// `str::to_lowercase`.
#[verifier::external_body]
pub(crate) fn to_lowercase(s: &str) -> (r: String)
    ensures
        r@ == lower_of(s@),
{
    s.to_lowercase()
}

/// Whether `uri` names a template: its path ends with `.html` or `.htm`, in any case.
pub fn is_html_file(uri: &str) -> (r: bool)
    ensures
        r == html_path(path_of(uri@)),
{
    let path = to_lowercase(&uri_path(uri));
    proof {
        reveal_strlit(".html");
        reveal_strlit(".htm");
    }
    str_ends_with(&path, ".html") || str_ends_with(&path, ".htm")
}

/// Whether `uri` names a script: its path ends with `.js`.
pub fn is_js_file(uri: &str) -> (r: bool)
    ensures
        r == ends_with(path_of(uri@), ".js"@),
{
    let path = uri_path(uri);
    str_ends_with(&path, ".js")
}


/// `s` in kebab case: each ASCII capital lowered, with a `-` before it unless it is the
/// first character (`myDirective` gives `my-directive`).
pub open spec fn kebab_of(s: Seq<char>) -> Seq<char>
    decreases s.len(),
{
    if s.len() == 0 {
        Seq::empty()
    } else {
        let prev = kebab_of(s.drop_last());
        let c = s.last();
        if 'A' <= c <= 'Z' {
            if s.len() == 1 {
                prev.push(crate::handler::diagnostics::ascii_lower(c))
            } else {
                prev.push('-').push(crate::handler::diagnostics::ascii_lower(c))
            }
        } else {
            prev.push(c)
        }
    }
}

/// See [`kebab_of`].
pub fn camel_to_kebab(s: &str) -> (r: String)
    ensures
        r@ == kebab_of(s@),
{
    let cs = chars_of(s);
    let mut r = String::new();
    let mut i: usize = 0;
    while i < cs.len()
        invariant
            i <= cs@.len(),
            cs@ == s@,
            r@ == kebab_of(s@.take(i as int)),
        decreases cs.len() - i,
    {
        proof {
            assert(s@.take(i + 1).drop_last() =~= s@.take(i as int));
            assert(s@.take(i + 1).last() == cs@[i as int]);
        }
        let c = cs[i];
        if 'A' <= c && c <= 'Z' {
            if i > 0 {
                push_char(&mut r, '-');
            }
            push_char(&mut r, crate::handler::diagnostics::lower_char(c));
        } else {
            push_char(&mut r, c);
        }
        i += 1;
    }
    proof { assert(s@.take(s@.len() as int) =~= s@); }
    r
}

} // verus!
