//! Character-level helpers shared by the analyses.
use vstd::prelude::*;

verus! {

/// The characters of `s`, in order.
pub fn chars_of(s: &str) -> (r: Vec<char>)
    ensures
        r@ == s@,
{
    let mut r: Vec<char> = Vec::new();
    for c in it: s.chars()
        invariant
            r@ == it.seq().take(it.index() as int),
    {
        r.push(c);
    }
    r
}

/// `std::string::String::push`: appends one character.
#[verifier::external_body]
pub fn push_char(s: &mut String, c: char)
    ensures
        final(s)@ == old(s)@.push(c),
{
    s.push(c);
}

/// A string holding exactly the characters of `cs[from..to]`.
pub fn string_from_chars(cs: &Vec<char>, from: usize, to: usize) -> (r: String)
    requires
        from <= to <= cs.len(),
    ensures
        r@ == cs@.subrange(from as int, to as int),
{
    let mut r = String::new();
    let mut i = from;
    while i < to
        invariant
            from <= i <= to <= cs.len(),
            r@ == cs@.subrange(from as int, i as int),
        decreases to - i,
    {
        push_char(&mut r, cs[i]);
        assert(cs@.subrange(from as int, i + 1) =~= cs@.subrange(from as int, i as int).push(cs@[i as int]));
        i += 1;
    }
    r
}

/// Index of the first `c` in `s`, when there is one.
pub open spec fn first_index(s: Seq<char>, c: char) -> Option<int> {
    if exists|i: int| 0 <= i < s.len() && s[i] == c {
        Some(choose|i: int| 0 <= i < s.len() && s[i] == c && forall|j: int| 0 <= j < i ==> s[j] != c)
    } else {
        None
    }
}

/// `first_index` is the unique first position of `c`.
pub proof fn lemma_first_index(s: Seq<char>, c: char, i: int)
    requires
        0 <= i < s.len(),
        s[i] == c,
        forall|j: int| 0 <= j < i ==> s[j] != c,
    ensures
        first_index(s, c) == Some(i),
{
    let k = choose|k: int| 0 <= k < s.len() && s[k] == c && forall|j: int| 0 <= j < k ==> s[j] != c;
    assert(0 <= k < s.len() && s[k] == c && forall|j: int| 0 <= j < k ==> s[j] != c);
    if k < i {
        assert(s[k] != c);
    }
    if i < k {
        assert(s[i] != c);
    }
}

/// Position of the first `c` in `cs`, if any.
pub fn find_char(cs: &Vec<char>, c: char) -> (r: Option<usize>)
    ensures
        match r {
            Some(i) => i < cs.len() && cs@[i as int] == c && forall|j: int| 0 <= j < i ==> cs@[j] != c,
            None => forall|j: int| 0 <= j < cs.len() ==> cs@[j] != c,
        },
{
    let mut i: usize = 0;
    while i < cs.len()
        invariant
            i <= cs.len(),
            forall|j: int| 0 <= j < i ==> cs@[j] != c,
        decreases cs.len() - i,
    {
        if cs[i] == c {
            return Some(i);
        }
        i += 1;
    }
    None
}

/// Position of the last `c` in `cs`, if any.
pub fn rfind_char(cs: &Vec<char>, c: char) -> (r: Option<usize>)
    ensures
        match r {
            Some(i) => i < cs.len() && cs@[i as int] == c && forall|j: int| i < j < cs.len() ==> cs@[j] != c,
            None => forall|j: int| 0 <= j < cs.len() ==> cs@[j] != c,
        },
{
    let mut i: usize = cs.len();
    while i > 0
        invariant
            i <= cs.len(),
            forall|j: int| i <= j < cs.len() ==> cs@[j] != c,
        decreases i,
    {
        if cs[i - 1] == c {
            return Some(i - 1);
        }
        i -= 1;
    }
    None
}

} // verus!

verus! {

/// Whether two strings hold the same characters.
pub fn str_eq(a: &str, b: &str) -> (r: bool)
    ensures
        r == (a@ == b@),
{
    let x = chars_of(a);
    let y = chars_of(b);
    if x.len() != y.len() {
        return false;
    }
    let mut i: usize = 0;
    while i < x.len()
        invariant
            i <= x@.len(),
            x@ == a@,
            y@ == b@,
            x@.len() == y@.len(),
            forall|j: int| 0 <= j < i ==> x@[j] == y@[j],
        decreases x.len() - i,
    {
        if x[i] != y[i] {
            return false;
        }
        i += 1;
    }
    proof { assert(a@ =~= b@); }
    true
}

/// What `char::is_alphanumeric` answers for `c` (the Unicode Alphabetic or Numeric property).
pub uninterp spec fn unicode_alphanumeric(c: char) -> bool;

/// `char::is_alphanumeric`.
#[verifier::external_body]
pub fn char_is_alphanumeric(c: char) -> (r: bool)
    ensures
        r == unicode_alphanumeric(c),
{
    c.is_alphanumeric()
}

/// Index of the first line break at or after `from` (the length when there is none).
pub open spec fn line_break_from(s: Seq<char>, from: int) -> int
    decreases s.len() - from,
{
    if from >= s.len() {
        s.len() as int
    } else if s[from] == '\n' {
        from
    } else {
        line_break_from(s, from + 1)
    }
}

/// Where line `k` starts; at or past the length when the text has fewer lines.
pub open spec fn line_start(s: Seq<char>, k: nat) -> int
    decreases k,
{
    if k == 0 {
        0
    } else {
        let p = line_start(s, (k - 1) as nat);
        if p >= s.len() {
            s.len() + 1int
        } else {
            line_break_from(s, p) + 1
        }
    }
}

/// The bounds `[start, end)` of line `k` as `str::lines` yields it: lines end at `\n`,
/// a `\r` before that `\n` is dropped, and an empty text after the last `\n` is no line.
pub open spec fn line_bounds(s: Seq<char>, k: nat) -> Option<(int, int)> {
    let st = line_start(s, k);
    if st < s.len() {
        let e = line_break_from(s, st);
        if e < s.len() && e > st && s[e - 1] == '\r' {
            Some((st, e - 1))
        } else {
            Some((st, e))
        }
    } else {
        None
    }
}

proof fn lemma_line_break_bounds(s: Seq<char>, from: int)
    requires
        0 <= from,
    ensures
        from <= s.len() ==> from <= line_break_from(s, from) <= s.len(),
        from > s.len() ==> line_break_from(s, from) == s.len(),
        line_break_from(s, from) < s.len() ==> s[line_break_from(s, from)] == '\n',
        forall|i: int| from <= i < line_break_from(s, from) ==> s[i] != '\n',
    decreases s.len() - from,
{
    if from < s.len() && s[from] != '\n' {
        lemma_line_break_bounds(s, from + 1);
    }
}

proof fn lemma_line_start_past_end(s: Seq<char>, j: nat, k: nat)
    requires
        j <= k,
        line_start(s, j) >= s.len(),
    ensures
        line_start(s, k) >= s.len(),
    decreases k - j,
{
    if j < k {
        assert(line_start(s, j + 1) == s.len() + 1);
        lemma_line_start_past_end(s, j + 1, k);
    }
}

proof fn lemma_line_start_nonneg(s: Seq<char>, k: nat)
    ensures
        line_start(s, k) >= 0,
    decreases k,
{
    if k > 0 {
        lemma_line_start_nonneg(s, (k - 1) as nat);
        let p = line_start(s, (k - 1) as nat);
        if p < s.len() {
            lemma_line_break_bounds(s, p);
        }
    }
}

/// Line bounds lie within the text, start before end, and hold no line break.
pub proof fn lemma_line_bounds_ok(s: Seq<char>, k: nat)
    ensures
        line_bounds(s, k) matches Some((a, b)) ==> 0 <= a <= b <= s.len()
            && forall|i: int| a <= i < b ==> s[i] != '\n',
{
    lemma_line_start_nonneg(s, k);
    let st = line_start(s, k);
    if st < s.len() {
        lemma_line_break_bounds(s, st);
    }
}

/// The bounds of line `k` of `cs`, as `str::lines` would yield it.
pub fn line_range(cs: &Vec<char>, k: u32) -> (r: Option<(usize, usize)>)
    ensures
        match r {
            Some((a, b)) => line_bounds(cs@, k as nat) == Some((a as int, b as int)),
            None => line_bounds(cs@, k as nat) is None,
        },
{
    let mut start: usize = 0;
    let mut line: u32 = 0;
    while start < cs.len()
        invariant
            line <= k,
            start as int == line_start(cs@, line as nat),
        decreases cs.len() - start,
    {
        let mut e = start;
        while e < cs.len() && cs[e] != '\n'
            invariant
                start <= e <= cs.len(),
                line_break_from(cs@, start as int) == line_break_from(cs@, e as int),
            decreases cs.len() - e,
        {
            e += 1;
        }
        proof {
            lemma_line_break_bounds(cs@, start as int);
        }
        if line == k {
            if e < cs.len() && e > start && cs[e - 1] == '\r' {
                return Some((start, e - 1));
            }
            return Some((start, e));
        }
        if e == cs.len() {
            proof {
                assert(line_start(cs@, (line + 1) as nat) == cs.len() + 1);
                lemma_line_start_past_end(cs@, (line + 1) as nat, k as nat);
            }
            return None;
        }
        start = e + 1;
        line = line + 1;
    }
    proof {
        lemma_line_start_past_end(cs@, line as nat, k as nat);
    }
    None
}

} // verus!

verus! {

/// `s` ends with `t`.
pub open spec fn ends_with(s: Seq<char>, t: Seq<char>) -> bool {
    t.len() <= s.len() && s.skip(s.len() - t.len()) == t
}

/// Whether the characters of `s` end with those of `t`.
pub fn str_ends_with(s: &str, t: &str) -> (r: bool)
    ensures
        r == ends_with(s@, t@),
{
    let a = chars_of(s);
    let b = chars_of(t);
    if b.len() > a.len() {
        return false;
    }
    let off = a.len() - b.len();
    let mut i: usize = 0;
    while i < b.len()
        invariant
            off + b@.len() == a@.len(),
            off == a.len() - b.len(),
            a.len() == a@.len(),
            i <= b@.len(),
            a@ == s@,
            b@ == t@,
            forall|j: int| 0 <= j < i ==> a@[off + j] == b@[j],
        decreases b.len() - i,
    {
        assert(off + i < a.len());
        if a[off + i] != b[i] {
            assert(s@.skip(off as int)[i as int] != t@[i as int]);
            return false;
        }
        i += 1;
    }
    assert(s@.skip(off as int) =~= t@);
    true
}

/// Whether the characters of `s` start with those of `t`.
pub fn str_starts_with(s: &str, t: &str) -> (r: bool)
    ensures
        r == (t@.len() <= s@.len() && s@.take(t@.len() as int) == t@),
{
    let a = chars_of(s);
    let b = chars_of(t);
    if b.len() > a.len() {
        return false;
    }
    let mut i: usize = 0;
    while i < b.len()
        invariant
            b@.len() <= a@.len(),
            i <= b@.len(),
            a@ == s@,
            b@ == t@,
            forall|j: int| 0 <= j < i ==> a@[j] == b@[j],
        decreases b.len() - i,
    {
        if a[i] != b[i] {
            assert(s@.take(t@.len() as int)[i as int] != t@[i as int]);
            return false;
        }
        i += 1;
    }
    assert(s@.take(t@.len() as int) =~= t@);
    true
}

/// `a` followed by `b`, as a new string.
pub fn concat(a: &str, b: &str) -> (r: String)
    ensures
        r@ == a@ + b@,
{
    let mut r = a.to_owned();
    r.append(b);
    r
}

/// The views of a list of strings.
pub open spec fn views(s: Seq<String>) -> Seq<Seq<char>> {
    s.map_values(|x: String| x@)
}

/// Whether `names` holds a string equal to `name`.
pub fn contains_str(names: &Vec<String>, name: &str) -> (r: bool)
    ensures
        r == views(names@).contains(name@),
{
    let mut i: usize = 0;
    while i < names.len()
        invariant
            i <= names@.len(),
            forall|j: int| 0 <= j < i ==> names@[j]@ != name@,
        decreases names.len() - i,
    {
        if str_eq(names[i].as_str(), name) {
            assert(views(names@)[i as int] == name@);
            return true;
        }
        i += 1;
    }
    proof {
        if views(names@).contains(name@) {
            let k = choose|k: int| 0 <= k < views(names@).len() && views(names@)[k] == name@;
            assert(names@[k]@ == name@);
        }
    }
    false
}

} // verus!

verus! {

/// Index of the last occurrence of `c` in `s`, when there is one.
pub open spec fn last_index(s: Seq<char>, c: char) -> Option<int> {
    if exists|i: int| 0 <= i < s.len() && s[i] == c {
        Some(choose|i: int| 0 <= i < s.len() && s[i] == c && forall|j: int| i < j < s.len() ==> s[j] != c)
    } else {
        None
    }
}

/// `last_index` is the unique last position of `c`.
pub proof fn lemma_last_index(s: Seq<char>, c: char, i: int)
    requires
        0 <= i < s.len(),
        s[i] == c,
        forall|j: int| i < j < s.len() ==> s[j] != c,
    ensures
        last_index(s, c) == Some(i),
{
    let k = choose|k: int| 0 <= k < s.len() && s[k] == c && forall|j: int| k < j < s.len() ==> s[j] != c;
    assert(0 <= k < s.len() && s[k] == c && forall|j: int| k < j < s.len() ==> s[j] != c);
    if k < i {
        assert(s[i] != c);
    }
    if i < k {
        assert(s[k] != c);
    }
}

/// What follows the last `c` of `s` (all of `s` when it has none).
pub open spec fn after_last(s: Seq<char>, c: char) -> Seq<char> {
    match last_index(s, c) {
        Some(i) => s.skip(i + 1),
        None => s,
    }
}

/// What follows the last `c` of `s`, as a new string.
pub fn str_after_last(s: &str, c: char) -> (r: String)
    ensures
        r@ == after_last(s@, c),
{
    let cs = chars_of(s);
    match rfind_char(&cs, c) {
        Some(i) => {
            proof {
                lemma_last_index(cs@, c, i as int);
                assert(cs@.subrange(i + 1, cs@.len() as int) =~= cs@.skip(i + 1));
            }
            string_from_chars(&cs, i + 1, cs.len())
        },
        None => {
            proof {
                assert(cs@.subrange(0, cs@.len() as int) =~= cs@);
            }
            string_from_chars(&cs, 0, cs.len())
        },
    }
}

/// The path ends with `/` followed by `tail`.
pub open spec fn ends_with_segment(path: Seq<char>, tail: Seq<char>) -> bool {
    ends_with(path, seq!['/'] + tail)
}

/// Whether `path` ends with `/` followed by `tail`.
pub fn str_ends_with_segment(path: &str, tail: &str) -> (r: bool)
    ensures
        r == ends_with_segment(path@, tail@),
{
    let mut t = String::new();
    push_char(&mut t, '/');
    t.append(tail);
    proof { assert(t@ =~= seq!['/'] + tail@); }
    str_ends_with(path, &t)
}

/// The decimal digit `d`.
pub open spec fn digit_char(d: nat) -> char {
    if d == 0 { '0' } else if d == 1 { '1' } else if d == 2 { '2' } else if d == 3 { '3' } else if d == 4 { '4' }
    else if d == 5 { '5' } else if d == 6 { '6' } else if d == 7 { '7' } else if d == 8 { '8' } else { '9' }
}

/// The decimal notation of `n`.
pub open spec fn decimal(n: nat) -> Seq<char>
    decreases n,
{
    if n < 10 { seq![digit_char(n)] } else { decimal(n / 10).push(digit_char(n % 10)) }
}

/// The decimal notation of `n`, as a new string.
pub fn decimal_string(n: u64) -> (r: String)
    ensures
        r@ == decimal(n as nat),
    decreases n,
{
    let d = n % 10;
    let c = if d == 0 { '0' } else if d == 1 { '1' } else if d == 2 { '2' } else if d == 3 { '3' } else if d == 4 { '4' }
        else if d == 5 { '5' } else if d == 6 { '6' } else if d == 7 { '7' } else if d == 8 { '8' } else { '9' };
    if n < 10 {
        let mut s = String::new();
        push_char(&mut s, c);
        proof { assert(s@ =~= seq![digit_char(n as nat)]); }
        s
    } else {
        let mut s = decimal_string(n / 10);
        push_char(&mut s, c);
        s
    }
}

/// `pat` occurs in `s` at `i`.
pub open spec fn occurs_at(s: Seq<char>, pat: Seq<char>, i: int) -> bool {
    0 <= i && i + pat.len() <= s.len() && s.subrange(i, i + pat.len()) == pat
}

/// Whether `pat` occurs in `s`.
pub open spec fn occurs(s: Seq<char>, pat: Seq<char>) -> bool {
    exists|i: int| occurs_at(s, pat, i)
}

/// Where the first occurrence of `pat` in `s` starts.
pub open spec fn first_occurrence(s: Seq<char>, pat: Seq<char>) -> Option<int> {
    if occurs(s, pat) {
        Some(choose|i: int| occurs_at(s, pat, i) && forall|j: int| 0 <= j < i ==> !occurs_at(s, pat, j))
    } else {
        None
    }
}

/// The first occurrence is the one that no earlier occurrence precedes.
pub proof fn lemma_first_occurrence(s: Seq<char>, pat: Seq<char>, i: int)
    requires
        occurs_at(s, pat, i),
        forall|j: int| 0 <= j < i ==> !occurs_at(s, pat, j),
    ensures
        first_occurrence(s, pat) == Some(i),
{
    assert(occurs(s, pat));
    assert(exists|k: int| occurs_at(s, pat, k) && forall|j: int| 0 <= j < k ==> !occurs_at(s, pat, j));
    let c = choose|k: int| occurs_at(s, pat, k) && forall|j: int| 0 <= j < k ==> !occurs_at(s, pat, j);
    if c < i {
        assert(!occurs_at(s, pat, c));
    }
    if c > i {
        assert(!occurs_at(s, pat, i));
    }
}

/// Where the first occurrence of `pat` in `s` starts, with what it leaves.
pub fn find_str(s: &str, pat: &str) -> (r: Option<usize>)
    ensures
        match r {
            Some(i) => occurs_at(s@, pat@, i as int) && forall|j: int| 0 <= j < i ==> !occurs_at(s@, pat@, j),
            None => forall|j: int| !occurs_at(s@, pat@, j),
        },
{
    let a = chars_of(s);
    let b = chars_of(pat);
    if b.len() > a.len() {
        proof {
            assert forall|j: int| !occurs_at(s@, pat@, j) by {}
        }
        return None;
    }
    let last = a.len() - b.len();
    let mut i: usize = 0;
    while i <= last
        invariant
            a@ == s@,
            b@ == pat@,
            last == a@.len() - b@.len(),
            b@.len() <= a@.len(),
            i <= last,
            forall|j: int| 0 <= j < i ==> !occurs_at(s@, pat@, j),
        decreases last + 1 - i,
    {
        let mut k: usize = 0;
        let mut same = true;
        while k < b.len()
            invariant
                a@ == s@,
                b@ == pat@,
                i <= last,
                last == a@.len() - b@.len(),
                b@.len() <= a@.len(),
                k <= b@.len(),
                same == forall|x: int| 0 <= x < k ==> a@[i + x] == b@[x],
            decreases b.len() - k,
        {
            assert(i + k < a.len());
            if a[i + k] != b[k] {
                same = false;
            }
            k += 1;
        }
        if same {
            proof { assert(s@.subrange(i as int, i + pat@.len()) =~= pat@); }
            return Some(i);
        }
        proof {
            let x = choose|x: int| 0 <= x < b@.len() && a@[i + x] != b@[x];
            if occurs_at(s@, pat@, i as int) {
                assert(s@.subrange(i as int, i + pat@.len())[x] == a@[i + x]);
            }
        }
        if i == last {
            proof {
                assert forall|j: int| !occurs_at(s@, pat@, j) by {
                    if 0 <= j <= last {
                    }
                }
            }
            return None;
        }
        i += 1;
    }
    None
}

/// `str::len`: the number of bytes `s` takes in UTF-8.
#[verifier::external_body]
pub fn byte_len(s: &str) -> (r: usize)
    ensures
        r == crate::handler::inlay_hints::utf8_len(s@),
{
    s.len()
}

} // verus!
