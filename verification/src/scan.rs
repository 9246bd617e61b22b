//! Searching and scanning over sequences of characters: first and last
//! occurrence, runs of a character class, prefixes and trimming.

use vstd::prelude::*;
use crate::chars::{
    spec_uppercase, spec_alphabetic, spec_alphanumeric, spec_whitespace,
    spec_ascii_digit, spec_upperish, is_uppercase, is_alphabetic, is_alphanumeric, is_whitespace,
    is_ascii_digit, upperish, chars_of,
};

verus! {

/// Index of the first `c` in `s`, if any.
pub open spec fn first_index(s: Seq<char>, c: char) -> Option<int>
    decreases s.len(),
{
    if s.len() == 0 {
        None
    } else if s[0] == c {
        Some(0)
    } else {
        match first_index(s.drop_first(), c) {
            Some(k) => Some(k + 1),
            None => None,
        }
    }
}

/// Index of the last `c` in `s`, if any.
pub open spec fn last_index(s: Seq<char>, c: char) -> Option<int>
    decreases s.len(),
{
    if s.len() == 0 {
        None
    } else if s.last() == c {
        Some(s.len() - 1)
    } else {
        last_index(s.drop_last(), c)
    }
}

pub proof fn lemma_first_index(s: Seq<char>, c: char)
    ensures
        match first_index(s, c) {
            Some(k) => 0 <= k < s.len() && s[k] == c && forall|j: int| 0 <= j < k ==> s[j] != c,
            None => forall|j: int| 0 <= j < s.len() ==> s[j] != c,
        },
    decreases s.len(),
{
    if s.len() > 0 && s[0] != c {
        lemma_first_index(s.drop_first(), c);
        assert forall|j: int| 1 <= j < s.len() implies s[j] == s.drop_first()[j - 1] by {}
    }
}

/// The character classes whose maximal leading runs the renderer measures.
pub enum Run {
    /// digits and dots: an Identifier such as `1.2.3`
    Ident,
    /// upper-case letters and `_-() /`: an Operator head
    Operator,
    /// letters, digits and `,._&?!%= -/+>#'()*`: a Property head
    Property,
    /// letters, digits and `._-`: the body of a hashtag
    Tag,
}

/// Whether `c` continues a run of the given class.
pub open spec fn in_run(kind: Run, c: char) -> bool {
    match kind {
        Run::Ident => spec_ascii_digit(c) || c == '.',
        Run::Operator => ((spec_upperish(c) && spec_alphabetic(c)) || c == '_' || c == '-' || c == '('
            || c == ')' || c == ' ' || c == '/') && !(spec_alphabetic(c) && !spec_uppercase(c)),
        Run::Property => (spec_alphanumeric(c) || c == ',' || c == '.' || c == '_' || c == '&'
            || c == '?' || c == '!' || c == '%' || c == '=' || c == ' ' || c == '-' || c == '/'
            || c == '+' || c == '<' || c == '>' || c == '#' || c == '\'' || c == '"' || c == '('
            || c == ')' || c == '*') && c != '<' && c != '"',
        Run::Tag => spec_alphanumeric(c) || c == '.' || c == '_' || c == '-',
    }
}

/// Length of the longest prefix of `s` whose characters all belong to the class.
pub open spec fn run_len(s: Seq<char>, kind: Run) -> nat
    decreases s.len(),
{
    if s.len() > 0 && in_run(kind, s[0]) {
        1 + run_len(s.drop_first(), kind)
    } else {
        0
    }
}

pub proof fn lemma_run_len(s: Seq<char>, kind: Run)
    ensures
        run_len(s, kind) <= s.len(),
        forall|j: int| 0 <= j < run_len(s, kind) ==> in_run(kind, #[trigger] s[j]),
        run_len(s, kind) < s.len() ==> !in_run(kind, s[run_len(s, kind) as int]),
    decreases s.len(),
{
    if s.len() > 0 && in_run(kind, s[0]) {
        lemma_run_len(s.drop_first(), kind);
        assert forall|j: int| 0 <= j < run_len(s, kind) implies in_run(kind, #[trigger] s[j]) by {
            if j > 0 {
                assert(s[j] == s.drop_first()[j - 1]);
            }
        }
    }
}

/// `s` with its trailing white space removed.
pub open spec fn trim_end(s: Seq<char>) -> Seq<char>
    decreases s.len(),
{
    if s.len() > 0 && spec_whitespace(s.last()) {
        trim_end(s.drop_last())
    } else {
        s
    }
}

/// `s` with its leading white space removed.
pub open spec fn trim_start(s: Seq<char>) -> Seq<char>
    decreases s.len(),
{
    if s.len() > 0 && spec_whitespace(s[0]) {
        trim_start(s.drop_first())
    } else {
        s
    }
}

/// `s` with white space removed at both ends.
pub open spec fn trim(s: Seq<char>) -> Seq<char> {
    trim_start(trim_end(s))
}

/// Whether `c` continues a run of the given class.
pub fn in_run_exec(kind: &Run, c: char) -> (r: bool)
    ensures
        r == in_run(*kind, c),
{
    match kind {
        Run::Ident => is_ascii_digit(c) || c == '.',
        Run::Operator => ((upperish(c) && is_alphabetic(c)) || c == '_' || c == '-' || c == '('
            || c == ')' || c == ' ' || c == '/') && !(is_alphabetic(c) && !is_uppercase(c)),
        Run::Property => (is_alphanumeric(c) || c == ',' || c == '.' || c == '_' || c == '&'
            || c == '?' || c == '!' || c == '%' || c == '=' || c == ' ' || c == '-' || c == '/'
            || c == '+' || c == '<' || c == '>' || c == '#' || c == '\'' || c == '"' || c == '('
            || c == ')' || c == '*') && c != '<' && c != '"',
        Run::Tag => is_alphanumeric(c) || c == '.' || c == '_' || c == '-',
    }
}

/// End of the maximal run of the class that starts at `from`.
pub fn run_end(v: &Vec<char>, from: usize, kind: Run) -> (j: usize)
    requires
        from <= v.len(),
    ensures
        j == from + run_len(v@.skip(from as int), kind),
        from <= j <= v.len(),
{
    let mut j: usize = from;
    while j < v.len() && in_run_exec(&kind, v[j])
        invariant
            from <= j <= v.len(),
            run_len(v@.skip(from as int), kind) == (j - from) + run_len(v@.skip(j as int), kind),
        decreases v.len() - j,
    {
        assert(v@.skip(j as int).drop_first() == v@.skip(j + 1));
        j += 1;
    }
    j
}

/// The first `c` at or after `from`, as an index into `v`.
pub fn find_from(v: &Vec<char>, from: usize, c: char) -> (r: Option<usize>)
    requires
        from <= v.len(),
    ensures
        match r {
            Some(j) => from <= j < v.len() && first_index(v@.skip(from as int), c) == Some(j - from),
            None => first_index(v@.skip(from as int), c) is None,
        },
{
    let mut j: usize = from;
    while j < v.len()
        invariant
            from <= j <= v.len(),
            forall|k: int| from <= k < j ==> v@[k] != c,
        decreases v.len() - j,
    {
        if v[j] == c {
            proof {
                let s = v@.skip(from as int);
                lemma_first_index(s, c);
                match first_index(s, c) {
                    Some(k) => {
                        assert(s[j - from] == c);
                        assert(s[k] == v@[from + k]);
                    },
                    None => {
                        assert(s[j - from] == c);
                    },
                }
            }
            return Some(j);
        }
        j += 1;
    }
    proof {
        let s = v@.skip(from as int);
        lemma_first_index(s, c);
        if let Some(k) = first_index(s, c) {
            assert(s[k] == v@[from + k]);
        }
    }
    None
}

/// The last `c` before `to`, as an index into `v`.
pub fn rfind_before(v: &Vec<char>, to: usize, c: char) -> (r: Option<usize>)
    requires
        to <= v.len(),
    ensures
        match r {
            Some(j) => j < to && last_index(v@.take(to as int), c) == Some(j as int),
            None => last_index(v@.take(to as int), c) is None,
        },
{
    let mut j: usize = to;
    while j > 0
        invariant
            j <= to <= v.len(),
            last_index(v@.take(to as int), c) == last_index(v@.take(j as int), c),
        decreases j,
    {
        assert(v@.take(j as int).drop_last() == v@.take(j - 1));
        if v[j - 1] == c {
            return Some(j - 1);
        }
        j -= 1;
    }
    None
}

/// Whether the characters of `p` stand in `v` from `at` on.
pub fn starts_at(v: &Vec<char>, at: usize, p: &str) -> (r: bool)
    requires
        at <= v.len(),
    ensures
        r == p@.is_prefix_of(v@.skip(at as int)),
{
    let w = chars_of(p);
    if w.len() > v.len() - at {
        return false;
    }
    let mut k: usize = 0;
    while k < w.len()
        invariant
            w@ == p@,
            w.len() <= v.len() - at,
            k <= w.len(),
            forall|m: int| 0 <= m < k ==> w@[m] == v@[at + m],
        decreases w.len() - k,
    {
        if w[k] != v[at + k] {
            assert(v@.skip(at as int)[k as int] == v@[at + k]);
            return false;
        }
        k += 1;
    }
    assert(p@ =~= v@.skip(at as int).subrange(0, p@.len() as int));
    true
}

/// Start of the text that remains of `v[from..to]` once leading white space is removed.
pub fn trim_start_from(v: &Vec<char>, from: usize, to: usize) -> (b: usize)
    requires
        from <= to <= v.len(),
    ensures
        from <= b <= to,
        v@.subrange(b as int, to as int) == trim_start(v@.subrange(from as int, to as int)),
{
    let mut b: usize = from;
    while b < to && is_whitespace(v[b])
        invariant
            from <= b <= to <= v.len(),
            trim_start(v@.subrange(from as int, to as int)) == trim_start(v@.subrange(b as int, to as int)),
        decreases to - b,
    {
        assert(v@.subrange(b as int, to as int).drop_first() == v@.subrange(b + 1, to as int));
        b += 1;
    }
    b
}

/// End of the text that remains of `v[from..to]` once trailing white space is removed.
pub fn trim_end_to(v: &Vec<char>, from: usize, to: usize) -> (e: usize)
    requires
        from <= to <= v.len(),
    ensures
        from <= e <= to,
        v@.subrange(from as int, e as int) == trim_end(v@.subrange(from as int, to as int)),
{
    let mut e: usize = to;
    while e > from && is_whitespace(v[e - 1])
        invariant
            from <= e <= to <= v.len(),
            trim_end(v@.subrange(from as int, to as int)) == trim_end(v@.subrange(from as int, e as int)),
        decreases e - from,
    {
        assert(v@.subrange(from as int, e as int).drop_last() == v@.subrange(from as int, e - 1));
        e -= 1;
    }
    e
}

/// `u` is what is left of `t` after some characters were dropped from its front.
pub open spec fn is_suffix(u: Seq<char>, t: Seq<char>) -> bool {
    u.len() <= t.len() && u == t.skip(t.len() - u.len())
}

pub proof fn lemma_suffix_trans(a: Seq<char>, b: Seq<char>, c: Seq<char>)
    requires
        is_suffix(a, b),
        is_suffix(b, c),
    ensures
        is_suffix(a, c),
{
    assert(a =~= c.skip(c.len() - a.len()));
}

/// A prefix stays a prefix when more text follows.
pub proof fn lemma_prefix_extend(p: Seq<char>, x: Seq<char>, y: Seq<char>)
    requires
        p.is_prefix_of(x),
    ensures
        p.is_prefix_of(x + y),
{
    assert(p =~= (x + y).subrange(0, p.len() as int));
}

} // verus!
