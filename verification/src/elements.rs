//! Inline elements of an item's text after its head: qualifiers,
//! references, comments, quotes, hashtags, keywords and markup.

use vstd::prelude::*;
use vstd::string::StringExecFns;
use crate::chars::{spec_alphanumeric, spec_whitespace, is_alphanumeric, is_whitespace, chars_of, string_of};
use crate::text::{esc_char, spec_esc, push_esc_char, push_esc_range, lemma_esc_no_angle_brackets, lemma_esc_single};
use crate::scan::{lemma_prefix_extend, first_index, lemma_first_index, Run, run_len, lemma_run_len, run_end, find_from, starts_at};
use crate::refs::{spec_ref_html, ref_html, key_views, decimal, digit_char, is_external, drop_prefix, ref_segment, find_target};

verus! {

/// A comment or quote: escaped text, with only its references set as links.
pub open spec fn spec_inline_min(s: Seq<char>, self_ix: int, keys: Seq<Seq<char>>) -> Seq<char>
    decreases s.len(),
{
    match first_index(s, '<') {
        Some(a) => match first_index(s.skip(a), '>') {
            Some(b) => {
                proof {
                    lemma_first_index(s, '<');
                    lemma_first_index(s.skip(a), '>');
                }
                spec_esc(s.take(a)) + spec_ref_html(s.subrange(a + 1, a + b), self_ix, keys)
                    + spec_inline_min(s.skip(a + b + 1), self_ix, keys)
            },
            None => spec_esc(s),
        },
        None => spec_esc(s),
    }
}

/// A copy of `v[from..to]`.
fn sub_vec(v: &Vec<char>, from: usize, to: usize) -> (w: Vec<char>)
    requires
        from <= to <= v.len(),
    ensures
        w@ == v@.subrange(from as int, to as int),
{
    let mut w: Vec<char> = Vec::new();
    let mut i: usize = from;
    while i < to
        invariant
            from <= i <= to <= v.len(),
            w@ == v@.subrange(from as int, i as int),
        decreases to - i,
    {
        w.push(v[i]);
        i += 1;
    }
    w
}

/// Appends `spec_inline_min(v)`.
fn push_inline_min(out: &mut String, v: &Vec<char>, self_ix: usize, texts: &[String])
    ensures
        final(out)@ == old(out)@ + spec_inline_min(v@, self_ix as int, key_views(texts@)),
{
    let ghost keys = key_views(texts@);
    let mut pos: usize = 0;
    assert(v@.skip(0) == v@);
    loop
        invariant
            pos <= v.len(),
            keys == key_views(texts@),
            old(out)@ + spec_inline_min(v@, self_ix as int, keys)
                == out@ + spec_inline_min(v@.skip(pos as int), self_ix as int, keys),
        ensures
            pos <= v.len(),
            old(out)@ + spec_inline_min(v@, self_ix as int, keys) == out@ + spec_esc(v@.skip(pos as int)),
        decreases v.len() - pos,
    {
        let ghost s = v@.skip(pos as int);
        let a = match find_from(v, pos, '<') {
            Some(a) => a,
            None => break,
        };
        let b = match find_from(v, a, '>') {
            Some(b) => b,
            None => {
                assert(s.skip(a - pos) == v@.skip(a as int));
                break;
            },
        };
        proof {
            assert(s.skip(a - pos) == v@.skip(a as int));
            lemma_first_index(s, '<');
            lemma_first_index(v@.skip(a as int), '>');
            assert(s[a - pos] == '<');
            assert(v@.skip(a as int)[0] == '<');
            assert(s.take(a - pos) == v@.subrange(pos as int, a as int));
            assert(s.subrange(a - pos + 1, b - pos) == v@.subrange(a + 1, b as int));
            assert(s.skip(b - pos + 1) == v@.skip(b + 1));
        }
        push_esc_range(out, v, pos, a);
        let inner = string_of(v, a + 1, b);
        let r = ref_html(inner.as_str(), self_ix, texts);
        out.append(r.as_str());
        pos = b + 1;
    }
    push_esc_range(out, v, pos, v.len());
    assert(v@.subrange(pos as int, v@.len() as int) == v@.skip(pos as int));
}

/// Comments and quotes stay one color; only references light up inside them.
pub fn inline_min(s: &str, self_ix: usize, texts: &[String]) -> (r: String)
    ensures
        r@ == spec_inline_min(s@, self_ix as int, key_views(texts@)),
{
    let v = chars_of(s);
    let mut out = String::new();
    push_inline_min(&mut out, &v, self_ix, texts);
    out
}

/// Where `b[i]` is `open`, the first `close` after it.
pub open spec fn pair_close(b: Seq<char>, i: int, open: char, close: char) -> Option<int> {
    if b[i] != open {
        None
    } else {
        match first_index(b.skip(i + 1), close) {
            Some(k) => Some(i + 1 + k),
            None => None,
        }
    }
}

/// Position `i` starts a word: the text starts there or the character before is not alphanumeric.
pub open spec fn word_start(b: Seq<char>, i: int) -> bool {
    i == 0 || !spec_alphanumeric(b[i - 1])
}

/// The keyword `kw` stands at `i` and is not followed by an alphanumeric character.
pub open spec fn keyword_at(b: Seq<char>, i: int, kw: Seq<char>) -> bool {
    kw.is_prefix_of(b.skip(i)) && (i + kw.len() >= b.len() || !spec_alphanumeric(b[i + kw.len()]))
}

/// Where `b[i]` is the markup character `m` followed by a non-space, the
/// next `m`, if the character before it is not a space and the body is not empty.
pub open spec fn markup_close(b: Seq<char>, i: int, m: char) -> Option<int> {
    if b[i] == m && i + 1 < b.len() && !spec_whitespace(b[i + 1]) {
        match first_index(b.skip(i + 1), m) {
            Some(k) => if k > 0 && !spec_whitespace(b[i + k]) {
                Some(i + 1 + k)
            } else {
                None
            },
            None => None,
        }
    } else {
        None
    }
}

/// A hashtag starts at `i`.
pub open spec fn tag_start(b: Seq<char>, i: int) -> bool {
    b[i] == '#' && i + 1 < b.len() && (spec_alphanumeric(b[i + 1]) || b[i + 1] == '_')
}

pub open spec fn keyword_html(cls: Seq<char>, kw: Seq<char>) -> Seq<char> {
    "<span class="@ + cls + ">"@ + kw + "</span>"@
}

pub open spec fn markup_html(tag: Seq<char>, body: Seq<char>) -> Seq<char> {
    "<"@ + tag + ">"@ + spec_esc(body) + "</"@ + tag + ">"@
}

/// A qualifier `[...]`, a reference `<...>`, a comment `(...)` or a quote
/// `"..."` that opens at `i` and closes later.
pub open spec fn pair_step(b: Seq<char>, i: int, self_ix: int, keys: Seq<Seq<char>>) -> Option<(Seq<char>, int)> {
    if pair_close(b, i, '[', ']') is Some {
        let j = pair_close(b, i, '[', ']').unwrap();
        Some(("<span class=qual>"@ + spec_esc(b.subrange(i, j + 1)) + "</span>"@, j + 1))
    } else if pair_close(b, i, '<', '>') is Some {
        let j = pair_close(b, i, '<', '>').unwrap();
        Some((spec_ref_html(b.subrange(i + 1, j), self_ix, keys), j + 1))
    } else if pair_close(b, i, '(', ')') is Some {
        let j = pair_close(b, i, '(', ')').unwrap();
        Some(("<span class=cmt>"@ + spec_inline_min(b.subrange(i, j + 1), self_ix, keys) + "</span>"@, j + 1))
    } else if pair_close(b, i, '"', '"') is Some {
        let j = pair_close(b, i, '"', '"').unwrap();
        Some(("<span class=cmt>"@ + spec_inline_min(b.subrange(i, j + 1), self_ix, keys) + "</span>"@, j + 1))
    } else {
        None
    }
}

/// A hashtag or a semicolon at `i`.
pub open spec fn mark_step(b: Seq<char>, i: int) -> Option<(Seq<char>, int)> {
    if tag_start(b, i) {
        let j = i + 1 + run_len(b.skip(i + 1), Run::Tag);
        Some(("<span class=tag>"@ + spec_esc(b.subrange(i, j)) + "</span>"@, j))
    } else if b[i] == ';' {
        Some(("<span class=qual>;</span>"@, i + 1))
    } else {
        None
    }
}

/// A keyword `SKIP`, `END`, `FIXME` or `TODO` at `i`.
pub open spec fn keyword_step(b: Seq<char>, i: int) -> Option<(Seq<char>, int)> {
    if keyword_at(b, i, "SKIP"@) {
        Some((keyword_html("start"@, "SKIP"@), i + "SKIP"@.len()))
    } else if keyword_at(b, i, "END"@) {
        Some((keyword_html("start"@, "END"@), i + "END"@.len()))
    } else if keyword_at(b, i, "FIXME"@) {
        Some((keyword_html("todo"@, "FIXME"@), i + "FIXME"@.len()))
    } else if keyword_at(b, i, "TODO"@) {
        Some((keyword_html("todo"@, "TODO"@), i + "TODO"@.len()))
    } else {
        None
    }
}

/// Bold `*...*`, italic `/.../` or underline `_..._` opening at `i`.
pub open spec fn markup_step(b: Seq<char>, i: int) -> Option<(Seq<char>, int)> {
    if markup_close(b, i, '*') is Some {
        let j = markup_close(b, i, '*').unwrap();
        Some((markup_html("b"@, b.subrange(i + 1, j)), j + 1))
    } else if markup_close(b, i, '/') is Some {
        let j = markup_close(b, i, '/').unwrap();
        Some((markup_html("i"@, b.subrange(i + 1, j)), j + 1))
    } else if markup_close(b, i, '_') is Some {
        let j = markup_close(b, i, '_').unwrap();
        Some((markup_html("u"@, b.subrange(i + 1, j)), j + 1))
    } else {
        None
    }
}

/// The HTML for the element that starts at `i`, and where the next one
/// starts; keywords and markup count only at the start of a word.
pub open spec fn step(b: Seq<char>, i: int, self_ix: int, keys: Seq<Seq<char>>) -> (Seq<char>, int) {
    if pair_step(b, i, self_ix, keys) is Some {
        pair_step(b, i, self_ix, keys).unwrap()
    } else if mark_step(b, i) is Some {
        mark_step(b, i).unwrap()
    } else if word_start(b, i) && keyword_step(b, i) is Some {
        keyword_step(b, i).unwrap()
    } else if word_start(b, i) && markup_step(b, i) is Some {
        markup_step(b, i).unwrap()
    } else {
        (esc_char(b[i]), i + 1)
    }
}

proof fn lemma_pair_close(b: Seq<char>, i: int, open: char, close: char)
    requires
        0 <= i < b.len(),
    ensures
        pair_close(b, i, open, close) matches Some(j) ==> i < j < b.len() && b[i] == open && b[j] == close,
{
    lemma_first_index(b.skip(i + 1), close);
}

proof fn lemma_markup_close(b: Seq<char>, i: int, m: char)
    requires
        0 <= i < b.len(),
    ensures
        markup_close(b, i, m) matches Some(j) ==> i + 1 < j < b.len(),
{
    lemma_first_index(b.skip(i + 1), m);
}

pub proof fn lemma_step_advances(b: Seq<char>, i: int, self_ix: int, keys: Seq<Seq<char>>)
    requires
        0 <= i < b.len(),
    ensures
        i < step(b, i, self_ix, keys).1 <= b.len(),
{
    lemma_pair_close(b, i, '[', ']');
    lemma_pair_close(b, i, '<', '>');
    lemma_pair_close(b, i, '(', ')');
    lemma_pair_close(b, i, '"', '"');
    lemma_markup_close(b, i, '*');
    lemma_markup_close(b, i, '/');
    lemma_markup_close(b, i, '_');
    lemma_run_len(b.skip(i + 1), Run::Tag);
    if tag_start(b, i) {
        assert(b.skip(i + 1)[0] == b[i + 1]);
    }
    reveal_strlit("SKIP");
    reveal_strlit("END");
    reveal_strlit("FIXME");
    reveal_strlit("TODO");
}

/// The HTML for the elements from position `i` on.
pub open spec fn inline_from(b: Seq<char>, i: int, self_ix: int, keys: Seq<Seq<char>>) -> Seq<char>
    decreases b.len() - i,
{
    if i < 0 || i >= b.len() {
        Seq::empty()
    } else {
        proof {
            lemma_step_advances(b, i, self_ix, keys);
        }
        step(b, i, self_ix, keys).0 + inline_from(b, step(b, i, self_ix, keys).1, self_ix, keys)
    }
}

/// The inline elements of `s` as HTML.
pub open spec fn spec_inline(s: Seq<char>, self_ix: int, keys: Seq<Seq<char>>) -> Seq<char> {
    inline_from(s, 0, self_ix, keys)
}

fn pair_close_exec(v: &Vec<char>, i: usize, open: char, close: char) -> (r: Option<usize>)
    requires
        i < v.len(),
    ensures
        match r {
            Some(j) => pair_close(v@, i as int, open, close) == Some(j as int) && i < j < v.len(),
            None => pair_close(v@, i as int, open, close) is None,
        },
{
    if v[i] != open {
        return None;
    }
    match find_from(v, i + 1, close) {
        Some(j) => Some(j),
        None => None,
    }
}

fn keyword_exec(v: &Vec<char>, i: usize, kw: &str) -> (r: Option<usize>)
    requires
        i < v.len(),
    ensures
        match r {
            Some(len) => keyword_at(v@, i as int, kw@) && len == kw@.len() && i + len <= v.len(),
            None => !keyword_at(v@, i as int, kw@),
        },
{
    if !starts_at(v, i, kw) {
        return None;
    }
    let w = chars_of(kw);
    let e = i + w.len();
    if e >= v.len() || !is_alphanumeric(v[e]) {
        Some(w.len())
    } else {
        None
    }
}

fn markup_close_exec(v: &Vec<char>, i: usize, m: char) -> (r: Option<usize>)
    requires
        i < v.len(),
    ensures
        match r {
            Some(j) => markup_close(v@, i as int, m) == Some(j as int) && i + 1 < j < v.len(),
            None => markup_close(v@, i as int, m) is None,
        },
{
    if v[i] == m && i + 1 < v.len() && !is_whitespace(v[i + 1]) {
        match find_from(v, i + 1, m) {
            Some(j) => {
                if j > i + 1 && !is_whitespace(v[j - 1]) {
                    Some(j)
                } else {
                    None
                }
            },
            None => None,
        }
    } else {
        None
    }
}

fn pair_step_exec(out: &mut String, v: &Vec<char>, i: usize, self_ix: usize, texts: &[String]) -> (r: Option<usize>)
    requires
        i < v.len(),
    ensures
        match r {
            Some(j) => pair_step(v@, i as int, self_ix as int, key_views(texts@)) is Some
                && final(out)@ == old(out)@ + pair_step(v@, i as int, self_ix as int, key_views(texts@)).unwrap().0
                && j == pair_step(v@, i as int, self_ix as int, key_views(texts@)).unwrap().1,
            None => pair_step(v@, i as int, self_ix as int, key_views(texts@)) is None
                && final(out)@ == old(out)@,
        },
{
    if let Some(j) = pair_close_exec(v, i, '[', ']') {
        out.append("<span class=qual>");
        push_esc_range(out, v, i, j + 1);
        out.append("</span>");
        return Some(j + 1);
    }
    if let Some(j) = pair_close_exec(v, i, '<', '>') {
        let inner = string_of(v, i + 1, j);
        let r = ref_html(inner.as_str(), self_ix, texts);
        out.append(r.as_str());
        return Some(j + 1);
    }
    if let Some(j) = pair_close_exec(v, i, '(', ')') {
        let body = sub_vec(v, i, j + 1);
        out.append("<span class=cmt>");
        push_inline_min(out, &body, self_ix, texts);
        out.append("</span>");
        return Some(j + 1);
    }
    if let Some(j) = pair_close_exec(v, i, '"', '"') {
        let body = sub_vec(v, i, j + 1);
        out.append("<span class=cmt>");
        push_inline_min(out, &body, self_ix, texts);
        out.append("</span>");
        return Some(j + 1);
    }
    None
}

fn mark_step_exec(out: &mut String, v: &Vec<char>, i: usize) -> (r: Option<usize>)
    requires
        i < v.len(),
    ensures
        match r {
            Some(j) => mark_step(v@, i as int) is Some
                && final(out)@ == old(out)@ + mark_step(v@, i as int).unwrap().0
                && j == mark_step(v@, i as int).unwrap().1,
            None => mark_step(v@, i as int) is None && final(out)@ == old(out)@,
        },
{
    let n = v.len();
    let c = v[i];
    if c == '#' && i + 1 < n && (is_alphanumeric(v[i + 1]) || v[i + 1] == '_') {
        let j = run_end(v, i + 1, Run::Tag);
        out.append("<span class=tag>");
        push_esc_range(out, v, i, j);
        out.append("</span>");
        return Some(j);
    }
    if c == ';' {
        out.append("<span class=qual>;</span>");
        return Some(i + 1);
    }
    None
}

fn push_keyword(out: &mut String, cls: &str, kw: &str)
    ensures
        final(out)@ == old(out)@ + keyword_html(cls@, kw@),
{
    out.append("<span class=");
    out.append(cls);
    out.append(">");
    out.append(kw);
    out.append("</span>");
}

fn keyword_step_exec(out: &mut String, v: &Vec<char>, i: usize) -> (r: Option<usize>)
    requires
        i < v.len(),
    ensures
        match r {
            Some(j) => keyword_step(v@, i as int) is Some
                && final(out)@ == old(out)@ + keyword_step(v@, i as int).unwrap().0
                && j == keyword_step(v@, i as int).unwrap().1,
            None => keyword_step(v@, i as int) is None && final(out)@ == old(out)@,
        },
{
    if let Some(k) = keyword_exec(v, i, "SKIP") {
        push_keyword(out, "start", "SKIP");
        return Some(i + k);
    }
    if let Some(k) = keyword_exec(v, i, "END") {
        push_keyword(out, "start", "END");
        return Some(i + k);
    }
    if let Some(k) = keyword_exec(v, i, "FIXME") {
        push_keyword(out, "todo", "FIXME");
        return Some(i + k);
    }
    if let Some(k) = keyword_exec(v, i, "TODO") {
        push_keyword(out, "todo", "TODO");
        return Some(i + k);
    }
    None
}

fn push_markup(out: &mut String, tag: &str, v: &Vec<char>, from: usize, to: usize)
    requires
        from <= to <= v.len(),
    ensures
        final(out)@ == old(out)@ + markup_html(tag@, v@.subrange(from as int, to as int)),
{
    out.append("<");
    out.append(tag);
    out.append(">");
    push_esc_range(out, v, from, to);
    out.append("</");
    out.append(tag);
    out.append(">");
}

fn markup_step_exec(out: &mut String, v: &Vec<char>, i: usize) -> (r: Option<usize>)
    requires
        i < v.len(),
    ensures
        match r {
            Some(j) => markup_step(v@, i as int) is Some
                && final(out)@ == old(out)@ + markup_step(v@, i as int).unwrap().0
                && j == markup_step(v@, i as int).unwrap().1,
            None => markup_step(v@, i as int) is None && final(out)@ == old(out)@,
        },
{
    if let Some(j) = markup_close_exec(v, i, '*') {
        push_markup(out, "b", v, i + 1, j);
        return Some(j + 1);
    }
    if let Some(j) = markup_close_exec(v, i, '/') {
        push_markup(out, "i", v, i + 1, j);
        return Some(j + 1);
    }
    if let Some(j) = markup_close_exec(v, i, '_') {
        push_markup(out, "u", v, i + 1, j);
        return Some(j + 1);
    }
    None
}

/// Appends the HTML of the element at `i` and returns where the next one starts.
fn step_exec(out: &mut String, v: &Vec<char>, i: usize, self_ix: usize, texts: &[String]) -> (j: usize)
    requires
        i < v.len(),
    ensures
        final(out)@ == old(out)@ + step(v@, i as int, self_ix as int, key_views(texts@)).0,
        j == step(v@, i as int, self_ix as int, key_views(texts@)).1,
{
    if let Some(j) = pair_step_exec(out, v, i, self_ix, texts) {
        return j;
    }
    if let Some(j) = mark_step_exec(out, v, i) {
        return j;
    }
    let boundary = i == 0 || !is_alphanumeric(v[i - 1]);
    if boundary {
        if let Some(j) = keyword_step_exec(out, v, i) {
            return j;
        }
        if let Some(j) = markup_step_exec(out, v, i) {
            return j;
        }
    }
    push_esc_char(out, v[i]);
    i + 1
}

/// The inline elements of `s` as HTML: qualifiers, references, comments,
/// quotes, hashtags, keywords and markup; everything else escaped.
pub fn inline(s: &str, self_ix: usize, texts: &[String]) -> (r: String)
    ensures
        r@ == spec_inline(s@, self_ix as int, key_views(texts@)),
{
    let v = chars_of(s);
    let ghost keys = key_views(texts@);
    let mut out = String::new();
    let mut i: usize = 0;
    while i < v.len()
        invariant
            i <= v.len(),
            keys == key_views(texts@),
            spec_inline(v@, self_ix as int, keys) == out@ + inline_from(v@, i as int, self_ix as int, keys),
        decreases v.len() - i,
    {
        proof {
            lemma_step_advances(v@, i as int, self_ix as int, keys);
        }
        i = step_exec(&mut out, &v, i, self_ix, texts);
    }
    out
}

/// A comment or quote without a `<` is just its escaped text.
pub proof fn lemma_inline_min_plain(s: Seq<char>, self_ix: int, keys: Seq<Seq<char>>)
    requires
        !s.contains('<'),
    ensures
        spec_inline_min(s, self_ix, keys) == spec_esc(s),
{
    lemma_first_index(s, '<');
    if first_index(s, '<') is Some {
        assert(s[first_index(s, '<').unwrap()] == '<');
    }
}

/// The tags the renderer writes itself: spans, reference links and markup.
pub open spec fn own_tags() -> Seq<Seq<char>> {
    seq![
        seq!['<', 's', 'p', 'a', 'n', ' ', 'c', 'l', 'a', 's', 's', '='],
        seq!['<', '/', 's', 'p', 'a', 'n', '>'],
        seq!['<', 'a', ' ', 'c', 'l', 'a', 's', 's', '=', 'r', 'e', 'f', ' ', 'h', 'r', 'e', 'f', '='],
        seq!['<', '/', 'a', '>'],
        seq!['<', 'b', '>'],
        seq!['<', '/', 'b', '>'],
        seq!['<', 'i', '>'],
        seq!['<', '/', 'i', '>'],
        seq!['<', 'u', '>'],
        seq!['<', '/', 'u', '>'],
    ]
}

/// A tag of the renderer's own begins at position `i`.
pub open spec fn own_tag_at(s: Seq<char>, i: int) -> bool {
    exists|j: int| 0 <= j < own_tags().len() && (#[trigger] own_tags()[j]).is_prefix_of(s.skip(i))
}

/// Every `<` of `s` begins one of the renderer's own tags.
pub open spec fn tags_ok(s: Seq<char>) -> bool {
    forall|i: int| 0 <= i < s.len() && #[trigger] s[i] == '<' ==> own_tag_at(s, i)
}

proof fn lemma_tags_concat(a: Seq<char>, b: Seq<char>)
    requires
        tags_ok(a),
        tags_ok(b),
    ensures
        tags_ok(a + b),
{
    assert forall|i: int| 0 <= i < (a + b).len() && #[trigger] (a + b)[i] == '<' implies own_tag_at(a + b, i) by {
        if i < a.len() {
            assert(a[i] == '<');
            let j = choose|j: int| 0 <= j < own_tags().len() && (#[trigger] own_tags()[j]).is_prefix_of(a.skip(i));
            assert((a + b).skip(i) =~= a.skip(i) + b);
            lemma_prefix_extend(own_tags()[j], a.skip(i), b);
        } else {
            assert(b[i - a.len()] == '<');
            let j = choose|j: int| 0 <= j < own_tags().len() && (#[trigger] own_tags()[j]).is_prefix_of(b.skip(i - a.len()));
            assert((a + b).skip(i) =~= b.skip(i - a.len()));
        }
    }
}

proof fn lemma_tags_plain(s: Seq<char>)
    requires
        forall|i: int| 0 <= i < s.len() ==> s[i] != '<',
    ensures
        tags_ok(s),
{
}

proof fn lemma_tag_at_start(s: Seq<char>, j: int)
    requires
        0 <= j < own_tags().len(),
        own_tags()[j] =~= s,
    ensures
        own_tag_at(s, 0),
{
    assert(s.skip(0) =~= s);
    assert(own_tags()[j].is_prefix_of(s.skip(0)));
}


proof fn lemma_ref_literal_tags()
    ensures
        tags_ok("<a class=ref href=\""@),
        tags_ok("&gt;</a>"@),
        tags_ok("<a class=ref href=\"#i"@),
        tags_ok("<span class=ref>&lt;"@),
        tags_ok("&gt;</span>"@),
        tags_ok("\">&lt;"@),
        tags_ok("\" onclick=\"go('i"@),
        tags_ok("');return false\">&lt;"@),
{
    reveal_strlit("<a class=ref href=\"");
    reveal_strlit("&gt;</a>");
    reveal_strlit("<a class=ref href=\"#i");
    reveal_strlit("<span class=ref>&lt;");
    reveal_strlit("&gt;</span>");
    reveal_strlit("\">&lt;");
    reveal_strlit("\" onclick=\"go('i");
    reveal_strlit("');return false\">&lt;");
    assert(own_tags()[2].is_prefix_of("<a class=ref href=\""@.skip(0))) by {
        assert(own_tags()[2] =~= "<a class=ref href=\""@.skip(0).subrange(0, 18));
    }
    assert(own_tags()[3].is_prefix_of("&gt;</a>"@.skip(4))) by {
        assert(own_tags()[3] =~= "&gt;</a>"@.skip(4).subrange(0, 4));
    }
    assert(own_tags()[2].is_prefix_of("<a class=ref href=\"#i"@.skip(0))) by {
        assert(own_tags()[2] =~= "<a class=ref href=\"#i"@.skip(0).subrange(0, 18));
    }
    assert(own_tags()[0].is_prefix_of("<span class=ref>&lt;"@.skip(0))) by {
        assert(own_tags()[0] =~= "<span class=ref>&lt;"@.skip(0).subrange(0, 12));
    }
    assert(own_tags()[1].is_prefix_of("&gt;</span>"@.skip(4))) by {
        assert(own_tags()[1] =~= "&gt;</span>"@.skip(4).subrange(0, 7));
    }
}

proof fn lemma_step_literal_tags()
    ensures
        tags_ok("<span class=qual>"@),
        tags_ok("<span class=cmt>"@),
        tags_ok("<span class=tag>"@),
        tags_ok("</span>"@),
        tags_ok("<span class=qual>;</span>"@),
        tags_ok("<span class="@),
        tags_ok(">"@),
        tags_ok("start"@),
        tags_ok("todo"@),
        tags_ok("SKIP"@),
        tags_ok("END"@),
        tags_ok("FIXME"@),
        tags_ok("TODO"@),
{
    reveal_strlit("<span class=qual>");
    reveal_strlit("<span class=cmt>");
    reveal_strlit("<span class=tag>");
    reveal_strlit("</span>");
    reveal_strlit("<span class=qual>;</span>");
    reveal_strlit("<span class=");
    reveal_strlit(">");
    reveal_strlit("start");
    reveal_strlit("todo");
    reveal_strlit("SKIP");
    reveal_strlit("END");
    reveal_strlit("FIXME");
    reveal_strlit("TODO");
    assert(own_tags()[0].is_prefix_of("<span class=qual>"@.skip(0))) by {
        assert(own_tags()[0] =~= "<span class=qual>"@.skip(0).subrange(0, 12));
    }
    assert(own_tags()[0].is_prefix_of("<span class=cmt>"@.skip(0))) by {
        assert(own_tags()[0] =~= "<span class=cmt>"@.skip(0).subrange(0, 12));
    }
    assert(own_tags()[0].is_prefix_of("<span class=tag>"@.skip(0))) by {
        assert(own_tags()[0] =~= "<span class=tag>"@.skip(0).subrange(0, 12));
    }
    assert(own_tags()[1].is_prefix_of("</span>"@.skip(0))) by {
        assert(own_tags()[1] =~= "</span>"@.skip(0).subrange(0, 7));
    }
    assert(own_tags()[0].is_prefix_of("<span class=qual>;</span>"@.skip(0))) by {
        assert(own_tags()[0] =~= "<span class=qual>;</span>"@.skip(0).subrange(0, 12));
    }
    assert(own_tags()[1].is_prefix_of("<span class=qual>;</span>"@.skip(18))) by {
        assert(own_tags()[1] =~= "<span class=qual>;</span>"@.skip(18).subrange(0, 7));
    }
    assert(own_tags()[0].is_prefix_of("<span class="@.skip(0))) by {
        assert(own_tags()[0] =~= "<span class="@.skip(0).subrange(0, 12));
    }
}

proof fn lemma_markup_literal_tags()
    ensures
        tags_ok("<"@ + "b"@ + ">"@),
        tags_ok("</"@ + "b"@ + ">"@),
        tags_ok("<"@ + "i"@ + ">"@),
        tags_ok("</"@ + "i"@ + ">"@),
        tags_ok("<"@ + "u"@ + ">"@),
        tags_ok("</"@ + "u"@ + ">"@),
{
    reveal_strlit("<");
    reveal_strlit("</");
    reveal_strlit(">");
    reveal_strlit("b");
    reveal_strlit("i");
    reveal_strlit("u");
    assert(own_tags()[4].is_prefix_of(("<"@ + "b"@ + ">"@).skip(0))) by {
        assert(own_tags()[4] =~= ("<"@ + "b"@ + ">"@).skip(0).subrange(0, 3));
    }
    assert(own_tags()[5].is_prefix_of(("</"@ + "b"@ + ">"@).skip(0))) by {
        assert(own_tags()[5] =~= ("</"@ + "b"@ + ">"@).skip(0).subrange(0, 4));
    }
    assert(own_tags()[6].is_prefix_of(("<"@ + "i"@ + ">"@).skip(0))) by {
        assert(own_tags()[6] =~= ("<"@ + "i"@ + ">"@).skip(0).subrange(0, 3));
    }
    assert(own_tags()[7].is_prefix_of(("</"@ + "i"@ + ">"@).skip(0))) by {
        assert(own_tags()[7] =~= ("</"@ + "i"@ + ">"@).skip(0).subrange(0, 4));
    }
    assert(own_tags()[8].is_prefix_of(("<"@ + "u"@ + ">"@).skip(0))) by {
        assert(own_tags()[8] =~= ("<"@ + "u"@ + ">"@).skip(0).subrange(0, 3));
    }
    assert(own_tags()[9].is_prefix_of(("</"@ + "u"@ + ">"@).skip(0))) by {
        assert(own_tags()[9] =~= ("</"@ + "u"@ + ">"@).skip(0).subrange(0, 4));
    }
}

proof fn lemma_decimal_tags(n: nat)
    ensures
        tags_ok(decimal(n)),
    decreases n,
{
    if n >= 10 {
        lemma_decimal_tags(n / 10);
        let d = decimal(n / 10);
        assert forall|i: int| 0 <= i < d.push(digit_char(n % 10)).len() && #[trigger] d.push(digit_char(n % 10))[i] == '<'
            implies own_tag_at(d.push(digit_char(n % 10)), i) by {
            if i < d.len() {
                assert(d[i] == '<');
                let j = choose|j: int| 0 <= j < own_tags().len() && (#[trigger] own_tags()[j]).is_prefix_of(d.skip(i));
                assert(d.push(digit_char(n % 10)).skip(i) =~= d.skip(i) + seq![digit_char(n % 10)]);
                lemma_prefix_extend(own_tags()[j], d.skip(i), seq![digit_char(n % 10)]);
            }
        }
    }
}

proof fn lemma_esc_tags(s: Seq<char>)
    ensures
        tags_ok(spec_esc(s)),
{
    lemma_esc_no_angle_brackets(s);
}

/// Every `<` of a rendered reference begins one of the renderer's own tags.
proof fn lemma_ref_tags(inner: Seq<char>, self_ix: int, keys: Seq<Seq<char>>)
    ensures
        tags_ok(spec_ref_html(inner, self_ix, keys)),
{
    lemma_ref_literal_tags();
    lemma_esc_tags(inner);
    if is_external(inner) {
        let href = drop_prefix(inner, "file:"@);
        lemma_esc_tags(href);
        let a = "<a class=ref href=\""@ + spec_esc(href);
        lemma_tags_concat("<a class=ref href=\""@, spec_esc(href));
        lemma_tags_concat(a, "\">&lt;"@);
        lemma_tags_concat(a + "\">&lt;"@, spec_esc(inner));
        lemma_tags_concat(a + "\">&lt;"@ + spec_esc(inner), "&gt;</a>"@);
    } else {
        let seg = ref_segment(inner);
        match find_target(seg, self_ix, keys) {
            Some(ix) if seg.len() > 0 => {
                let d = decimal(ix as nat);
                lemma_decimal_tags(ix as nat);
                let a = "<a class=ref href=\"#i"@ + d;
                lemma_tags_concat("<a class=ref href=\"#i"@, d);
                let b = a + "\" onclick=\"go('i"@;
                lemma_tags_concat(a, "\" onclick=\"go('i"@);
                lemma_tags_concat(b, d);
                let c = b + d + "');return false\">&lt;"@;
                lemma_tags_concat(b + d, "');return false\">&lt;"@);
                lemma_tags_concat(c, spec_esc(inner));
                lemma_tags_concat(c + spec_esc(inner), "&gt;</a>"@);
            },
            _ => {
                lemma_tags_concat("<span class=ref>&lt;"@, spec_esc(inner));
                lemma_tags_concat("<span class=ref>&lt;"@ + spec_esc(inner), "&gt;</span>"@);
            },
        }
    }
}

/// Every `<` of a rendered comment or quote begins one of the renderer's own tags.
proof fn lemma_inline_min_tags(s: Seq<char>, self_ix: int, keys: Seq<Seq<char>>)
    ensures
        tags_ok(spec_inline_min(s, self_ix, keys)),
    decreases s.len(),
{
    lemma_esc_tags(s);
    lemma_first_index(s, '<');
    if let Some(a) = first_index(s, '<') {
        lemma_first_index(s.skip(a), '>');
        if let Some(b) = first_index(s.skip(a), '>') {
            lemma_esc_tags(s.take(a));
            lemma_ref_tags(s.subrange(a + 1, a + b), self_ix, keys);
            lemma_inline_min_tags(s.skip(a + b + 1), self_ix, keys);
            lemma_tags_concat(spec_esc(s.take(a)), spec_ref_html(s.subrange(a + 1, a + b), self_ix, keys));
            lemma_tags_concat(
                spec_esc(s.take(a)) + spec_ref_html(s.subrange(a + 1, a + b), self_ix, keys),
                spec_inline_min(s.skip(a + b + 1), self_ix, keys),
            );
        }
    }
}

proof fn lemma_wrapped_tags(open: Seq<char>, body: Seq<char>, close: Seq<char>)
    requires
        tags_ok(open),
        tags_ok(body),
        tags_ok(close),
    ensures
        tags_ok(open + body + close),
{
    lemma_tags_concat(open, body);
    lemma_tags_concat(open + body, close);
}

/// Every `<` of the HTML for one element begins one of the renderer's own tags.
proof fn lemma_step_tags(b: Seq<char>, i: int, self_ix: int, keys: Seq<Seq<char>>)
    requires
        0 <= i < b.len(),
    ensures
        tags_ok(step(b, i, self_ix, keys).0),
{
    lemma_step_literal_tags();
    lemma_markup_literal_tags();
    if pair_step(b, i, self_ix, keys) is Some {
        if pair_close(b, i, '[', ']') is Some {
            let j = pair_close(b, i, '[', ']').unwrap();
            lemma_esc_tags(b.subrange(i, j + 1));
            lemma_wrapped_tags("<span class=qual>"@, spec_esc(b.subrange(i, j + 1)), "</span>"@);
        } else if pair_close(b, i, '<', '>') is Some {
            let j = pair_close(b, i, '<', '>').unwrap();
            lemma_ref_tags(b.subrange(i + 1, j), self_ix, keys);
        } else if pair_close(b, i, '(', ')') is Some {
            let j = pair_close(b, i, '(', ')').unwrap();
            lemma_inline_min_tags(b.subrange(i, j + 1), self_ix, keys);
            lemma_wrapped_tags("<span class=cmt>"@, spec_inline_min(b.subrange(i, j + 1), self_ix, keys), "</span>"@);
        } else {
            let j = pair_close(b, i, '"', '"').unwrap();
            lemma_inline_min_tags(b.subrange(i, j + 1), self_ix, keys);
            lemma_wrapped_tags("<span class=cmt>"@, spec_inline_min(b.subrange(i, j + 1), self_ix, keys), "</span>"@);
        }
    } else if mark_step(b, i) is Some {
        if tag_start(b, i) {
            let j = i + 1 + run_len(b.skip(i + 1), Run::Tag);
            lemma_esc_tags(b.subrange(i, j));
            lemma_wrapped_tags("<span class=tag>"@, spec_esc(b.subrange(i, j)), "</span>"@);
        }
    } else if word_start(b, i) && keyword_step(b, i) is Some {
        lemma_wrapped_tags("<span class="@, "start"@, ">"@);
        lemma_wrapped_tags("<span class="@, "todo"@, ">"@);
        lemma_wrapped_tags("<span class="@ + "start"@ + ">"@, "SKIP"@, "</span>"@);
        lemma_wrapped_tags("<span class="@ + "start"@ + ">"@, "END"@, "</span>"@);
        lemma_wrapped_tags("<span class="@ + "todo"@ + ">"@, "FIXME"@, "</span>"@);
        lemma_wrapped_tags("<span class="@ + "todo"@ + ">"@, "TODO"@, "</span>"@);
    } else if word_start(b, i) && markup_step(b, i) is Some {
        let j = markup_step(b, i).unwrap().1 - 1;
        lemma_esc_tags(b.subrange(i + 1, j));
        lemma_wrapped_tags("<"@ + "b"@ + ">"@, spec_esc(b.subrange(i + 1, j)), "</"@ + "b"@ + ">"@);
        lemma_wrapped_tags("<"@ + "i"@ + ">"@, spec_esc(b.subrange(i + 1, j)), "</"@ + "i"@ + ">"@);
        lemma_wrapped_tags("<"@ + "u"@ + ">"@, spec_esc(b.subrange(i + 1, j)), "</"@ + "u"@ + ">"@);
        assert(markup_step(b, i).unwrap().0 == markup_html("b"@, b.subrange(i + 1, j))
            || markup_step(b, i).unwrap().0 == markup_html("i"@, b.subrange(i + 1, j))
            || markup_step(b, i).unwrap().0 == markup_html("u"@, b.subrange(i + 1, j)));
        assert(markup_html("b"@, b.subrange(i + 1, j)) =~= ("<"@ + "b"@ + ">"@) + spec_esc(b.subrange(i + 1, j)) + ("</"@ + "b"@ + ">"@));
        assert(markup_html("i"@, b.subrange(i + 1, j)) =~= ("<"@ + "i"@ + ">"@) + spec_esc(b.subrange(i + 1, j)) + ("</"@ + "i"@ + ">"@));
        assert(markup_html("u"@, b.subrange(i + 1, j)) =~= ("<"@ + "u"@ + ">"@) + spec_esc(b.subrange(i + 1, j)) + ("</"@ + "u"@ + ">"@));
    } else {
        lemma_esc_tags(seq![b[i]]);
        lemma_esc_single(b[i]);
    }
}

proof fn lemma_inline_from_tags(b: Seq<char>, i: int, self_ix: int, keys: Seq<Seq<char>>)
    ensures
        tags_ok(inline_from(b, i, self_ix, keys)),
    decreases b.len() - i,
{
    if 0 <= i < b.len() {
        lemma_step_advances(b, i, self_ix, keys);
        lemma_step_tags(b, i, self_ix, keys);
        lemma_inline_from_tags(b, step(b, i, self_ix, keys).1, self_ix, keys);
        lemma_tags_concat(step(b, i, self_ix, keys).0, inline_from(b, step(b, i, self_ix, keys).1, self_ix, keys));
    }
}

/// No `<` of the text reaches the rendered inline elements unescaped: every
/// `<` there begins one of the renderer's own tags (`<span class=`,
/// `</span>`, `<a class=ref href=`, `</a>`, `<b>`, `</b>`, `<i>`, `</i>`,
/// `<u>`, `</u>`).
pub proof fn lemma_inline_own_tags_only(s: Seq<char>, self_ix: int, keys: Seq<Seq<char>>)
    ensures
        forall|i: int| 0 <= i < spec_inline(s, self_ix, keys).len() && #[trigger] spec_inline(s, self_ix, keys)[i] == '<'
            ==> own_tag_at(spec_inline(s, self_ix, keys), i),
{
    lemma_inline_from_tags(s, 0, self_ix, keys);
}

/// The keywords and the class each is shown in: `SKIP` and `END` as
/// Starters, `FIXME` and `TODO` as to-dos.
pub open spec fn keyword_class(kw: Seq<char>, cls: Seq<char>) -> bool {
    ||| kw == "SKIP"@ && cls == "start"@
    ||| kw == "END"@ && cls == "start"@
    ||| kw == "FIXME"@ && cls == "todo"@
    ||| kw == "TODO"@ && cls == "todo"@
}

/// A keyword at the start of a word, not followed by a letter or digit, is
/// shown in its class, and rendering goes on right after it.
pub proof fn lemma_keywords_highlighted(
    b: Seq<char>,
    i: int,
    self_ix: int,
    keys: Seq<Seq<char>>,
    kw: Seq<char>,
    cls: Seq<char>,
)
    requires
        keyword_class(kw, cls),
        0 <= i < b.len(),
        i == 0 || !spec_alphanumeric(b[i - 1]),
        kw.is_prefix_of(b.skip(i)),
        i + kw.len() >= b.len() || !spec_alphanumeric(b[i + kw.len()]),
    ensures
        step(b, i, self_ix, keys) == ("<span class="@ + cls + ">"@ + kw + "</span>"@, i + kw.len()),
        inline_from(b, i, self_ix, keys) == "<span class="@ + cls + ">"@ + kw + "</span>"@
            + inline_from(b, i + kw.len(), self_ix, keys),
{
    reveal_strlit("SKIP");
    reveal_strlit("END");
    reveal_strlit("FIXME");
    reveal_strlit("TODO");
    assert(b[i] == b.skip(i)[0]);
    assert(b.skip(i)[0] == kw[0]);
    assert(b[i] != '[' && b[i] != '<' && b[i] != '(' && b[i] != '"' && b[i] != '#' && b[i] != ';');
    assert(pair_step(b, i, self_ix, keys) is None);
    assert(mark_step(b, i) is None);
    assert(word_start(b, i));
    assert(keyword_at(b, i, kw));
    if kw != "SKIP"@ {
        assert(!"SKIP"@.is_prefix_of(b.skip(i))) by {
            if "SKIP"@.is_prefix_of(b.skip(i)) {
                assert(b.skip(i).subrange(0, 4)[0] == b.skip(i)[0]);
            }
        }
    }
    if kw != "SKIP"@ && kw != "END"@ {
        assert(!"END"@.is_prefix_of(b.skip(i))) by {
            if "END"@.is_prefix_of(b.skip(i)) {
                assert(b.skip(i).subrange(0, 3)[0] == b.skip(i)[0]);
            }
        }
    }
    if kw == "TODO"@ {
        assert(!"FIXME"@.is_prefix_of(b.skip(i))) by {
            if "FIXME"@.is_prefix_of(b.skip(i)) {
                assert(b.skip(i).subrange(0, 5)[0] == b.skip(i)[0]);
            }
        }
    }
    assert(step(b, i, self_ix, keys) == (keyword_html(cls, kw), i + kw.len()));
    lemma_step_advances(b, i, self_ix, keys);
}

/// The markup characters and the tag each stands for: `*` bold, `/`
/// italic, `_` underline.
pub open spec fn is_markup(m: char, tag: Seq<char>) -> bool {
    ||| m == '*' && tag == "b"@
    ||| m == '/' && tag == "i"@
    ||| m == '_' && tag == "u"@
}

/// Markup at the start of a word, `m` then a non-space, up to the next `m`
/// that follows a non-space, is shown in its tag with the text between
/// escaped; rendering goes on after the closing `m`.
pub proof fn lemma_markup_shown(
    b: Seq<char>,
    i: int,
    j: int,
    self_ix: int,
    keys: Seq<Seq<char>>,
    m: char,
    tag: Seq<char>,
)
    requires
        is_markup(m, tag),
        0 <= i,
        i + 1 < j < b.len(),
        i == 0 || !spec_alphanumeric(b[i - 1]),
        b[i] == m,
        b[j] == m,
        forall|k: int| i < k < j ==> b[k] != m,
        !spec_whitespace(b[i + 1]),
        !spec_whitespace(b[j - 1]),
    ensures
        step(b, i, self_ix, keys) == ("<"@ + tag + ">"@ + spec_esc(b.subrange(i + 1, j)) + "</"@ + tag + ">"@, j + 1),
        inline_from(b, i, self_ix, keys) == "<"@ + tag + ">"@ + spec_esc(b.subrange(i + 1, j)) + "</"@ + tag + ">"@
            + inline_from(b, j + 1, self_ix, keys),
{
    reveal_strlit("SKIP");
    reveal_strlit("END");
    reveal_strlit("FIXME");
    reveal_strlit("TODO");
    assert(pair_step(b, i, self_ix, keys) is None);
    assert(mark_step(b, i) is None);
    assert(!keyword_at(b, i, "SKIP"@)) by {
        if "SKIP"@.is_prefix_of(b.skip(i)) {
            assert(b.skip(i).subrange(0, 4)[0] == b[i]);
        }
    }
    assert(!keyword_at(b, i, "END"@)) by {
        if "END"@.is_prefix_of(b.skip(i)) {
            assert(b.skip(i).subrange(0, 3)[0] == b[i]);
        }
    }
    assert(!keyword_at(b, i, "FIXME"@)) by {
        if "FIXME"@.is_prefix_of(b.skip(i)) {
            assert(b.skip(i).subrange(0, 5)[0] == b[i]);
        }
    }
    assert(!keyword_at(b, i, "TODO"@)) by {
        if "TODO"@.is_prefix_of(b.skip(i)) {
            assert(b.skip(i).subrange(0, 4)[0] == b[i]);
        }
    }
    let t = b.skip(i + 1);
    lemma_first_index(t, m);
    assert(t[j - i - 1] == m);
    assert(forall|k: int| 0 <= k < j - i - 1 ==> t[k] == b[i + 1 + k]);
    assert(first_index(t, m) == Some(j - i - 1)) by {
        match first_index(t, m) {
            Some(k) => {
                if k < j - i - 1 {
                    assert(b[i + 1 + k] == m);
                } else if k > j - i - 1 {
                    assert(t[j - i - 1] != m);
                }
            },
            None => {
                assert(t[j - i - 1] != m);
            },
        }
    }
    assert(markup_close(b, i, m) == Some(j));
    assert(markup_close(b, i, '*') is None || m == '*');
    assert(markup_close(b, i, '/') is None || m == '/');
    lemma_step_advances(b, i, self_ix, keys);
}

} // verus!
