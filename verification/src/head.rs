//! The head of an item: Starter or Identifier, State/Transition marker,
//! checkbox, and an Operator or Property ending in a colon.

use vstd::prelude::*;
use vstd::string::StringExecFns;
use crate::chars::{spec_ascii_digit, is_ascii_digit, chars_of, push_char, string_of};
use crate::text::{spec_esc, push_esc_range, unesc, lemma_esc_concat, lemma_unesc_esc_prefix, lemma_esc_no_angle_brackets, lemma_esc_plain};
use crate::scan::{first_index, lemma_first_index, Run, run_len, lemma_run_len, run_end, find_from, is_suffix, lemma_suffix_trans};

verus! {

/// The body of a colon head: each parenthesised comment `(...)` set in its
/// own comment span, the rest escaped.
pub open spec fn comment_body(s: Seq<char>) -> Seq<char>
    decreases s.len(),
{
    match first_index(s, '(') {
        Some(a) => match first_index(s.skip(a), ')') {
            Some(b) => {
                proof {
                    lemma_first_index(s, '(');
                    lemma_first_index(s.skip(a), ')');
                }
                spec_esc(s.take(a)) + "<span class=cmt>"@ + spec_esc(s.subrange(a, a + b + 1))
                    + "</span>"@ + comment_body(s.skip(a + b + 1))
            },
            None => spec_esc(s),
        },
        None => spec_esc(s),
    }
}

/// An Operator or Property head in a span of class `cls`.
pub open spec fn spec_colon_head_html(text: Seq<char>, cls: Seq<char>) -> Seq<char> {
    "<span class="@ + cls + ">"@ + comment_body(text) + "</span>"@
}

/// Appends `comment_body(v[from..])`.
fn push_comment_body(out: &mut String, v: &Vec<char>, from: usize)
    requires
        from <= v.len(),
    ensures
        final(out)@ == old(out)@ + comment_body(v@.skip(from as int)),
{
    let mut pos: usize = from;
    loop
        invariant
            from <= pos <= v.len(),
            old(out)@ + comment_body(v@.skip(from as int)) == out@ + comment_body(v@.skip(pos as int)),
        ensures
            from <= pos <= v.len(),
            old(out)@ + comment_body(v@.skip(from as int)) == out@ + spec_esc(v@.skip(pos as int)),
        decreases v.len() - pos,
    {
        let ghost s = v@.skip(pos as int);
        let a = match find_from(v, pos, '(') {
            Some(a) => a,
            None => break,
        };
        let b = match find_from(v, a, ')') {
            Some(b) => b,
            None => {
                assert(s.skip(a - pos) == v@.skip(a as int));
                break;
            },
        };
        proof {
            assert(s.skip(a - pos) == v@.skip(a as int));
            lemma_first_index(s, '(');
            lemma_first_index(v@.skip(a as int), ')');
            assert(s[a - pos] == '(');
            assert(v@.skip(a as int)[0] == '(');
            assert(s.take(a - pos) == v@.subrange(pos as int, a as int));
            assert(s.subrange(a - pos, b - pos + 1) == v@.subrange(a as int, b + 1));
            assert(s.skip(b - pos + 1) == v@.skip(b + 1));
        }
        push_esc_range(out, v, pos, a);
        out.append("<span class=cmt>");
        push_esc_range(out, v, a, b + 1);
        out.append("</span>");
        pos = b + 1;
    }
    push_esc_range(out, v, pos, v.len());
    assert(v@.subrange(pos as int, v@.len() as int) == v@.skip(pos as int));
}

/// `text` as an Operator or Property head of class `cls`, with any
/// parenthesised comment inside it kept as a comment.
pub fn colon_head_html(text: &str, cls: &str) -> (r: String)
    ensures
        r@ == spec_colon_head_html(text@, cls@),
{
    let v = chars_of(text);
    let mut out = String::new();
    out.append("<span class=");
    out.append(cls);
    out.append(">");
    push_comment_body(&mut out, &v, 0);
    out.append("</span>");
    assert(v@.skip(0) == v@);
    out
}

/// The front of `s` is a Starter: `- `, `+ ` or `* `.
pub open spec fn starter_at(s: Seq<char>) -> bool {
    s.len() >= 2 && (s[0] == '-' || s[0] == '+' || s[0] == '*') && s[1] == ' '
}

/// The front of `s` is an Identifier: digits and dots, at least one digit,
/// then a space.
pub open spec fn ident_at(s: Seq<char>) -> bool {
    let k = run_len(s, Run::Ident) as int;
    k > 0 && (exists|j: int| 0 <= j < k && spec_ascii_digit(#[trigger] s[j])) && k < s.len() && s[k] == ' '
}

/// A Starter (`- `, `+ `, `* `) or an Identifier (`1.2.3 `, `2 `) at the
/// front; the space after an Identifier stays in the rest.
pub open spec fn lead(s: Seq<char>) -> (Seq<char>, Seq<char>) {
    if starter_at(s) {
        ("<span class=start>"@ + spec_esc(s.take(1)) + " </span>"@, s.skip(2))
    } else if ident_at(s) {
        let k = run_len(s, Run::Ident) as int;
        ("<span class=start>"@ + spec_esc(s.take(k)) + "</span>"@, s.skip(k))
    } else {
        (Seq::empty(), s)
    }
}

/// The head starts with an Identifier, whose space is still in front of the rest.
pub open spec fn lead_is_ident(s: Seq<char>) -> bool {
    !starter_at(s) && ident_at(s)
}

/// Length of a State or Transition marker (`S: `, `T: `, `| `, `/ `) at the front; 0 if none.
pub open spec fn marker_len(s: Seq<char>) -> int {
    if s.len() >= 3 && (s[0] == 'S' || s[0] == 'T') && s[1] == ':' && s[2] == ' ' {
        3
    } else if s.len() >= 2 && (s[0] == '|' || s[0] == '/') && s[1] == ' ' {
        2
    } else {
        0
    }
}

pub open spec fn marker(s: Seq<char>) -> (Seq<char>, Seq<char>) {
    let k = marker_len(s);
    if k > 0 {
        ("<span class=op>"@ + spec_esc(s.take(k)) + "</span>"@, s.skip(k))
    } else {
        (Seq::empty(), s)
    }
}

/// The symbol shown for a checkbox `[c] `.
pub open spec fn box_symbol(c: char) -> Option<char> {
    if c == '_' || c == ' ' {
        Some('\u{2610}')
    } else if c == 'x' || c == 'X' {
        Some('\u{2611}')
    } else if c == 'O' {
        Some('\u{25d4}')
    } else {
        None
    }
}

/// Length of a checkbox (`[_] `, `[ ] `, `[x] `, `[X] `, `[O] `) at the front; 0 if none.
pub open spec fn checkbox_len(s: Seq<char>) -> int {
    if s.len() >= 4 && s[0] == '[' && s[2] == ']' && s[3] == ' ' && box_symbol(s[1]) is Some {
        4
    } else {
        0
    }
}

pub open spec fn checkbox(s: Seq<char>) -> (Seq<char>, Seq<char>) {
    if checkbox_len(s) > 0 {
        ("<span class=\"qual cb\" onclick=\"cb(event,this)\">"@ + seq![box_symbol(s[1])->0, ' ']
            + "</span>"@, s.skip(4))
    } else {
        (Seq::empty(), s)
    }
}

/// A checkbox at the front of `r`, or, where `gap` holds, behind the single
/// space that follows the Identifier: the space is kept as text before it.
pub open spec fn checkbox_after(r: Seq<char>, gap: bool) -> (Seq<char>, Seq<char>) {
    if gap && r.len() > 0 && r[0] == ' ' && checkbox_len(r.skip(1)) > 0 {
        (seq![' '] + checkbox(r.skip(1)).0, checkbox(r.skip(1)).1)
    } else {
        checkbox(r)
    }
}

/// An Operator (two or more of upper case and `_-() /`, then `:`) or else a
/// Property (two or more word characters, then `:` at the end or before a space).
pub open spec fn colon_head(s: Seq<char>) -> (Seq<char>, Seq<char>) {
    let k = run_len(s, Run::Operator) as int;
    let p = run_len(s, Run::Property) as int;
    if k >= 2 && k < s.len() && s[k] == ':' {
        (spec_colon_head_html(s.take(k).push(':'), "op"@), s.skip(k + 1))
    } else if p >= 2 && p < s.len() && s[p] == ':' && (p + 1 == s.len() || s[p + 1] == ' ') {
        (spec_colon_head_html(s.take(p).push(':'), "prop"@), s.skip(p + 1))
    } else {
        (Seq::empty(), s)
    }
}

/// The head of an item as HTML, and the text that follows it.
/// Checkboxes are recognised after a Starter, and after an Identifier
/// behind its single space.
pub open spec fn spec_head(s: Seq<char>) -> (Seq<char>, Seq<char>) {
    let (h1, r1) = lead(s);
    let gap = lead_is_ident(s);
    let (h2, r2) = marker(r1);
    let (h3, r3) = checkbox_after(r2, gap && r2.len() == r1.len());
    let (h4, r4) = colon_head(r3);
    (h1 + h2 + h3 + h4, r4)
}

fn lead_exec(v: &Vec<char>, out: &mut String) -> (r: (usize, bool))
    ensures
        r.0 <= v.len(),
        final(out)@ == old(out)@ + lead(v@).0,
        v@.skip(r.0 as int) == lead(v@).1,
        r.1 == lead_is_ident(v@),
{
    let n = v.len();
    if n >= 2 && (v[0] == '-' || v[0] == '+' || v[0] == '*') && v[1] == ' ' {
        out.append("<span class=start>");
        push_esc_range(out, v, 0, 1);
        out.append(" </span>");
        assert(v@.subrange(0, 1) == v@.take(1));
        return (2, false);
    }
    let k = run_end(v, 0, Run::Ident);
    proof {
        assert(v@.skip(0) == v@);
        lemma_run_len(v@, Run::Ident);
    }
    let mut digit = false;
    let mut j: usize = 0;
    while j < k
        invariant
            j <= k <= n == v.len(),
            digit == exists|m: int| 0 <= m < j && spec_ascii_digit(#[trigger] v@[m]),
        decreases k - j,
    {
        if is_ascii_digit(v[j]) {
            digit = true;
        }
        j += 1;
    }
    if k > 0 && digit && k < n && v[k] == ' ' {
        out.append("<span class=start>");
        push_esc_range(out, v, 0, k);
        out.append("</span>");
        assert(v@.subrange(0, k as int) == v@.take(k as int));
        return (k, true);
    }
    assert(v@.skip(0) == v@);
    (0, false)
}

fn marker_len_at(v: &Vec<char>, at: usize) -> (k: usize)
    requires
        at <= v.len(),
    ensures
        k == marker_len(v@.skip(at as int)),
        at + k <= v.len(),
{
    let n = v.len();
    if n - at >= 3 && (v[at] == 'S' || v[at] == 'T') && v[at + 1] == ':' && v[at + 2] == ' ' {
        3
    } else if n - at >= 2 && (v[at] == '|' || v[at] == '/') && v[at + 1] == ' ' {
        2
    } else {
        0
    }
}

fn marker_exec(v: &Vec<char>, at: usize, out: &mut String) -> (pos: usize)
    requires
        at <= v.len(),
    ensures
        at <= pos <= v.len(),
        final(out)@ == old(out)@ + marker(v@.skip(at as int)).0,
        v@.skip(pos as int) == marker(v@.skip(at as int)).1,
{
    let ghost s = v@.skip(at as int);
    let k = marker_len_at(v, at);
    if k > 0 {
        out.append("<span class=op>");
        push_esc_range(out, v, at, at + k);
        out.append("</span>");
        assert(v@.subrange(at as int, at + k) == s.take(k as int));
    }
    assert(s.skip(k as int) == v@.skip(at + k));
    at + k
}

fn checkbox_len_at(v: &Vec<char>, at: usize) -> (k: usize)
    requires
        at <= v.len(),
    ensures
        k == checkbox_len(v@.skip(at as int)),
        at + k <= v.len(),
{
    let n = v.len();
    if n - at >= 4 && v[at] == '[' && v[at + 2] == ']' && v[at + 3] == ' ' {
        let c = v[at + 1];
        if c == '_' || c == ' ' || c == 'x' || c == 'X' || c == 'O' {
            return 4;
        }
    }
    0
}

fn checkbox_exec(v: &Vec<char>, at: usize, out: &mut String) -> (pos: usize)
    requires
        at <= v.len(),
    ensures
        at <= pos <= v.len(),
        final(out)@ == old(out)@ + checkbox(v@.skip(at as int)).0,
        v@.skip(pos as int) == checkbox(v@.skip(at as int)).1,
{
    let ghost s = v@.skip(at as int);
    if checkbox_len_at(v, at) == 0 {
        return at;
    }
    let c = v[at + 1];
    let sym: char = if c == '_' || c == ' ' {
        '\u{2610}'
    } else if c == 'x' || c == 'X' {
        '\u{2611}'
    } else {
        '\u{25d4}'
    };
    out.append("<span class=\"qual cb\" onclick=\"cb(event,this)\">");
    push_char(out, sym);
    push_char(out, ' ');
    out.append("</span>");
    assert(s.skip(4) == v@.skip(at + 4));
    at + 4
}

fn checkbox_after_exec(v: &Vec<char>, at: usize, gap: bool, out: &mut String) -> (pos: usize)
    requires
        at <= v.len(),
    ensures
        at <= pos <= v.len(),
        final(out)@ == old(out)@ + checkbox_after(v@.skip(at as int), gap).0,
        v@.skip(pos as int) == checkbox_after(v@.skip(at as int), gap).1,
{
    let ghost s = v@.skip(at as int);
    if gap && at < v.len() && v[at] == ' ' && checkbox_len_at(v, at + 1) > 0 {
        assert(s.skip(1) == v@.skip(at + 1));
        push_char(out, ' ');
        let pos = checkbox_exec(v, at + 1, out);
        assert(final(out)@ =~= old(out)@ + checkbox_after(s, gap).0);
        return pos;
    }
    checkbox_exec(v, at, out)
}

/// `v[from..k]` followed by a colon, as a `String`.
fn head_text(v: &Vec<char>, from: usize, k: usize) -> (r: String)
    requires
        from <= k <= v.len(),
    ensures
        r@ == v@.subrange(from as int, k as int).push(':'),
{
    let mut r = string_of(v, from, k);
    push_char(&mut r, ':');
    r
}

fn colon_head_exec(v: &Vec<char>, at: usize, out: &mut String) -> (pos: usize)
    requires
        at <= v.len(),
    ensures
        at <= pos <= v.len(),
        final(out)@ == old(out)@ + colon_head(v@.skip(at as int)).0,
        v@.skip(pos as int) == colon_head(v@.skip(at as int)).1,
{
    let ghost s = v@.skip(at as int);
    let n = v.len();
    let k = run_end(v, at, Run::Operator);
    if k - at >= 2 && k < n && v[k] == ':' {
        let t = head_text(v, at, k);
        let h = colon_head_html(t.as_str(), "op");
        out.append(h.as_str());
        assert(v@.subrange(at as int, k as int) == s.take(k - at));
        assert(s.skip(k - at + 1) == v@.skip(k + 1));
        return k + 1;
    }
    let p = run_end(v, at, Run::Property);
    if p - at >= 2 && p < n && v[p] == ':' && (p + 1 == n || v[p + 1] == ' ') {
        let t = head_text(v, at, p);
        let h = colon_head_html(t.as_str(), "prop");
        out.append(h.as_str());
        assert(v@.subrange(at as int, p as int) == s.take(p - at));
        assert(s.skip(p - at + 1) == v@.skip(p + 1));
        return p + 1;
    }
    at
}

/// The head of an item as HTML, and the rest of its text.
pub fn head(text: &str) -> (r: (String, String))
    ensures
        r.0@ == spec_head(text@).0,
        r.1@ == spec_head(text@).1,
{
    let v = chars_of(text);
    let mut out = String::new();
    let (p1, gap) = lead_exec(&v, &mut out);
    let p2 = marker_exec(&v, p1, &mut out);
    let p3 = checkbox_after_exec(&v, p2, gap && p2 == p1, &mut out);
    let p4 = colon_head_exec(&v, p3, &mut out);
    let rest = string_of(&v, p4, v.len());
    assert(v@.subrange(p4 as int, v@.len() as int) == v@.skip(p4 as int));
    (out, rest)
}

proof fn lemma_stage(s: Seq<char>, h: Seq<char>, r: Seq<char>, k: int)
    requires
        0 <= k <= s.len(),
        r == s.skip(k),
        k == 0 <==> h.len() == 0,
    ensures
        is_suffix(r, s),
        h.len() == 0 <==> r == s,
{
    assert(r =~= s.skip(s.len() - r.len()));
    if r == s {
        assert(r.len() == s.len());
    }
    if k == 0 {
        assert(s.skip(0) =~= s);
    }
}

/// Each stage of the head leaves a suffix of its input, and renders
/// something exactly when it consumes something.
proof fn lemma_stages(s: Seq<char>)
    ensures
        is_suffix(lead(s).1, s),
        lead(s).0.len() == 0 <==> lead(s).1 == s,
        is_suffix(marker(s).1, s),
        marker(s).0.len() == 0 <==> marker(s).1 == s,
        is_suffix(checkbox(s).1, s),
        checkbox(s).0.len() == 0 <==> checkbox(s).1 == s,
        is_suffix(colon_head(s).1, s),
        colon_head(s).0.len() == 0 <==> colon_head(s).1 == s,
{
    assert(s.skip(0) =~= s);
    reveal_strlit("<span class=start>");
    reveal_strlit("<span class=op>");
    reveal_strlit("<span class=\"qual cb\" onclick=\"cb(event,this)\">");
    reveal_strlit("<span class=");
    lemma_run_len(s, Run::Ident);
    lemma_run_len(s, Run::Operator);
    lemma_run_len(s, Run::Property);
    let k = run_len(s, Run::Ident) as int;
    if starter_at(s) {
        lemma_stage(s, lead(s).0, lead(s).1, 2);
    } else if ident_at(s) {
        lemma_stage(s, lead(s).0, lead(s).1, k);
    } else {
        lemma_stage(s, lead(s).0, lead(s).1, 0);
    }
    lemma_stage(s, marker(s).0, marker(s).1, marker_len(s));
    lemma_stage(s, checkbox(s).0, checkbox(s).1, checkbox_len(s));
    let o = run_len(s, Run::Operator) as int;
    let p = run_len(s, Run::Property) as int;
    if o >= 2 && o < s.len() && s[o] == ':' {
        lemma_stage(s, colon_head(s).0, colon_head(s).1, o + 1);
    } else if p >= 2 && p < s.len() && s[p] == ':' && (p + 1 == s.len() || s[p + 1] == ' ') {
        lemma_stage(s, colon_head(s).0, colon_head(s).1, p + 1);
    } else {
        lemma_stage(s, colon_head(s).0, colon_head(s).1, 0);
    }
}

/// The same for the checkbox stage that may look past the space after an
/// Identifier.
proof fn lemma_stages_after(s: Seq<char>, gap: bool)
    ensures
        is_suffix(checkbox_after(s, gap).1, s),
        checkbox_after(s, gap).0.len() == 0 <==> checkbox_after(s, gap).1 == s,
{
    lemma_stages(s);
    if s.len() > 0 {
        let t = s.skip(1);
        lemma_stages(t);
        assert(is_suffix(t, s)) by {
            assert(t =~= s.skip(s.len() - t.len()));
        }
        if gap && s[0] == ' ' && checkbox_len(t) > 0 {
            lemma_suffix_trans(checkbox(t).1, t, s);
        }
    }
}

/// The head never rewrites the item's text: what follows it is a suffix of
/// the text, and the head renders something exactly when it takes something.
pub proof fn lemma_head_keeps_rest(s: Seq<char>)
    ensures
        is_suffix(spec_head(s).1, s),
        spec_head(s).0.len() == 0 <==> spec_head(s).1 == s,
{
    let (h1, r1) = lead(s);
    let gap = lead_is_ident(s);
    let (h2, r2) = marker(r1);
    let (h3, r3) = checkbox_after(r2, gap && r2.len() == r1.len());
    let (h4, r4) = colon_head(r3);
    lemma_stages(s);
    lemma_stages(r1);
    lemma_stages_after(r2, gap && r2.len() == r1.len());
    lemma_stages(r3);
    lemma_suffix_trans(r2, r1, s);
    lemma_suffix_trans(r3, r2, s);
    lemma_suffix_trans(r4, r3, s);
    if r4 == s {
        assert(r3.len() == s.len() && r2.len() == s.len() && r1.len() == s.len());
        assert(r1 == s);
        assert(r2 == r1);
        assert(r3 == r2);
    }
}

/// A checkbox after an Identifier and its space is shown as its symbol, as
/// after a Starter; the space stays as text between the two.
pub proof fn lemma_checkbox_after_identifier(s: Seq<char>)
    requires
        ident_at(s),
        checkbox_len(s.skip(run_len(s, Run::Ident) as int + 1)) > 0,
    ensures
        ({
            let k = run_len(s, Run::Ident) as int;
            let t = s.skip(k + 1);
            &&& spec_head(s).0 == lead(s).0 + seq![' '] + checkbox(t).0 + colon_head(t.skip(4)).0
            &&& spec_head(s).1 == colon_head(t.skip(4)).1
        }),
{
    let k = run_len(s, Run::Ident) as int;
    lemma_run_len(s, Run::Ident);
    let r1 = s.skip(k);
    assert(r1.skip(1) =~= s.skip(k + 1));
    assert(r1[0] == ' ');
    assert(!starter_at(s)) by {
        if starter_at(s) {
            assert(spec_ascii_digit(s[0]) || s[0] == '.');
        }
    }
    assert(marker_len(r1) == 0);
    assert(marker_len(r1.skip(1)) == 0);
}

/// A colon head without a `(` is its escaped text in one span.
pub proof fn lemma_colon_head_plain(text: Seq<char>, cls: Seq<char>)
    requires
        !text.contains('('),
    ensures
        spec_colon_head_html(text, cls) == "<span class="@ + cls + ">"@ + spec_esc(text) + "</span>"@,
{
    lemma_first_index(text, '(');
    if first_index(text, '(') is Some {
        assert(text[first_index(text, '(').unwrap()] == '(');
    }
}

/// `s` with every comment-span opening `<span class=cmt>` and every
/// closing `</span>` deleted.
pub open spec fn drop_comment_tags(s: Seq<char>) -> Seq<char>
    decreases s.len(),
{
    if s.len() == 0 {
        Seq::empty()
    } else if "<span class=cmt>"@.is_prefix_of(s) {
        proof {
            reveal_strlit("<span class=cmt>");
        }
        drop_comment_tags(s.skip("<span class=cmt>"@.len() as int))
    } else if "</span>"@.is_prefix_of(s) {
        proof {
            reveal_strlit("</span>");
        }
        drop_comment_tags(s.skip("</span>"@.len() as int))
    } else {
        seq![s[0]] + drop_comment_tags(s.drop_first())
    }
}

proof fn lemma_drop_plain(w: Seq<char>, z: Seq<char>)
    requires
        forall|i: int| 0 <= i < w.len() ==> w[i] != '<',
    ensures
        drop_comment_tags(w + z) == w + drop_comment_tags(z),
    decreases w.len(),
{
    reveal_strlit("<span class=cmt>");
    reveal_strlit("</span>");
    if w.len() > 0 {
        let x = w + z;
        assert(x[0] == w[0]);
        assert(!"<span class=cmt>"@.is_prefix_of(x)) by {
            if "<span class=cmt>"@.is_prefix_of(x) {
                assert(x.subrange(0, 16)[0] == x[0]);
            }
        }
        assert(!"</span>"@.is_prefix_of(x)) by {
            if "</span>"@.is_prefix_of(x) {
                assert(x.subrange(0, 7)[0] == x[0]);
            }
        }
        assert(x.drop_first() =~= w.drop_first() + z);
        lemma_drop_plain(w.drop_first(), z);
        assert(w + drop_comment_tags(z) =~= seq![w[0]] + (w.drop_first() + drop_comment_tags(z)));
    } else {
        assert(w + z =~= z);
        assert(w + drop_comment_tags(z) =~= drop_comment_tags(z));
    }
}

proof fn lemma_drop_tags(z: Seq<char>)
    ensures
        drop_comment_tags("<span class=cmt>"@ + z) == drop_comment_tags(z),
        drop_comment_tags("</span>"@ + z) == drop_comment_tags(z),
{
    reveal_strlit("<span class=cmt>");
    reveal_strlit("</span>");
    let a = "<span class=cmt>"@ + z;
    assert("<span class=cmt>"@ =~= a.subrange(0, 16));
    assert(a.skip(16) =~= z);
    let b = "</span>"@ + z;
    assert("</span>"@ =~= b.subrange(0, 7));
    assert(b.skip(7) =~= z);
    assert(!"<span class=cmt>"@.is_prefix_of(b)) by {
        if "<span class=cmt>"@.is_prefix_of(b) {
            assert(b.subrange(0, 16)[1] == b[1]);
        }
    }
}

/// Decoding the body of a colon head, its comment spans deleted, gives the text back.
proof fn lemma_comment_body_decodes(t: Seq<char>)
    ensures
        unesc(drop_comment_tags(comment_body(t))) == t,
    decreases t.len(),
{
    lemma_first_index(t, '(');
    match first_index(t, '(') {
        Some(a) => {
            lemma_first_index(t.skip(a), ')');
            match first_index(t.skip(a), ')') {
                Some(b) => {
                    let pre = t.take(a);
                    let mid = t.subrange(a, a + b + 1);
                    let rest = t.skip(a + b + 1);
                    let cb = comment_body(rest);
                    lemma_comment_body_decodes(rest);
                    lemma_esc_no_angle_brackets(pre);
                    lemma_esc_no_angle_brackets(mid);
                    let body = spec_esc(pre) + "<span class=cmt>"@ + spec_esc(mid) + "</span>"@ + cb;
                    assert(comment_body(t) == body);
                    assert(body =~= spec_esc(pre) + ("<span class=cmt>"@ + (spec_esc(mid) + ("</span>"@ + cb))));
                    lemma_drop_plain(spec_esc(pre), "<span class=cmt>"@ + (spec_esc(mid) + ("</span>"@ + cb)));
                    lemma_drop_tags(spec_esc(mid) + ("</span>"@ + cb));
                    lemma_drop_plain(spec_esc(mid), "</span>"@ + cb);
                    lemma_drop_tags(cb);
                    let d = drop_comment_tags(cb);
                    assert(drop_comment_tags(body) == spec_esc(pre) + (spec_esc(mid) + d));
                    lemma_esc_concat(pre, mid);
                    assert(spec_esc(pre) + (spec_esc(mid) + d) =~= spec_esc(pre + mid) + d);
                    lemma_unesc_esc_prefix(pre + mid, d);
                    assert(t =~= pre + mid + rest);
                },
                None => {
                    lemma_esc_no_angle_brackets(t);
                    lemma_drop_plain(spec_esc(t), Seq::empty());
                    assert(spec_esc(t) + Seq::<char>::empty() =~= spec_esc(t));
                    lemma_unesc_esc_prefix(t, Seq::empty());
                    assert(t + Seq::<char>::empty() =~= t);
                },
            }
        },
        None => {
            lemma_esc_no_angle_brackets(t);
            lemma_drop_plain(spec_esc(t), Seq::empty());
            assert(spec_esc(t) + Seq::<char>::empty() =~= spec_esc(t));
            lemma_unesc_esc_prefix(t, Seq::empty());
            assert(t + Seq::<char>::empty() =~= t);
        },
    }
}

/// A colon head loses nothing of its text: it is one span of class `cls`
/// around a body from which deleting the comment spans and decoding the
/// entities gives the text back.
pub proof fn lemma_colon_head_decodes(text: Seq<char>, cls: Seq<char>)
    ensures
        spec_colon_head_html(text, cls) == "<span class="@ + cls + ">"@ + comment_body(text) + "</span>"@,
        unesc(drop_comment_tags(comment_body(text))) == text,
{
    lemma_comment_body_decodes(text);
}

/// The four State and Transition markers: `S: `, `T: `, `| ` and `/ `.
pub open spec fn is_state_marker(m: Seq<char>) -> bool {
    m == seq!['S', ':', ' '] || m == seq!['T', ':', ' '] || m == seq!['|', ' '] || m == seq!['/', ' ']
}

/// An item that starts with a State or Transition marker shows the marker
/// as an Operator, and the head goes on after it with the checkbox and
/// colon stages; nothing of the marker is left in the rest.
pub proof fn lemma_marker_is_operator(m: Seq<char>, u: Seq<char>)
    requires
        is_state_marker(m),
    ensures
        spec_head(m + u).0 == "<span class=op>"@ + m + "</span>"@ + checkbox(u).0 + colon_head(checkbox(u).1).0,
        spec_head(m + u).1 == colon_head(checkbox(u).1).1,
{
    let s = m + u;
    assert(s[0] == m[0] && s[1] == m[1]);
    lemma_run_len(s, Run::Ident);
    assert(!starter_at(s));
    assert(run_len(s, Run::Ident) == 0);
    assert(!ident_at(s));
    assert(lead(s) == (Seq::<char>::empty(), s));
    if m.len() == 3 {
        assert(s[2] == m[2]);
    }
    assert(marker_len(s) == m.len());
    assert(s.take(m.len() as int) =~= m);
    assert(s.skip(m.len() as int) =~= u);
    lemma_esc_plain(m);
    assert(Seq::<char>::empty() + ("<span class=op>"@ + m + "</span>"@) =~= "<span class=op>"@ + m + "</span>"@);
    assert(Seq::<char>::empty() + ("<span class=op>"@ + m + "</span>"@) + checkbox(u).0 + colon_head(checkbox(u).1).0
        =~= "<span class=op>"@ + m + "</span>"@ + checkbox(u).0 + colon_head(checkbox(u).1).0);
}

/// No other text is taken for a marker: where `marker_len` finds one, the
/// text starts with one of the four.
pub proof fn lemma_only_state_markers(s: Seq<char>)
    ensures
        marker_len(s) != 0 ==> is_state_marker(s.take(marker_len(s))),
{
    if marker_len(s) != 0 {
        if marker_len(s) == 3 {
            assert(s.take(3) =~= seq![s[0], ':', ' ']);
        } else {
            assert(s.take(2) =~= seq![s[0], ' ']);
        }
    }
}

/// The checkboxes and the symbol each is shown as: `[_] ` and `[ ] ` an
/// empty box, `[x] ` and `[X] ` a checked box, `[O] ` a half-done circle.
pub open spec fn is_checkbox(cb: Seq<char>, sym: char) -> bool {
    ||| cb == seq!['[', '_', ']', ' '] && sym == '\u{2610}'
    ||| cb == seq!['[', ' ', ']', ' '] && sym == '\u{2610}'
    ||| cb == seq!['[', 'x', ']', ' '] && sym == '\u{2611}'
    ||| cb == seq!['[', 'X', ']', ' '] && sym == '\u{2611}'
    ||| cb == seq!['[', 'O', ']', ' '] && sym == '\u{25d4}'
}

/// An item that starts with a checkbox shows it as its symbol, which a
/// click toggles, and the head goes on after it with the colon stage.
pub proof fn lemma_checkbox_is_symbol(cb: Seq<char>, sym: char, u: Seq<char>)
    requires
        is_checkbox(cb, sym),
    ensures
        spec_head(cb + u).0 == "<span class=\"qual cb\" onclick=\"cb(event,this)\">"@ + seq![sym, ' '] + "</span>"@
            + colon_head(u).0,
        spec_head(cb + u).1 == colon_head(u).1,
{
    let s = cb + u;
    assert(s[0] == cb[0] && s[1] == cb[1] && s[2] == cb[2] && s[3] == cb[3]);
    lemma_run_len(s, Run::Ident);
    assert(run_len(s, Run::Ident) == 0);
    assert(lead(s) == (Seq::<char>::empty(), s));
    assert(marker_len(s) == 0);
    assert(checkbox_len(s) == 4);
    assert(s.skip(4) =~= u);
    let h = "<span class=\"qual cb\" onclick=\"cb(event,this)\">"@ + seq![sym, ' '] + "</span>"@;
    assert(Seq::<char>::empty() + Seq::<char>::empty() + h + colon_head(u).0 =~= h + colon_head(u).0);
}

/// An item that starts with a Starter shows it in the Starter's color, and
/// the head goes on after it with the marker, checkbox and colon stages.
pub proof fn lemma_starter_is_shown(st: Seq<char>, u: Seq<char>)
    requires
        st == seq!['-', ' '] || st == seq!['+', ' '] || st == seq!['*', ' '],
    ensures
        spec_head(st + u).0 == "<span class=start>"@ + seq![st[0]] + " </span>"@ + marker(u).0
            + checkbox(marker(u).1).0 + colon_head(checkbox(marker(u).1).1).0,
        spec_head(st + u).1 == colon_head(checkbox(marker(u).1).1).1,
{
    let s = st + u;
    assert(s[0] == st[0] && s[1] == st[1]);
    assert(starter_at(s));
    assert(s.take(1) =~= seq![st[0]]);
    assert(s.skip(2) =~= u);
    lemma_esc_plain(seq![st[0]]);
    assert(!lead_is_ident(s));
}

} // verus!
