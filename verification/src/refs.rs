//! References: the key an item is found by, and a `<reference>` rendered
//! as an external link, a link to another item, or a plain span.

use vstd::prelude::*;
use vstd::string::StringExecFns;
use crate::chars::{spec_whitespace, unicode_lowercase, spec_ascii_digit, is_ascii_digit, chars_of, push_char, string_of, to_lowercase};
use crate::text::{spec_esc, push_esc_range};
use crate::scan::{
    last_index, Run, run_len, lemma_run_len, run_end, starts_at, rfind_before, trim_start,
    trim_end, trim, trim_start_from, trim_end_to, is_suffix, lemma_suffix_trans,
};

verus! {

/// `t` without the prefix `p`, where it starts with `p`.
pub open spec fn drop_prefix(t: Seq<char>, p: Seq<char>) -> Seq<char> {
    if p.is_prefix_of(t) {
        t.skip(p.len() as int)
    } else {
        t
    }
}

/// One round over the Starters, State/Transition markers and checkboxes, in
/// this order, each dropped where the text (as far as it is left) starts with it.
pub open spec fn marker_pass(t: Seq<char>) -> Seq<char> {
    let t = drop_prefix(t, "- "@);
    let t = drop_prefix(t, "+ "@);
    let t = drop_prefix(t, "* "@);
    let t = drop_prefix(t, "S: "@);
    let t = drop_prefix(t, "T: "@);
    let t = drop_prefix(t, "| "@);
    let t = drop_prefix(t, "/ "@);
    let t = drop_prefix(t, "[_] "@);
    let t = drop_prefix(t, "[ ] "@);
    let t = drop_prefix(t, "[x] "@);
    let t = drop_prefix(t, "[X] "@);
    drop_prefix(t, "[O] "@)
}

/// An Identifier (digits and dots holding a digit) and the space after it, dropped.
pub open spec fn ident_pass(t: Seq<char>) -> Seq<char> {
    let k = run_len(t, Run::Ident) as int;
    if k > 0 && (exists|j: int| 0 <= j < k && spec_ascii_digit(#[trigger] t[j])) && k < t.len()
        && t[k] == ' ' {
        t.skip(k + 1)
    } else {
        t
    }
}

pub open spec fn strip_pass(t: Seq<char>) -> Seq<char> {
    ident_pass(marker_pass(t))
}

proof fn lemma_drop_prefix_suffix(t: Seq<char>, p: Seq<char>)
    ensures
        is_suffix(drop_prefix(t, p), t),
{
    assert(drop_prefix(t, p) =~= t.skip(t.len() - drop_prefix(t, p).len()));
}

/// A round never adds text: what it leaves is a suffix of what it was given.
pub proof fn lemma_strip_pass_suffix(t: Seq<char>)
    ensures
        is_suffix(strip_pass(t), t),
{
    let m = marker_pass(t);
    let k = run_len(m, Run::Ident) as int;
    lemma_run_len(m, Run::Ident);
    assert(is_suffix(ident_pass(m), m)) by {
        assert(m.skip(0) =~= m);
        assert(ident_pass(m) =~= m.skip(m.len() - ident_pass(m).len()));
    }
    assert(is_suffix(m, t)) by {
        let m1 = drop_prefix(t, "- "@);
        let m2 = drop_prefix(m1, "+ "@);
        let m3 = drop_prefix(m2, "* "@);
        let m4 = drop_prefix(m3, "S: "@);
        let m5 = drop_prefix(m4, "T: "@);
        let m6 = drop_prefix(m5, "| "@);
        let m7 = drop_prefix(m6, "/ "@);
        let m8 = drop_prefix(m7, "[_] "@);
        let m9 = drop_prefix(m8, "[ ] "@);
        let m10 = drop_prefix(m9, "[x] "@);
        let m11 = drop_prefix(m10, "[X] "@);
        let m12 = drop_prefix(m11, "[O] "@);
        lemma_drop_prefix_suffix(t, "- "@);
        lemma_drop_prefix_suffix(m1, "+ "@);
        lemma_suffix_trans(m2, m1, t);
        lemma_drop_prefix_suffix(m2, "* "@);
        lemma_suffix_trans(m3, m2, t);
        lemma_drop_prefix_suffix(m3, "S: "@);
        lemma_suffix_trans(m4, m3, t);
        lemma_drop_prefix_suffix(m4, "T: "@);
        lemma_suffix_trans(m5, m4, t);
        lemma_drop_prefix_suffix(m5, "| "@);
        lemma_suffix_trans(m6, m5, t);
        lemma_drop_prefix_suffix(m6, "/ "@);
        lemma_suffix_trans(m7, m6, t);
        lemma_drop_prefix_suffix(m7, "[_] "@);
        lemma_suffix_trans(m8, m7, t);
        lemma_drop_prefix_suffix(m8, "[ ] "@);
        lemma_suffix_trans(m9, m8, t);
        lemma_drop_prefix_suffix(m9, "[x] "@);
        lemma_suffix_trans(m10, m9, t);
        lemma_drop_prefix_suffix(m10, "[X] "@);
        lemma_suffix_trans(m11, m10, t);
        lemma_drop_prefix_suffix(m11, "[O] "@);
        lemma_suffix_trans(m12, m11, t);
    }
    lemma_suffix_trans(ident_pass(m), m, t);
}

/// Markers and Identifiers stripped from the front, round after round, until a round changes nothing.
pub open spec fn strip_all(t: Seq<char>) -> Seq<char>
    decreases t.len(),
{
    if strip_pass(t).len() < t.len() {
        strip_all(strip_pass(t))
    } else {
        t
    }
}

/// The key a reference is matched against.
pub open spec fn spec_match_key(s: Seq<char>) -> Seq<char> {
    unicode_lowercase(strip_all(trim_start(s)))
}

/// Position after dropping the prefix `p` from `v[at..]`, where it stands there.
fn drop_prefix_at(v: &Vec<char>, at: usize, p: &str) -> (r: usize)
    requires
        at <= v.len(),
    ensures
        at <= r <= v.len(),
        v@.skip(r as int) == drop_prefix(v@.skip(at as int), p@),
{
    if starts_at(v, at, p) {
        let w = chars_of(p);
        assert(v@.skip(at as int).skip(w@.len() as int) == v@.skip(at + w@.len()));
        at + w.len()
    } else {
        at
    }
}

/// Position after one round of `strip_pass` from `at`.
fn strip_pass_at(v: &Vec<char>, at: usize) -> (r: usize)
    requires
        at <= v.len(),
    ensures
        at <= r <= v.len(),
        v@.skip(r as int) == strip_pass(v@.skip(at as int)),
{
    let p = drop_prefix_at(v, at, "- ");
    let p = drop_prefix_at(v, p, "+ ");
    let p = drop_prefix_at(v, p, "* ");
    let p = drop_prefix_at(v, p, "S: ");
    let p = drop_prefix_at(v, p, "T: ");
    let p = drop_prefix_at(v, p, "| ");
    let p = drop_prefix_at(v, p, "/ ");
    let p = drop_prefix_at(v, p, "[_] ");
    let p = drop_prefix_at(v, p, "[ ] ");
    let p = drop_prefix_at(v, p, "[x] ");
    let p = drop_prefix_at(v, p, "[X] ");
    let p = drop_prefix_at(v, p, "[O] ");
    let ghost m = v@.skip(p as int);
    assert(m == marker_pass(v@.skip(at as int)));
    let k = run_end(v, p, Run::Ident);
    proof {
        lemma_run_len(m, Run::Ident);
    }
    let mut digit = false;
    let mut j: usize = p;
    while j < k
        invariant
            p <= j <= k <= v.len(),
            m == v@.skip(p as int),
            digit == exists|q: int| 0 <= q < j - p && spec_ascii_digit(#[trigger] m[q]),
        decreases k - j,
    {
        if is_ascii_digit(v[j]) {
            digit = true;
            assert(spec_ascii_digit(m[j - p]));
        }
        j += 1;
    }
    if k > p && digit && k < v.len() && v[k] == ' ' {
        assert(m.skip(k - p + 1) == v@.skip(k + 1));
        k + 1
    } else {
        p
    }
}

/// An item's text reduced to the key references are matched against:
/// leading Starters, State/Transition markers, checkboxes and Identifiers
/// stripped, then lower-cased.
pub fn match_key(s: &str) -> (r: String)
    ensures
        r@ == spec_match_key(s@),
{
    let v = chars_of(s);
    let n = v.len();
    let start = trim_start_from(&v, 0, n);
    assert(v@.subrange(0, n as int) == v@);
    assert(v@.subrange(start as int, n as int) == v@.skip(start as int));
    let mut pos = start;
    loop
        invariant
            start <= pos <= n == v.len(),
            strip_all(v@.skip(start as int)) == strip_all(v@.skip(pos as int)),
        ensures
            strip_all(v@.skip(start as int)) == v@.skip(pos as int),
            pos <= n,
        decreases n - pos,
    {
        let next = strip_pass_at(&v, pos);
        proof {
            lemma_strip_pass_suffix(v@.skip(pos as int));
        }
        if next == pos {
            break;
        }
        pos = next;
    }
    let t = string_of(&v, pos, n);
    assert(v@.subrange(pos as int, n as int) == v@.skip(pos as int));
    to_lowercase(t.as_str())
}

/// The text after the last `/`, or all of it.
pub open spec fn last_segment(s: Seq<char>) -> Seq<char> {
    match last_index(s, '/') {
        Some(k) => s.skip(k + 1),
        None => s,
    }
}

/// The first item, from `i` on, other than `self_ix`, whose key starts with `seg`.
pub open spec fn find_target_from(seg: Seq<char>, self_ix: int, keys: Seq<Seq<char>>, i: int) -> Option<int>
    decreases keys.len() - i,
{
    if i < 0 || i >= keys.len() {
        None
    } else if i != self_ix && seg.is_prefix_of(keys[i]) {
        Some(i)
    } else {
        find_target_from(seg, self_ix, keys, i + 1)
    }
}

/// The item a reference with last segment `seg` links to.
pub open spec fn find_target(seg: Seq<char>, self_ix: int, keys: Seq<Seq<char>>) -> Option<int> {
    find_target_from(seg, self_ix, keys, 0)
}

/// The keys of a list of strings.
pub open spec fn key_views(texts: Seq<String>) -> Seq<Seq<char>> {
    texts.map_values(|t: String| t@)
}

pub open spec fn digit_char(d: nat) -> char {
    if d == 0 { '0' } else if d == 1 { '1' } else if d == 2 { '2' } else if d == 3 { '3' }
    else if d == 4 { '4' } else if d == 5 { '5' } else if d == 6 { '6' } else if d == 7 { '7' }
    else if d == 8 { '8' } else { '9' }
}

/// `n` in decimal, without leading zeros.
pub open spec fn decimal(n: nat) -> Seq<char>
    decreases n,
{
    if n < 10 {
        seq![digit_char(n)]
    } else {
        decimal(n / 10).push(digit_char(n % 10))
    }
}

/// Appends `n` in decimal.
pub fn push_decimal(out: &mut String, n: usize)
    ensures
        final(out)@ == old(out)@ + decimal(n as nat),
    decreases n,
{
    if n >= 10 {
        push_decimal(out, n / 10);
    }
    let d = n % 10;
    let c: char = if d == 0 { '0' } else if d == 1 { '1' } else if d == 2 { '2' } else if d == 3 { '3' }
        else if d == 4 { '4' } else if d == 5 { '5' } else if d == 6 { '6' } else if d == 7 { '7' }
        else if d == 8 { '8' } else { '9' };
    push_char(out, c);
}

/// The segment of a reference that is looked up: after the last `/`, trimmed, lower-cased.
pub open spec fn ref_segment(inner: Seq<char>) -> Seq<char> {
    unicode_lowercase(trim(last_segment(inner)))
}

/// Whether a reference points outside the list.
pub open spec fn is_external(inner: Seq<char>) -> bool {
    "http://"@.is_prefix_of(inner) || "https://"@.is_prefix_of(inner) || "file:"@.is_prefix_of(inner)
}

/// A `<reference>` as HTML.
pub open spec fn spec_ref_html(inner: Seq<char>, self_ix: int, keys: Seq<Seq<char>>) -> Seq<char> {
    if is_external(inner) {
        let href = drop_prefix(inner, "file:"@);
        "<a class=ref href=\""@ + spec_esc(href) + "\">&lt;"@ + spec_esc(inner) + "&gt;</a>"@
    } else {
        let seg = ref_segment(inner);
        match find_target(seg, self_ix, keys) {
            Some(ix) if seg.len() > 0 => "<a class=ref href=\"#i"@ + decimal(ix as nat)
                + "\" onclick=\"go('i"@ + decimal(ix as nat) + "');return false\">&lt;"@
                + spec_esc(inner) + "&gt;</a>"@,
            _ => "<span class=ref>&lt;"@ + spec_esc(inner) + "&gt;</span>"@,
        }
    }
}

/// Whether the characters of `t` start with `p`.
fn has_prefix(t: &str, p: &Vec<char>) -> (r: bool)
    ensures
        r == p@.is_prefix_of(t@),
{
    let w = chars_of(t);
    if p.len() > w.len() {
        return false;
    }
    let mut k: usize = 0;
    while k < p.len()
        invariant
            w@ == t@,
            p.len() <= w.len(),
            k <= p.len(),
            forall|m: int| 0 <= m < k ==> p@[m] == w@[m],
        decreases p.len() - k,
    {
        if p[k] != w[k] {
            assert(w@.subrange(0, p@.len() as int)[k as int] == w@[k as int]);
            return false;
        }
        k += 1;
    }
    assert(p@ =~= w@.subrange(0, p@.len() as int));
    true
}

/// The first item other than `self_ix` whose key starts with `seg`.
pub fn find_target_exec(seg: &Vec<char>, self_ix: usize, texts: &[String]) -> (r: Option<usize>)
    ensures
        match r {
            Some(i) => find_target(seg@, self_ix as int, key_views(texts@)) == Some(i as int),
            None => find_target(seg@, self_ix as int, key_views(texts@)) is None,
        },
{
    let ghost keys = key_views(texts@);
    let mut i: usize = 0;
    while i < texts.len()
        invariant
            i <= texts.len(),
            keys == key_views(texts@),
            keys.len() == texts@.len(),
            find_target(seg@, self_ix as int, keys) == find_target_from(seg@, self_ix as int, keys, i as int),
        decreases texts.len() - i,
    {
        assert(keys[i as int] == texts@[i as int]@);
        if i != self_ix && has_prefix(texts[i].as_str(), seg) {
            return Some(i);
        }
        i += 1;
    }
    None
}

/// A `<reference>` as HTML: URLs and `file:` references open outside; any
/// other reference links to the first item, never the referring one itself,
/// whose key starts with the reference's last segment; an unresolved
/// reference stays a span.
pub fn ref_html(inner: &str, self_ix: usize, texts: &[String]) -> (r: String)
    ensures
        r@ == spec_ref_html(inner@, self_ix as int, key_views(texts@)),
{
    let v = chars_of(inner);
    let n = v.len();
    let mut out = String::new();
    if starts_at(&v, 0, "http://") || starts_at(&v, 0, "https://") || starts_at(&v, 0, "file:") {
        assert(v@.skip(0) == v@);
        let href = drop_prefix_at(&v, 0, "file:");
        out.append("<a class=ref href=\"");
        push_esc_range(&mut out, &v, href, n);
        out.append("\">&lt;");
        push_esc_range(&mut out, &v, 0, n);
        out.append("&gt;</a>");
        assert(v@.subrange(href as int, n as int) == v@.skip(href as int));
        assert(v@.subrange(0, n as int) == v@);
        return out;
    }
    assert(v@.skip(0) == v@);
    let from = match rfind_before(&v, n, '/') {
        Some(k) => k + 1,
        None => 0,
    };
    assert(v@.take(n as int) == v@);
    assert(v@.subrange(from as int, n as int) == last_segment(v@));
    let e = trim_end_to(&v, from, n);
    let b = trim_start_from(&v, from, e);
    let raw = string_of(&v, b, e);
    let seg_s = to_lowercase(raw.as_str());
    let seg = chars_of(seg_s.as_str());
    assert(v@.subrange(0, n as int) == v@);
    if seg.len() > 0 {
        if let Some(ix) = find_target_exec(&seg, self_ix, texts) {
            out.append("<a class=ref href=\"#i");
            push_decimal(&mut out, ix);
            out.append("\" onclick=\"go('i");
            push_decimal(&mut out, ix);
            out.append("');return false\">&lt;");
            push_esc_range(&mut out, &v, 0, n);
            out.append("&gt;</a>");
            return out;
        }
    }
    out.append("<span class=ref>&lt;");
    push_esc_range(&mut out, &v, 0, n);
    out.append("&gt;</span>");
    out
}

/// A key is fully stripped: one more round over markers, checkboxes and
/// Identifiers would change nothing.
pub proof fn lemma_key_fully_stripped(t: Seq<char>)
    ensures
        strip_pass(strip_all(t)) == strip_all(t),
    decreases t.len(),
{
    lemma_strip_pass_suffix(t);
    if strip_pass(t).len() < t.len() {
        lemma_key_fully_stripped(strip_pass(t));
    } else {
        assert(strip_pass(t) =~= t.skip(0));
        assert(t.skip(0) =~= t);
    }
}

/// A reference links to the first item, other than the referring one,
/// whose key starts with the reference's segment; when there is none it
/// links nowhere.
pub proof fn lemma_ref_target(seg: Seq<char>, self_ix: int, keys: Seq<Seq<char>>)
    ensures
        match find_target(seg, self_ix, keys) {
            Some(k) => 0 <= k < keys.len() && k != self_ix && seg.is_prefix_of(keys[k])
                && forall|j: int| 0 <= j < k && j != self_ix ==> !seg.is_prefix_of(#[trigger] keys[j]),
            None => forall|j: int| 0 <= j < keys.len() && j != self_ix ==> !seg.is_prefix_of(#[trigger] keys[j]),
        },
{
    lemma_find_target_from(seg, self_ix, keys, 0);
}

proof fn lemma_find_target_from(seg: Seq<char>, self_ix: int, keys: Seq<Seq<char>>, i: int)
    requires
        0 <= i,
    ensures
        match find_target_from(seg, self_ix, keys, i) {
            Some(k) => i <= k < keys.len() && k != self_ix && seg.is_prefix_of(keys[k])
                && forall|j: int| i <= j < k && j != self_ix ==> !seg.is_prefix_of(#[trigger] keys[j]),
            None => forall|j: int| i <= j < keys.len() && j != self_ix ==> !seg.is_prefix_of(#[trigger] keys[j]),
        },
    decreases keys.len() - i,
{
    if i < keys.len() && !(i != self_ix && seg.is_prefix_of(keys[i])) {
        lemma_find_target_from(seg, self_ix, keys, i + 1);
    }
}

/// A reference to a URL (`http://`, `https://`) or a file (`file:`) opens
/// outside the list, whatever the items: it links to the reference itself,
/// a `file:` reference to the path after `file:`.
pub proof fn lemma_external_refs(inner: Seq<char>, self_ix: int, keys: Seq<Seq<char>>)
    requires
        "file:"@.is_prefix_of(inner) || "http://"@.is_prefix_of(inner) || "https://"@.is_prefix_of(inner),
    ensures
        spec_ref_html(inner, self_ix, keys) == "<a class=ref href=\""@ + spec_esc(
            if "file:"@.is_prefix_of(inner) { inner.skip("file:"@.len() as int) } else { inner },
        ) + "\">&lt;"@ + spec_esc(inner) + "&gt;</a>"@,
{
}

/// The prefixes a key loses at its front: Starters, State/Transition
/// markers and checkboxes.
pub open spec fn is_key_prefix(p: Seq<char>) -> bool {
    ||| p == seq!['-', ' ']
    ||| p == seq!['+', ' ']
    ||| p == seq!['*', ' ']
    ||| p == seq!['S', ':', ' ']
    ||| p == seq!['T', ':', ' ']
    ||| p == seq!['|', ' ']
    ||| p == seq!['/', ' ']
    ||| p == seq!['[', '_', ']', ' ']
    ||| p == seq!['[', ' ', ']', ' ']
    ||| p == seq!['[', 'x', ']', ' ']
    ||| p == seq!['[', 'X', ']', ' ']
    ||| p == seq!['[', 'O', ']', ' ']
}

/// `k` starts with an Identifier (digits and dots, at least one digit) and its space.
pub open spec fn ident_token_at(k: Seq<char>) -> bool {
    exists|n: int|
        0 < n < k.len() && k[n] == ' ' && (forall|j: int| 0 <= j < n ==> spec_ascii_digit(#[trigger] k[j]) || k[j] == '.')
            && (exists|j: int| 0 <= j < n && spec_ascii_digit(#[trigger] k[j]))
}

proof fn lemma_strip_all_suffix(t: Seq<char>)
    ensures
        is_suffix(strip_all(t), t),
    decreases t.len(),
{
    lemma_strip_pass_suffix(t);
    if strip_pass(t).len() < t.len() {
        lemma_strip_all_suffix(strip_pass(t));
        lemma_suffix_trans(strip_all(strip_pass(t)), strip_pass(t), t);
    } else {
        assert(t =~= t.skip(0));
    }
}

proof fn lemma_same_len_suffix(u: Seq<char>, t: Seq<char>)
    requires
        is_suffix(u, t),
        u.len() == t.len(),
    ensures
        u == t,
{
    assert(t.skip(0) =~= t);
}

/// A round that changes nothing leaves a text with none of the stripped
/// prefixes and no Identifier at its front.
proof fn lemma_fixpoint_has_no_token(k: Seq<char>)
    requires
        strip_pass(k) == k,
    ensures
        forall|p: Seq<char>| is_key_prefix(p) ==> !p.is_prefix_of(k),
        !ident_token_at(k),
{
    reveal_strlit("- ");
    reveal_strlit("+ ");
    reveal_strlit("* ");
    reveal_strlit("S: ");
    reveal_strlit("T: ");
    reveal_strlit("| ");
    reveal_strlit("/ ");
    reveal_strlit("[_] ");
    reveal_strlit("[ ] ");
    reveal_strlit("[x] ");
    reveal_strlit("[X] ");
    reveal_strlit("[O] ");
    let t1 = drop_prefix(k, "- "@);
    let t2 = drop_prefix(t1, "+ "@);
    let t3 = drop_prefix(t2, "* "@);
    let t4 = drop_prefix(t3, "S: "@);
    let t5 = drop_prefix(t4, "T: "@);
    let t6 = drop_prefix(t5, "| "@);
    let t7 = drop_prefix(t6, "/ "@);
    let t8 = drop_prefix(t7, "[_] "@);
    let t9 = drop_prefix(t8, "[ ] "@);
    let t10 = drop_prefix(t9, "[x] "@);
    let t11 = drop_prefix(t10, "[X] "@);
    let t12 = drop_prefix(t11, "[O] "@);
    assert(t12 == marker_pass(k));
    lemma_run_len(t12, Run::Ident);
    assert(ident_pass(t12).len() <= t12.len());
    assert(t12.len() <= t11.len() && t11.len() <= t10.len() && t10.len() <= t9.len() && t9.len() <= t8.len());
    assert(t8.len() <= t7.len() && t7.len() <= t6.len() && t6.len() <= t5.len() && t5.len() <= t4.len());
    assert(t4.len() <= t3.len() && t3.len() <= t2.len() && t2.len() <= t1.len() && t1.len() <= k.len());
    assert(t1 == k);
    assert(t2 == k);
    assert(t3 == k);
    assert(t4 == k);
    assert(t5 == k);
    assert(t6 == k);
    assert(t7 == k);
    assert(t8 == k);
    assert(t9 == k);
    assert(t10 == k);
    assert(t11 == k);
    assert(t12 == k);
    assert(ident_pass(k) == k);
    if ident_token_at(k) {
        let n = choose|n: int|
            0 < n < k.len() && k[n] == ' ' && (forall|j: int| 0 <= j < n ==> spec_ascii_digit(#[trigger] k[j]) || k[j] == '.')
                && (exists|j: int| 0 <= j < n && spec_ascii_digit(#[trigger] k[j]));
        lemma_run_len(k, Run::Ident);
        let r = run_len(k, Run::Ident) as int;
        if r < n {
            assert(spec_ascii_digit(k[r]) || k[r] == '.');
        }
        assert(r == n);
        assert(k.skip(n + 1).len() < k.len());
    }
}

/// The key of a text is the lower-cased form of what is left once every
/// Starter, State/Transition marker, checkbox and Identifier (with its
/// space) has been taken off its front: none of them starts what is left.
pub proof fn lemma_key_has_no_leading_marker(s: Seq<char>)
    ensures
        exists|k: Seq<char>|
            spec_match_key(s) == unicode_lowercase(k) && is_suffix(k, trim_start(s)) && !ident_token_at(k)
                && forall|p: Seq<char>| is_key_prefix(p) ==> !p.is_prefix_of(k),
{
    let k = strip_all(trim_start(s));
    lemma_strip_all_suffix(trim_start(s));
    lemma_key_fully_stripped(trim_start(s));
    lemma_fixpoint_has_no_token(k);
}

/// An Identifier run (digits and dots, at least one digit) ends in a space at `x[run]`.
pub open spec fn ident_run_ok(x: Seq<char>) -> bool {
    let k = run_len(x, Run::Ident) as int;
    k > 0 && (exists|j: int| 0 <= j < k && spec_ascii_digit(#[trigger] x[j])) && k < x.len() && x[k] == ' '
}

/// Length of the marker, checkbox or Identifier (with its space) at the
/// front of `x`; 0 if there is none.
pub open spec fn token_len(x: Seq<char>) -> nat {
    if seq!['-', ' '].is_prefix_of(x) {
        2
    } else if seq!['+', ' '].is_prefix_of(x) {
        2
    } else if seq!['*', ' '].is_prefix_of(x) {
        2
    } else if seq!['S', ':', ' '].is_prefix_of(x) {
        3
    } else if seq!['T', ':', ' '].is_prefix_of(x) {
        3
    } else if seq!['|', ' '].is_prefix_of(x) {
        2
    } else if seq!['/', ' '].is_prefix_of(x) {
        2
    } else if seq!['[', '_', ']', ' '].is_prefix_of(x) {
        4
    } else if seq!['[', ' ', ']', ' '].is_prefix_of(x) {
        4
    } else if seq!['[', 'x', ']', ' '].is_prefix_of(x) {
        4
    } else if seq!['[', 'X', ']', ' '].is_prefix_of(x) {
        4
    } else if seq!['[', 'O', ']', ' '].is_prefix_of(x) {
        4
    } else if ident_run_ok(x) {
        run_len(x, Run::Ident) + 1
    } else {
        0
    }
}

pub proof fn lemma_token_len_bound(x: Seq<char>)
    ensures
        token_len(x) <= x.len(),
{
    lemma_run_len(x, Run::Ident);
}

/// `x` with its front tokens taken off one by one until none is left.
pub open spec fn greedy_strip(x: Seq<char>) -> Seq<char>
    decreases x.len(),
{
    if token_len(x) > 0 {
        proof {
            lemma_token_len_bound(x);
        }
        greedy_strip(x.skip(token_len(x) as int))
    } else {
        x
    }
}

proof fn lemma_token_of_prefix(p: Seq<char>, u: Seq<char>)
    requires
        is_key_prefix(p),
        p.is_prefix_of(u),
    ensures
        token_len(u) == p.len(),
{
    assert(u[0] == p[0]);
    assert(u[1] == p[1]);
    if p.len() > 2 {
        assert(u[2] == p[2]);
    }
    if p.len() > 3 {
        assert(u[3] == p[3]);
    }
}

proof fn lemma_greedy_drop(u: Seq<char>, p: Seq<char>)
    requires
        is_key_prefix(p),
    ensures
        greedy_strip(drop_prefix(u, p)) == greedy_strip(u),
{
    if p.is_prefix_of(u) {
        lemma_token_of_prefix(p, u);
    }
}

proof fn lemma_greedy_ident(u: Seq<char>)
    ensures
        greedy_strip(ident_pass(u)) == greedy_strip(u),
{
    if ident_run_ok(u) {
        lemma_run_len(u, Run::Ident);
        assert(spec_ascii_digit(u[0]) || u[0] == '.');
        assert(token_len(u) == run_len(u, Run::Ident) + 1);
    }
}

proof fn lemma_greedy_pass(x: Seq<char>)
    ensures
        greedy_strip(strip_pass(x)) == greedy_strip(x),
{
    reveal_strlit("- ");
    reveal_strlit("+ ");
    reveal_strlit("* ");
    reveal_strlit("S: ");
    reveal_strlit("T: ");
    reveal_strlit("| ");
    reveal_strlit("/ ");
    reveal_strlit("[_] ");
    reveal_strlit("[ ] ");
    reveal_strlit("[x] ");
    reveal_strlit("[X] ");
    reveal_strlit("[O] ");
    let t1 = drop_prefix(x, seq!['-', ' ']);
    let t2 = drop_prefix(t1, seq!['+', ' ']);
    let t3 = drop_prefix(t2, seq!['*', ' ']);
    let t4 = drop_prefix(t3, seq!['S', ':', ' ']);
    let t5 = drop_prefix(t4, seq!['T', ':', ' ']);
    let t6 = drop_prefix(t5, seq!['|', ' ']);
    let t7 = drop_prefix(t6, seq!['/', ' ']);
    let t8 = drop_prefix(t7, seq!['[', '_', ']', ' ']);
    let t9 = drop_prefix(t8, seq!['[', ' ', ']', ' ']);
    let t10 = drop_prefix(t9, seq!['[', 'x', ']', ' ']);
    let t11 = drop_prefix(t10, seq!['[', 'X', ']', ' ']);
    let t12 = drop_prefix(t11, seq!['[', 'O', ']', ' ']);
    assert("- "@ =~= seq!['-', ' ']);
    assert("+ "@ =~= seq!['+', ' ']);
    assert("* "@ =~= seq!['*', ' ']);
    assert("S: "@ =~= seq!['S', ':', ' ']);
    assert("T: "@ =~= seq!['T', ':', ' ']);
    assert("| "@ =~= seq!['|', ' ']);
    assert("/ "@ =~= seq!['/', ' ']);
    assert("[_] "@ =~= seq!['[', '_', ']', ' ']);
    assert("[ ] "@ =~= seq!['[', ' ', ']', ' ']);
    assert("[x] "@ =~= seq!['[', 'x', ']', ' ']);
    assert("[X] "@ =~= seq!['[', 'X', ']', ' ']);
    assert("[O] "@ =~= seq!['[', 'O', ']', ' ']);
    assert(t12 == marker_pass(x));
    lemma_greedy_drop(x, seq!['-', ' ']);
    lemma_greedy_drop(t1, seq!['+', ' ']);
    lemma_greedy_drop(t2, seq!['*', ' ']);
    lemma_greedy_drop(t3, seq!['S', ':', ' ']);
    lemma_greedy_drop(t4, seq!['T', ':', ' ']);
    lemma_greedy_drop(t5, seq!['|', ' ']);
    lemma_greedy_drop(t6, seq!['/', ' ']);
    lemma_greedy_drop(t7, seq!['[', '_', ']', ' ']);
    lemma_greedy_drop(t8, seq!['[', ' ', ']', ' ']);
    lemma_greedy_drop(t9, seq!['[', 'x', ']', ' ']);
    lemma_greedy_drop(t10, seq!['[', 'X', ']', ' ']);
    lemma_greedy_drop(t11, seq!['[', 'O', ']', ' ']);
    lemma_greedy_ident(t12);
}

proof fn lemma_fixpoint_token_len(x: Seq<char>)
    requires
        strip_pass(x) == x,
    ensures
        token_len(x) == 0,
{
    lemma_fixpoint_has_no_token(x);
    if ident_run_ok(x) {
        lemma_run_len(x, Run::Ident);
        let r = run_len(x, Run::Ident) as int;
        assert(forall|j: int| 0 <= j < r ==> spec_ascii_digit(#[trigger] x[j]) || x[j] == '.');
        assert(ident_token_at(x));
    }
    if token_len(x) != 0 {
        if seq!['-', ' '].is_prefix_of(x) {
            assert(is_key_prefix(seq!['-', ' ']));
        }
        if seq!['+', ' '].is_prefix_of(x) {
            assert(is_key_prefix(seq!['+', ' ']));
        }
        if seq!['*', ' '].is_prefix_of(x) {
            assert(is_key_prefix(seq!['*', ' ']));
        }
        if seq!['S', ':', ' '].is_prefix_of(x) {
            assert(is_key_prefix(seq!['S', ':', ' ']));
        }
        if seq!['T', ':', ' '].is_prefix_of(x) {
            assert(is_key_prefix(seq!['T', ':', ' ']));
        }
        if seq!['|', ' '].is_prefix_of(x) {
            assert(is_key_prefix(seq!['|', ' ']));
        }
        if seq!['/', ' '].is_prefix_of(x) {
            assert(is_key_prefix(seq!['/', ' ']));
        }
        if seq!['[', '_', ']', ' '].is_prefix_of(x) { assert(is_key_prefix(seq!['[', '_', ']', ' '])); }
        if seq!['[', ' ', ']', ' '].is_prefix_of(x) { assert(is_key_prefix(seq!['[', ' ', ']', ' '])); }
        if seq!['[', 'x', ']', ' '].is_prefix_of(x) { assert(is_key_prefix(seq!['[', 'x', ']', ' '])); }
        if seq!['[', 'X', ']', ' '].is_prefix_of(x) { assert(is_key_prefix(seq!['[', 'X', ']', ' '])); }
        if seq!['[', 'O', ']', ' '].is_prefix_of(x) { assert(is_key_prefix(seq!['[', 'O', ']', ' '])); }
    }
}

proof fn lemma_strip_all_greedy(x: Seq<char>)
    ensures
        strip_all(x) == greedy_strip(x),
    decreases x.len(),
{
    lemma_strip_pass_suffix(x);
    lemma_greedy_pass(x);
    if strip_pass(x).len() < x.len() {
        lemma_strip_all_greedy(strip_pass(x));
    } else {
        lemma_same_len_suffix(strip_pass(x), x);
        lemma_fixpoint_token_len(x);
    }
}

/// A key does not depend on the markers, checkboxes and Starters before the
/// text: putting one in front of a text that does not start with white
/// space leaves its key as it was, so a reference finds the item either way.
pub proof fn lemma_key_ignores_leading_marker(p: Seq<char>, t: Seq<char>)
    requires
        is_key_prefix(p),
        t.len() == 0 || !spec_whitespace(t[0]),
    ensures
        spec_match_key(p + t) == spec_match_key(t),
{
    let x = p + t;
    assert(x[0] == p[0]);
    assert(!spec_whitespace(x[0]));
    assert(trim_start(x) == x);
    assert(trim_start(t) == t);
    assert(p.is_prefix_of(x)) by {
        assert(p =~= x.subrange(0, p.len() as int));
    }
    lemma_token_of_prefix(p, x);
    assert(x.skip(p.len() as int) =~= t);
    lemma_strip_all_greedy(x);
    lemma_strip_all_greedy(t);
}

} // verus!
