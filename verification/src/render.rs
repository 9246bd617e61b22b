//! Rendering the list: each item's line, and the items nested as
//! foldable `details` elements by their levels.

use vstd::prelude::*;
use vstd::string::StringExecFns;
use crate::chars::chars_of;
use crate::text::{esc_char, spec_esc, push_esc_range};
use crate::head::{spec_head, head};
use crate::elements::spec_inline;
use crate::refs::{spec_match_key, match_key, key_views, decimal, push_decimal};
use crate::parse::{Item, item_view, items_view, spec_parse, parse};
use crate::page::{spec_render_page, render_page};

verus! {

/// One item's line as HTML: a literal line verbatim (escaped); any other
/// line as its head followed by its inline elements.
pub open spec fn spec_render_line(it: (nat, Seq<char>, bool), self_ix: int, keys: Seq<Seq<char>>) -> Seq<char> {
    if it.2 {
        "<span class=lit>"@ + spec_esc(it.1) + "</span>"@
    } else {
        spec_head(it.1).0 + spec_inline(spec_head(it.1).1, self_ix, keys)
    }
}

pub fn render_line(it: &Item, self_ix: usize, texts: &[String]) -> (r: String)
    ensures
        r@ == spec_render_line(item_view(*it), self_ix as int, key_views(texts@)),
{
    if it.literal {
        let v = chars_of(it.text.as_str());
        let mut out = String::new();
        out.append("<span class=lit>");
        push_esc_range(&mut out, &v, 0, v.len());
        out.append("</span>");
        assert(v@.subrange(0, v@.len() as int) == v@);
        return out;
    }
    let (h, rest) = head(it.text.as_str());
    let mut out = h;
    let tail = crate::elements::inline(rest.as_str(), self_ix, texts);
    out.append(tail.as_str());
    out
}

/// The keys references are matched against, one per item.
pub open spec fn spec_keys(items: Seq<(nat, Seq<char>, bool)>) -> Seq<Seq<char>> {
    items.map_values(|it: (nat, Seq<char>, bool)| spec_match_key(it.1))
}

pub fn match_keys(items: &[Item]) -> (keys: Vec<String>)
    ensures
        key_views(keys@) == spec_keys(items_view(items@)),
{
    let mut keys: Vec<String> = Vec::new();
    let mut i: usize = 0;
    while i < items.len()
        invariant
            i <= items.len(),
            keys@.len() == i,
            forall|k: int| 0 <= k < i ==> (#[trigger] keys@[k])@ == spec_match_key(items@[k].text@),
        decreases items.len() - i,
    {
        keys.push(match_key(items[i].text.as_str()));
        i += 1;
    }
    assert(key_views(keys@) =~= spec_keys(items_view(items@)));
    keys
}

/// Item `i` has children: the next item is deeper.
pub open spec fn has_kids(items: Seq<(nat, Seq<char>, bool)>, i: int) -> bool {
    i + 1 < items.len() && items[i + 1].0 > items[i].0
}

/// How many of the open levels on top of `stack` an item at `level` closes:
/// all those at `level` or deeper.
pub open spec fn pop_count(stack: Seq<nat>, level: nat) -> nat
    decreases stack.len(),
{
    if stack.len() > 0 && level <= stack.last() {
        1 + pop_count(stack.drop_last(), level)
    } else {
        0
    }
}

/// The levels of the `details` elements still open before item `n`.
pub open spec fn open_stack(items: Seq<(nat, Seq<char>, bool)>, n: int) -> Seq<nat>
    decreases n,
{
    if n <= 0 {
        Seq::empty()
    } else {
        let st = open_stack(items, n - 1);
        let kept = st.take(st.len() - pop_count(st, items[n - 1].0));
        if has_kids(items, n - 1) {
            kept.push(items[n - 1].0)
        } else {
            kept
        }
    }
}

/// `s` repeated `k` times.
pub open spec fn repeat(s: Seq<char>, k: nat) -> Seq<char>
    decreases k,
{
    if k == 0 {
        Seq::empty()
    } else {
        repeat(s, (k - 1) as nat) + s
    }
}

/// `"` replaced by `&quot;`.
pub open spec fn quot(s: Seq<char>) -> Seq<char>
    decreases s.len(),
{
    if s.len() == 0 {
        Seq::empty()
    } else if s.last() == '"' {
        quot(s.drop_last()) + seq!['&', 'q', 'u', 'o', 't', ';']
    } else {
        quot(s.drop_last()).push(s.last())
    }
}

/// Item `i` as HTML: a `details` element that stays open for its children,
/// or a leaf.
pub open spec fn item_html(items: Seq<(nat, Seq<char>, bool)>, i: int, keys: Seq<Seq<char>>) -> Seq<char> {
    let it = items[i];
    if has_kids(items, i) {
        "<details class=node open data-l="@ + decimal(it.0) + " data-t=\""@ + spec_esc(quot(it.1))
            + "\" id=i"@ + decimal(i as nat) + "><summary>"@ + spec_render_line(it, i, keys)
            + "</summary><div class=kids>"@
    } else {
        "<div class=\"item leaf node\" data-t=\""@ + spec_esc(quot(it.1)) + "\" id=i"@ + decimal(i as nat)
            + ">"@ + spec_render_line(it, i, keys) + "</div>"@
    }
}

/// The closing of one `details` element.
pub open spec fn close_html() -> Seq<char> {
    "</div></details>"@
}

/// The HTML of the first `n` items, each preceded by the closings it causes.
pub open spec fn body_upto(items: Seq<(nat, Seq<char>, bool)>, n: int, keys: Seq<Seq<char>>) -> Seq<char>
    decreases n,
{
    if n <= 0 {
        Seq::empty()
    } else {
        body_upto(items, n - 1, keys) + repeat(close_html(), pop_count(open_stack(items, n - 1), items[n - 1].0))
            + item_html(items, n - 1, keys)
    }
}

/// The whole list as nested HTML, every element still open closed at the end.
pub open spec fn spec_render_body(items: Seq<(nat, Seq<char>, bool)>, keys: Seq<Seq<char>>) -> Seq<char> {
    body_upto(items, items.len() as int, keys) + repeat(close_html(), open_stack(items, items.len() as int).len())
}

fn quot_vec(v: &Vec<char>) -> (w: Vec<char>)
    ensures
        w@ == quot(v@),
{
    let mut w: Vec<char> = Vec::new();
    let mut i: usize = 0;
    while i < v.len()
        invariant
            i <= v.len(),
            w@ == quot(v@.take(i as int)),
        decreases v.len() - i,
    {
        assert(v@.take(i + 1).drop_last() == v@.take(i as int));
        if v[i] == '"' {
            w.push('&');
            w.push('q');
            w.push('u');
            w.push('o');
            w.push('t');
            w.push(';');
        } else {
            w.push(v[i]);
        }
        assert(w@ =~= quot(v@.take(i + 1)));
        i += 1;
    }
    assert(v@.take(v@.len() as int) == v@);
    w
}

proof fn lemma_pop_count(stack: Seq<nat>, level: nat)
    ensures
        pop_count(stack, level) <= stack.len(),
        pop_count(stack, level) < stack.len() ==> stack[stack.len() - pop_count(stack, level) - 1] < level,
    decreases stack.len(),
{
    if stack.len() > 0 && level <= stack.last() {
        lemma_pop_count(stack.drop_last(), level);
    }
}

/// Appends the closings caused by an item at `level` and pops them off `stack`.
fn close_levels(out: &mut String, stack: &mut Vec<usize>, level: usize)
    ensures
        final(out)@ == old(out)@ + repeat(close_html(), pop_count(old(stack)@.map_values(|x: usize| x as nat), level as nat)),
        final(stack)@.map_values(|x: usize| x as nat) == old(stack)@.map_values(|x: usize| x as nat).take(
            old(stack)@.len() - pop_count(old(stack)@.map_values(|x: usize| x as nat), level as nat),
        ),
{
    let ghost st0 = old(stack)@.map_values(|x: usize| x as nat);
    let ghost mut popped: nat = 0;
    loop
        invariant
            st0 == old(stack)@.map_values(|x: usize| x as nat),
            popped + stack@.len() == st0.len(),
            stack@.map_values(|x: usize| x as nat) == st0.take(stack@.len() as int),
            pop_count(st0, level as nat) == popped + pop_count(stack@.map_values(|x: usize| x as nat), level as nat),
            out@ == old(out)@ + repeat(close_html(), popped),
        ensures
            popped + stack@.len() == st0.len(),
            stack@.map_values(|x: usize| x as nat) == st0.take(stack@.len() as int),
            pop_count(st0, level as nat) == popped,
            out@ == old(out)@ + repeat(close_html(), popped),
        decreases stack@.len(),
    {
        let ghost sv = stack@.map_values(|x: usize| x as nat);
        let len = stack.len();
        if len == 0 {
            break;
        }
        let top = stack[len - 1];
        if level <= top {
            out.append("</div></details>");
            stack.pop();
            proof {
                assert(sv.drop_last() =~= stack@.map_values(|x: usize| x as nat));
                assert(sv.last() == top as nat);
                popped = popped + 1;
                assert(stack@.map_values(|x: usize| x as nat) =~= st0.take(stack@.len() as int));
            }
        } else {
            assert(sv.last() == top as nat);
            break;
        }
    }
}

/// Appends the HTML of item `i`.
#[verifier::rlimit(40)]
fn push_item_html(out: &mut String, items: &[Item], i: usize, texts: &[String], kids: bool)
    requires
        i < items.len(),
        kids == has_kids(items_view(items@), i as int),
    ensures
        final(out)@ == old(out)@ + item_html(items_view(items@), i as int, key_views(texts@)),
{
    let it = &items[i];
    let v = chars_of(it.text.as_str());
    let plain = quot_vec(&v);
    let line = render_line(it, i, texts);
    assert(items_view(items@)[i as int] == item_view(*it));
    if kids {
        out.append("<details class=node open data-l=");
        push_decimal(out, it.level);
        out.append(" data-t=\"");
        push_esc_range(out, &plain, 0, plain.len());
        out.append("\" id=i");
        push_decimal(out, i);
        out.append("><summary>");
        out.append(line.as_str());
        out.append("</summary><div class=kids>");
    } else {
        out.append("<div class=\"item leaf node\" data-t=\"");
        push_esc_range(out, &plain, 0, plain.len());
        out.append("\" id=i");
        push_decimal(out, i);
        out.append(">");
        out.append(line.as_str());
        out.append("</div>");
    }
    assert(plain@.subrange(0, plain@.len() as int) == plain@);
}

/// The list as nested HTML: an item with children (the next item is
/// deeper) opens a `details` element that later items close when they
/// come back to its level or above; an item without children is a leaf.
pub fn render_body(items: &[Item], texts: &[String]) -> (r: String)
    ensures
        r@ == spec_render_body(items_view(items@), key_views(texts@)),
{
    let ghost iv = items_view(items@);
    let ghost keys = key_views(texts@);
    let n = items.len();
    let mut out = String::new();
    let mut stack: Vec<usize> = Vec::new();
    let mut i: usize = 0;
    while i < n
        invariant
            i <= n == items.len() == iv.len(),
            iv == items_view(items@),
            keys == key_views(texts@),
            out@ == body_upto(iv, i as int, keys),
            stack@.map_values(|x: usize| x as nat) == open_stack(iv, i as int),
        decreases n - i,
    {
        let level = items[i].level;
        assert(iv[i as int].0 == level as nat);
        let kids = i + 1 < n && items[i + 1].level > level;
        assert(kids == has_kids(iv, i as int)) by {
            if i + 1 < n {
                assert(iv[i + 1].0 == items@[i + 1].level as nat);
            }
        }
        close_levels(&mut out, &mut stack, level);
        push_item_html(&mut out, items, i, texts, kids);
        if kids {
            stack.push(level);
        }
        proof {
            assert(stack@.map_values(|x: usize| x as nat) =~= open_stack(iv, i + 1));
        }
        i += 1;
    }
    let ghost final_stack = stack@.map_values(|x: usize| x as nat);
    let mut j: usize = 0;
    while j < stack.len()
        invariant
            j <= stack.len(),
            final_stack == open_stack(iv, n as int),
            final_stack.len() == stack.len(),
            out@ == body_upto(iv, n as int, keys) + repeat(close_html(), j as nat),
        decreases stack.len() - j,
    {
        out.append("</div></details>");
        j += 1;
    }
    out
}

/// The HTML page for a HyperList source.
pub open spec fn spec_render_document(src: Seq<char>, title: Seq<char>, version: Seq<char>) -> Seq<char> {
    spec_render_page(title, version, spec_render_body(spec_parse(src), spec_keys(spec_parse(src))))
}

/// The whole page for a HyperList source: items read, keys computed, the
/// list rendered into the page with its title and version.
pub fn render_document(src: &str, title: &str, version: &str) -> (r: String)
    ensures
        r@ == spec_render_document(src@, title@, version@),
{
    let items = parse(src);
    let keys = match_keys(items.as_slice());
    let body = render_body(items.as_slice(), keys.as_slice());
    render_page(title, version, body.as_str())
}

/// How many items among the first `n` open a `details` element.
pub open spec fn opens(items: Seq<(nat, Seq<char>, bool)>, n: int) -> nat
    decreases n,
{
    if n <= 0 {
        0
    } else {
        opens(items, n - 1) + if has_kids(items, n - 1) { 1nat } else { 0nat }
    }
}

/// How many `details` elements the first `n` items close before themselves.
pub open spec fn closes_before(items: Seq<(nat, Seq<char>, bool)>, n: int) -> nat
    decreases n,
{
    if n <= 0 {
        0
    } else {
        closes_before(items, n - 1) + pop_count(open_stack(items, n - 1), items[n - 1].0)
    }
}

/// Every `details` element the body opens is closed exactly once: by a
/// later item at its level or above, or at the end of the list.
pub proof fn lemma_details_balanced(items: Seq<(nat, Seq<char>, bool)>, n: int)
    requires
        0 <= n <= items.len(),
    ensures
        closes_before(items, n) + open_stack(items, n).len() == opens(items, n),
    decreases n,
{
    if n > 0 {
        lemma_details_balanced(items, n - 1);
        lemma_pop_count(open_stack(items, n - 1), items[n - 1].0);
    }
}

/// The open `details` elements nest by level: each lies strictly deeper
/// than the one around it.
pub proof fn lemma_details_nest_by_level(items: Seq<(nat, Seq<char>, bool)>, n: int)
    requires
        0 <= n <= items.len(),
    ensures
        forall|a: int, b: int|
            0 <= a < b < open_stack(items, n).len() ==> open_stack(items, n)[a] < open_stack(items, n)[b],
    decreases n,
{
    if n > 0 {
        lemma_details_nest_by_level(items, n - 1);
        let st = open_stack(items, n - 1);
        let level = items[n - 1].0;
        lemma_pop_count(st, level);
        let kept = st.take(st.len() - pop_count(st, level));
        assert forall|a: int, b: int| 0 <= a < b < kept.len() implies kept[a] < kept[b] by {
            assert(kept[a] == st[a] && kept[b] == st[b]);
        }
        if has_kids(items, n - 1) {
            let pushed = kept.push(level);
            assert forall|a: int, b: int| 0 <= a < b < pushed.len() implies pushed[a] < pushed[b] by {
                if b == kept.len() {
                    assert(kept[kept.len() - 1] < level);
                    if a < kept.len() - 1 {
                        assert(kept[a] < kept[kept.len() - 1]);
                    }
                }
            }
        }
    }
}

proof fn lemma_quot_no_quote(s: Seq<char>)
    ensures
        !quot(s).contains('"'),
    decreases s.len(),
{
    if s.len() > 0 {
        lemma_quot_no_quote(s.drop_last());
        let q = quot(s.drop_last());
        if s.last() == '"' {
            let t = seq!['&', 'q', 'u', 'o', 't', ';'];
            assert forall|i: int| 0 <= i < (q + t).len() implies (q + t)[i] != '"' by {
                if i >= q.len() {
                    assert((q + t)[i] == t[i - q.len()]);
                } else {
                    assert((q + t)[i] == q[i]);
                }
            }
        } else {
            assert forall|i: int| 0 <= i < q.push(s.last()).len() implies q.push(s.last())[i] != '"' by {
                if i < q.len() {
                    assert(q.push(s.last())[i] == q[i]);
                }
            }
        }
    }
}

proof fn lemma_esc_keeps_no_quote(s: Seq<char>)
    requires
        !s.contains('"'),
    ensures
        !spec_esc(s).contains('"'),
    decreases s.len(),
{
    if s.len() > 0 {
        assert(s.drop_last().contains('"') ==> s.contains('"')) by {
            if s.drop_last().contains('"') {
                let i = choose|i: int| 0 <= i < s.drop_last().len() && s.drop_last()[i] == '"';
                assert(s[i] == '"');
            }
        }
        lemma_esc_keeps_no_quote(s.drop_last());
        let a = spec_esc(s.drop_last());
        let e = esc_char(s.last());
        assert(s[s.len() - 1] == s.last());
        assert forall|i: int| 0 <= i < (a + e).len() implies (a + e)[i] != '"' by {
            if i >= a.len() {
                assert((a + e)[i] == e[i - a.len()]);
            } else {
                assert((a + e)[i] == a[i]);
            }
        }
    }
}

/// The search text of an item, as written into its `data-t` attribute,
/// holds no `"`: it cannot end the attribute early.
pub proof fn lemma_data_t_has_no_quote(text: Seq<char>)
    ensures
        !spec_esc(quot(text)).contains('"'),
{
    lemma_quot_no_quote(text);
    lemma_esc_keeps_no_quote(quot(text));
}

} // verus!
