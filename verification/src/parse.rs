//! Reading a HyperList: one item per non-blank line, its level counted
//! from the indentation, and literal blocks between lone backslashes.

use vstd::prelude::*;
use crate::chars::{chars_of, string_of};
use crate::chars::spec_whitespace;
use crate::scan::{first_index, lemma_first_index, trim, trim_end, trim_start, trim_start_from, trim_end_to, find_from};

verus! {

/// An item of the list: its indentation level, its text without the
/// indentation, and whether it stands in a literal block.
pub struct Item {
    pub level: usize,
    pub text: String,
    pub literal: bool,
}

/// An item as plain values: level, text, literal.
pub open spec fn item_view(it: Item) -> (nat, Seq<char>, bool) {
    (it.level as nat, it.text@, it.literal)
}

pub open spec fn items_view(items: Seq<Item>) -> Seq<(nat, Seq<char>, bool)> {
    items.map_values(|it: Item| item_view(it))
}

/// A line without the carriage return that ended it, if any.
pub open spec fn strip_cr(l: Seq<char>) -> Seq<char> {
    if l.len() > 0 && l.last() == '\r' {
        l.drop_last()
    } else {
        l
    }
}

/// The lines of `s`, as `str::lines` gives them: split at `\n`, a `\r`
/// before the `\n` dropped, and no empty line after a final line ending.
pub open spec fn spec_lines(s: Seq<char>) -> Seq<Seq<char>>
    decreases s.len(),
{
    match first_index(s, '\n') {
        Some(k) => {
            proof {
                lemma_first_index(s, '\n');
            }
            seq![strip_cr(s.take(k))] + spec_lines(s.skip(k + 1))
        },
        None => if s.len() == 0 {
            Seq::empty()
        } else {
            seq![s]
        },
    }
}

/// The indentation level of a line (tabs and runs of three spaces) and the text after it.
pub open spec fn indent(line: Seq<char>) -> (nat, Seq<char>)
    decreases line.len(),
{
    if line.len() >= 1 && line[0] == '\t' {
        (indent(line.skip(1)).0 + 1, indent(line.skip(1)).1)
    } else if line.len() >= 3 && line[0] == ' ' && line[1] == ' ' && line[2] == ' ' {
        (indent(line.skip(3)).0 + 1, indent(line.skip(3)).1)
    } else {
        (0, line)
    }
}

/// The reading state: the items so far, whether a literal block is open,
/// and the level of the backslash that opened the last one.
pub type ParseState = (Seq<(nat, Seq<char>, bool)>, bool, nat);

/// One line read into the state.
pub open spec fn parse_step(st: ParseState, raw: Seq<char>) -> ParseState {
    let line = trim_end(raw);
    if trim_start(line).len() == 0 {
        st
    } else {
        let level = indent(line).0;
        let rest = indent(line).1;
        if rest == seq!['\\'] {
            if st.1 && level == st.2 {
                (st.0.push((level, rest, true)), false, st.2)
            } else if !st.1 {
                (st.0.push((level, rest, true)), true, level)
            } else {
                (st.0.push((level, rest, true)), st.1, st.2)
            }
        } else {
            (st.0.push((level, rest, st.1)), st.1, st.2)
        }
    }
}

/// The state after reading the given lines in order.
pub open spec fn parse_fold(lines: Seq<Seq<char>>) -> ParseState
    decreases lines.len(),
{
    if lines.len() == 0 {
        (Seq::empty(), false, 0)
    } else {
        parse_step(parse_fold(lines.drop_last()), lines.last())
    }
}

/// The items of a HyperList source.
pub open spec fn spec_parse(src: Seq<char>) -> Seq<(nat, Seq<char>, bool)> {
    parse_fold(spec_lines(src)).0
}

/// Reads the line `v[from..to]` into the state.
fn read_line(v: &Vec<char>, from: usize, to: usize, out: &mut Vec<Item>, lit: &mut bool, lit_level: &mut usize)
    requires
        from <= to <= v.len(),
    ensures
        (items_view(final(out)@), *final(lit), *final(lit_level) as nat)
            == parse_step((items_view(old(out)@), *old(lit), *old(lit_level) as nat), v@.subrange(from as int, to as int)),
{
    let ghost raw = v@.subrange(from as int, to as int);
    let e = trim_end_to(v, from, to);
    let b0 = trim_start_from(v, from, e);
    if b0 == e {
        assert(trim_start(trim_end(raw)).len() == 0);
        return;
    }
    let mut level: usize = 0;
    let mut b: usize = from;
    loop
        invariant
            from <= b <= e <= v.len(),
            level <= b - from,
            indent(v@.subrange(from as int, e as int)).0 == level + indent(v@.subrange(b as int, e as int)).0,
            indent(v@.subrange(from as int, e as int)).1 == indent(v@.subrange(b as int, e as int)).1,
        ensures
            from <= b <= e,
            indent(v@.subrange(from as int, e as int)).0 == level,
            indent(v@.subrange(from as int, e as int)).1 == v@.subrange(b as int, e as int),
        decreases e - b,
    {
        let ghost l = v@.subrange(b as int, e as int);
        if b < e && v[b] == '\t' {
            assert(l.skip(1) == v@.subrange(b + 1, e as int));
            b += 1;
            level += 1;
        } else if e - b >= 3 && v[b] == ' ' && v[b + 1] == ' ' && v[b + 2] == ' ' {
            assert(l.skip(3) == v@.subrange(b + 3, e as int));
            b += 3;
            level += 1;
        } else {
            break;
        }
    }
    let ghost rest = v@.subrange(b as int, e as int);
    if e - b == 1 && v[b] == '\\' {
        assert(rest == seq!['\\']);
        if *lit && level == *lit_level {
            *lit = false;
        } else if !*lit {
            *lit = true;
            *lit_level = level;
        }
        let text = string_of(v, b, e);
        out.push(Item { level, text, literal: true });
    } else {
        assert(rest != seq!['\\']);
        let text = string_of(v, b, e);
        out.push(Item { level, text, literal: *lit });
    }
}

/// The items of a HyperList source, one per non-blank line, in order.
pub fn parse(src: &str) -> (items: Vec<Item>)
    ensures
        items_view(items@) == spec_parse(src@),
{
    let v = chars_of(src);
    let n = v.len();
    let mut out: Vec<Item> = Vec::new();
    let mut lit = false;
    let mut lit_level: usize = 0;
    let mut pos: usize = 0;
    let ghost mut done: Seq<Seq<char>> = Seq::empty();
    assert(v@.skip(0) == v@);
    while pos < n
        invariant
            pos <= n == v.len(),
            spec_lines(v@) == done + spec_lines(v@.skip(pos as int)),
            (items_view(out@), lit, lit_level as nat) == parse_fold(done),
        decreases n - pos,
    {
        let ghost s = v@.skip(pos as int);
        match find_from(&v, pos, '\n') {
            Some(k) => {
                let mut end = k;
                if end > pos && v[end - 1] == '\r' {
                    end = end - 1;
                }
                proof {
                    lemma_first_index(s, '\n');
                    assert(s.take(k - pos) == v@.subrange(pos as int, k as int));
                    assert(strip_cr(s.take(k - pos)) == v@.subrange(pos as int, end as int));
                    assert(s.skip(k - pos + 1) == v@.skip(k + 1));
                }
                read_line(&v, pos, end, &mut out, &mut lit, &mut lit_level);
                proof {
                    let line = v@.subrange(pos as int, end as int);
                    assert(done.push(line).drop_last() == done);
                    assert(spec_lines(s) == seq![line] + spec_lines(v@.skip(k + 1)));
                    assert(spec_lines(v@) == done.push(line) + spec_lines(v@.skip(k + 1)));
                    done = done.push(line);
                }
                pos = k + 1;
            },
            None => {
                proof {
                    assert(s == v@.subrange(pos as int, n as int));
                    assert(v@.skip(n as int).len() == 0);
                }
                read_line(&v, pos, n, &mut out, &mut lit, &mut lit_level);
                proof {
                    let line = v@.subrange(pos as int, n as int);
                    assert(done.push(line).drop_last() == done);
                    assert(spec_lines(v@) == done.push(line) + spec_lines(v@.skip(n as int)));
                    done = done.push(line);
                }
                pos = n;
            },
        }
    }
    proof {
        assert(v@.skip(n as int).len() == 0);
        assert(done + spec_lines(v@.skip(n as int)) == done);
    }
    out
}

proof fn lemma_fold_literals(lines: Seq<Seq<char>>)
    ensures
        forall|k: int| 0 <= k < parse_fold(lines).0.len() && (#[trigger] parse_fold(lines).0[k]).1 == seq!['\\']
            ==> parse_fold(lines).0[k].2,
        (forall|k: int| 0 <= k < parse_fold(lines).0.len() ==> (#[trigger] parse_fold(lines).0[k]).1 != seq!['\\'])
            ==> !parse_fold(lines).1 && forall|k: int| 0 <= k < parse_fold(lines).0.len()
                ==> !(#[trigger] parse_fold(lines).0[k]).2,
    decreases lines.len(),
{
    if lines.len() > 0 {
        let prev = parse_fold(lines.drop_last());
        lemma_fold_literals(lines.drop_last());
        let cur = parse_fold(lines);
        assert(cur.0.len() == prev.0.len() || cur.0.len() == prev.0.len() + 1);
        assert forall|k: int| 0 <= k < prev.0.len() implies cur.0[k] == prev.0[k] by {}
        if (forall|k: int| 0 <= k < cur.0.len() ==> (#[trigger] cur.0[k]).1 != seq!['\\']) {
            assert forall|k: int| 0 <= k < prev.0.len() implies (#[trigger] prev.0[k]).1 != seq!['\\'] by {
                assert(cur.0[k] == prev.0[k]);
            }
            let line = trim_end(lines.last());
            if trim_start(line).len() != 0 {
                let rest = indent(line).1;
                assert(cur.0[cur.0.len() - 1].1 == rest);
                assert(rest != seq!['\\']);
                assert(cur.0[cur.0.len() - 1].2 == prev.1);
            }
        }
    }
}

/// The lone backslash lines that open and close literal blocks stay
/// visible, and are shown as literal text.
pub proof fn lemma_backslash_items_literal(src: Seq<char>)
    ensures
        forall|k: int| 0 <= k < spec_parse(src).len() && (#[trigger] spec_parse(src)[k]).1 == seq!['\\']
            ==> spec_parse(src)[k].2,
{
    lemma_fold_literals(spec_lines(src));
}

/// Without a lone backslash line there is no literal block: no item is literal.
pub proof fn lemma_no_backslash_no_literal(src: Seq<char>)
    requires
        forall|k: int| 0 <= k < spec_parse(src).len() ==> (#[trigger] spec_parse(src)[k]).1 != seq!['\\'],
    ensures
        forall|k: int| 0 <= k < spec_parse(src).len() ==> !(#[trigger] spec_parse(src)[k]).2,
{
    lemma_fold_literals(spec_lines(src));
}

/// `p` is made of exactly `n` indentation units: tabs or runs of three spaces.
pub open spec fn is_indent(p: Seq<char>, n: nat) -> bool
    decreases p.len(),
{
    if p.len() == 0 {
        n == 0
    } else if n == 0 {
        false
    } else if p[0] == '\t' {
        is_indent(p.skip(1), (n - 1) as nat)
    } else if p.len() >= 3 && p[0] == ' ' && p[1] == ' ' && p[2] == ' ' {
        is_indent(p.skip(3), (n - 1) as nat)
    } else {
        false
    }
}

/// `t` starts with an indentation unit.
pub open spec fn starts_with_unit(t: Seq<char>) -> bool {
    (t.len() >= 1 && t[0] == '\t') || (t.len() >= 3 && t[0] == ' ' && t[1] == ' ' && t[2] == ' ')
}

proof fn lemma_indent(line: Seq<char>)
    ensures
        indent(line).1.len() <= line.len(),
        line == line.take(line.len() - indent(line).1.len()) + indent(line).1,
        is_indent(line.take(line.len() - indent(line).1.len()), indent(line).0),
        !starts_with_unit(indent(line).1),
    decreases line.len(),
{
    if line.len() >= 1 && line[0] == '\t' {
        let t = line.skip(1);
        lemma_indent(t);
        let r = indent(line).1;
        let q = t.take(t.len() - r.len());
        let p = line.take(line.len() - r.len());
        assert(line =~= line.take(1) + t);
        assert(p =~= line.take(1) + q);
        assert(p.skip(1) =~= q);
        assert(line.take(1) + t == line.take(1) + (q + r));
        assert(line.take(1) + (q + r) =~= (line.take(1) + q) + r);
    } else if line.len() >= 3 && line[0] == ' ' && line[1] == ' ' && line[2] == ' ' {
        let t = line.skip(3);
        lemma_indent(t);
        let r = indent(line).1;
        let q = t.take(t.len() - r.len());
        let p = line.take(line.len() - r.len());
        assert(line =~= line.take(3) + t);
        assert(p =~= line.take(3) + q);
        assert(p.skip(3) =~= q);
        assert(line.take(3) + t == line.take(3) + (q + r));
        assert(line.take(3) + (q + r) =~= (line.take(3) + q) + r);
    } else {
        assert(line.take(0) =~= Seq::<char>::empty());
        assert(line =~= line.take(0) + line);
    }
}

proof fn lemma_trim_end_last(s: Seq<char>)
    ensures
        trim_end(s).len() > 0 ==> !spec_whitespace(trim_end(s).last()),
        trim_end(trim_end(s)) == trim_end(s),
    decreases s.len(),
{
    if s.len() > 0 && spec_whitespace(s.last()) {
        lemma_trim_end_last(s.drop_last());
    }
}

proof fn lemma_trim_start_keeps_last(s: Seq<char>)
    requires
        s.len() > 0,
        !spec_whitespace(s.last()),
    ensures
        trim_start(s).len() > 0,
    decreases s.len(),
{
    if spec_whitespace(s[0]) {
        assert(s.len() > 1);
        assert(s.drop_first().last() == s.last());
        lemma_trim_start_keeps_last(s.drop_first());
    }
}

proof fn lemma_indent_ends_in_blank(p: Seq<char>, n: nat)
    requires
        is_indent(p, n),
        p.len() > 0,
    ensures
        p.last() == '\t' || p.last() == ' ',
    decreases p.len(),
{
    if p[0] == '\t' {
        if p.len() > 1 {
            lemma_indent_ends_in_blank(p.skip(1), (n - 1) as nat);
            assert(p.skip(1).last() == p.last());
        }
    } else {
        if p.len() > 3 {
            lemma_indent_ends_in_blank(p.skip(3), (n - 1) as nat);
            assert(p.skip(3).last() == p.last());
        }
    }
}

/// The non-blank lines among `lines`, in order.
pub open spec fn nonblank(lines: Seq<Seq<char>>) -> Seq<Seq<char>>
    decreases lines.len(),
{
    if lines.len() == 0 {
        Seq::empty()
    } else if trim(lines.last()).len() > 0 {
        nonblank(lines.drop_last()).push(lines.last())
    } else {
        nonblank(lines.drop_last())
    }
}

/// The literal-block state after scanning the first `n` items: whether a
/// block is open, and the level of the backslash that opened it.
pub open spec fn literal_scan(items: Seq<(nat, Seq<char>, bool)>, n: int) -> (bool, nat)
    decreases n,
{
    if n <= 0 {
        (false, 0)
    } else {
        let st = literal_scan(items, n - 1);
        let it = items[n - 1];
        if it.1 == seq!['\\'] {
            if st.0 && it.0 == st.1 {
                (false, st.1)
            } else if !st.0 {
                (true, it.0)
            } else {
                st
            }
        } else {
            st
        }
    }
}

proof fn lemma_literal_scan_prefix(items: Seq<(nat, Seq<char>, bool)>, x: (nat, Seq<char>, bool), n: int)
    requires
        0 <= n <= items.len(),
    ensures
        literal_scan(items.push(x), n) == literal_scan(items, n),
    decreases n,
{
    if n > 0 {
        lemma_literal_scan_prefix(items, x, n - 1);
        assert(items.push(x)[n - 1] == items[n - 1]);
    }
}

/// What reading the lines gives, item by item.
proof fn lemma_fold_items(lines: Seq<Seq<char>>)
    ensures
        parse_fold(lines).0.len() == nonblank(lines).len(),
        (parse_fold(lines).1, parse_fold(lines).2) == literal_scan(parse_fold(lines).0, parse_fold(lines).0.len() as int),
        forall|k: int| 0 <= k < parse_fold(lines).0.len() ==> {
            let it = #[trigger] parse_fold(lines).0[k];
            let line = trim_end(nonblank(lines)[k]);
            let text = it.1;
            &&& text.len() <= line.len()
            &&& line == line.take(line.len() - text.len()) + text
            &&& is_indent(line.take(line.len() - text.len()), it.0)
            &&& !starts_with_unit(text)
            &&& trim_end(text) == text
            &&& text.len() > 0
            &&& trim(text).len() > 0
            &&& it.2 == (text == seq!['\\'] || literal_scan(parse_fold(lines).0, k).0)
        },
    decreases lines.len(),
{
    if lines.len() > 0 {
        let prev = lines.drop_last();
        lemma_fold_items(prev);
        let p = parse_fold(prev);
        let c = parse_fold(lines);
        let raw = lines.last();
        let line = trim_end(raw);
        if trim_start(line).len() != 0 {
            let it = (indent(line).0, indent(line).1, c.0.last().2);
            assert(c.0 == p.0.push(c.0.last()));
            assert(c.0.last().0 == indent(line).0 && c.0.last().1 == indent(line).1);
            assert(nonblank(lines) == nonblank(prev).push(raw));
            lemma_indent(line);
            lemma_trim_end_last(raw);
            let text = indent(line).1;
            if text.len() == 0 {
                let p = line.take(line.len() - text.len());
                assert(line.len() > 0);
                assert(p =~= line);
                lemma_indent_ends_in_blank(p, indent(line).0);
                assert(false);
            }
            if text.len() > 0 {
                assert(text.last() == line.last());
                lemma_trim_start_keeps_last(text);
            }
            assert(trim_end(text) == text);
            assert forall|k: int| 0 <= k <= p.0.len() implies literal_scan(c.0, k) == literal_scan(p.0, k) by {
                lemma_literal_scan_prefix(p.0, c.0.last(), k);
            }
            assert forall|k: int| 0 <= k < p.0.len() implies c.0[k] == p.0[k] && nonblank(lines)[k] == nonblank(prev)[k] by {}
        } else {
            assert(nonblank(lines) == nonblank(prev));
        }
    }
}

/// Every non-blank line gives one item, in order: the line without its
/// trailing white space is the item's indentation (as many tabs or runs of
/// three spaces as its level) followed by its text; the text is not blank,
/// and it neither starts with a further unit nor ends in white space.
pub proof fn lemma_items_are_lines(src: Seq<char>)
    ensures
        spec_parse(src).len() == nonblank(spec_lines(src)).len(),
        forall|k: int| 0 <= k < spec_parse(src).len() ==> {
            let it = #[trigger] spec_parse(src)[k];
            let line = trim_end(nonblank(spec_lines(src))[k]);
            let text = it.1;
            &&& text.len() <= line.len()
            &&& line == line.take(line.len() - text.len()) + text
            &&& is_indent(line.take(line.len() - text.len()), it.0)
            &&& !starts_with_unit(text)
            &&& trim_end(text) == text
            &&& text.len() > 0
            &&& trim(text).len() > 0
        },
{
    lemma_fold_items(spec_lines(src));
}

/// The literal blocks, read off the items: a lone backslash opens a block
/// when none is open and closes the open one only at the level of the
/// backslash that opened it; every other item is literal exactly while a
/// block is open, so an unclosed block runs to the end.
pub proof fn lemma_literal_blocks(src: Seq<char>)
    ensures
        forall|k: int| 0 <= k < spec_parse(src).len() ==>
            (#[trigger] spec_parse(src)[k]).2 == (spec_parse(src)[k].1 == seq!['\\']
                || literal_scan(spec_parse(src), k).0),
{
    lemma_fold_items(spec_lines(src));
}

} // verus!
