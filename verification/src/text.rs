//! HTML escaping and the small sequence operations shared by the renderer.

use vstd::prelude::*;
use crate::chars::{chars_of, push_char};
use crate::scan::lemma_prefix_extend;

verus! {

/// The HTML text for one character: `&`, `<` and `>` become entities.
pub open spec fn esc_char(c: char) -> Seq<char> {
    if c == '&' {
        seq!['&', 'a', 'm', 'p', ';']
    } else if c == '<' {
        seq!['&', 'l', 't', ';']
    } else if c == '>' {
        seq!['&', 'g', 't', ';']
    } else {
        seq![c]
    }
}

/// The HTML text for a run of characters, escaped one character at a time.
pub open spec fn spec_esc(s: Seq<char>) -> Seq<char>
    decreases s.len(),
{
    if s.len() == 0 {
        Seq::empty()
    } else {
        spec_esc(s.drop_last()) + esc_char(s.last())
    }
}

/// Appends the escaped form of one character.
pub fn push_esc_char(out: &mut String, c: char)
    ensures
        final(out)@ == old(out)@ + esc_char(c),
{
    if c == '&' {
        push_char(out, '&');
        push_char(out, 'a');
        push_char(out, 'm');
        push_char(out, 'p');
        push_char(out, ';');
    } else if c == '<' {
        push_char(out, '&');
        push_char(out, 'l');
        push_char(out, 't');
        push_char(out, ';');
    } else if c == '>' {
        push_char(out, '&');
        push_char(out, 'g');
        push_char(out, 't');
        push_char(out, ';');
    } else {
        push_char(out, c);
    }
    assert(final(out)@ =~= old(out)@ + esc_char(c));
}

/// Appends the escaped form of `v[from..to]`.
pub fn push_esc_range(out: &mut String, v: &Vec<char>, from: usize, to: usize)
    requires
        from <= to <= v.len(),
    ensures
        final(out)@ == old(out)@ + spec_esc(v@.subrange(from as int, to as int)),
{
    let mut i: usize = from;
    while i < to
        invariant
            from <= i <= to <= v.len(),
            out@ == old(out)@ + spec_esc(v@.subrange(from as int, i as int)),
        decreases to - i,
    {
        push_esc_char(out, v[i]);
        assert(v@.subrange(from as int, i + 1).drop_last() == v@.subrange(from as int, i as int));
        assert(out@ == old(out)@ + spec_esc(v@.subrange(from as int, i + 1)));
        i += 1;
    }
}

/// `&`, `<` and `>` of `s` replaced by `&amp;`, `&lt;` and `&gt;`.
pub fn esc(s: &str) -> (r: String)
    ensures
        r@ == spec_esc(s@),
{
    let v = chars_of(s);
    let mut r = String::new();
    push_esc_range(&mut r, &v, 0, v.len());
    assert(v@.subrange(0, v@.len() as int) == v@);
    r
}

/// Escaped text holds no `<` and no `>`: user text can never open or close a tag.
pub proof fn lemma_esc_no_angle_brackets(s: Seq<char>)
    ensures
        forall|i: int| 0 <= i < spec_esc(s).len() ==> spec_esc(s)[i] != '<' && spec_esc(s)[i] != '>',
    decreases s.len(),
{
    if s.len() > 0 {
        lemma_esc_no_angle_brackets(s.drop_last());
        let a = spec_esc(s.drop_last());
        let e = esc_char(s.last());
        assert forall|i: int| 0 <= i < (a + e).len() implies (a + e)[i] != '<' && (a + e)[i] != '>' by {
            if i >= a.len() {
                assert((a + e)[i] == e[i - a.len()]);
            }
        }
    }
}

/// Escaping works character by character: escaping a concatenation is the
/// concatenation of the escaped parts.
pub proof fn lemma_esc_concat(a: Seq<char>, b: Seq<char>)
    ensures
        spec_esc(a + b) == spec_esc(a) + spec_esc(b),
    decreases b.len(),
{
    if b.len() == 0 {
        assert(a + b =~= a);
        assert(spec_esc(a) + spec_esc(b) =~= spec_esc(a));
    } else {
        lemma_esc_concat(a, b.drop_last());
        assert((a + b).drop_last() =~= a + b.drop_last());
        assert(spec_esc(a) + spec_esc(b) =~= spec_esc(a) + spec_esc(b.drop_last()) + esc_char(b.last()));
    }
}

/// Text without `&`, `<` and `>` is its own escaped form.
pub proof fn lemma_esc_plain(s: Seq<char>)
    requires
        forall|i: int| 0 <= i < s.len() ==> s[i] != '&' && s[i] != '<' && s[i] != '>',
    ensures
        spec_esc(s) == s,
    decreases s.len(),
{
    if s.len() > 0 {
        lemma_esc_plain(s.drop_last());
        assert(s.drop_last().push(s.last()) =~= s);
    }
}

/// One left-to-right pass that decodes `&amp;`, `&lt;` and `&gt;`, leaving
/// every other character as it is.
pub open spec fn unesc(s: Seq<char>) -> Seq<char>
    decreases s.len(),
{
    if s.len() == 0 {
        Seq::empty()
    } else if seq!['&', 'a', 'm', 'p', ';'].is_prefix_of(s) {
        seq!['&'] + unesc(s.skip(5))
    } else if seq!['&', 'l', 't', ';'].is_prefix_of(s) {
        seq!['<'] + unesc(s.skip(4))
    } else if seq!['&', 'g', 't', ';'].is_prefix_of(s) {
        seq!['>'] + unesc(s.skip(4))
    } else {
        seq![s[0]] + unesc(s.drop_first())
    }
}

proof fn lemma_unesc_char(c: char, z: Seq<char>)
    ensures
        unesc(esc_char(c) + z) == seq![c] + unesc(z),
{
    let w = esc_char(c) + z;
    assert(w[0] == esc_char(c)[0]);
    if c == '&' {
        assert(w.skip(5) =~= z);
        assert(seq!['&', 'a', 'm', 'p', ';'] =~= w.subrange(0, 5));
    } else if c == '<' {
        assert(w.skip(4) =~= z);
        assert(seq!['&', 'l', 't', ';'] =~= w.subrange(0, 4));
        assert(seq!['&', 'a', 'm', 'p', ';'][1] != w[1]);
    } else if c == '>' {
        assert(w.skip(4) =~= z);
        assert(seq!['&', 'g', 't', ';'] =~= w.subrange(0, 4));
        assert(seq!['&', 'a', 'm', 'p', ';'][1] != w[1]);
        assert(seq!['&', 'l', 't', ';'][1] != w[1]);
    } else {
        assert(w.drop_first() =~= z);
        assert(w[0] == c);
        assert(!seq!['&', 'a', 'm', 'p', ';'].is_prefix_of(w)) by {
            if seq!['&', 'a', 'm', 'p', ';'].is_prefix_of(w) {
                assert(w.subrange(0, 5)[0] == '&');
            }
        }
        assert(!seq!['&', 'l', 't', ';'].is_prefix_of(w)) by {
            if seq!['&', 'l', 't', ';'].is_prefix_of(w) {
                assert(w.subrange(0, 4)[0] == '&');
            }
        }
        assert(!seq!['&', 'g', 't', ';'].is_prefix_of(w)) by {
            if seq!['&', 'g', 't', ';'].is_prefix_of(w) {
                assert(w.subrange(0, 4)[0] == '&');
            }
        }
    }
}

pub proof fn lemma_esc_single(c: char)
    ensures
        spec_esc(seq![c]) == esc_char(c),
{
    let s = seq![c];
    assert(s.drop_last() =~= Seq::<char>::empty());
    assert(spec_esc(s.drop_last()) =~= Seq::<char>::empty());
    assert(s.last() == c);
    assert(spec_esc(s) =~= spec_esc(s.drop_last()) + esc_char(c));
}

proof fn lemma_esc_front(x: Seq<char>)
    requires
        x.len() > 0,
    ensures
        spec_esc(x) == esc_char(x[0]) + spec_esc(x.drop_first()),
{
    assert(x =~= seq![x[0]] + x.drop_first());
    lemma_esc_concat(seq![x[0]], x.drop_first());
    lemma_esc_single(x[0]);
}

/// Decoding escaped text followed by anything gives the text back first.
pub proof fn lemma_unesc_esc_prefix(x: Seq<char>, y: Seq<char>)
    ensures
        unesc(spec_esc(x) + y) == x + unesc(y),
    decreases x.len(),
{
    if x.len() > 0 {
        let c = x[0];
        let rest = x.drop_first();
        lemma_esc_front(x);
        lemma_unesc_esc_prefix(rest, y);
        assert(spec_esc(x) + y =~= esc_char(c) + (spec_esc(rest) + y));
        lemma_unesc_char(c, spec_esc(rest) + y);
        assert(x + unesc(y) =~= seq![c] + (rest + unesc(y)));
    } else {
        assert(spec_esc(x) + y =~= y);
        assert(x + unesc(y) =~= unesc(y));
    }
}

/// Escaping loses nothing: decoding the three entities in one pass gives
/// the text back.
pub proof fn lemma_esc_decodes(s: Seq<char>)
    ensures
        unesc(spec_esc(s)) == s,
{
    lemma_unesc_esc_prefix(s, Seq::empty());
    assert(spec_esc(s) + Seq::<char>::empty() =~= spec_esc(s));
    assert(s + Seq::<char>::empty() =~= s);
}

/// An `&` at position `i` begins one of the three entities.
pub open spec fn entity_at(s: Seq<char>, i: int) -> bool {
    seq!['&', 'a', 'm', 'p', ';'].is_prefix_of(s.skip(i)) || seq!['&', 'l', 't', ';'].is_prefix_of(s.skip(i))
        || seq!['&', 'g', 't', ';'].is_prefix_of(s.skip(i))
}

/// Every `&` of escaped text begins `&amp;`, `&lt;` or `&gt;`.
pub proof fn lemma_esc_ampersands(s: Seq<char>)
    ensures
        forall|i: int| 0 <= i < spec_esc(s).len() && spec_esc(s)[i] == '&' ==> entity_at(spec_esc(s), i),
    decreases s.len(),
{
    if s.len() > 0 {
        lemma_esc_ampersands(s.drop_last());
        let a = spec_esc(s.drop_last());
        let e = esc_char(s.last());
        assert forall|i: int| 0 <= i < (a + e).len() && (a + e)[i] == '&' implies entity_at(a + e, i) by {
            if i < a.len() {
                assert(a[i] == '&');
                assert((a + e).skip(i) =~= a.skip(i) + e);
                if seq!['&', 'a', 'm', 'p', ';'].is_prefix_of(a.skip(i)) {
                    lemma_prefix_extend(seq!['&', 'a', 'm', 'p', ';'], a.skip(i), e);
                } else if seq!['&', 'l', 't', ';'].is_prefix_of(a.skip(i)) {
                    lemma_prefix_extend(seq!['&', 'l', 't', ';'], a.skip(i), e);
                } else {
                    lemma_prefix_extend(seq!['&', 'g', 't', ';'], a.skip(i), e);
                }
            } else {
                assert((a + e)[i] == e[i - a.len()]);
                assert((a + e).skip(i) =~= e.skip(i - a.len()));
                assert(i == a.len());
                assert(e.skip(0) =~= e);
            }
        }
    }
}

} // verus!
