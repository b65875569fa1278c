//! The order of texts and of paths.

use crate::paths::{components, ordered, same_path, spans, spans_of, spans_view};
use crate::text::chars_of;
use vstd::prelude::*;

verus! {

/// The dictionary order of two sequences of numbers.
pub open spec fn lex(a: Seq<int>, b: Seq<int>) -> bool
    decreases a.len(),
{
    if b.len() == 0 {
        false
    } else if a.len() == 0 {
        true
    } else if a[0] == b[0] {
        lex(a.drop_first(), b.drop_first())
    } else {
        a[0] < b[0]
    }
}

/// The characters of a text, as numbers.
pub open spec fn codes(text: Seq<char>) -> Seq<int> {
    Seq::new(text.len(), |i: int| (text[i] as u32) as int)
}

/// Whether one text comes before another: character by character, the shorter
/// first.
pub open spec fn text_before(a: Seq<char>, b: Seq<char>) -> bool {
    lex(codes(a), codes(b))
}

proof fn lemma_lex_irreflexive(a: Seq<int>)
    ensures
        !lex(a, a),
    decreases a.len(),
{
    if a.len() > 0 {
        lemma_lex_irreflexive(a.drop_first());
    }
}

proof fn lemma_lex_transitive(a: Seq<int>, b: Seq<int>, c: Seq<int>)
    requires
        lex(a, b),
        lex(b, c),
    ensures
        lex(a, c),
    decreases a.len(),
{
    if a.len() > 0 && a[0] == b[0] && b[0] == c[0] {
        lemma_lex_transitive(a.drop_first(), b.drop_first(), c.drop_first());
    }
}

proof fn lemma_lex_total(a: Seq<int>, b: Seq<int>)
    ensures
        lex(a, b) || lex(b, a) || a == b,
    decreases a.len(),
{
    if a.len() > 0 && b.len() > 0 && a[0] == b[0] {
        lemma_lex_total(a.drop_first(), b.drop_first());
        if a.drop_first() == b.drop_first() {
            assert(a =~= seq![a[0]] + a.drop_first());
            assert(b =~= seq![b[0]] + b.drop_first());
        }
    } else if a.len() == 0 && b.len() == 0 {
        assert(a =~= b);
    }
}

proof fn lemma_codes(a: Seq<char>, b: Seq<char>)
    ensures
        codes(a) == codes(b) <==> a == b,
{
    if codes(a) == codes(b) {
        assert(codes(a).len() == a.len() && codes(b).len() == b.len());
        assert forall|i: int| 0 <= i < a.len() implies a[i] == b[i] by {
            assert(codes(a)[i] == codes(b)[i]);
            vstd::utf8::char_u32_cast(a[i], a[i] as u32);
            vstd::utf8::char_u32_cast(b[i], b[i] as u32);
        }
        assert(a =~= b);
    }
}

/// The order of texts is strict and total.
pub proof fn lemma_text_order(a: Seq<char>, b: Seq<char>, c: Seq<char>)
    ensures
        !text_before(a, a),
        text_before(a, b) && text_before(b, c) ==> text_before(a, c),
        text_before(a, b) || text_before(b, a) || a == b,
{
    lemma_lex_irreflexive(codes(a));
    lemma_lex_total(codes(a), codes(b));
    lemma_codes(a, b);
    if text_before(a, b) && text_before(b, c) {
        lemma_lex_transitive(codes(a), codes(b), codes(c));
    }
}

/// Whether one text comes before another.
#[verifier::loop_isolation(false)]
pub fn is_text_before(a: &str, b: &str) -> (r: bool)
    ensures
        r == text_before(a@, b@),
{
    let a = chars_of(a);
    let b = chars_of(b);
    let mut i: usize = 0;
    assert(codes(a@).subrange(0, codes(a@).len() as int) =~= codes(a@));
    assert(codes(b@).subrange(0, codes(b@).len() as int) =~= codes(b@));
    loop
        invariant
            i <= a.len(),
            i <= b.len(),
            text_before(a@, b@) == lex(
                codes(a@).subrange(i as int, a@.len() as int),
                codes(b@).subrange(i as int, b@.len() as int),
            ),
        decreases a.len() - i,
    {
        let ghost x = codes(a@).subrange(i as int, a@.len() as int);
        let ghost y = codes(b@).subrange(i as int, b@.len() as int);
        if i == b.len() {
            return false;
        }
        if i == a.len() {
            return true;
        }
        assert(x[0] == (a@[i as int] as u32) as int);
        assert(y[0] == (b@[i as int] as u32) as int);
        let p: u32 = a[i] as u32;
        let q: u32 = b[i] as u32;
        if p != q {
            return p < q;
        }
        assert(x.drop_first() =~= codes(a@).subrange(i + 1, a@.len() as int));
        assert(y.drop_first() =~= codes(b@).subrange(i + 1, b@.len() as int));
        i = i + 1;
    }
}

/// The rank of a component by its sort: the root, then `.`, then `..`, then
/// names.
pub open spec fn rank(word: Seq<char>) -> int {
    if word == seq!['/'] {
        0
    } else if word == seq!['.'] {
        1
    } else if word == seq!['.', '.'] {
        2
    } else {
        3
    }
}

/// Whether one component comes before another: by its sort, then as a text.
pub open spec fn word_before(a: Seq<char>, b: Seq<char>) -> bool {
    rank(a) < rank(b) || (rank(a) == rank(b) && text_before(a, b))
}

/// The dictionary order of two sequences of components.
pub open spec fn words_before(a: Seq<Seq<char>>, b: Seq<Seq<char>>) -> bool
    decreases a.len(),
{
    if b.len() == 0 {
        false
    } else if a.len() == 0 {
        true
    } else if a[0] == b[0] {
        words_before(a.drop_first(), b.drop_first())
    } else {
        word_before(a[0], b[0])
    }
}

/// Whether one path comes before another, component by component.
pub open spec fn path_before(a: Seq<char>, b: Seq<char>) -> bool {
    words_before(components(a), components(b))
}

proof fn lemma_word_order(a: Seq<char>, b: Seq<char>, c: Seq<char>)
    ensures
        !word_before(a, a),
        word_before(a, b) && word_before(b, c) ==> word_before(a, c),
        word_before(a, b) || word_before(b, a) || a == b,
{
    lemma_text_order(a, b, c);
}

proof fn lemma_words_irreflexive(a: Seq<Seq<char>>)
    ensures
        !words_before(a, a),
    decreases a.len(),
{
    if a.len() > 0 {
        lemma_words_irreflexive(a.drop_first());
    }
}

proof fn lemma_words_transitive(a: Seq<Seq<char>>, b: Seq<Seq<char>>, c: Seq<Seq<char>>)
    requires
        words_before(a, b),
        words_before(b, c),
    ensures
        words_before(a, c),
    decreases a.len(),
{
    if a.len() > 0 {
        lemma_word_order(a[0], b[0], c[0]);
        lemma_word_order(b[0], c[0], a[0]);
        lemma_word_order(a[0], c[0], a[0]);
        if a[0] == b[0] && b[0] == c[0] {
            lemma_words_transitive(a.drop_first(), b.drop_first(), c.drop_first());
        } else if a[0] == c[0] {
            lemma_word_order(a[0], b[0], a[0]);
        }
    }
}

proof fn lemma_words_total(a: Seq<Seq<char>>, b: Seq<Seq<char>>)
    ensures
        words_before(a, b) || words_before(b, a) || a == b,
    decreases a.len(),
{
    if a.len() > 0 && b.len() > 0 {
        lemma_word_order(a[0], b[0], a[0]);
        if a[0] == b[0] {
            lemma_words_total(a.drop_first(), b.drop_first());
            if a.drop_first() == b.drop_first() {
                assert(a =~= seq![a[0]] + a.drop_first());
                assert(b =~= seq![b[0]] + b.drop_first());
            }
        }
    } else if a.len() == 0 && b.len() == 0 {
        assert(a =~= b);
    }
}

/// The order of paths is strict, and total but for the spelling.
pub proof fn lemma_path_order(a: Seq<char>, b: Seq<char>, c: Seq<char>)
    ensures
        !path_before(a, a),
        same_path(a, b) ==> !path_before(a, b),
        path_before(a, b) && path_before(b, c) ==> path_before(a, c),
        path_before(a, b) || path_before(b, a) || same_path(a, b),
{
    lemma_words_irreflexive(components(a));
    lemma_words_total(components(a), components(b));
    if path_before(a, b) && path_before(b, c) {
        lemma_words_transitive(components(a), components(b), components(c));
    }
}

/// The component a span covers, as a text.
fn word_at(path: &[char], span: (usize, usize)) -> (r: String)
    requires
        span.0 <= span.1 <= path.len(),
    ensures
        r@ == path@.subrange(span.0 as int, span.1 as int),
{
    crate::text::text_of(vstd::slice::slice_subrange(path, span.0, span.1))
}

fn rank_of(word: &str) -> (r: u8)
    ensures
        r == rank(word@),
{
    let chars = chars_of(word);
    proof {
        if chars@.len() == 1 {
            assert(chars@ =~= seq![chars@[0]]);
        }
        if chars@.len() == 2 {
            assert(chars@ =~= seq![chars@[0], chars@[1]]);
        }
    }
    if chars.len() == 1 && chars[0] == '/' {
        0
    } else if chars.len() == 1 && chars[0] == '.' {
        1
    } else if chars.len() == 2 && chars[0] == '.' && chars[1] == '.' {
        2
    } else {
        3
    }
}

/// Whether one path comes before another, component by component.
#[verifier::loop_isolation(false)]
pub fn is_path_before(a: &str, b: &str) -> (r: bool)
    ensures
        r == path_before(a@, b@),
{
    let a = chars_of(a);
    let b = chars_of(b);
    let a_spans = spans_of(a.as_slice());
    let b_spans = spans_of(b.as_slice());
    let ghost p = components(a@);
    let ghost q = components(b@);
    assert(spans_view(a_spans@).len() == a_spans@.len());
    assert(spans_view(b_spans@).len() == b_spans@.len());
    let mut i: usize = 0;
    assert(p.subrange(0, p.len() as int) =~= p);
    assert(q.subrange(0, q.len() as int) =~= q);
    loop
        invariant
            i <= a_spans.len(),
            i <= b_spans.len(),
            p == components(a@),
            q == components(b@),
            p.len() == a_spans.len(),
            q.len() == b_spans.len(),
            spans_view(a_spans@) == spans(a@),
            spans_view(b_spans@) == spans(b@),
            ordered(a@, spans(a@), 0),
            ordered(b@, spans(b@), 0),
            words_before(p, q) == words_before(
                p.subrange(i as int, p.len() as int),
                q.subrange(i as int, q.len() as int),
            ),
        decreases a_spans.len() - i,
    {
        let ghost x = p.subrange(i as int, p.len() as int);
        let ghost y = q.subrange(i as int, q.len() as int);
        if i == b_spans.len() {
            return false;
        }
        if i == a_spans.len() {
            return true;
        }
        assert(spans_view(a_spans@)[i as int] == spans(a@)[i as int]);
        assert(spans_view(b_spans@)[i as int] == spans(b@)[i as int]);
        let v = word_at(a.as_slice(), a_spans[i]);
        let w = word_at(b.as_slice(), b_spans[i]);
        assert(v@ == p[i as int] && w@ == q[i as int]);
        assert(x[0] == v@ && y[0] == w@);
        if !crate::text::same_text(v.as_str(), w.as_str()) {
            let m = rank_of(v.as_str());
            let n = rank_of(w.as_str());
            return m < n || (m == n && is_text_before(v.as_str(), w.as_str()));
        }
        assert(x.drop_first() =~= p.subrange(i + 1, p.len() as int));
        assert(y.drop_first() =~= q.subrange(i + 1, q.len() as int));
        i = i + 1;
    }
}

/// Whether a directory is taken before another: in the order of paths, or,
/// deepest first, with more components before fewer.
pub open spec fn taken_before(a: Seq<char>, b: Seq<char>, deepest: bool) -> bool {
    let m = components(a).len();
    let n = components(b).len();
    if deepest && m != n {
        m > n
    } else {
        path_before(a, b)
    }
}

/// The order directories are taken in is strict, and total but for the
/// spelling.
pub proof fn lemma_taken_order(a: Seq<char>, b: Seq<char>, c: Seq<char>, deepest: bool)
    ensures
        same_path(a, b) ==> !taken_before(a, b, deepest),
        taken_before(a, b, deepest) && taken_before(b, c, deepest) ==> taken_before(a, c, deepest),
        taken_before(a, b, deepest) || taken_before(b, a, deepest) || same_path(a, b),
{
    lemma_path_order(a, b, c);
}

/// Whether a directory is taken before another.
pub fn is_taken_before(a: &str, b: &str, deepest: bool) -> (r: bool)
    ensures
        r == taken_before(a@, b@, deepest),
{
    let m = crate::paths::depth(a);
    let n = crate::paths::depth(b);
    if deepest && m != n {
        m > n
    } else {
        is_path_before(a, b)
    }
}

proof fn lemma_lex_first(a: Seq<int>, b: Seq<int>, k: int)
    requires
        0 <= k <= a.len(),
        k < b.len(),
        a.subrange(0, k) == b.subrange(0, k),
        k == a.len() || a[k] < b[k],
    ensures
        lex(a, b),
    decreases k,
{
    if k > 0 {
        assert(a.subrange(0, k)[0] == a[0]);
        assert(b.subrange(0, k)[0] == b[0]);
        assert(a.drop_first().subrange(0, k - 1) =~= a.subrange(0, k).drop_first());
        assert(b.drop_first().subrange(0, k - 1) =~= b.subrange(0, k).drop_first());
        lemma_lex_first(a.drop_first(), b.drop_first(), k - 1);
    }
}

/// The first character in which two texts differ orders them, the lower first,
/// and a text comes before every longer one that starts with it.
pub proof fn the_first_difference_orders_texts(a: Seq<char>, b: Seq<char>, k: int)
    requires
        0 <= k <= a.len(),
        k < b.len(),
        a.subrange(0, k) == b.subrange(0, k),
        k == a.len() || (a[k] as u32) < (b[k] as u32),
    ensures
        text_before(a, b),
        !text_before(b, a),
{
    let x = codes(a);
    let y = codes(b);
    assert forall|i: int| 0 <= i < k implies x[i] == y[i] by {
        assert(a[i] == a.subrange(0, k)[i]);
        assert(b[i] == b.subrange(0, k)[i]);
    }
    assert(x.subrange(0, k) =~= y.subrange(0, k));
    lemma_lex_first(x, y, k);
    lemma_text_order(a, b, a);
}

proof fn lemma_words_first(a: Seq<Seq<char>>, b: Seq<Seq<char>>, k: int)
    requires
        0 <= k <= a.len(),
        k < b.len(),
        a.subrange(0, k) == b.subrange(0, k),
        k == a.len() || (a[k] != b[k] && word_before(a[k], b[k])),
    ensures
        words_before(a, b),
    decreases k,
{
    if k > 0 {
        assert(a.subrange(0, k)[0] == a[0]);
        assert(b.subrange(0, k)[0] == b[0]);
        assert(a.drop_first().subrange(0, k - 1) =~= a.subrange(0, k).drop_first());
        assert(b.drop_first().subrange(0, k - 1) =~= b.subrange(0, k).drop_first());
        lemma_words_first(a.drop_first(), b.drop_first(), k - 1);
    }
}

/// The first component in which two paths differ orders them: names as texts,
/// `..` before a name, `.` before `..`, and the root before everything. A path
/// comes before every longer one that starts with its components.
pub proof fn the_first_other_component_orders_paths(a: Seq<char>, b: Seq<char>, k: int)
    requires
        0 <= k <= components(a).len(),
        k < components(b).len(),
        components(a).subrange(0, k) == components(b).subrange(0, k),
        k < components(a).len() ==> ({
            let one = components(a)[k];
            let other = components(b)[k];
            ||| one == seq!['/'] && other != seq!['/']
            ||| one == seq!['.'] && other == seq!['.', '.']
            ||| (one == seq!['.'] || one == seq!['.', '.']) && other != seq!['/'] && other
                != seq!['.'] && other != seq!['.', '.']
            ||| one != seq!['/'] && one != seq!['.'] && one != seq!['.', '.'] && other != seq!['/']
                && other != seq!['.'] && other != seq!['.', '.'] && text_before(one, other)
        }),
    ensures
        path_before(a, b),
        !path_before(b, a),
{
    if k < components(a).len() {
        let one = components(a)[k];
        let other = components(b)[k];
        lemma_text_order(one, other, one);
        assert(seq!['/'][0] != seq!['.'][0]);
        assert(seq!['/'][0] != seq!['.', '.'][0]);
        assert(seq!['.'].len() != seq!['.', '.'].len());
    }
    lemma_words_first(components(a), components(b), k);
    lemma_path_order(a, b, a);
}

/// Taken deepest first, a directory of more components goes before one of fewer;
/// as deep ones, and all of them where the depth does not count, go in the order
/// of paths.
pub proof fn a_deeper_directory_is_taken_first(a: Seq<char>, b: Seq<char>)
    ensures
        components(a).len() > components(b).len() ==> taken_before(a, b, true) && !taken_before(
            b,
            a,
            true,
        ),
        components(a).len() == components(b).len() ==> (taken_before(a, b, true) <==> path_before(
            a,
            b,
        )),
        taken_before(a, b, false) <==> path_before(a, b),
{
}

} // verus!
