//! Home-relative paths, so a config repo moves between machines.
//!
//! A home directory is not necessarily `/home/<user>`: an ostree system puts it
//! under `/var/home`, and an account whose home lives on scratch storage puts it
//! somewhere else again. Any absolute path committed to a config repo therefore
//! breaks the moment the repo is used anywhere else. bx stores paths *portably*,
//! `~`-prefixed, and renders them against the local `$HOME` at apply time.
//!
//! Substitution is **leading-position only**. A `~` in the middle of a line is
//! ordinary content (a shell glob, a backup filename, prose) and is left alone,
//! so rendering can never corrupt a file's body.
//!
//! A path is its text. Two spellings are one path when they have the same
//! components: repeated and trailing separators and inner `.` components do not
//! count.

use crate::text::{begins, begins_at, begins_with, chars_of, same_text, text_of};
use vstd::prelude::*;

verus! {

/// Where the component that holds position `i` ends: its separator, or the end
/// of the path.
pub open spec fn separator(path: Seq<char>, i: int) -> int
    decreases path.len() - i,
{
    if i >= path.len() {
        path.len() as int
    } else if path[i] == '/' {
        i
    } else {
        separator(path, i + 1)
    }
}

/// Whether the piece between two separators names nothing: it is empty, or it
/// is a `.` that is not the path's first word.
pub open spec fn names_nothing(path: Seq<char>, start: int, end: int) -> bool {
    end == start || (start > 0 && end == start + 1 && path[start] == '.')
}

/// The components from `i` on, each as its first position and the position
/// past its last.
pub open spec fn spans_from(path: Seq<char>, i: int) -> Seq<(int, int)>
    decreases path.len() + 1 - i,
    when 0 <= i
    via spans_from_decreases
{
    if i >= path.len() {
        Seq::empty()
    } else {
        let end = separator(path, i);
        let rest = spans_from(path, end + 1);
        if names_nothing(path, i, end) {
            rest
        } else {
            seq![(i, end)] + rest
        }
    }
}

#[via_fn]
proof fn spans_from_decreases(path: Seq<char>, i: int) {
    lemma_separator(path, i);
}

proof fn lemma_separator(path: Seq<char>, i: int)
    requires
        0 <= i,
    ensures
        i <= path.len() ==> i <= separator(path, i) <= path.len(),
        separator(path, i) < path.len() ==> path[separator(path, i)] == '/',
        forall|k: int| i <= k < separator(path, i) && k < path.len() ==> path[k] != '/',
    decreases path.len() - i,
{
    if i < path.len() && path[i] != '/' {
        lemma_separator(path, i + 1);
    }
}

/// The separator is the one place that has none before it and is one, or is
/// the end.
proof fn lemma_separator_is(path: Seq<char>, i: int, e: int)
    requires
        0 <= i <= e <= path.len(),
        e < path.len() ==> path[e] == '/',
        forall|k: int| i <= k < e ==> path[k] != '/',
    ensures
        separator(path, i) == e,
    decreases e - i,
{
    if i < e {
        lemma_separator_is(path, i + 1, e);
    }
}

/// Whether a path starts at the root.
pub open spec fn absolute(path: Seq<char>) -> bool {
    path.len() > 0 && path[0] == '/'
}

/// The components of a path, the root first where it is absolute.
pub open spec fn spans(path: Seq<char>) -> Seq<(int, int)> {
    if absolute(path) {
        seq![(0, 1)] + spans_from(path, 1)
    } else {
        spans_from(path, 0)
    }
}

/// The words that some spans of a path cover.
pub open spec fn words(path: Seq<char>, spans: Seq<(int, int)>) -> Seq<Seq<char>> {
    Seq::new(spans.len(), |k: int| path.subrange(spans[k].0, spans[k].1))
}

/// The components of a path, in order: the root as `/`, then each name.
pub open spec fn components(path: Seq<char>) -> Seq<Seq<char>> {
    words(path, spans(path))
}

/// Whether two spellings name the same path.
pub open spec fn same_path(a: Seq<char>, b: Seq<char>) -> bool {
    components(a) == components(b)
}

/// Whether `path` is `base` or lies beneath it, component by component.
pub open spec fn within(path: Seq<char>, base: Seq<char>) -> bool {
    components(base).is_prefix_of(components(path))
}

/// Whether `path` lies beneath `base` and is not it.
pub open spec fn beneath(path: Seq<char>, base: Seq<char>) -> bool {
    within(path, base) && !same_path(path, base)
}

/// What is left of `path` once the components of `base` are taken off it: from
/// its next component's first character to its last component's last.
pub open spec fn remainder(path: Seq<char>, base: Seq<char>) -> Seq<char> {
    path.subrange(spans(path)[spans(base).len() as int].0, spans(path).last().1)
}

/// Every span lies in the path, after the one before it.
pub open spec fn ordered(path: Seq<char>, spans: Seq<(int, int)>, from: int) -> bool {
    &&& forall|k: int| 0 <= k < spans.len() ==> from <= (#[trigger] spans[k]).0 < spans[k].1 <= path.len()
    &&& forall|j: int, k: int| 0 <= j < k < spans.len() ==> (#[trigger] spans[j]).1 <= (#[trigger] spans[k]).0
}

proof fn lemma_spans_from_ordered(path: Seq<char>, i: int)
    requires
        0 <= i,
    ensures
        ordered(path, spans_from(path, i), i),
    decreases path.len() + 1 - i,
{
    if i < path.len() {
        lemma_separator(path, i);
        lemma_spans_from_ordered(path, separator(path, i) + 1);
    }
}

proof fn lemma_spans_ordered(path: Seq<char>)
    ensures
        ordered(path, spans(path), 0),
{
    lemma_spans_from_ordered(path, 0);
    lemma_spans_from_ordered(path, 1);
}

/// The view of some exec spans.
pub open spec fn spans_view(spans: Seq<(usize, usize)>) -> Seq<(int, int)> {
    Seq::new(spans.len(), |k: int| (spans[k].0 as int, spans[k].1 as int))
}

/// The components of a path, as the characters each covers.
pub fn spans_of(path: &[char]) -> (r: Vec<(usize, usize)>)
    ensures
        spans_view(r@) == spans(path@),
        ordered(path@, spans(path@), 0),
{
    let mut out: Vec<(usize, usize)> = Vec::new();
    let mut at: usize = 0;
    proof {
        lemma_spans_ordered(path@);
    }
    if path.len() > 0 && path[0] == '/' {
        out.push((0, 1));
        at = 1;
    }
    assert(spans_view(out@) + spans_from(path@, at as int) =~= spans(path@));
    while at < path.len()
        invariant
            at <= path.len(),
            spans_view(out@) + spans_from(path@, at as int) == spans(path@),
        decreases path.len() - at,
    {
        let mut end: usize = at;
        while end < path.len() && path[end] != '/'
            invariant
                at <= end <= path.len(),
                forall|k: int| at <= k < end ==> path@[k] != '/',
            decreases path.len() - end,
        {
            end = end + 1;
        }
        proof {
            lemma_separator_is(path@, at as int, end as int);
        }
        let nothing = end == at || (at > 0 && end == at + 1 && path[at] == '.');
        let ghost before = out@;
        if !nothing {
            out.push((at, end));
        }
        let next: usize = if end < path.len() { end + 1 } else { end };
        proof {
            if end == path.len() {
                assert(spans_from(path@, end + 1) =~= Seq::<(int, int)>::empty());
                assert(spans_from(path@, end as int) =~= Seq::<(int, int)>::empty());
            }
            assert(spans_view(out@) + spans_from(path@, next as int) =~= spans_view(before)
                + spans_from(path@, at as int));
        }
        at = next;
    }
    assert(spans_from(path@, at as int) =~= Seq::<(int, int)>::empty());
    assert(spans_view(out@) =~= spans(path@));
    out
}

/// Whether the first `n` components of two paths are the same.
fn same_words(
    a: &[char],
    a_spans: &[(usize, usize)],
    b: &[char],
    b_spans: &[(usize, usize)],
    n: usize,
) -> (r: bool)
    requires
        n <= a_spans.len(),
        n <= b_spans.len(),
        spans_view(a_spans@) == spans(a@),
        spans_view(b_spans@) == spans(b@),
        ordered(a@, spans(a@), 0),
        ordered(b@, spans(b@), 0),
    ensures
        r == (components(a@).subrange(0, n as int) == components(b@).subrange(0, n as int)),
{
    let mut k: usize = 0;
    while k < n
        invariant
            k <= n,
            n <= a_spans.len(),
            n <= b_spans.len(),
            spans_view(a_spans@) == spans(a@),
            spans_view(b_spans@) == spans(b@),
            ordered(a@, spans(a@), 0),
            ordered(b@, spans(b@), 0),
            forall|j: int| 0 <= j < k ==> components(a@)[j] == components(b@)[j],
        decreases n - k,
    {
        let (a0, a1) = a_spans[k];
        let (b0, b1) = b_spans[k];
        assert(spans(a@)[k as int] == (a0 as int, a1 as int));
        assert(spans(b@)[k as int] == (b0 as int, b1 as int));
        let ghost wa = components(a@)[k as int];
        let ghost wb = components(b@)[k as int];
        assert(wa == a@.subrange(a0 as int, a1 as int));
        assert(wb == b@.subrange(b0 as int, b1 as int));
        if a1 - a0 != b1 - b0 {
            assert(wa.len() != wb.len());
            assert(components(a@).subrange(0, n as int)[k as int] == wa);
            assert(components(b@).subrange(0, n as int)[k as int] == wb);
            return false;
        }
        let mut i: usize = 0;
        while i < a1 - a0
            invariant
                i <= a1 - a0,
                a0 <= a1 <= a.len(),
                b0 <= b1 <= b.len(),
                a1 - a0 == b1 - b0,
                k < n,
                n <= a_spans.len(),
                n <= b_spans.len(),
                spans_view(a_spans@) == spans(a@),
                spans_view(b_spans@) == spans(b@),
                wa == components(a@)[k as int],
                wb == components(b@)[k as int],
                wa == a@.subrange(a0 as int, a1 as int),
                wb == b@.subrange(b0 as int, b1 as int),
                forall|j: int| 0 <= j < i ==> wa[j] == wb[j],
            decreases a1 - a0 - i,
        {
            if a[a0 + i] != b[b0 + i] {
                assert(wa[i as int] != wb[i as int]);
                assert(components(a@).subrange(0, n as int)[k as int] == wa);
                assert(components(b@).subrange(0, n as int)[k as int] == wb);
                return false;
            }
            assert(wa[i as int] == wb[i as int]);
            i = i + 1;
        }
        assert(wa =~= wb);
        k = k + 1;
    }
    assert(components(a@).subrange(0, n as int) =~= components(b@).subrange(0, n as int));
    true
}

/// Whether two spellings name the same path.
pub fn path_is(a: &str, b: &str) -> (r: bool)
    ensures
        r == same_path(a@, b@),
{
    let a = chars_of(a);
    let b = chars_of(b);
    let a_spans = spans_of(a.as_slice());
    let b_spans = spans_of(b.as_slice());
    assert(spans_view(a_spans@).len() == a_spans@.len());
    assert(spans_view(b_spans@).len() == b_spans@.len());
    if a_spans.len() != b_spans.len() {
        assert(components(a@).len() != components(b@).len());
        return false;
    }
    assert(components(a@).subrange(0, a_spans@.len() as int) =~= components(a@));
    assert(components(b@).subrange(0, a_spans@.len() as int) =~= components(b@));
    same_words(a.as_slice(), a_spans.as_slice(), b.as_slice(), b_spans.as_slice(), a_spans.len())
}

/// Whether `path` is `base` or lies beneath it.
pub fn path_within(path: &str, base: &str) -> (r: bool)
    ensures
        r == within(path@, base@),
{
    let a = chars_of(path);
    let b = chars_of(base);
    let a_spans = spans_of(a.as_slice());
    let b_spans = spans_of(b.as_slice());
    assert(spans_view(a_spans@).len() == a_spans@.len());
    assert(spans_view(b_spans@).len() == b_spans@.len());
    if a_spans.len() < b_spans.len() {
        return false;
    }
    let n = b_spans.len();
    assert(components(b@).subrange(0, n as int) =~= components(b@));
    same_words(a.as_slice(), a_spans.as_slice(), b.as_slice(), b_spans.as_slice(), n)
}

/// How many components a path has.
pub fn depth(path: &str) -> (r: usize)
    ensures
        r == components(path@).len(),
{
    let chars = chars_of(path);
    let spans = spans_of(chars.as_slice());
    assert(spans_view(spans@).len() == spans@.len());
    spans.len()
}

/// What [`to_portable`] writes for a path.
pub open spec fn portable(path: Seq<char>, home: Seq<char>) -> Seq<char> {
    if same_path(path, home) {
        "~"@
    } else if within(path, home) {
        "~/"@ + remainder(path, home)
    } else {
        path
    }
}

/// Rewrite `path` as `~`-relative if it lies under `home`.
///
/// Paths outside `home` are returned unchanged: they are genuinely absolute
/// (`/usr/bin/sccache`), and pretending otherwise would break them.
pub fn to_portable(path: &str, home: &str) -> (r: String)
    ensures
        r@ == portable(path@, home@),
{
    if path_is(path, home) {
        return "~".to_owned();
    }
    if !path_within(path, home) {
        return path.to_owned();
    }
    let chars = chars_of(path);
    let under = chars_of(home);
    let spans = spans_of(chars.as_slice());
    let base = spans_of(under.as_slice());
    proof {
        assert(spans_view(spans@).len() == spans@.len());
        assert(spans_view(base@).len() == base@.len());
        let p = components(path@);
        let h = components(home@);
        if p.len() == h.len() {
            assert(p.subrange(0, h.len() as int) =~= p);
        }
    }
    let start = spans[base.len()].0;
    let end = spans[spans.len() - 1].1;
    proof {
        assert(crate::paths::spans(chars@)[base@.len() as int] == spans_view(spans@)[base@.len() as int]);
        assert(crate::paths::spans(chars@).last() == spans_view(spans@)[spans@.len() - 1]);
    }
    let rest = vstd::slice::slice_subrange(chars.as_slice(), start, end);
    "~/".to_owned().concat(text_of(rest).as_str())
}

/// `path` put after `home`: in its place where it is absolute, else after one
/// separator.
pub open spec fn joined(home: Seq<char>, path: Seq<char>) -> Seq<char> {
    if absolute(path) {
        path
    } else if home.len() > 0 && home.last() != '/' {
        home + "/"@ + path
    } else {
        home + path
    }
}

/// `path` put after `home`.
pub fn join(home: &str, path: &str) -> (r: String)
    ensures
        r@ == joined(home@, path@),
{
    let under = chars_of(home);
    if begins_with(path, "/") {
        proof {
            reveal_strlit("/");
            assert("/"@ =~= seq!['/']);
            assert(path@.subrange(0, 1)[0] == path@[0]);
        }
        return path.to_owned();
    }
    proof {
        reveal_strlit("/");
        if absolute(path@) {
            assert(path@.subrange(0, 1) =~= "/"@);
        }
    }
    if under.len() > 0 && under[under.len() - 1] != '/' {
        home.to_owned().concat("/").concat(path)
    } else {
        home.to_owned().concat(path)
    }
}

/// Whether a portable path is relative to the home: a bare `~`, or `~/` and
/// the rest.
pub open spec fn home_relative(portable: Seq<char>) -> bool {
    portable == "~"@ || begins(portable, "~/"@)
}

/// Where a portable path is, on the account whose home is `home`.
pub open spec fn rendered(portable: Seq<char>, home: Seq<char>) -> Seq<char> {
    if portable == "~"@ {
        home
    } else if begins(portable, "~/"@) {
        joined(home, portable.subrange(2, portable.len() as int))
    } else {
        portable
    }
}

/// Resolve a portable path against `home`.
///
/// Only a leading `~` or `~/` is expanded. `~user` is *not*: bx manages the
/// invoking user's environment, and silently resolving another user's home
/// would be a surprise of exactly the kind this tool exists to prevent.
pub fn render(portable: &str, home: &str) -> (r: String)
    ensures
        r@ == rendered(portable@, home@),
{
    if same_text(portable, "~") {
        return home.to_owned();
    }
    if begins_with(portable, "~/") {
        proof {
            reveal_strlit("~/");
        }
        let chars = chars_of(portable);
        let rest = vstd::slice::slice_subrange(chars.as_slice(), 2, chars.len());
        return join(home, text_of(rest).as_str());
    }
    portable.to_owned()
}

/// Whether a character is white space, as Unicode has it.
pub open spec fn white(c: char) -> bool {
    let v = c as u32;
    ||| 0x9 <= v <= 0xd
    ||| v == 0x20
    ||| v == 0x85
    ||| v == 0xa0
    ||| v == 0x1680
    ||| 0x2000 <= v <= 0x200a
    ||| v == 0x2028
    ||| v == 0x2029
    ||| v == 0x202f
    ||| v == 0x205f
    ||| v == 0x3000
}

/// Whether a character is white space, as Unicode has it.
pub fn is_white(c: char) -> (r: bool)
    ensures
        r == white(c),
{
    let v: u32 = c as u32;
    (0x9 <= v && v <= 0xd) || v == 0x20 || v == 0x85 || v == 0xa0 || v == 0x1680 || (0x2000 <= v
        && v <= 0x200a) || v == 0x2028 || v == 0x2029 || v == 0x202f || v == 0x205f || v == 0x3000
}

/// How many characters of white space a line starts with.
pub open spec fn indent(line: Seq<char>, i: int) -> int
    decreases line.len() - i,
{
    if 0 <= i < line.len() && white(line[i]) {
        indent(line, i + 1)
    } else {
        i
    }
}

/// One line, with a leading `~/` expanded.
pub open spec fn rendered_line(line: Seq<char>, home: Seq<char>) -> Seq<char> {
    let at = indent(line, 0);
    let rest = line.subrange(at, line.len() as int);
    if begins(rest, "~/"@) {
        line.subrange(0, at) + home + "/"@ + rest.subrange(2, rest.len() as int)
    } else {
        line
    }
}

/// Just past the first line of `content` from `i` on, its newline included.
pub open spec fn past_line(content: Seq<char>, i: int) -> int
    decreases content.len() - i,
{
    if i >= content.len() {
        content.len() as int
    } else if content[i] == '\n' {
        i + 1
    } else {
        past_line(content, i + 1)
    }
}

pub proof fn lemma_past_line(content: Seq<char>, i: int)
    ensures
        i < content.len() ==> i < past_line(content, i) <= content.len(),
        i >= content.len() ==> past_line(content, i) == content.len(),
    decreases content.len() - i,
{
    if i < content.len() && content[i] != '\n' {
        lemma_past_line(content, i + 1);
    }
}

/// `content` from `i` on with every line rendered, each with its own newline
/// or, the last, without one.
pub open spec fn rendered_content(content: Seq<char>, home: Seq<char>, i: int) -> Seq<char>
    decreases content.len() - i,
    when 0 <= i
    via rendered_content_decreases
{
    if i >= content.len() {
        Seq::empty()
    } else {
        let next = past_line(content, i);
        rendered_line(content.subrange(i, next), home) + rendered_content(content, home, next)
    }
}

#[via_fn]
proof fn rendered_content_decreases(content: Seq<char>, home: Seq<char>, i: int) {
    lemma_past_line(content, i);
}

/// Expand leading `~/` on every line of repo content.
///
/// Applied to file bodies bx writes out of the repo. Leading whitespace is
/// preserved, so indented config keeps its shape.
pub fn render_content(content: &str, home: &str) -> (r: String)
    ensures
        r@ == rendered_content(content@, home@, 0),
{
    let chars = chars_of(content);
    let tilde = chars_of("~/");
    let mut out = String::new();
    let mut at: usize = 0;
    while at < chars.len()
        invariant
            at <= chars.len(),
            chars@ == content@,
            tilde@ == "~/"@,
            out@ + rendered_content(content@, home@, at as int) == rendered_content(
                content@,
                home@,
                0,
            ),
        decreases chars.len() - at,
    {
        let ghost so_far = out@;
        let mut next: usize = at;
        while next < chars.len() && chars[next] != '\n'
            invariant
                at <= next <= chars.len(),
                past_line(chars@, at as int) == past_line(chars@, next as int),
            decreases chars.len() - next,
        {
            next = next + 1;
        }
        if next < chars.len() {
            next = next + 1;
        }
        assert(next == past_line(content@, at as int));
        let line = vstd::slice::slice_subrange(chars.as_slice(), at, next);
        let mut rest: usize = 0;
        while rest < line.len() && is_white(line[rest])
            invariant
                rest <= line.len(),
                indent(line@, 0) == indent(line@, rest as int),
            decreases line.len() - rest,
        {
            rest = rest + 1;
        }
        proof {
            reveal_strlit("~/");
        }
        if begins_at(line, rest, tilde.as_slice()) {
            let head = vstd::slice::slice_subrange(line, 0, rest);
            let tail = vstd::slice::slice_subrange(line, rest + 2, line.len());
            out.append(text_of(head).as_str());
            out.append(home);
            out.append("/");
            out.append(text_of(tail).as_str());
            proof {
                let r = line@.subrange(rest as int, line@.len() as int);
                assert(r.subrange(2, r.len() as int) =~= tail@);
                assert(out@ =~= so_far + rendered_line(line@, home@));
            }
        } else {
            out.append(text_of(line).as_str());
        }
        assert(out@ =~= so_far + rendered_line(line@, home@));
        assert(out@ + rendered_content(content@, home@, next as int) =~= so_far + rendered_content(
            content@,
            home@,
            at as int,
        ));
        at = next;
    }
    assert(out@ =~= rendered_content(content@, home@, 0));
    out
}

/// The names in a text that stands after a separator: its pieces between
/// separators, without the empty ones and the `.`.
spec fn names(tail: Seq<char>) -> Seq<Seq<char>>
    decreases tail.len(),
    via names_decreases
{
    if tail.len() == 0 {
        Seq::empty()
    } else {
        let e = separator(tail, 0);
        let rest = if e < tail.len() {
            names(tail.subrange(e + 1, tail.len() as int))
        } else {
            Seq::empty()
        };
        if e == 0 || (e == 1 && tail[0] == '.') {
            rest
        } else {
            seq![tail.subrange(0, e)] + rest
        }
    }
}

#[via_fn]
proof fn names_decreases(tail: Seq<char>) {
    lemma_separator(tail, 0);
}

/// The components of a path, told by its pieces.
proof fn lemma_components(path: Seq<char>)
    ensures
        path.len() == 0 ==> components(path) == Seq::<Seq<char>>::empty(),
        absolute(path) ==> components(path) == seq![seq!['/']] + names(
            path.subrange(1, path.len() as int),
        ),
        path.len() > 0 && !absolute(path) ==> ({
            let e = separator(path, 0);
            &&& 0 < e <= path.len()
            &&& components(path) == seq![path.subrange(0, e)] + (if e < path.len() {
                names(path.subrange(e + 1, path.len() as int))
            } else {
                Seq::empty()
            })
        }),
{
    if absolute(path) {
        lemma_names(path, 1);
        assert(path.subrange(0, 1) =~= seq!['/']);
        assert(components(path) =~= seq![seq!['/']] + names(path.subrange(1, path.len() as int)));
    } else if path.len() > 0 {
        lemma_separator(path, 0);
        let e = separator(path, 0);
        lemma_names(path, e + 1);
        let rest = words(path, spans_from(path, e + 1));
        assert(components(path) =~= seq![path.subrange(0, e)] + rest);
    } else {
        assert(components(path) =~= Seq::<Seq<char>>::empty());
    }
}

/// Past its first character, what a path's components are is told by the text
/// from there on.
proof fn lemma_names(path: Seq<char>, i: int)
    requires
        0 < i,
    ensures
        words(path, spans_from(path, i)) == (if i <= path.len() {
            names(path.subrange(i, path.len() as int))
        } else {
            Seq::empty()
        }),
    decreases path.len() + 1 - i,
{
    if i < path.len() {
        let tail = path.subrange(i, path.len() as int);
        lemma_separator(path, i);
        let e = separator(path, i);
        lemma_separator_is(tail, 0, e - i);
        lemma_names(path, e + 1);
        if e < path.len() {
            assert(tail.subrange(e - i + 1, tail.len() as int) =~= path.subrange(
                e + 1,
                path.len() as int,
            ));
        }
        assert(tail.subrange(0, e - i) =~= path.subrange(i, e));
        assert(words(path, spans_from(path, i)) =~= names(tail));
    } else {
        assert(words(path, spans_from(path, i)) =~= Seq::<Seq<char>>::empty());
    }
}

proof fn lemma_names_concat(a: Seq<char>, b: Seq<char>)
    ensures
        names(a + seq!['/'] + b) == names(a) + names(b),
    decreases a.len(),
{
    let both = a + seq!['/'] + b;
    if a.len() == 0 {
        lemma_separator_is(both, 0, 0);
        assert(both.subrange(1, both.len() as int) =~= b);
        assert(names(both) =~= names(a) + names(b));
    } else {
        lemma_separator(a, 0);
        let e = separator(a, 0);
        lemma_separator_is(both, 0, e);
        assert(both.subrange(0, e) =~= a.subrange(0, e));
        let after = both.subrange(e + 1, both.len() as int);
        if e < a.len() {
            let rest = a.subrange(e + 1, a.len() as int);
            lemma_names_concat(rest, b);
            assert(after =~= rest + seq!['/'] + b);
        } else {
            assert(after =~= b);
        }
        assert(names(both) =~= names(a) + names(b));
    }
}

/// The components of one path put after another are those of both.
proof fn lemma_components_concat(a: Seq<char>, b: Seq<char>)
    requires
        a.len() > 0,
    ensures
        components(a + seq!['/'] + b) == components(a) + names(b),
{
    let both = a + seq!['/'] + b;
    lemma_components(a);
    lemma_components(both);
    if absolute(a) {
        let rest = a.subrange(1, a.len() as int);
        assert(both.subrange(1, both.len() as int) =~= rest + seq!['/'] + b);
        lemma_names_concat(rest, b);
    } else {
        lemma_separator(a, 0);
        let e = separator(a, 0);
        lemma_separator_is(both, 0, e);
        assert(both.subrange(0, e) =~= a.subrange(0, e));
        let after = both.subrange(e + 1, both.len() as int);
        if e < a.len() {
            let rest = a.subrange(e + 1, a.len() as int);
            lemma_names_concat(rest, b);
            assert(after =~= rest + seq!['/'] + b);
        } else {
            assert(after =~= b);
        }
    }
    assert(components(both) =~= components(a) + names(b));
}

/// From a component on, the components are the rest of them.
proof fn lemma_spans_from_here(path: Seq<char>, i: int, k: int)
    requires
        0 <= i,
        0 <= k < spans_from(path, i).len(),
    ensures
        ({
            let (s, e) = spans_from(path, i)[k];
            &&& i <= s < e <= path.len()
            &&& s == 0 ==> i == 0 && k == 0
            &&& spans_from(path, s) == spans_from(path, i).subrange(
                k,
                spans_from(path, i).len() as int,
            )
            &&& spans_from(path, e + 1) == spans_from(path, i).subrange(
                k + 1,
                spans_from(path, i).len() as int,
            )
            &&& path[s] != '/'
            &&& e < path.len() ==> path[e] == '/'
        }),
    decreases path.len() + 1 - i,
{
    lemma_separator(path, i);
    let e = separator(path, i);
    let here = spans_from(path, i);
    if names_nothing(path, i, e) {
        lemma_spans_from_here(path, e + 1, k);
    } else if k == 0 {
        assert(here.subrange(0, here.len() as int) =~= here);
        assert(here.subrange(1, here.len() as int) =~= spans_from(path, e + 1));
    } else {
        lemma_spans_from_here(path, e + 1, k - 1);
        let rest = spans_from(path, e + 1);
        assert(here.subrange(k, here.len() as int) =~= rest.subrange(k - 1, rest.len() as int));
        assert(here.subrange(k + 1, here.len() as int) =~= rest.subrange(k, rest.len() as int));
    }
}

/// As [`lemma_spans_from_here`], of the whole path.
proof fn lemma_span(path: Seq<char>, k: int)
    requires
        0 <= k < spans(path).len(),
    ensures
        ({
            let (s, e) = spans(path)[k];
            let all = spans(path);
            &&& 0 <= s < e <= path.len()
            &&& k == 0 <==> s == 0
            &&& k > 0 ==> path[s] != '/' && spans_from(path, s) == all.subrange(
                k,
                all.len() as int,
            )
            &&& k + 1 == all.len() && e < path.len() ==> (path[e] == '/' && words(
                path,
                spans_from(path, e + 1),
            ) == Seq::<Seq<char>>::empty()) || (absolute(path) && k == 0 && words(
                path,
                spans_from(path, 1),
            ) == Seq::<Seq<char>>::empty())
        }),
{
    let all = spans(path);
    if absolute(path) {
        if k > 0 {
            lemma_spans_from_here(path, 1, k - 1);
            let rest = spans_from(path, 1);
            assert(all.subrange(k, all.len() as int) =~= rest.subrange(k - 1, rest.len() as int));
            let e = all[k].1;
            if k + 1 == all.len() {
                assert(words(path, spans_from(path, e + 1)) =~= Seq::<Seq<char>>::empty());
            }
        } else if all.len() == 1 {
            assert(words(path, spans_from(path, 1)) =~= Seq::<Seq<char>>::empty());
        }
    } else {
        lemma_spans_from_here(path, 0, k);
        if k > 0 {
            lemma_separator(path, 0);
            lemma_spans_from_ordered(path, separator(path, 0) + 1);
            assert(spans_from(path, 0)[k].0 > 0);
        } else {
            lemma_separator(path, 0);
        }
        let e = all[k].1;
        if k + 1 == all.len() {
            assert(words(path, spans_from(path, e + 1)) =~= Seq::<Seq<char>>::empty());
        }
    }
}

/// A path and the same path without what follows its last component are one.
proof fn lemma_trimmed(path: Seq<char>)
    requires
        spans(path).len() > 0,
    ensures
        same_path(path.subrange(0, spans(path).last().1), path),
{
    let k = spans(path).len() - 1;
    let e = spans(path)[k].1;
    lemma_span(path, k);
    let kept = path.subrange(0, e);
    if e == path.len() {
        assert(kept =~= path);
    } else if path[e] == '/' && words(path, spans_from(path, e + 1)) == Seq::<Seq<char>>::empty() {
        let post = path.subrange(e + 1, path.len() as int);
        assert(path =~= kept + seq!['/'] + post);
        lemma_components_concat(kept, post);
        lemma_names(path, e + 1);
        assert(components(path) =~= components(kept));
    } else {
        assert(kept =~= seq!['/']);
        lemma_components(kept);
        lemma_components(path);
        lemma_names(path, 1);
        let none = kept.subrange(1, kept.len() as int);
        assert(none.len() == 0);
        assert(names(none) =~= Seq::<Seq<char>>::empty());
        assert(components(path) =~= components(kept));
    }
}

/// Rendering a path that was made portable against the same home gives the
/// path back.
///
/// A path outside the home whose own text starts with a `~` component is left
/// out: it is a relative path that the portable spelling cannot tell from the
/// home.
pub proof fn rendering_reverses_portability(path: Seq<char>, home: Seq<char>)
    requires
        within(path, home) || !home_relative(path),
    ensures
        same_path(rendered(portable(path, home), home), path),
{
    reveal_strlit("~");
    reveal_strlit("~/");
    reveal_strlit("/");
    let n = spans(home).len() as int;
    if !same_path(path, home) && within(path, home) {
        let p = components(path);
        let h = components(home);
        if p.len() == h.len() {
            assert(p.subrange(0, h.len() as int) =~= p);
        }
        let rem = remainder(path, home);
        let last = spans(path).len() - 1;
        let start = spans(path)[n].0;
        let end = spans(path)[last].1;
        lemma_spans_ordered(path);
        lemma_span(path, n);
        lemma_span(path, last);
        let text = "~/"@ + rem;
        assert(text.subrange(0, 2) =~= "~/"@);
        assert(text.subrange(2, text.len() as int) =~= rem);
        let out = joined(home, rem);
        if n == 0 {
            assert(home.len() == 0) by {
                if home.len() > 0 {
                    lemma_components(home);
                }
            }
            assert(out =~= path.subrange(0, end));
            lemma_trimmed(path);
        } else {
            assert(rem[0] == path[start]);
            let rest = path.subrange(start, path.len() as int);
            lemma_names(path, start);
            assert(names(rest) =~= p.subrange(n, p.len() as int));
            assert(names(rem) == names(rest)) by {
                if end < path.len() {
                    let post = path.subrange(end + 1, path.len() as int);
                    assert(rest =~= rem + seq!['/'] + post);
                    lemma_names_concat(rem, post);
                    lemma_names(path, end + 1);
                    assert(names(rest) =~= names(rem));
                } else {
                    assert(rest =~= rem);
                }
            }
            assert(components(out) == h + names(rem)) by {
                if home.last() != '/' {
                    assert("/"@ =~= seq!['/']);
                    lemma_components_concat(home, rem);
                } else if home.len() == 1 {
                    lemma_components(home);
                    lemma_components(out);
                    assert(out.subrange(1, out.len() as int) =~= rem);
                    let none = home.subrange(1, 1);
                    assert(names(none) =~= Seq::<Seq<char>>::empty());
                    assert(h =~= seq![seq!['/']]);
                } else {
                    let shorter = home.drop_last();
                    assert(home =~= shorter + seq!['/'] + Seq::<char>::empty());
                    assert(out =~= shorter + seq!['/'] + rem);
                    lemma_components_concat(shorter, rem);
                    lemma_components_concat(shorter, Seq::empty());
                    assert(names(Seq::<char>::empty()) =~= Seq::<Seq<char>>::empty());
                    assert(components(home) =~= components(shorter));
                }
            }
            assert(components(out) =~= p);
        }
    }
}

/// Whether the line that starts at `i` has a `~/` as its first word.
pub open spec fn tilde_leads(content: Seq<char>, i: int) -> bool {
    let line = content.subrange(i, past_line(content, i));
    begins(line.subrange(indent(line, 0), line.len() as int), "~/"@)
}

/// Content in which no line leads with `~/` is left exactly as it is: a `~`
/// anywhere else in a line is content.
pub proof fn a_tilde_that_leads_no_line_is_content(content: Seq<char>, home: Seq<char>)
    requires
        forall|i: int|
            0 <= i < content.len() && (i == 0 || content[i - 1] == '\n') ==> !#[trigger] tilde_leads(
                content,
                i,
            ),
    ensures
        rendered_content(content, home, 0) == content,
{
    lemma_content_kept(content, home, 0);
    assert(content.subrange(0, content.len() as int) =~= content);
}

proof fn lemma_content_kept(content: Seq<char>, home: Seq<char>, i: int)
    requires
        0 <= i <= content.len(),
        i == 0 || i == content.len() || content[i - 1] == '\n',
        forall|i: int|
            0 <= i < content.len() && (i == 0 || content[i - 1] == '\n') ==> !#[trigger] tilde_leads(
                content,
                i,
            ),
    ensures
        rendered_content(content, home, i) == content.subrange(i, content.len() as int),
    decreases content.len() - i,
{
    if i < content.len() {
        lemma_past_line(content, i);
        lemma_past_line_ends(content, i);
        let next = past_line(content, i);
        lemma_content_kept(content, home, next);
        assert(!tilde_leads(content, i));
        assert(content.subrange(i, next) + content.subrange(next, content.len() as int)
            =~= content.subrange(i, content.len() as int));
    } else {
        assert(content.subrange(i, content.len() as int) =~= Seq::<char>::empty());
    }
}

proof fn lemma_past_line_ends(content: Seq<char>, i: int)
    requires
        0 <= i < content.len(),
    ensures
        past_line(content, i) == content.len() || content[past_line(content, i) - 1] == '\n',
    decreases content.len() - i,
{
    lemma_past_line(content, i + 1);
    if content[i] != '\n' && i + 1 < content.len() {
        lemma_past_line_ends(content, i + 1);
    }
}

/// The directory a path is in: the path without its last component. The root
/// and the empty path are in none.
pub open spec fn parent(path: Seq<char>) -> Option<Seq<char>> {
    let all = spans(path);
    if all.len() == 0 || (all.len() == 1 && absolute(path)) {
        None
    } else if all.len() == 1 {
        Some(Seq::empty())
    } else {
        Some(path.subrange(0, all[all.len() - 2].1))
    }
}

/// The components of the directory a path is in.
pub open spec fn parent_components(path: Seq<char>) -> Option<Seq<Seq<char>>> {
    let all = components(path);
    if all.len() == 0 || (all.len() == 1 && absolute(path)) {
        None
    } else {
        Some(all.drop_last())
    }
}

/// The last component of a path, where it is a name: neither the root, nor
/// `.`, nor `..`.
pub open spec fn file_name(path: Seq<char>) -> Option<Seq<char>> {
    let all = components(path);
    if all.len() == 0 || (all.len() == 1 && absolute(path)) || all.last() == "."@ || all.last()
        == ".."@ {
        None
    } else {
        Some(all.last())
    }
}

/// The directory a path is in, where it is in one.
pub fn parent_of(path: &str) -> (r: Option<String>)
    ensures
        match r {
            Some(dir) => parent(path@) == Some(dir@),
            None => parent(path@) is None,
        },
{
    let chars = chars_of(path);
    let all = spans_of(chars.as_slice());
    assert(spans_view(all@).len() == all@.len());
    if all.len() == 0 {
        return None;
    }
    if all.len() == 1 {
        if chars.len() > 0 && chars[0] == '/' {
            return None;
        }
        return Some(String::new());
    }
    let end = all[all.len() - 2].1;
    assert(spans_view(all@)[all@.len() - 2] == spans(path@)[all@.len() - 2]);
    Some(text_of(vstd::slice::slice_subrange(chars.as_slice(), 0, end)))
}

/// A directory's spelling is shorter than what is in it.
pub proof fn lemma_parent_is_shorter(path: Seq<char>)
    ensures
        parent(path) is Some ==> parent(path)->0.len() < path.len(),
{
    let all = spans(path);
    lemma_spans_ordered(path);
    if all.len() == 1 {
        assert(all[0].0 < all[0].1 <= path.len());
    }
    if all.len() >= 2 {
        assert(all[all.len() - 2].1 <= all[all.len() - 1].0);
        assert(all[all.len() - 1].0 < all[all.len() - 1].1 <= path.len());
        assert(0 <= all[all.len() - 2].0 < all[all.len() - 2].1);
    }
}

/// Whether two paths are in the same directory, or neither is in any.
pub fn beside(a: &str, b: &str) -> (r: bool)
    ensures
        r == (parent_components(a@) == parent_components(b@)),
{
    let a = chars_of(a);
    let b = chars_of(b);
    let a_spans = spans_of(a.as_slice());
    let b_spans = spans_of(b.as_slice());
    assert(spans_view(a_spans@).len() == a_spans@.len());
    assert(spans_view(b_spans@).len() == b_spans@.len());
    let a_none = a_spans.len() == 0 || (a_spans.len() == 1 && a.len() > 0 && a[0] == '/');
    let b_none = b_spans.len() == 0 || (b_spans.len() == 1 && b.len() > 0 && b[0] == '/');
    if a_none || b_none {
        return a_none && b_none;
    }
    if a_spans.len() != b_spans.len() {
        assert(components(a@).drop_last().len() != components(b@).drop_last().len());
        return false;
    }
    let n = a_spans.len() - 1;
    assert(components(a@).drop_last() =~= components(a@).subrange(0, n as int));
    assert(components(b@).drop_last() =~= components(b@).subrange(0, n as int));
    same_words(a.as_slice(), a_spans.as_slice(), b.as_slice(), b_spans.as_slice(), n)
}

/// The last component of a path, where it is a name.
pub fn file_name_of(path: &str) -> (r: Option<String>)
    ensures
        match r {
            Some(name) => file_name(path@) == Some(name@),
            None => file_name(path@) is None,
        },
{
    let chars = chars_of(path);
    let all = spans_of(chars.as_slice());
    assert(spans_view(all@).len() == all@.len());
    if all.len() == 0 || (all.len() == 1 && chars.len() > 0 && chars[0] == '/') {
        return None;
    }
    let (start, end) = all[all.len() - 1];
    assert(spans_view(all@)[all@.len() - 1] == spans(path@)[all@.len() - 1]);
    let name = text_of(vstd::slice::slice_subrange(chars.as_slice(), start, end));
    assert(name@ == components(path@).last());
    if same_text(name.as_str(), ".") || same_text(name.as_str(), "..") {
        return None;
    }
    Some(name)
}

/// Whether a path starts at the root.
pub fn is_absolute(path: &str) -> (r: bool)
    ensures
        r == absolute(path@),
{
    let chars = chars_of(path);
    chars.len() > 0 && chars[0] == '/'
}

/// The line that starts at `i` ends at `e`: past its newline, or where the
/// content ends.
proof fn lemma_past_line_is(content: Seq<char>, i: int, e: int)
    requires
        0 <= i < e <= content.len(),
        e == content.len() || content[e - 1] == '\n',
        forall|j: int| i <= j < e - 1 ==> content[j] != '\n',
    ensures
        past_line(content, i) == e,
    decreases e - i,
{
    if i + 1 < e {
        lemma_past_line_is(content, i + 1, e);
    } else if content[i] != '\n' {
        lemma_past_line(content, i + 1);
    }
}

proof fn lemma_no_newline_before(content: Seq<char>, i: int)
    requires
        0 <= i < content.len(),
    ensures
        forall|j: int| i <= j < past_line(content, i) - 1 ==> content[j] != '\n',
    decreases content.len() - i,
{
    lemma_past_line(content, i);
    if content[i] != '\n' && i + 1 < content.len() {
        lemma_past_line(content, i + 1);
        lemma_no_newline_before(content, i + 1);
    }
}

proof fn lemma_rendered_from(content: Seq<char>, home: Seq<char>, p: int, i: int)
    requires
        0 <= p <= i <= content.len(),
    ensures
        rendered_content(content, home, i) == rendered_content(
            content.subrange(p, content.len() as int),
            home,
            i - p,
        ),
    decreases content.len() - i,
{
    let tail = content.subrange(p, content.len() as int);
    if i < content.len() {
        lemma_past_line(content, i);
        lemma_past_line_ends(content, i);
        lemma_no_newline_before(content, i);
        let next = past_line(content, i);
        lemma_past_line_is(tail, i - p, next - p);
        assert(tail.subrange(i - p, next - p) =~= content.subrange(i, next));
        lemma_rendered_from(content, home, p, next);
    }
}

proof fn lemma_rendered_until(content: Seq<char>, home: Seq<char>, p: int, i: int)
    requires
        0 <= i <= p <= content.len(),
        p == 0 || p == content.len() || content[p - 1] == '\n',
    ensures
        rendered_content(content, home, i) == rendered_content(
            content.subrange(0, p),
            home,
            i,
        ) + rendered_content(content, home, p),
    decreases p - i,
{
    let head = content.subrange(0, p);
    if i < p {
        lemma_past_line(content, i);
        lemma_past_line_ends(content, i);
        lemma_no_newline_before(content, i);
        let next = past_line(content, i);
        assert(next <= p);
        lemma_past_line_is(head, i, next);
        assert(head.subrange(i, next) =~= content.subrange(i, next));
        lemma_rendered_until(content, home, p, next);
        assert(rendered_content(content, home, i) =~= rendered_content(head, home, i)
            + rendered_content(content, home, p));
    } else {
        assert(rendered_content(head, home, i) =~= Seq::empty());
        assert(rendered_content(content, home, i) =~= rendered_content(head, home, i)
            + rendered_content(content, home, p));
    }
}

/// Content is rendered line by line, in order: wherever a line starts, what
/// comes before it and what starts with it are rendered each by itself, one
/// after the other.
pub proof fn content_is_rendered_line_by_line(content: Seq<char>, home: Seq<char>, p: int)
    requires
        0 <= p <= content.len(),
        p == 0 || p == content.len() || content[p - 1] == '\n',
    ensures
        rendered_content(content, home, 0) == rendered_content(content.subrange(0, p), home, 0)
            + rendered_content(content.subrange(p, content.len() as int), home, 0),
{
    lemma_rendered_until(content, home, p, 0);
    lemma_rendered_from(content, home, p, p);
}

proof fn lemma_indent_is(line: Seq<char>, i: int, k: int)
    requires
        0 <= i <= k <= line.len(),
        forall|j: int| i <= j < k ==> white(#[trigger] line[j]),
        k == line.len() || !white(line[k]),
    ensures
        indent(line, i) == k,
    decreases k - i,
{
    if i < k {
        lemma_indent_is(line, i + 1, k);
    }
}

/// Whatever its white space, a line whose first other characters are `~/` keeps
/// the white space and what follows them, and has the home and one separator in
/// their place; what is before and after the line is rendered by itself. The
/// line starts at `i`, its `~/` is at `k`, and it ends at `e`.
pub proof fn a_leading_tilde_is_expanded_on_every_line(
    content: Seq<char>,
    home: Seq<char>,
    i: int,
    k: int,
    e: int,
)
    requires
        0 <= i <= k < k + 2 <= e <= content.len(),
        i == 0 || content[i - 1] == '\n',
        e == content.len() || content[e - 1] == '\n',
        forall|j: int| i <= j < e - 1 ==> content[j] != '\n',
        forall|j: int| i <= j < k ==> white(#[trigger] content[j]),
        content[k] == '~',
        content[k + 1] == '/',
    ensures
        rendered_content(content, home, 0) == rendered_content(content.subrange(0, i), home, 0)
            + content.subrange(i, k) + home + seq!['/'] + content.subrange(k + 2, e)
            + rendered_content(content.subrange(e, content.len() as int), home, 0),
{
    reveal_strlit("~/");
    reveal_strlit("/");
    lemma_rendered_until(content, home, i, 0);
    lemma_past_line_is(content, i, e);
    lemma_rendered_from(content, home, e, e);
    let line = content.subrange(i, e);
    assert forall|j: int| 0 <= j < k - i implies white(#[trigger] line[j]) by {
        assert(line[j] == content[i + j]);
    }
    assert(line[k - i] == '~');
    lemma_indent_is(line, 0, k - i);
    let rest = line.subrange(k - i, line.len() as int);
    assert(rest.subrange(0, 2) =~= "~/"@);
    assert("/"@ =~= seq!['/']);
    assert(rendered_line(line, home) =~= content.subrange(i, k) + home + seq!['/']
        + content.subrange(k + 2, e));
    assert(rendered_content(content, home, 0) =~= rendered_content(
        content.subrange(0, i),
        home,
        0,
    ) + content.subrange(i, k) + home + seq!['/'] + content.subrange(k + 2, e)
        + rendered_content(content.subrange(e, content.len() as int), home, 0));
}

/// Every other line is in the result as it is: one in which no `~/` stands with
/// white space alone before it.
pub proof fn every_other_line_is_kept(content: Seq<char>, home: Seq<char>, i: int, e: int)
    requires
        0 <= i < e <= content.len(),
        i == 0 || content[i - 1] == '\n',
        e == content.len() || content[e - 1] == '\n',
        forall|j: int| i <= j < e - 1 ==> content[j] != '\n',
        forall|k: int|
            i <= k < e - 1 && #[trigger] content[k] == '~' && content[k + 1] == '/' ==> exists|j: int|
                i <= j < k && !white(#[trigger] content[j]),
    ensures
        rendered_content(content, home, 0) == rendered_content(content.subrange(0, i), home, 0)
            + content.subrange(i, e) + rendered_content(
            content.subrange(e, content.len() as int),
            home,
            0,
        ),
{
    reveal_strlit("~/");
    lemma_rendered_until(content, home, i, 0);
    lemma_past_line_is(content, i, e);
    lemma_rendered_from(content, home, e, e);
    let line = content.subrange(i, e);
    lemma_indent(line, 0);
    let at = indent(line, 0);
    let rest = line.subrange(at, line.len() as int);
    if begins(rest, "~/"@) {
        assert(rest.subrange(0, 2)[0] == '~');
        assert(rest.subrange(0, 2)[1] == '/');
        assert(content[i + at] == '~' && content[i + at + 1] == '/');
        let j = choose|j: int| i <= j < i + at && !white(#[trigger] content[j]);
        assert(white(line[j - i]));
    }
    assert(rendered_content(content, home, 0) =~= rendered_content(
        content.subrange(0, i),
        home,
        0,
    ) + line + rendered_content(content.subrange(e, content.len() as int), home, 0));
}

proof fn lemma_indent(line: Seq<char>, i: int)
    requires
        0 <= i <= line.len(),
    ensures
        i <= indent(line, i) <= line.len(),
        forall|j: int| i <= j < indent(line, i) ==> white(#[trigger] line[j]),
    decreases line.len() - i,
{
    if i < line.len() && white(line[i]) {
        lemma_indent(line, i + 1);
    }
}

/// What the components of a path are, from its last piece on: a name after a
/// separator is one more component, a separator or a `.` after one adds none,
/// a name by itself is the only one, and a leading separator is the root.
pub proof fn a_path_is_its_pieces(path: Seq<char>, name: Seq<char>)
    requires
        path.len() > 0,
        name.len() > 0,
        forall|k: int| 0 <= k < name.len() ==> name[k] != '/',
    ensures
        name != seq!['.'] ==> components(path + seq!['/'] + name) == components(path).push(name),
        components(path + seq!['/']) == components(path),
        components(path + seq!['/', '.']) == components(path),
        components(name) == seq![name],
        components(seq!['/']) == seq![seq!['/']],
        name != seq!['.'] ==> components(seq!['/'] + name) == seq![seq!['/'], name],
        components(Seq::<char>::empty()) == Seq::<Seq<char>>::empty(),
{
    let none = Seq::<char>::empty();
    let dot = seq!['.'];
    assert(names(none) =~= Seq::<Seq<char>>::empty());
    lemma_separator_is(name, 0, name.len() as int);
    lemma_separator_is(dot, 0, 1);
    assert(name.subrange(0, name.len() as int) =~= name);
    if name.len() == 1 && name[0] == '.' {
        assert(name =~= dot);
    }
    if name != dot {
        assert(names(name) =~= seq![name]);
        lemma_components_concat(path, name);
        assert(components(path) + seq![name] =~= components(path).push(name));
    }
    assert(names(dot) =~= Seq::<Seq<char>>::empty());
    lemma_components_concat(path, none);
    assert(path + seq!['/'] + none =~= path + seq!['/']);
    assert(components(path) + names(none) =~= components(path));
    lemma_components_concat(path, dot);
    assert(path + seq!['/'] + dot =~= path + seq!['/', '.']);
    assert(components(path) + names(dot) =~= components(path));
    lemma_components(name);
    assert(components(name) =~= seq![name]);
    let root = seq!['/'];
    lemma_components(root);
    assert(root.subrange(1, 1) =~= none);
    assert(components(root) =~= seq![root]);
    let under = root + name;
    lemma_components(under);
    assert(under.subrange(1, under.len() as int) =~= name);
    if name != dot {
        assert(components(under) =~= seq![root, name]);
    }
    lemma_components(none);
}

proof fn lemma_kept_components(path: Seq<char>, k: int)
    requires
        0 <= k < spans(path).len() - 1,
    ensures
        components(path.subrange(0, spans(path)[k].1)) == components(path).subrange(0, k + 1),
{
    let all = spans(path);
    let e = all[k].1;
    let kept = path.subrange(0, e);
    lemma_spans_ordered(path);
    if absolute(path) && k == 0 {
        assert(kept =~= seq!['/']);
        lemma_components(kept);
        let none = kept.subrange(1, 1);
        assert(names(none) =~= Seq::<Seq<char>>::empty());
        assert(path.subrange(0, 1) =~= seq!['/']);
        assert(components(kept) =~= components(path).subrange(0, 1));
    } else {
        if absolute(path) {
            lemma_spans_from_here(path, 1, k - 1);
            let rest = spans_from(path, 1);
            assert(all.subrange(k + 1, all.len() as int) =~= rest.subrange(k, rest.len() as int));
        } else {
            lemma_spans_from_here(path, 0, k);
        }
        assert(e < path.len()) by {
            assert(all[k].1 <= all[k + 1].0);
            assert(all[k + 1].0 < path.len());
        }
        let post = path.subrange(e + 1, path.len() as int);
        assert(path =~= kept + seq!['/'] + post);
        lemma_components_concat(kept, post);
        lemma_names(path, e + 1);
        assert(names(post) =~= components(path).subrange(k + 1, all.len() as int));
        assert(components(path) == components(kept) + names(post));
        let whole = components(path);
        assert(names(post).len() == whole.len() - (k + 1));
        assert(components(kept).len() == k + 1);
        assert forall|j: int| 0 <= j < k + 1 implies components(kept)[j] == whole.subrange(
            0,
            k + 1,
        )[j] by {
            assert((components(kept) + names(post))[j] == components(kept)[j]);
        }
        assert(components(kept) =~= whole.subrange(0, k + 1));
    }
}

/// The directory a path is in is the path without its last component; the root
/// and the empty path are in none.
pub proof fn a_parent_is_a_path_less_its_last_component(path: Seq<char>)
    ensures
        parent(path) is None <==> components(path).len() == 0 || (components(path).len() == 1
            && path[0] == '/'),
        parent(path) matches Some(up) ==> components(up) == components(path).drop_last(),
        parent_components(path) is None <==> parent(path) is None,
        parent(path) matches Some(up) ==> parent_components(path) == Some(components(up)),
        file_name(path) matches Some(name) ==> name == components(path).last() && name != "."@
            && name != ".."@,
        parent(path) is Some && components(path).last() != "."@ && components(path).last() != ".."@
            ==> file_name(path) is Some,
        parent(path) is None ==> file_name(path) is None,
{
    let all = spans(path);
    if path.len() == 0 {
        lemma_components(path);
    }
    if all.len() >= 2 {
        lemma_kept_components(path, all.len() - 2);
        assert(components(path).subrange(0, all.len() - 1) =~= components(path).drop_last());
    } else if all.len() == 1 && !absolute(path) {
        lemma_components(Seq::<char>::empty());
        assert(components(path).drop_last() =~= Seq::<Seq<char>>::empty());
    }
}

/// Where a portable path is: a bare `~` is the home, `~/` and the rest is the
/// rest under the home, and anything else, another account's home among it, is
/// where it says. A rest that itself starts at the root is where it says too.
pub proof fn only_a_leading_tilde_is_the_home(path: Seq<char>, home: Seq<char>)
    ensures
        ({
            let rest = path.subrange(2, path.len() as int);
            &&& path == seq!['~'] ==> rendered(path, home) == home
            &&& path.len() >= 2 && path[0] == '~' && path[1] == '/' ==> {
                &&& rest.len() > 0 && rest[0] == '/' ==> rendered(path, home) == rest
                &&& !(rest.len() > 0 && rest[0] == '/') && home.len() > 0 && home[home.len() - 1]
                    != '/' ==> rendered(path, home) == home + seq!['/'] + rest
                &&& !(rest.len() > 0 && rest[0] == '/') && !(home.len() > 0 && home[home.len() - 1]
                    != '/') ==> rendered(path, home) == home + rest
            }
            &&& path.len() == 0 || path[0] != '~' || (path.len() > 1 && path[1] != '/')
                ==> rendered(path, home) == path
        }),
{
    reveal_strlit("~");
    reveal_strlit("~/");
    reveal_strlit("/");
    assert("~"@ =~= seq!['~']);
    assert("~/"@ =~= seq!['~', '/']);
    assert("/"@ =~= seq!['/']);
    if path.len() >= 2 {
        assert(path.subrange(0, 2)[0] == path[0]);
        assert(path.subrange(0, 2)[1] == path[1]);
        if path[0] == '~' && path[1] == '/' {
            assert(path.subrange(0, 2) =~= "~/"@);
        }
        assert(path != seq!['~']);
    }
}

/// A path under the home is stored under `~`, the home itself as `~`, and any
/// other path as it is.
pub proof fn a_path_under_the_home_is_stored_under_the_tilde(path: Seq<char>, home: Seq<char>)
    ensures
        components(path) == components(home) ==> portable(path, home) == seq!['~'],
        components(home).is_prefix_of(components(path)) && components(path) != components(home)
            ==> portable(path, home).len() > 2 && portable(path, home)[0] == '~' && portable(
            path,
            home,
        )[1] == '/' && (home.len() > 0 ==> portable(path, home).last() != '/'),
        !components(home).is_prefix_of(components(path)) ==> portable(path, home) == path,
{
    reveal_strlit("~");
    reveal_strlit("~/");
    assert("~"@ =~= seq!['~']);
    let p = components(path);
    let h = components(home);
    if p == h {
        assert(p.subrange(0, h.len() as int) =~= p);
    }
    if within(path, home) && !same_path(path, home) {
        if p.len() == h.len() {
            assert(p.subrange(0, h.len() as int) =~= p);
        }
        let n = spans(home).len() as int;
        let last = spans(path).len() - 1;
        lemma_spans_ordered(path);
        lemma_span(path, n);
        lemma_span(path, last);
        assert(spans(path)[n].0 < spans(path)[last].1) by {
            if n < last {
                assert(spans(path)[n].1 <= spans(path)[last].0);
            }
        }
        let end = spans(path)[last].1;
        if home.len() > 0 {
            lemma_components(home);
            lemma_span_ends_in_a_name(path, last);
            assert(portable(path, home).last() == path[end - 1]);
        }
    }
}

proof fn lemma_span_ends_in_a_name(path: Seq<char>, k: int)
    requires
        0 <= k < spans(path).len(),
        !(absolute(path) && k == 0),
    ensures
        0 < spans(path)[k].1 <= path.len(),
        path[spans(path)[k].1 - 1] != '/',
{
    lemma_span(path, k);
    if absolute(path) {
        lemma_from_ends_in_a_name(path, 1, k - 1);
    } else {
        lemma_from_ends_in_a_name(path, 0, k);
    }
}

proof fn lemma_from_ends_in_a_name(path: Seq<char>, i: int, k: int)
    requires
        0 <= i,
        0 <= k < spans_from(path, i).len(),
    ensures
        0 < spans_from(path, i)[k].1 <= path.len(),
        path[spans_from(path, i)[k].1 - 1] != '/',
    decreases path.len() + 1 - i,
{
    lemma_separator(path, i);
    let e = separator(path, i);
    if names_nothing(path, i, e) {
        lemma_from_ends_in_a_name(path, e + 1, k);
    } else if k > 0 {
        lemma_from_ends_in_a_name(path, e + 1, k - 1);
    } else {
        assert(i <= e - 1 < e);
    }
}

/// A path that starts at the root is put in the place of the home, and any other
/// after it, with one separator between them.
pub proof fn a_path_is_put_after_the_home(home: Seq<char>, path: Seq<char>)
    ensures
        path.len() > 0 && path[0] == '/' ==> joined(home, path) == path,
        !(path.len() > 0 && path[0] == '/') ==> {
            &&& home.len() > 0 && home[home.len() - 1] == '/' ==> joined(home, path) == home + path
            &&& home.len() > 0 && home[home.len() - 1] != '/' ==> joined(home, path) == home + seq![
                '/',
            ] + path
            &&& home.len() == 0 ==> joined(home, path) == path
        },
{
    reveal_strlit("/");
    assert("/"@ =~= seq!['/']);
    assert(Seq::<char>::empty() + path =~= path);
    if home.len() == 0 {
        assert(home + path =~= path);
    }
}

/// A path is within another if and only if it has that one's components first,
/// and beneath it if it has more.
pub proof fn a_path_is_beneath_what_its_components_start_with(path: Seq<char>, base: Seq<char>)
    ensures
        within(path, base) <==> components(path).len() >= components(base).len() && forall|k: int|
            0 <= k < components(base).len() ==> #[trigger] components(path)[k] == components(
                base,
            )[k],
        beneath(path, base) <==> within(path, base) && components(path).len() > components(
            base,
        ).len(),
        same_path(path, base) <==> within(path, base) && within(base, path),
{
    let all = components(path);
    let first = components(base);
    if within(path, base) {
        assert forall|k: int| 0 <= k < first.len() implies #[trigger] all[k] == first[k] by {
            assert(all.subrange(0, first.len() as int)[k] == first[k]);
        }
        if all.len() == first.len() {
            assert(all =~= first);
        }
    } else if all.len() >= first.len() && forall|k: int|
        0 <= k < first.len() ==> #[trigger] all[k] == first[k] {
        assert(all.subrange(0, first.len() as int) =~= first);
    }
}

/// White space is the tab, the line feed and the characters up to the carriage
/// return, the space, the next line, and the spaces and separators of Unicode;
/// and no other character.
pub proof fn white_space_is_what_unicode_has(c: char)
    ensures
        white(c) <==> c == '\u{9}' || c == '\u{a}' || c == '\u{b}' || c == '\u{c}' || c == '\u{d}'
            || c == ' ' || c == '\u{85}' || c == '\u{a0}' || c == '\u{1680}' || c == '\u{2000}' || c
            == '\u{2001}' || c == '\u{2002}' || c == '\u{2003}' || c == '\u{2004}' || c == '\u{2005}'
            || c == '\u{2006}' || c == '\u{2007}' || c == '\u{2008}' || c == '\u{2009}' || c
            == '\u{200a}' || c == '\u{2028}' || c == '\u{2029}' || c == '\u{202f}' || c == '\u{205f}'
            || c == '\u{3000}',
{
}

} // verus!
