//! What a change looks like: the diff `plan` prints for one target, and the
//! rendering of a whole report.
//!
//! A [`Diff`] is plain data. It is computed once, while deciding, from the
//! bytes the decision was made on, so what is shown is exactly what `apply`
//! writes. Colour is not part of it: [`render`] alone applies a [`Palette`],
//! which is decided once from the environment and passed in.

use crate::fs::Mode;
use crate::paths::{lemma_past_line, past_line};
use crate::text::{
    chars_of, digit, opt_text, push_char, same_bytes, strings, text_of, utf8_text,
};
use std::borrow::Cow;
use vstd::prelude::*;
use vstd::utf8::*;

verus! {

/// The largest body, in bytes, that is shown line by line: 256 KiB.
///
/// Past this a diff stops being something a human reads, and computing one is
/// quadratic in the worst case; the change is summarised instead.
pub const TEXT_LIMIT: usize = 262_144;

/// Lines of unchanged context around each hunk.
pub const CONTEXT: usize = 3;

/// The difference between what is on disk and what bx would leave there.
#[derive(Debug, PartialEq, Eq)]
pub struct Diff {
    /// What kind of difference it is, with what a renderer needs to show it.
    pub kind: DiffKind,
}

/// The shape of a [`Diff`].
#[derive(Debug, PartialEq, Eq)]
#[allow(inconsistent_fields)]
pub enum DiffKind {
    /// A unified diff, headed by the target's portable path.
    Text(String),
    /// Only the mode differs; the bytes are identical.
    Mode {
        /// The mode on disk.
        from: Mode,
        /// The mode bx would set.
        to: Mode,
    },
    /// A checkout moves from one commit to another.
    Checkout {
        /// The commit that is checked out, or `None` when there is no checkout.
        from: Option<String>,
        /// The commit bx would check out.
        to: String,
        /// The remote it comes from.
        url: String,
    },
    /// The content differs and is not shown line by line.
    Summary {
        /// How many bytes are on disk, or `None` when there is no file.
        before: Option<usize>,
        /// How many bytes bx would write.
        after: usize,
        /// Why it is summarised.
        why: Why,
    },
}

/// Why a change is summarised rather than shown.
#[derive(Clone, Copy, Debug, PartialEq, Eq, Structural)]
pub enum Why {
    /// One side is not UTF-8.
    Binary,
    /// One side is larger than [`TEXT_LIMIT`].
    TooLarge,
}

/// The lines of `content` from `i` on, each with its newline where it has one.
pub open spec fn lines_from(content: Seq<char>, i: int) -> Seq<Seq<char>>
    decreases content.len() - i,
    when 0 <= i
    via lines_from_decreases
{
    if i >= content.len() {
        Seq::empty()
    } else {
        let next = past_line(content, i);
        seq![content.subrange(i, next)] + lines_from(content, next)
    }
}

#[via_fn]
proof fn lines_from_decreases(content: Seq<char>, i: int) {
    lemma_past_line(content, i);
}

/// The lines of a text, each with its newline where it has one: a line ends at
/// a newline and nowhere else.
pub fn lines_of(text: &str) -> (r: Vec<String>)
    ensures
        strings(r@) == lines_from(text@, 0),
{
    let chars = chars_of(text);
    let mut out: Vec<String> = Vec::new();
    let mut at: usize = 0;
    assert(strings(out@) + lines_from(chars@, 0) =~= lines_from(chars@, 0));
    while at < chars.len()
        invariant
            at <= chars.len(),
            strings(out@) + lines_from(chars@, at as int) == lines_from(chars@, 0),
        decreases chars.len() - at,
    {
        let mut next: usize = at;
        while next < chars.len() && chars[next] != '\n'
            invariant
                at <= next <= chars.len(),
                past_line(chars@, at as int) == past_line(chars@, next as int),
            decreases chars.len() - next,
        {
            next = next + 1;
        }
        if next < chars.len() {
            next = next + 1;
        }
        let ghost before = out@;
        let line = text_of(vstd::slice::slice_subrange(chars.as_slice(), at, next));
        out.push(line);
        assert(next == past_line(chars@, at as int));
        assert(strings(out@) =~= strings(before).push(line@));
        assert(strings(out@) + lines_from(chars@, next as int) =~= strings(before) + lines_from(
            chars@,
            at as int,
        ));
        at = next;
    }
    assert(strings(out@) =~= lines_from(chars@, 0));
    out
}

/// One hunk of a diff: its header, and its lines, each with the sign it is
/// shown with.
#[derive(Debug, PartialEq, Eq)]
pub struct Hunk {
    pub header: String,
    pub changes: Vec<(String, String)>,
}

/// The lines of a hunk as texts.
pub open spec fn signed(changes: Seq<(String, String)>) -> Seq<(Seq<char>, Seq<char>)> {
    Seq::new(changes.len(), |i: int| (changes[i].0@, changes[i].1@))
}

/// Some hunks as texts.
pub open spec fn hunk_texts(hunks: Seq<Hunk>) -> Seq<(Seq<char>, Seq<(Seq<char>, Seq<char>)>)> {
    Seq::new(hunks.len(), |i: int| (hunks[i].header@, signed(hunks[i].changes@)))
}

/// The hunks `similar::udiff::UnifiedDiff::iter_hunks` gives for the difference
/// of two lists of lines with `radius` lines of context.
pub uninterp spec fn hunks_of(
    old: Seq<Seq<char>>,
    new: Seq<Seq<char>>,
    radius: nat,
) -> Seq<(Seq<char>, Seq<(Seq<char>, Seq<char>)>)>;

/// Whether a hunk is made of `old` and `new`: each of its lines is one of
/// theirs, with a sign of one character, and its header is one line.
pub open spec fn drawn_from(
    hunk: (Seq<char>, Seq<(Seq<char>, Seq<char>)>),
    old: Seq<Seq<char>>,
    new: Seq<Seq<char>>,
) -> bool {
    &&& !hunk.0.contains('\n')
    &&& forall|k: int|
        0 <= k < hunk.1.len() ==> {
            &&& (#[trigger] hunk.1[k]).0 == seq![' '] || hunk.1[k].0 == seq!['-'] || hunk.1[k].0
                == seq!['+']
            &&& old.contains(hunk.1[k].1) || new.contains(hunk.1[k].1)
        }
}

/// The hunks of the difference of two lists of lines, by
/// `similar::TextDiffConfig::diff_slices` and
/// `similar::udiff::UnifiedDiff::iter_hunks`. Which lines a hunk holds is not
/// said, only that the two lists and the radius decide it, that each is a line
/// of one of the lists, with a space, a minus or a plus before it, that a
/// header holds no newline, and that there is no hunk where neither list has a
/// line.
#[verifier::external_body]
fn hunks(old: &Vec<String>, new: &Vec<String>, radius: usize) -> (r: Vec<Hunk>)
    requires
        radius <= 1000,
    ensures
        old@.len() == 0 && new@.len() == 0 ==> r@.len() == 0,
        hunk_texts(r@) == hunks_of(strings(old@), strings(new@), radius as nat),
        forall|i: int|
            0 <= i < r@.len() ==> drawn_from(
                #[trigger] hunk_texts(r@)[i],
                strings(old@),
                strings(new@),
            ),
{
    let old: Vec<&str> = old.iter().map(|line| line.as_str()).collect();
    let new: Vec<&str> = new.iter().map(|line| line.as_str()).collect();
    let diff = similar::TextDiff::configure().newline_terminated(true).diff_slices(&old, &new);
    let mut unified = diff.unified_diff();
    unified.context_radius(radius).iter_hunks().map(|hunk| Hunk {
        header: hunk.header().to_string(),
        changes: hunk.iter_changes().map(|change| (change.tag().to_string(), change.value().to_string())).collect(),
    }).collect()
}

/// One line of a hunk as it is written: its sign, the line, one newline, and a
/// note where the line had none.
pub open spec fn change_text(change: (Seq<char>, Seq<char>)) -> Seq<char> {
    let (tag, value) = change;
    if value.len() > 0 && value.last() == '\n' {
        tag + value.drop_last() + "\n"@
    } else {
        tag + value + "\n"@ + "\\ No newline at end of file\n"@
    }
}

/// Some lines of a hunk, one after another.
pub open spec fn changes_text(changes: Seq<(Seq<char>, Seq<char>)>) -> Seq<char>
    decreases changes.len(),
{
    if changes.len() == 0 {
        Seq::empty()
    } else {
        changes_text(changes.drop_last()) + change_text(changes.last())
    }
}

/// Some hunks, one after another.
pub open spec fn hunks_text(hunks: Seq<(Seq<char>, Seq<(Seq<char>, Seq<char>)>)>) -> Seq<char>
    decreases hunks.len(),
{
    if hunks.len() == 0 {
        Seq::empty()
    } else {
        hunks_text(hunks.drop_last()) + hunks.last().0 + "\n"@ + changes_text(hunks.last().1)
    }
}

/// The file headers of a diff.
pub open spec fn heading(target: Seq<char>) -> Seq<char> {
    "--- "@ + escaped(target) + " (on disk)\n+++ "@ + escaped(target) + " (bx)\n"@
}

/// A unified diff: the file headers, written even when there is no hunk, then
/// the hunks.
pub open spec fn unified_text(
    target: Seq<char>,
    hunks: Seq<(Seq<char>, Seq<(Seq<char>, Seq<char>)>)>,
) -> Seq<char> {
    heading(target) + hunks_text(hunks)
}

/// Some lines, each with a newline after it.
pub open spec fn terminated(lines: Seq<Seq<char>>) -> Seq<char>
    decreases lines.len(),
{
    if lines.len() == 0 {
        Seq::empty()
    } else {
        terminated(lines.drop_last()) + lines.last() + "\n"@
    }
}

/// Whether no line holds a newline.
pub open spec fn each_is_one_line(lines: Seq<Seq<char>>) -> bool {
    forall|k: int| 0 <= k < lines.len() ==> !(#[trigger] lines[k]).contains('\n')
}

/// The lines one line of a hunk is written as.
pub open spec fn change_lines(change: (Seq<char>, Seq<char>)) -> Seq<Seq<char>> {
    let (tag, value) = change;
    if value.len() > 0 && value.last() == '\n' {
        seq![tag + value.drop_last()]
    } else {
        seq![tag + value, "\\ No newline at end of file"@]
    }
}

/// The lines some lines of a hunk are written as.
pub open spec fn changes_lines(changes: Seq<(Seq<char>, Seq<char>)>) -> Seq<Seq<char>>
    decreases changes.len(),
{
    if changes.len() == 0 {
        Seq::empty()
    } else {
        changes_lines(changes.drop_last()) + change_lines(changes.last())
    }
}

/// The lines some hunks are written as.
pub open spec fn hunks_lines(
    hunks: Seq<(Seq<char>, Seq<(Seq<char>, Seq<char>)>)>,
) -> Seq<Seq<char>>
    decreases hunks.len(),
{
    if hunks.len() == 0 {
        Seq::empty()
    } else {
        hunks_lines(hunks.drop_last()) + seq![hunks.last().0] + changes_lines(hunks.last().1)
    }
}

/// The lines of a unified diff.
pub open spec fn diff_lines(
    target: Seq<char>,
    hunks: Seq<(Seq<char>, Seq<(Seq<char>, Seq<char>)>)>,
) -> Seq<Seq<char>> {
    seq!["--- "@ + escaped(target) + " (on disk)"@, "+++ "@ + escaped(target) + " (bx)"@]
        + hunks_lines(hunks)
}

proof fn lemma_terminated_add(a: Seq<Seq<char>>, b: Seq<Seq<char>>)
    ensures
        terminated(a + b) == terminated(a) + terminated(b),
    decreases b.len(),
{
    if b.len() == 0 {
        assert(a + b =~= a);
        assert(terminated(a) + terminated(b) =~= terminated(a));
    } else {
        lemma_terminated_add(a, b.drop_last());
        assert((a + b).drop_last() =~= a + b.drop_last());
        assert(terminated(a + b) =~= terminated(a) + terminated(b));
    }
}

proof fn lemma_terminated_one(line: Seq<char>)
    ensures
        terminated(seq![line]) == line + "\n"@,
{
    reveal_with_fuel(terminated, 2);
    assert(seq![line].drop_last() =~= Seq::empty());
    assert(terminated(seq![line]) =~= line + "\n"@);
}

proof fn lemma_changes_lines(changes: Seq<(Seq<char>, Seq<char>)>)
    ensures
        changes_text(changes) == terminated(changes_lines(changes)),
    decreases changes.len(),
{
    if changes.len() > 0 {
        lemma_changes_lines(changes.drop_last());
        let (tag, value) = changes.last();
        lemma_terminated_add(changes_lines(changes.drop_last()), change_lines(changes.last()));
        if value.len() > 0 && value.last() == '\n' {
            lemma_terminated_one(tag + value.drop_last());
        } else {
            let note = "\\ No newline at end of file"@;
            lemma_terminated_one(tag + value);
            lemma_terminated_one(note);
            lemma_terminated_add(seq![tag + value], seq![note]);
            assert(change_lines(changes.last()) =~= seq![tag + value] + seq![note]);
            reveal_strlit("\\ No newline at end of file");
            reveal_strlit("\\ No newline at end of file\n");
            reveal_strlit("\n");
            assert("\\ No newline at end of file\n"@ =~= note + "\n"@);
            assert(change_text(changes.last()) =~= terminated(change_lines(changes.last())));
        }
    }
}

proof fn lemma_hunks_lines(hunks: Seq<(Seq<char>, Seq<(Seq<char>, Seq<char>)>)>)
    ensures
        hunks_text(hunks) == terminated(hunks_lines(hunks)),
    decreases hunks.len(),
{
    if hunks.len() > 0 {
        let before = hunks_lines(hunks.drop_last());
        let head = seq![hunks.last().0];
        let body = changes_lines(hunks.last().1);
        lemma_hunks_lines(hunks.drop_last());
        lemma_changes_lines(hunks.last().1);
        lemma_terminated_one(hunks.last().0);
        lemma_terminated_add(before, head);
        lemma_terminated_add(before + head, body);
        assert(hunks_text(hunks) =~= terminated(hunks_lines(hunks)));
    }
}

proof fn lemma_unified_lines(
    target: Seq<char>,
    hunks: Seq<(Seq<char>, Seq<(Seq<char>, Seq<char>)>)>,
)
    ensures
        unified_text(target, hunks) == terminated(diff_lines(target, hunks)),
{
    let old = "--- "@ + escaped(target) + " (on disk)"@;
    let new = "+++ "@ + escaped(target) + " (bx)"@;
    lemma_hunks_lines(hunks);
    lemma_terminated_add(seq![old, new], hunks_lines(hunks));
    lemma_terminated_one(old);
    lemma_terminated_one(new);
    lemma_terminated_add(seq![old], seq![new]);
    assert(seq![old, new] =~= seq![old] + seq![new]);
    reveal_strlit(" (on disk)\n+++ ");
    reveal_strlit(" (on disk)");
    reveal_strlit("+++ ");
    reveal_strlit("\n");
    reveal_strlit(" (bx)\n");
    reveal_strlit(" (bx)");
    assert(" (on disk)\n+++ "@ =~= " (on disk)"@ + "\n"@ + "+++ "@);
    assert(" (bx)\n"@ =~= " (bx)"@ + "\n"@);
    assert(heading(target) =~= terminated(seq![old, new]));
}

proof fn lemma_no_newline_within(content: Seq<char>, i: int, j: int)
    requires
        0 <= i <= j < past_line(content, i) - 1,
        i < content.len(),
    ensures
        content[j] != '\n',
    decreases content.len() - i,
{
    lemma_past_line(content, i);
    if content[i] != '\n' && i < j {
        lemma_past_line(content, i + 1);
        lemma_no_newline_within(content, i + 1, j);
    }
}

proof fn lemma_lines_end_once(content: Seq<char>, i: int, k: int)
    requires
        0 <= i,
        0 <= k < lines_from(content, i).len(),
    ensures
        lines_from(content, i)[k].len() > 0,
        !lines_from(content, i)[k].drop_last().contains('\n'),
    decreases content.len() - i,
{
    let next = past_line(content, i);
    lemma_past_line(content, i);
    if k == 0 {
        let line = content.subrange(i, next);
        assert forall|m: int| 0 <= m < line.drop_last().len() implies line.drop_last()[m]
            != '\n' by {
            lemma_no_newline_within(content, i, i + m);
        }
    } else {
        lemma_lines_end_once(content, next, k - 1);
        assert(lines_from(content, i)[k] == lines_from(content, next)[k - 1]);
    }
}

proof fn lemma_change_is_lines(change: (Seq<char>, Seq<char>), old: Seq<char>, new: Seq<char>)
    requires
        change.0 == seq![' '] || change.0 == seq!['-'] || change.0 == seq!['+'],
        lines_from(old, 0).contains(change.1) || lines_from(new, 0).contains(change.1),
    ensures
        each_is_one_line(change_lines(change)),
{
    let (tag, value) = change;
    if lines_from(old, 0).contains(value) {
        let k = choose|k: int| 0 <= k < lines_from(old, 0).len() && lines_from(old, 0)[k] == value;
        lemma_lines_end_once(old, 0, k);
    } else {
        let k = choose|k: int| 0 <= k < lines_from(new, 0).len() && lines_from(new, 0)[k] == value;
        lemma_lines_end_once(new, 0, k);
    }
    reveal_strlit("\\ No newline at end of file");
    assert forall|m: int| 0 <= m < value.len() - 1 implies value[m] != '\n' by {
        assert(value.drop_last()[m] == value[m]);
    }
    assert forall|k: int| 0 <= k < change_lines(change).len() implies !(#[trigger] change_lines(
        change,
    )[k]).contains('\n') by {
        let line = change_lines(change)[k];
        if line.contains('\n') {
            let m = choose|m: int| 0 <= m < line.len() && line[m] == '\n';
            if k == 0 && m > 0 {
                assert(line[m] == value[m - 1]);
            }
        }
    }
}

proof fn lemma_changes_are_lines(
    changes: Seq<(Seq<char>, Seq<char>)>,
    old: Seq<char>,
    new: Seq<char>,
)
    requires
        forall|k: int|
            0 <= k < changes.len() ==> {
                &&& (#[trigger] changes[k]).0 == seq![' '] || changes[k].0 == seq!['-']
                    || changes[k].0 == seq!['+']
                &&& lines_from(old, 0).contains(changes[k].1) || lines_from(new, 0).contains(
                    changes[k].1,
                )
            },
    ensures
        each_is_one_line(changes_lines(changes)),
    decreases changes.len(),
{
    if changes.len() > 0 {
        lemma_changes_are_lines(changes.drop_last(), old, new);
        assert(changes.last() == changes[changes.len() - 1]);
        lemma_change_is_lines(changes.last(), old, new);
    }
}

proof fn lemma_hunks_are_lines(
    hunks: Seq<(Seq<char>, Seq<(Seq<char>, Seq<char>)>)>,
    old: Seq<char>,
    new: Seq<char>,
)
    requires
        forall|i: int|
            0 <= i < hunks.len() ==> drawn_from(
                #[trigger] hunks[i],
                lines_from(old, 0),
                lines_from(new, 0),
            ),
    ensures
        each_is_one_line(hunks_lines(hunks)),
    decreases hunks.len(),
{
    if hunks.len() > 0 {
        lemma_hunks_are_lines(hunks.drop_last(), old, new);
        assert(hunks.last() == hunks[hunks.len() - 1]);
        lemma_changes_are_lines(hunks.last().1, old, new);
    }
}

proof fn lemma_each_line_is_one(
    target: Seq<char>,
    hunks: Seq<(Seq<char>, Seq<(Seq<char>, Seq<char>)>)>,
    old: Seq<char>,
    new: Seq<char>,
)
    requires
        forall|i: int|
            0 <= i < hunks.len() ==> drawn_from(
                #[trigger] hunks[i],
                lines_from(old, 0),
                lines_from(new, 0),
            ),
    ensures
        each_is_one_line(diff_lines(target, hunks)),
{
    lemma_hunks_are_lines(hunks, old, new);
    nothing_shown_is_a_control_character(target);
    reveal_strlit("--- ");
    reveal_strlit("+++ ");
    reveal_strlit(" (on disk)");
    reveal_strlit(" (bx)");
    let shown = escaped(target);
    assert forall|k: int| 0 <= k < shown.len() implies shown[k] != '\n' by {}
    let lines = diff_lines(target, hunks);
    assert forall|k: int| 0 <= k < lines.len() implies !(#[trigger] lines[k]).contains('\n') by {
        if k >= 2 {
            assert(lines[k] == hunks_lines(hunks)[k - 2]);
        } else {
            let line = lines[k];
            if line.contains('\n') {
                let m = choose|m: int| 0 <= m < line.len() && line[m] == '\n';
                assert(4 <= m < 4 + shown.len() ==> line[m] == shown[m - 4]);
            }
        }
    }
}

fn push_change(out: &mut String, tag: &str, value: &str)
    ensures
        final(out)@ == old(out)@ + change_text((tag@, value@)),
{
    let chars = chars_of(value);
    out.append(tag);
    if chars.len() > 0 && chars[chars.len() - 1] == '\n' {
        let line = vstd::slice::slice_subrange(chars.as_slice(), 0, chars.len() - 1);
        assert(line@ =~= value@.drop_last());
        out.append(text_of(line).as_str());
        out.append("\n");
    } else {
        out.append(value);
        out.append("\n");
        out.append("\\ No newline at end of file\n");
    }
    assert(out@ =~= old(out)@ + change_text((tag@, value@)));
}

fn push_changes(out: &mut String, changes: &Vec<(String, String)>)
    ensures
        final(out)@ == old(out)@ + changes_text(signed(changes@)),
{
    let ghost all = signed(changes@);
    let mut i: usize = 0;
    assert(old(out)@ + changes_text(all.subrange(0, 0)) =~= old(out)@);
    while i < changes.len()
        invariant
            i <= changes.len(),
            all == signed(changes@),
            out@ == old(out)@ + changes_text(all.subrange(0, i as int)),
        decreases changes.len() - i,
    {
        let ghost more = all.subrange(0, i + 1);
        assert(more.drop_last() =~= all.subrange(0, i as int));
        push_change(out, changes[i].0.as_str(), changes[i].1.as_str());
        assert(out@ =~= old(out)@ + changes_text(more));
        i = i + 1;
    }
    assert(all.subrange(0, all.len() as int) =~= all);
}

/// A unified diff of some hunks, headed by `target`.
pub fn unified_of(target: &str, hunks: &Vec<Hunk>) -> (r: String)
    ensures
        r@ == unified_text(target@, hunk_texts(hunks@)),
{
    let shown = escape(target);
    let shown = as_text(&shown);
    let mut out = "--- ".to_owned().concat(shown).concat(" (on disk)\n+++ ").concat(shown).concat(
        " (bx)\n",
    );
    let ghost head = out@;
    let ghost all = hunk_texts(hunks@);
    let mut i: usize = 0;
    assert(head + hunks_text(all.subrange(0, 0)) =~= head);
    while i < hunks.len()
        invariant
            i <= hunks.len(),
            all == hunk_texts(hunks@),
            out@ == head + hunks_text(all.subrange(0, i as int)),
        decreases hunks.len() - i,
    {
        let ghost more = all.subrange(0, i + 1);
        assert(more.drop_last() =~= all.subrange(0, i as int));
        out.append(hunks[i].header.as_str());
        out.append("\n");
        push_changes(&mut out, &hunks[i].changes);
        assert(out@ =~= head + hunks_text(more));
        i = i + 1;
    }
    assert(all.subrange(0, all.len() as int) =~= all);
    out
}

/// A unified diff with [`CONTEXT`] lines of context, headed by `target`.
///
/// A line ends at a newline and nowhere else, so a `\r` stays inside its line:
/// a change of line ending is a changed line. Every line of the result ends
/// with exactly one newline, and a last line that had none is followed by
/// `\ No newline at end of file`.
pub fn unified(target: &str, old: &str, new: &str) -> (r: String)
    ensures
        r@ == unified_text(
            target@,
            hunks_of(lines_from(old@, 0), lines_from(new@, 0), CONTEXT as nat),
        ),
        r@ == terminated(
            diff_lines(
                target@,
                hunks_of(lines_from(old@, 0), lines_from(new@, 0), CONTEXT as nat),
            ),
        ),
        each_is_one_line(
            diff_lines(
                target@,
                hunks_of(lines_from(old@, 0), lines_from(new@, 0), CONTEXT as nat),
            ),
        ),
        forall|i: int|
            0 <= i < hunks_of(lines_from(old@, 0), lines_from(new@, 0), CONTEXT as nat).len()
                ==> drawn_from(
                #[trigger] hunks_of(lines_from(old@, 0), lines_from(new@, 0), CONTEXT as nat)[i],
                lines_from(old@, 0),
                lines_from(new@, 0),
            ),
        old@.len() == 0 && new@.len() == 0 ==> r@ == heading(target@),
{
    let old_lines = lines_of(old);
    let new_lines = lines_of(new);
    let hunks = hunks(&old_lines, &new_lines, CONTEXT);
    proof {
        let texts = hunk_texts(hunks@);
        lemma_unified_lines(target@, texts);
        lemma_each_line_is_one(target@, texts, old@, new@);
        if old@.len() == 0 && new@.len() == 0 {
            assert(old_lines@.len() == strings(old_lines@).len());
            assert(new_lines@.len() == strings(new_lines@).len());
            assert(texts =~= Seq::empty());
            assert(unified_text(target@, texts) =~= heading(target@));
        }
    }
    unified_of(target, &hunks)
}

/// Whether a character is a control character, as Unicode has it.
pub open spec fn control(c: char) -> bool {
    let v = c as u32;
    v < 0x20 || 0x7f <= v <= 0x9f
}

/// Whether a character is shown as it is.
pub open spec fn plain(c: char) -> bool {
    c == '\t' || !control(c)
}

/// One digit in base sixteen.
pub open spec fn hex_digit(n: nat) -> char {
    if n < 10 {
        digit(n)
    } else if n == 10 {
        'a'
    } else if n == 11 {
        'b'
    } else if n == 12 {
        'c'
    } else if n == 13 {
        'd'
    } else if n == 14 {
        'e'
    } else {
        'f'
    }
}

/// A character as it is shown.
pub open spec fn spelled(c: char) -> Seq<char> {
    if c == '\t' {
        seq![c]
    } else if c == '\r' {
        "\\r"@
    } else if c == '\n' {
        "\\n"@
    } else if control(c) {
        "\\x"@ + seq![hex_digit((c as u32) as nat / 16), hex_digit((c as u32) as nat % 16)]
    } else {
        seq![c]
    }
}

/// A text as it is shown: every control character but a tab spelled out.
pub open spec fn escaped(text: Seq<char>) -> Seq<char>
    decreases text.len(),
{
    if text.len() == 0 {
        Seq::empty()
    } else {
        escaped(text.drop_last()) + spelled(text.last())
    }
}

/// Whether a character is a control character, as Unicode has it.
pub fn is_control(c: char) -> (r: bool)
    ensures
        r == control(c),
{
    let v: u32 = c as u32;
    v < 0x20 || (0x7f <= v && v <= 0x9f)
}

fn hex_digit_of(n: u32) -> (r: char)
    requires
        n < 16,
    ensures
        r == hex_digit(n as nat),
{
    match n {
        0 => '0',
        1 => '1',
        2 => '2',
        3 => '3',
        4 => '4',
        5 => '5',
        6 => '6',
        7 => '7',
        8 => '8',
        9 => '9',
        10 => 'a',
        11 => 'b',
        12 => 'c',
        13 => 'd',
        14 => 'e',
        _ => 'f',
    }
}

fn push_spelled(out: &mut String, c: char)
    ensures
        final(out)@ == old(out)@ + spelled(c),
{
    if c == '\t' {
        push_char(out, c);
    } else if c == '\r' {
        out.append("\\r");
    } else if c == '\n' {
        out.append("\\n");
    } else if is_control(c) {
        let v: u32 = c as u32;
        out.append("\\x");
        push_char(out, hex_digit_of(v / 16));
        push_char(out, hex_digit_of(v % 16));
    } else {
        push_char(out, c);
    }
    assert(out@ =~= old(out)@ + spelled(c));
}

/// A text with no control character but a tab is shown as it is.
pub proof fn plain_text_is_shown_as_it_is(text: Seq<char>)
    requires
        forall|i: int| 0 <= i < text.len() ==> plain(#[trigger] text[i]),
    ensures
        escaped(text) == text,
    decreases text.len(),
{
    if text.len() > 0 {
        plain_text_is_shown_as_it_is(text.drop_last());
        assert(plain(text[text.len() - 1]));
        assert(text =~= text.drop_last().push(text.last()));
        assert(spelled(text.last()) =~= seq![text.last()]);
    } else {
        assert(escaped(text) =~= text);
    }
}

/// Nothing a file or a path holds can move the cursor, colour the terminal, or
/// start a line: no text is shown with a control character but a tab.
pub proof fn nothing_shown_is_a_control_character(text: Seq<char>)
    ensures
        forall|i: int| 0 <= i < escaped(text).len() ==> plain(#[trigger] escaped(text)[i]),
    decreases text.len(),
{
    if text.len() > 0 {
        nothing_shown_is_a_control_character(text.drop_last());
        let before = escaped(text.drop_last());
        let last = spelled(text.last());
        reveal_strlit("\\r");
        reveal_strlit("\\n");
        reveal_strlit("\\x");
        assert forall|i: int| 0 <= i < last.len() implies plain(#[trigger] last[i]) by {}
        assert forall|i: int| 0 <= i < escaped(text).len() implies plain(
            #[trigger] escaped(text)[i],
        ) by {
            if i >= before.len() {
                assert(escaped(text)[i] == last[i - before.len()]);
            } else {
                assert(escaped(text)[i] == before[i]);
            }
        }
    }
}

/// The text of a value that is borrowed or owned.
fn as_text<'a>(text: &'a Cow<'_, str>) -> (r: &'a str)
    ensures
        r@ == text@,
{
    match text {
        Cow::Borrowed(text) => text,
        Cow::Owned(text) => text.as_str(),
    }
}

/// `text` with every control character but a tab spelled out (`\r`, `\n`,
/// `\x1b`), so nothing a file or a path holds can move the cursor, colour the
/// terminal, or start a line the rendering did not. A text that needs no change
/// is handed back.
pub fn escape(text: &str) -> (r: Cow<'_, str>)
    ensures
        r@ == escaped(text@),
        r is Borrowed <==> forall|i: int| 0 <= i < text@.len() ==> plain(#[trigger] text@[i]),
{
    let chars = chars_of(text);
    let mut i: usize = 0;
    while i < chars.len() && (chars[i] == '\t' || !is_control(chars[i]))
        invariant
            i <= chars.len(),
            forall|j: int| 0 <= j < i ==> plain(#[trigger] chars@[j]),
        decreases chars.len() - i,
    {
        i = i + 1;
    }
    if i == chars.len() {
        proof {
            plain_text_is_shown_as_it_is(text@);
        }
        return Cow::Borrowed(text);
    }
    assert(!plain(text@[i as int]));
    let mut out = String::new();
    let mut k: usize = 0;
    assert(chars@.subrange(0, 0) =~= Seq::<char>::empty());
    while k < chars.len()
        invariant
            k <= chars.len(),
            out@ == escaped(chars@.subrange(0, k as int)),
        decreases chars.len() - k,
    {
        let ghost more = chars@.subrange(0, k + 1);
        assert(more.drop_last() =~= chars@.subrange(0, k as int));
        push_spelled(&mut out, chars[k]);
        k = k + 1;
    }
    assert(chars@.subrange(0, chars@.len() as int) =~= chars@);
    Cow::Owned(out)
}

/// What a difference is shown as.
pub open spec fn shows(
    kind: DiffKind,
    target: Seq<char>,
    before: Option<Seq<u8>>,
    after: Seq<u8>,
) -> bool {
    let old = match before {
        Some(bytes) => bytes,
        None => Seq::empty(),
    };
    let size = match before {
        Some(bytes) => Some(bytes.len() as usize),
        None => None,
    };
    if old.len() > TEXT_LIMIT || after.len() > TEXT_LIMIT {
        kind == (DiffKind::Summary { before: size, after: after.len() as usize, why: Why::TooLarge })
    } else if valid_utf8(old) && valid_utf8(after) {
        kind matches DiffKind::Text(text) && text@ == unified_text(
            target,
            hunks_of(
                lines_from(decode_utf8(old), 0),
                lines_from(decode_utf8(after), 0),
                CONTEXT as nat,
            ),
        )
    } else {
        kind == (DiffKind::Summary { before: size, after: after.len() as usize, why: Why::Binary })
    }
}

/// Whether a diff is the one from `before` to `after`, where the comparison
/// found the mode drift `mode`.
pub open spec fn between_sides(
    diff: Option<Diff>,
    target: Seq<char>,
    before: Option<Seq<u8>>,
    after: Seq<u8>,
    mode: Option<(Mode, Mode)>,
) -> bool {
    if before == Some(after) {
        match mode {
            Some((from, to)) => diff == Some(Diff { kind: DiffKind::Mode { from, to } }),
            None => diff is None,
        }
    } else {
        diff is Some && shows(diff->0.kind, target, before, after)
    }
}

/// Whether a diff is that of a checkout that moves to the commit `to` of `url`.
pub open spec fn is_checkout(
    diff: Diff,
    from: Option<Seq<char>>,
    to: Seq<char>,
    url: Seq<char>,
) -> bool {
    match diff.kind {
        DiffKind::Checkout { from: old, to: new, url: remote } => opt_text(old) == from && new@
            == to && remote@ == url,
        _ => false,
    }
}

/// The bytes of a side that may not be there.
pub open spec fn side(bytes: Option<&[u8]>) -> Option<Seq<u8>> {
    match bytes {
        Some(bytes) => Some(bytes@),
        None => None,
    }
}

/// The lines of a side that is a text.
pub open spec fn lines_of_side(bytes: Option<Seq<u8>>) -> Seq<Seq<char>> {
    match bytes {
        Some(bytes) => lines_from(decode_utf8(bytes), 0),
        None => lines_from(decode_utf8(Seq::empty()), 0),
    }
}

impl Diff {
    /// The diff of a directory whose mode alone changes: it has no bytes, so
    /// a mode line is all there is to show.
    pub fn mode(from: Mode, to: Mode) -> (r: Diff)
        ensures
            r.kind == (DiffKind::Mode { from, to }),
    {
        Diff { kind: DiffKind::Mode { from, to } }
    }

    /// The diff of a checkout that moves to the commit `to` of `url`.
    pub fn checkout(from: Option<&str>, to: &str, url: &str) -> (r: Diff)
        ensures
            is_checkout(
                r,
                match from {
                    Some(from) => Some(from@),
                    None => None,
                },
                to@,
                url@,
            ),
    {
        let from = match from {
            Some(from) => Some(from.to_owned()),
            None => None,
        };
        Diff { kind: DiffKind::Checkout { from, to: to.to_owned(), url: url.to_owned() } }
    }

    /// The diff from `before` (the regular file on disk, or `None` when there
    /// is none) to `after`, for the target spelled `target`.
    ///
    /// `mode` is the mode drift the comparison found. Identical bytes with no
    /// mode drift have no diff.
    pub fn between(
        target: &str,
        before: Option<&[u8]>,
        after: &[u8],
        mode: Option<(Mode, Mode)>,
    ) -> (r: Option<Diff>)
        ensures
            between_sides(r, target@, side(before), after@, mode),
            r matches Some(diff) ==> diff.kind is Text ==> forall|i: int|
                0 <= i < hunks_of(
                    lines_of_side(side(before)),
                    lines_of_side(Some(after@)),
                    CONTEXT as nat,
                ).len() ==> drawn_from(
                    #[trigger] hunks_of(
                        lines_of_side(side(before)),
                        lines_of_side(Some(after@)),
                        CONTEXT as nat,
                    )[i],
                    lines_of_side(side(before)),
                    lines_of_side(Some(after@)),
                ),
            side(before) is None && after@.len() == 0 ==> (r->0.kind matches DiffKind::Text(text)
                && text@ == heading(target@)),
    {
        if let Some(bytes) = before {
            if same_bytes(bytes, after) {
                return match mode {
                    Some((from, to)) => Some(Diff::mode(from, to)),
                    None => None,
                };
            }
        }
        let none: &[u8] = &[];
        assert(none@ =~= Seq::<u8>::empty());
        let old = match before {
            Some(bytes) => bytes,
            None => none,
        };
        let size = match before {
            Some(bytes) => Some(bytes.len()),
            None => None,
        };
        if old.len() > TEXT_LIMIT || after.len() > TEXT_LIMIT {
            return Some(
                Diff {
                    kind: DiffKind::Summary { before: size, after: after.len(), why: Why::TooLarge },
                },
            );
        }
        match (utf8_text(old), utf8_text(after)) {
            (Some(old_text), Some(new_text)) => {
                proof {
                    encode_utf8_decode_utf8(old_text@);
                    encode_utf8_decode_utf8(new_text@);
                    if old@.len() == 0 && after@.len() == 0 {
                        assert(old_text@.len() == 0 && new_text@.len() == 0) by {
                            reveal_with_fuel(encode_utf8, 2);
                        }
                    }
                }
                Some(Diff { kind: DiffKind::Text(unified(target, old_text, new_text)) })
            },
            _ => Some(
                Diff {
                    kind: DiffKind::Summary { before: size, after: after.len(), why: Why::Binary },
                },
            ),
        }
    }
}

/// How many lines one line of a hunk is written as: one, and one more that says
/// its newline is missing.
pub open spec fn change_height(change: (Seq<char>, Seq<char>)) -> nat {
    if change.1.len() > 0 && change.1[change.1.len() - 1] == '\n' {
        1
    } else {
        2
    }
}

/// How many lines the first `n` lines of a hunk are written as.
pub open spec fn changes_height(changes: Seq<(Seq<char>, Seq<char>)>, n: int) -> nat
    decreases n,
{
    if n <= 0 {
        0
    } else {
        changes_height(changes, n - 1) + change_height(changes[n - 1])
    }
}

/// How many lines the first `n` hunks are written as: each its header and its
/// lines.
pub open spec fn hunks_height(
    hunks: Seq<(Seq<char>, Seq<(Seq<char>, Seq<char>)>)>,
    n: int,
) -> nat
    decreases n,
{
    if n <= 0 {
        0
    } else {
        hunks_height(hunks, n - 1) + 1 + changes_height(
            hunks[n - 1].1,
            hunks[n - 1].1.len() as int,
        )
    }
}

proof fn lemma_changes_height(changes: Seq<(Seq<char>, Seq<char>)>, all: Seq<(Seq<char>, Seq<char>)>, n: int)
    requires
        0 <= n <= changes.len(),
        n <= all.len(),
        forall|j: int| 0 <= j < n ==> changes[j] == all[j],
    ensures
        changes_height(changes, n) == changes_height(all, n),
    decreases n,
{
    if n > 0 {
        lemma_changes_height(changes, all, n - 1);
    }
}

proof fn lemma_change_at(changes: Seq<(Seq<char>, Seq<char>)>, k: int)
    requires
        0 <= k < changes.len(),
    ensures
        changes_lines(changes).len() == changes_height(changes, changes.len() as int),
        changes_height(changes, k) < changes_lines(changes).len(),
        ({
            let (sign, value) = changes[k];
            let at = changes_height(changes, k) as int;
            if value.len() > 0 && value[value.len() - 1] == '\n' {
                changes_lines(changes)[at] == sign + value.subrange(0, value.len() - 1)
            } else {
                &&& at + 1 < changes_lines(changes).len()
                &&& changes_lines(changes)[at] == sign + value
                &&& changes_lines(changes)[at + 1] == "\\ No newline at end of file"@
            }
        }),
    decreases changes.len(),
{
    let n = changes.len() as int;
    let before = changes.drop_last();
    lemma_changes_height(before, changes, n - 1);
    let value = changes.last().1;
    if value.len() > 0 {
        assert(value.drop_last() =~= value.subrange(0, value.len() - 1));
    }
    if n > 1 {
        lemma_change_at(before, 0);
    } else {
        assert(changes_lines(before) =~= Seq::empty());
    }
    if k < n - 1 {
        lemma_changes_height(before, changes, k);
        lemma_change_at(before, k);
    }
}

proof fn lemma_changes_lines_len(changes: Seq<(Seq<char>, Seq<char>)>)
    ensures
        changes_lines(changes).len() == changes_height(changes, changes.len() as int),
{
    if changes.len() > 0 {
        lemma_change_at(changes, 0);
    }
}

proof fn lemma_hunks_height(
    some: Seq<(Seq<char>, Seq<(Seq<char>, Seq<char>)>)>,
    all: Seq<(Seq<char>, Seq<(Seq<char>, Seq<char>)>)>,
    n: int,
)
    requires
        0 <= n <= some.len(),
        n <= all.len(),
        forall|j: int| 0 <= j < n ==> some[j] == all[j],
    ensures
        hunks_height(some, n) == hunks_height(all, n),
    decreases n,
{
    if n > 0 {
        lemma_hunks_height(some, all, n - 1);
    }
}

proof fn lemma_hunk_at(hunks: Seq<(Seq<char>, Seq<(Seq<char>, Seq<char>)>)>, i: int)
    requires
        0 <= i < hunks.len(),
    ensures
        hunks_lines(hunks).len() == hunks_height(hunks, hunks.len() as int),
        ({
            let at = hunks_height(hunks, i) as int;
            &&& at + 1 + changes_lines(hunks[i].1).len() <= hunks_lines(hunks).len()
            &&& hunks_lines(hunks)[at] == hunks[i].0
            &&& forall|j: int|
                0 <= j < changes_lines(hunks[i].1).len() ==> hunks_lines(hunks)[at + 1 + j]
                    == #[trigger] changes_lines(hunks[i].1)[j]
        }),
    decreases hunks.len(),
{
    let n = hunks.len() as int;
    let before = hunks.drop_last();
    lemma_hunks_height(before, hunks, n - 1);
    lemma_changes_lines_len(hunks.last().1);
    if n > 1 {
        lemma_hunk_at(before, 0);
    } else {
        assert(hunks_lines(before) =~= Seq::empty());
    }
    if i < n - 1 {
        lemma_hunks_height(before, hunks, i);
        lemma_hunk_at(before, i);
        assert forall|j: int| 0 <= j < changes_lines(hunks[i].1).len() implies hunks_lines(
            hunks,
        )[hunks_height(hunks, i) as int + 1 + j] == #[trigger] changes_lines(hunks[i].1)[j] by {
            assert(hunks_lines(before)[hunks_height(hunks, i) as int + 1 + j] == changes_lines(
                before[i].1,
            )[j]);
        }
    }
}

/// A diff holds every hunk, in order. After the two lines that head it stand,
/// hunk by hunk, the hunk's header and then each of its lines under its sign:
/// the header of hunk `i` stands where the lines of the hunks before it end, and
/// its line `k` where those of the lines before it end. There is nothing else:
/// the lines of a diff are as many as the hunks make.
pub proof fn a_diff_shows_every_change_of_every_hunk(
    target: Seq<char>,
    hunks: Seq<(Seq<char>, Seq<(Seq<char>, Seq<char>)>)>,
    i: int,
    k: int,
)
    requires
        0 <= i < hunks.len(),
        0 <= k < hunks[i].1.len(),
    ensures
        unified_text(target, hunks) == terminated(diff_lines(target, hunks)),
        diff_lines(target, hunks).len() == 2 + hunks_height(hunks, hunks.len() as int),
        diff_lines(target, hunks)[0] == "--- "@ + escaped(target) + " (on disk)"@,
        diff_lines(target, hunks)[1] == "+++ "@ + escaped(target) + " (bx)"@,
        ({
            let lines = diff_lines(target, hunks);
            let head = 2 + hunks_height(hunks, i) as int;
            let at = head + 1 + changes_height(hunks[i].1, k) as int;
            let (sign, value) = hunks[i].1[k];
            &&& head < at < lines.len()
            &&& lines[head] == hunks[i].0
            &&& if value.len() > 0 && value[value.len() - 1] == '\n' {
                lines[at] == sign + value.subrange(0, value.len() - 1)
            } else {
                at + 1 < lines.len() && lines[at] == sign + value && lines[at + 1]
                    == "\\ No newline at end of file"@
            }
        }),
{
    lemma_unified_lines(target, hunks);
    lemma_hunk_at(hunks, i);
    lemma_change_at(hunks[i].1, k);
    let changes = hunks[i].1;
    let at = changes_height(changes, k) as int;
    assert(hunks_lines(hunks)[hunks_height(hunks, i) as int + 1 + at] == changes_lines(
        changes,
    )[at]);
    if !(changes[k].1.len() > 0 && changes[k].1[changes[k].1.len() - 1] == '\n') {
        assert(hunks_lines(hunks)[hunks_height(hunks, i) as int + 1 + (at + 1)] == changes_lines(
            changes,
        )[at + 1]);
    }
}

proof fn lemma_changes_text_add(
    some: Seq<(Seq<char>, Seq<char>)>,
    rest: Seq<(Seq<char>, Seq<char>)>,
)
    ensures
        changes_text(some + rest) == changes_text(some) + changes_text(rest),
    decreases rest.len(),
{
    if rest.len() == 0 {
        assert(some + rest =~= some);
        assert(changes_text(some) + changes_text(rest) =~= changes_text(some));
    } else {
        assert((some + rest).drop_last() =~= some + rest.drop_last());
        lemma_changes_text_add(some, rest.drop_last());
        assert(changes_text(some + rest) =~= changes_text(some) + changes_text(rest));
    }
}

proof fn lemma_hunks_text_add(
    some: Seq<(Seq<char>, Seq<(Seq<char>, Seq<char>)>)>,
    rest: Seq<(Seq<char>, Seq<(Seq<char>, Seq<char>)>)>,
)
    ensures
        hunks_text(some + rest) == hunks_text(some) + hunks_text(rest),
    decreases rest.len(),
{
    if rest.len() == 0 {
        assert(some + rest =~= some);
        assert(hunks_text(some) + hunks_text(rest) =~= hunks_text(some));
    } else {
        assert((some + rest).drop_last() =~= some + rest.drop_last());
        lemma_hunks_text_add(some, rest.drop_last());
        assert(hunks_text(some + rest) =~= hunks_text(some) + hunks_text(rest));
    }
}

/// The text of a diff is the text of its hunks, one after the other, under one
/// heading, wherever the hunks are cut in two: none is left out, none comes
/// twice, and none is changed by those around it.
pub proof fn a_diff_is_its_hunks_one_after_the_other(
    target: Seq<char>,
    some: Seq<(Seq<char>, Seq<(Seq<char>, Seq<char>)>)>,
    hunk: (Seq<char>, Seq<(Seq<char>, Seq<char>)>),
    rest: Seq<(Seq<char>, Seq<(Seq<char>, Seq<char>)>)>,
    one: Seq<(Seq<char>, Seq<char>)>,
    sign: Seq<char>,
    line: Seq<char>,
    two: Seq<(Seq<char>, Seq<char>)>,
)
    requires
        hunk.1 == one.push((sign, line + seq!['\n'])) + two,
    ensures
        unified_text(target, Seq::empty()) == "--- "@ + escaped(target) + " (on disk)\n+++ "@
            + escaped(target) + " (bx)\n"@,
        unified_text(target, some.push(hunk) + rest) == unified_text(target, some) + hunk.0
            + seq!['\n'] + changes_text(one) + sign + line + seq!['\n'] + changes_text(two)
            + hunks_text(rest),
{
    reveal_strlit("\n");
    assert("\n"@ =~= seq!['\n']);
    assert(some.push(hunk) + rest =~= some + seq![hunk] + rest);
    lemma_hunks_text_add(some + seq![hunk], rest);
    lemma_hunks_text_add(some, seq![hunk]);
    assert(seq![hunk].drop_last() =~= Seq::empty());
    assert(hunks_text(seq![hunk]) =~= hunk.0 + "\n"@ + changes_text(hunk.1)) by {
        reveal_with_fuel(hunks_text, 2);
    }
    let change = (sign, line + seq!['\n']);
    assert(one.push(change) + two =~= one + seq![change] + two);
    lemma_changes_text_add(one + seq![change], two);
    lemma_changes_text_add(one, seq![change]);
    assert(seq![change].drop_last() =~= Seq::empty());
    assert((line + seq!['\n']).drop_last() =~= line);
    assert(changes_text(seq![change]) =~= sign + line + "\n"@) by {
        reveal_with_fuel(changes_text, 2);
    }
    assert(unified_text(target, Seq::empty()) =~= heading(target));
    assert(unified_text(target, some.push(hunk) + rest) =~= unified_text(target, some) + hunk.0
        + seq!['\n'] + changes_text(one) + sign + line + seq!['\n'] + changes_text(two)
        + hunks_text(rest));
}

/// Every hunk is kept as it was given, with every one of its lines.
pub proof fn every_hunk_is_kept(hunks: Seq<Hunk>, i: int, k: int)
    requires
        0 <= i < hunks.len(),
        0 <= k < hunks[i].changes@.len(),
    ensures
        hunk_texts(hunks).len() == hunks.len(),
        hunk_texts(hunks)[i].0 == hunks[i].header@,
        hunk_texts(hunks)[i].1.len() == hunks[i].changes@.len(),
        hunk_texts(hunks)[i].1[k].0 == hunks[i].changes@[k].0@,
        hunk_texts(hunks)[i].1[k].1 == hunks[i].changes@[k].1@,
{
}

proof fn lemma_lines_join(content: Seq<char>, i: int)
    requires
        0 <= i <= content.len(),
    ensures
        lines_from(content, i).flatten() == content.subrange(i, content.len() as int),
    decreases content.len() - i,
{
    let lines = lines_from(content, i);
    if i < content.len() {
        lemma_past_line(content, i);
        let next = past_line(content, i);
        lemma_lines_join(content, next);
        assert(lines.drop_first() =~= lines_from(content, next));
        assert(lines.first() == content.subrange(i, next));
        assert(content.subrange(i, next) + content.subrange(next, content.len() as int)
            =~= content.subrange(i, content.len() as int));
    } else {
        assert(lines =~= Seq::empty());
        assert(content.subrange(i, content.len() as int) =~= Seq::<char>::empty());
    }
}

/// The lines of a text are the text, cut after every newline and nowhere else:
/// put together again they are the text, none is empty, each holds a newline at
/// most as its last character, and each but the last does.
pub proof fn a_text_is_cut_after_every_newline(content: Seq<char>, k: int)
    requires
        0 <= k < lines_from(content, 0).len(),
    ensures
        lines_from(content, 0).flatten() == content,
        lines_from(content, 0)[k].len() > 0,
        forall|j: int|
            0 <= j < lines_from(content, 0)[k].len() - 1 ==> lines_from(content, 0)[k][j] != '\n',
        k < lines_from(content, 0).len() - 1 ==> lines_from(content, 0)[k].last() == '\n',
{
    lemma_lines_join(content, 0);
    assert(content.subrange(0, content.len() as int) =~= content);
    lemma_lines_end_once(content, 0, k);
    let line = lines_from(content, 0)[k];
    assert forall|j: int| 0 <= j < line.len() - 1 implies line[j] != '\n' by {
        assert(line.drop_last()[j] == line[j]);
    }
    if k < lines_from(content, 0).len() - 1 {
        lemma_line_ends(content, 0, k);
    }
}

proof fn lemma_line_ends(content: Seq<char>, i: int, k: int)
    requires
        0 <= i,
        0 <= k < lines_from(content, i).len() - 1,
    ensures
        lines_from(content, i)[k].len() > 0,
        lines_from(content, i)[k].last() == '\n',
    decreases content.len() - i,
{
    lemma_past_line(content, i);
    let next = past_line(content, i);
    if k == 0 {
        assert(lines_from(content, next).len() > 0);
        assert(next < content.len());
        lemma_line_end_is_newline(content, i);
    } else {
        lemma_line_ends(content, next, k - 1);
        assert(lines_from(content, i)[k] == lines_from(content, next)[k - 1]);
    }
}

proof fn lemma_line_end_is_newline(content: Seq<char>, i: int)
    requires
        0 <= i < content.len(),
        past_line(content, i) < content.len(),
    ensures
        i < past_line(content, i),
        content[past_line(content, i) - 1] == '\n',
    decreases content.len() - i,
{
    lemma_past_line(content, i);
    if content[i] != '\n' {
        lemma_past_line(content, i + 1);
        lemma_line_end_is_newline(content, i + 1);
    }
}

/// A text is shown character by character: two texts one after the other are
/// shown one after the other, a character that is no control character, and a
/// tab, as itself, and any other spelled out by a backslash and its name or its
/// two digits in base sixteen.
pub proof fn a_text_is_shown_character_by_character(a: Seq<char>, b: Seq<char>, c: char)
    ensures
        escaped(a + b) == escaped(a) + escaped(b),
        ({
            let v = c as u32;
            let shown = escaped(seq![c]);
            let hidden = v < 32 || (127 <= v && v <= 159);
            &&& c == '\t' || !hidden ==> shown == seq![c]
            &&& c == '\r' ==> shown == seq!['\\', 'r']
            &&& c == '\n' ==> shown == seq!['\\', 'n']
            &&& hidden && c != '\t' && c != '\r' && c != '\n' ==> {
                &&& shown.len() == 4
                &&& shown[0] == '\\'
                &&& shown[1] == 'x'
                &&& shown[2] as u32 == if v / 16 < 10 {
                    48 + v / 16
                } else {
                    87 + v / 16
                }
                &&& shown[3] as u32 == if v % 16 < 10 {
                    48 + v % 16
                } else {
                    87 + v % 16
                }
            }
        }),
    decreases b.len(),
{
    if b.len() == 0 {
        assert(a + b =~= a);
        assert(escaped(a) + escaped(b) =~= escaped(a));
    } else {
        assert((a + b).drop_last() =~= a + b.drop_last());
        a_text_is_shown_character_by_character(a, b.drop_last(), c);
        assert(escaped(a + b) =~= escaped(a) + escaped(b));
    }
    reveal_with_fuel(escaped, 2);
    reveal_strlit("\\r");
    reveal_strlit("\\n");
    reveal_strlit("\\x");
    assert(seq![c].drop_last() =~= Seq::<char>::empty());
    assert(escaped(seq![c]) =~= spelled(c));
    assert("\\r"@ =~= seq!['\\', 'r']);
    assert("\\n"@ =~= seq!['\\', 'n']);
}

/// How a difference is shown, in every case: the same bytes as the mode that
/// moved, or not at all; text of at most 262144 bytes on either side as a diff of
/// its lines with three lines of context; and anything else by its sizes and why.
pub proof fn a_difference_is_shown_as_what_it_is(
    diff: Option<Diff>,
    target: Seq<char>,
    before: Option<Seq<u8>>,
    after: Seq<u8>,
    mode: Option<(Mode, Mode)>,
)
    requires
        between_sides(diff, target, before, after, mode),
    ensures
        ({
            let old = match before {
                Some(bytes) => bytes,
                None => Seq::empty(),
            };
            let large = old.len() > 262144 || after.len() > 262144;
            let texts = valid_utf8(old) && valid_utf8(after);
            let moved = before == Some(after);
            &&& moved && mode is None ==> diff is None
            &&& moved && mode is Some ==> (diff matches Some(diff) && mode matches Some((was, wanted))
                && diff.kind == (DiffKind::Mode { from: was, to: wanted }))
            &&& !moved && !large && texts ==> (diff matches Some(diff) && (
            diff.kind matches DiffKind::Text(text) && text@ == unified_text(
                target,
                hunks_of(
                    lines_from(decode_utf8(old), 0),
                    lines_from(decode_utf8(after), 0),
                    3,
                ),
            )))
            &&& !moved && (large || !texts) ==> (diff matches Some(diff) && (
            diff.kind matches DiffKind::Summary { before: size, after: left, why } && (size is Some
                <==> before is Some) && (size is Some && before->0.len() <= usize::MAX ==> size->0
                == before->0.len()) && (after.len() <= usize::MAX ==> left == after.len()) && (why
                == Why::TooLarge <==> large)))
        }),
{
}

} // verus!
