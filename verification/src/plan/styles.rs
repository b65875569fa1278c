//! What a coloured rendering holds beside the plain one: its styles, and nothing
//! else.

use crate::fs::{zeros, Mode};
use crate::paths::portable;
use crate::plan::diff::{escaped, nothing_shown_is_a_control_character, plain, DiffKind, Why};
use crate::plan::render::{
    banner_text, chomped, diff_text, lemma_newline, line_text, line_tone, lines_text, newline_at, report_text,
    row_shown, row_text, row_tone, rows_text, session_name, Ink, Palette, Tone,
};
use crate::plan::rows::{actions_of, unresolvable, Change, Report};
use crate::plan::view;
use crate::report::{summary_text, tally, Action};
use crate::text::{decimal, digit, numeral};
use vstd::prelude::*;

verus! {

/// Whether a text holds no control character but newlines and tabs.
pub open spec fn clean(text: Seq<char>) -> bool {
    forall|i: int| 0 <= i < text.len() ==> plain(#[trigger] text[i]) || text[i] == '\n'
}

/// Where the first `m` of a text is, or its end.
pub open spec fn style_end(text: Seq<char>) -> nat
    decreases text.len(),
{
    if text.len() == 0 {
        0
    } else if text[0] == 'm' {
        1
    } else {
        1 + style_end(text.drop_first())
    }
}

/// A text without its style sequences: each runs from an escape character to the
/// first `m` after it.
pub open spec fn unstyled(text: Seq<char>) -> Seq<char>
    decreases text.len(),
    via unstyled_decreases
{
    if text.len() == 0 {
        Seq::empty()
    } else if text[0] == '\x1b' {
        unstyled(text.skip(style_end(text) as int))
    } else {
        seq![text[0]] + unstyled(text.drop_first())
    }
}

#[via_fn]
proof fn unstyled_decreases(text: Seq<char>) {
    lemma_style_end(text);
}

proof fn lemma_style_end(text: Seq<char>)
    ensures
        style_end(text) <= text.len(),
        text.len() > 0 ==> style_end(text) > 0,
    decreases text.len(),
{
    if text.len() > 0 {
        lemma_style_end(text.drop_first());
    }
}

/// Whether a text, wherever it stands, is another once its styles are gone, and
/// that other is clean.
spec fn pairs(styled: Seq<char>, text: Seq<char>) -> bool {
    &&& clean(text)
    &&& forall|rest: Seq<char>| #[trigger] unstyled(styled + rest) == text + unstyled(rest)
}

proof fn lemma_clean_pairs(text: Seq<char>)
    requires
        clean(text),
    ensures
        pairs(text, text),
    decreases text.len(),
{
    if text.len() == 0 {
        assert forall|rest: Seq<char>| #[trigger] unstyled(text + rest) == text + unstyled(rest) by {
            assert(text + rest =~= rest);
            assert(text + unstyled(rest) =~= unstyled(rest));
        }
    } else {
        let more = text.drop_first();
        assert(clean(more)) by {
            assert forall|i: int| 0 <= i < more.len() implies plain(#[trigger] more[i]) || more[i]
                == '\n' by {
                assert(more[i] == text[i + 1]);
            }
        }
        lemma_clean_pairs(more);
        assert forall|rest: Seq<char>| #[trigger] unstyled(text + rest) == text + unstyled(rest) by {
            let whole = text + rest;
            assert(whole[0] == text[0]);
            assert(plain(text[0]) || text[0] == '\n');
            assert(whole.drop_first() =~= more + rest);
            assert(unstyled(more + rest) == more + unstyled(rest));
            assert(seq![text[0]] + (more + unstyled(rest)) =~= text + unstyled(rest));
        }
    }
}

proof fn lemma_pairs_both(a: Seq<char>, p: Seq<char>, b: Seq<char>, q: Seq<char>)
    requires
        pairs(a, p),
        pairs(b, q),
    ensures
        pairs(a + b, p + q),
{
    assert forall|i: int| 0 <= i < (p + q).len() implies plain(#[trigger] (p + q)[i]) || (p + q)[i]
        == '\n' by {
        if i < p.len() {
            assert((p + q)[i] == p[i]);
        } else {
            assert((p + q)[i] == q[i - p.len()]);
        }
    }
    assert forall|rest: Seq<char>| #[trigger] unstyled((a + b) + rest) == (p + q) + unstyled(
        rest,
    ) by {
        assert((a + b) + rest =~= a + (b + rest));
        assert(unstyled(a + (b + rest)) == p + unstyled(b + rest));
        assert(unstyled(b + rest) == q + unstyled(rest));
        assert(p + (q + unstyled(rest)) =~= (p + q) + unstyled(rest));
    }
}

proof fn lemma_end_of(style: Seq<char>, rest: Seq<char>)
    requires
        style.len() > 0,
        style.last() == 'm',
        forall|i: int| 0 <= i < style.len() - 1 ==> #[trigger] style[i] != 'm',
    ensures
        style_end(style + rest) == style.len(),
    decreases style.len(),
{
    let whole = style + rest;
    assert(whole[0] == style[0]);
    if style.len() > 1 {
        let more = style.drop_first();
        assert forall|i: int| 0 <= i < more.len() - 1 implies #[trigger] more[i] != 'm' by {
            assert(more[i] == style[i + 1]);
        }
        lemma_end_of(more, rest);
        assert(whole.drop_first() =~= more + rest);
    }
}

/// A style sequence is nothing once styles are gone.
proof fn lemma_style_pairs(style: Seq<char>)
    requires
        style.len() > 0,
        style[0] == '\x1b',
        style.last() == 'm',
        forall|i: int| 0 <= i < style.len() - 1 ==> #[trigger] style[i] != 'm',
    ensures
        pairs(style, Seq::empty()),
{
    assert forall|rest: Seq<char>| #[trigger] unstyled(style + rest) == Seq::<char>::empty()
        + unstyled(rest) by {
        lemma_end_of(style, rest);
        assert((style + rest)[0] == style[0]);
        assert((style + rest).skip(style.len() as int) =~= rest);
        assert(Seq::<char>::empty() + unstyled(rest) =~= unstyled(rest));
    }
}

proof fn lemma_ink_pairs(ink: Ink)
    requires
        ink.wf(),
    ensures
        pairs(ink.start(), Seq::empty()),
        pairs(ink.stop(), Seq::empty()),
{
    let none = Seq::<char>::empty();
    lemma_clean_pairs(none);
    reveal_strlit("\x1b[0m");
    reveal_strlit("\x1b[1m");
    reveal_strlit("\x1b[2m");
    reveal_strlit("\x1b[3");
    reveal_strlit("m");
    lemma_style_pairs("\x1b[0m"@);
    lemma_style_pairs("\x1b[1m"@);
    lemma_style_pairs("\x1b[2m"@);
    let bold = if ink.bold {
        "\x1b[1m"@
    } else {
        none
    };
    let dimmed = if ink.dimmed {
        "\x1b[2m"@
    } else {
        none
    };
    let color = match ink.foreground {
        Some(color) => "\x1b[3"@ + seq![digit(color as nat)] + "m"@,
        None => none,
    };
    if ink.foreground is Some {
        lemma_style_pairs(color);
    }
    lemma_pairs_both(bold, none, dimmed, none);
    assert(none + none =~= none);
    lemma_pairs_both(bold + dimmed, none, color, none);
}

/// A coloured palette.
pub open spec fn vivid() -> Palette {
    Palette { color: true }
}

/// A palette without colour.
pub open spec fn dull() -> Palette {
    Palette { color: false }
}

proof fn lemma_painted_pairs(tone: Tone, text: Seq<char>)
    requires
        clean(text),
    ensures
        pairs(vivid().painted(tone, text), dull().painted(tone, text)),
{
    let none = Seq::<char>::empty();
    let ink = tone.style();
    lemma_ink_pairs(ink);
    lemma_clean_pairs(text);
    lemma_pairs_both(ink.start(), none, text, text);
    lemma_pairs_both(ink.start() + text, none + text, ink.stop(), none);
    assert(none + text + none =~= text);
}

proof fn lemma_escaped_is_clean(text: Seq<char>)
    ensures
        pairs(escaped(text), escaped(text)),
{
    nothing_shown_is_a_control_character(text);
    lemma_clean_pairs(escaped(text));
}

proof fn lemma_numeral_is_clean(n: nat, base: nat)
    requires
        2 <= base <= 10,
    ensures
        clean(numeral(n, base)),
    decreases n,
{
    if n >= base {
        assert(n / base < n) by (nonlinear_arith)
            requires
                2 <= base <= n,
        ;
        lemma_numeral_is_clean(n / base, base);
        let before = numeral(n / base, base);
        let all = numeral(n, base);
        assert forall|i: int| 0 <= i < all.len() implies plain(#[trigger] all[i]) || all[i]
            == '\n' by {
            if i < before.len() {
                assert(all[i] == before[i]);
            }
        }
    }
}

proof fn lemma_decimal_pairs(n: nat)
    ensures
        pairs(decimal(n), decimal(n)),
{
    lemma_numeral_is_clean(n, 10);
    lemma_clean_pairs(decimal(n));
}

proof fn lemma_mode_pairs(mode: Mode)
    ensures
        pairs(mode.shown(), mode.shown()),
{
    let digits = numeral(mode.bits as nat, 8);
    lemma_numeral_is_clean(mode.bits as nat, 8);
    lemma_clean_pairs(digits);
    lemma_clean_pairs(zeros(digits));
    lemma_pairs_both(zeros(digits), zeros(digits), digits, digits);
}

proof fn lemma_line_pairs(line: Seq<char>, index: int)
    ensures
        pairs(line_text(line, index, vivid()), line_text(line, index, dull())),
{
    lemma_escaped_is_clean(line);
    reveal_strlit("    ");
    reveal_strlit("\n");
    lemma_clean_pairs("    "@);
    lemma_clean_pairs("\n"@);
    let (a, p) = match line_tone(line, index) {
        Some(tone) => {
            lemma_painted_pairs(tone, escaped(line));
            (vivid().painted(tone, escaped(line)), dull().painted(tone, escaped(line)))
        },
        None => (escaped(line), escaped(line)),
    };
    lemma_pairs_both("    "@, "    "@, a, p);
    lemma_pairs_both("    "@ + a, "    "@ + p, "\n"@, "\n"@);
}

proof fn lemma_lines_pairs(text: Seq<char>, i: int, index: int)
    requires
        0 <= i,
    ensures
        pairs(lines_text(text, i, index, vivid()), lines_text(text, i, index, dull())),
    decreases text.len() + 1 - i,
{
    let end = newline_at(text, i);
    lemma_newline(text, i);
    let line = text.subrange(i, end);
    lemma_line_pairs(line, index);
    if end < text.len() {
        lemma_lines_pairs(text, end + 1, index + 1);
        lemma_pairs_both(
            line_text(line, index, vivid()),
            line_text(line, index, dull()),
            lines_text(text, end + 1, index + 1, vivid()),
            lines_text(text, end + 1, index + 1, dull()),
        );
    }
}

/// A clean text after another.
proof fn lemma_then(a: Seq<char>, p: Seq<char>, text: Seq<char>)
    requires
        pairs(a, p),
        clean(text),
    ensures
        pairs(a + text, p + text),
{
    lemma_clean_pairs(text);
    lemma_pairs_both(a, p, text, text);
}

proof fn lemma_diff_words()
    ensures
        clean("    mode "@),
        clean(" -> "@),
        clean("\n"@),
        clean("    commit "@),
        clean("none"@),
        clean(" of "@),
        clean("    "@),
        clean("binary content"@),
        clean("too large to show"@),
        clean(": "@),
        clean(" bytes"@),
        clean("no file"@),
        clean(" bytes\n"@),
{
    reveal_strlit("    mode ");
    reveal_strlit(" -> ");
    reveal_strlit("\n");
    reveal_strlit("    commit ");
    reveal_strlit("none");
    reveal_strlit(" of ");
    reveal_strlit("    ");
    reveal_strlit("binary content");
    reveal_strlit("too large to show");
    reveal_strlit(": ");
    reveal_strlit(" bytes");
    reveal_strlit("no file");
    reveal_strlit(" bytes\n");
}

proof fn lemma_diff_pairs(kind: DiffKind)
    ensures
        pairs(diff_text(kind, vivid()), diff_text(kind, dull())),
{
    lemma_diff_words();
    match kind {
        DiffKind::Text(text) => {
            lemma_lines_pairs(chomped(text@), 0, 0);
        },
        DiffKind::Mode { from, to } => {
            lemma_mode_pairs(from);
            lemma_mode_pairs(to);
            let a = "    mode "@;
            lemma_clean_pairs(a);
            lemma_then(a, a, from.shown());
            let b = a + from.shown();
            lemma_then(b, b, " -> "@);
            let c = b + " -> "@;
            lemma_then(c, c, to.shown());
            let d = c + to.shown();
            lemma_then(d, d, "\n"@);
        },
        DiffKind::Checkout { from, to, url } => {
            let old = match from {
                Some(from) => escaped(from@),
                None => "none"@,
            };
            if from is Some {
                lemma_escaped_is_clean(from->0@);
            }
            lemma_escaped_is_clean(to@);
            lemma_escaped_is_clean(url@);
            let a = "    commit "@;
            lemma_clean_pairs(a);
            lemma_then(a, a, old);
            let b = a + old;
            lemma_then(b, b, " -> "@);
            let c = b + " -> "@;
            lemma_then(c, c, escaped(to@));
            let d = c + escaped(to@);
            lemma_then(d, d, " of "@);
            let e = d + " of "@;
            lemma_then(e, e, escaped(url@));
            let f = e + escaped(url@);
            lemma_then(f, f, "\n"@);
        },
        DiffKind::Summary { before, after, why } => {
            let reason = match why {
                Why::Binary => "binary content"@,
                Why::TooLarge => "too large to show"@,
            };
            let size = match before {
                Some(len) => decimal(len as nat) + " bytes"@,
                None => "no file"@,
            };
            if before is Some {
                lemma_decimal_pairs(before->0 as nat);
                lemma_then(decimal(before->0 as nat), decimal(before->0 as nat), " bytes"@);
            }
            lemma_decimal_pairs(after as nat);
            let a = "    "@;
            lemma_clean_pairs(a);
            lemma_then(a, a, reason);
            let b = a + reason;
            lemma_then(b, b, ": "@);
            let c = b + ": "@;
            lemma_then(c, c, size);
            let d = c + size;
            lemma_then(d, d, " -> "@);
            let e = d + " -> "@;
            lemma_then(e, e, decimal(after as nat));
            let f = e + decimal(after as nat);
            lemma_then(f, f, " bytes\n"@);
        },
    }
}

proof fn lemma_row_words()
    ensures
        clean("  "@),
        clean(" "@),
        clean("  ("@),
        clean(":"@),
        clean(")"@),
        clean("\n"@),
{
    reveal_strlit("  ");
    reveal_strlit(" ");
    reveal_strlit("  (");
    reveal_strlit(":");
    reveal_strlit(")");
    reveal_strlit("\n");
}

proof fn lemma_row_pairs(change: Change, home: Seq<char>)
    ensures
        pairs(row_text(change, vivid(), home), row_text(change, dull(), home)),
{
    lemma_row_words();
    let tone = row_tone(change.action);
    let sign = seq![change.action.sign()];
    let file = escaped(portable(change.origin.file@, home));
    let line = decimal(change.origin.line as nat);
    let none = Seq::<char>::empty();
    let note = match change.note {
        Some(note) => " "@ + escaped(note@),
        None => none,
    };
    lemma_painted_pairs(tone, sign);
    lemma_escaped_is_clean(change.target@);
    lemma_escaped_is_clean(portable(change.origin.file@, home));
    lemma_decimal_pairs(change.origin.line as nat);
    lemma_clean_pairs("  "@);
    lemma_clean_pairs(" "@);
    if change.note is Some {
        lemma_escaped_is_clean(change.note->0@);
        lemma_then(" "@, " "@, escaped(change.note->0@));
    } else {
        lemma_clean_pairs(none);
    }
    let a = vivid().painted(tone, sign);
    let p = dull().painted(tone, sign);
    lemma_pairs_both("  "@, "  "@, a, p);
    let a = "  "@ + a;
    let p = "  "@ + p;
    lemma_then(a, p, " "@);
    let a = a + " "@;
    let p = p + " "@;
    lemma_then(a, p, escaped(change.target@));
    let a = a + escaped(change.target@);
    let p = p + escaped(change.target@);
    lemma_then(a, p, "  ("@);
    let a = a + "  ("@;
    let p = p + "  ("@;
    lemma_then(a, p, file);
    let a = a + file;
    let p = p + file;
    lemma_then(a, p, ":"@);
    let a = a + ":"@;
    let p = p + ":"@;
    lemma_then(a, p, line);
    let a = a + line;
    let p = p + line;
    lemma_then(a, p, ")"@);
    let a = a + ")"@;
    let p = p + ")"@;
    lemma_then(a, p, note);
    let a = a + note;
    let p = p + note;
    lemma_then(a, p, "\n"@);
    let a = a + "\n"@;
    let p = p + "\n"@;
    match change.diff {
        Some(diff) => {
            lemma_diff_pairs(diff.kind);
            lemma_pairs_both(a, p, diff_text(diff.kind, vivid()), diff_text(diff.kind, dull()));
        },
        None => {
            lemma_then(a, p, none);
        },
    }
}

proof fn lemma_rows_pairs(report: Report, shown: view::View, home: Seq<char>, n: int)
    ensures
        pairs(
            rows_text(report, shown, vivid(), home, n),
            rows_text(report, shown, dull(), home, n),
        ),
    decreases n,
{
    let none = Seq::<char>::empty();
    if n <= 0 {
        lemma_clean_pairs(none);
    } else {
        lemma_rows_pairs(report, shown, home, n - 1);
        let a = rows_text(report, shown, vivid(), home, n - 1);
        let p = rows_text(report, shown, dull(), home, n - 1);
        let change = report.changes@[n - 1];
        if row_shown(report, shown, change) {
            lemma_row_pairs(change, home);
            lemma_pairs_both(
                a,
                p,
                row_text(change, vivid(), home),
                row_text(change, dull(), home),
            );
        } else {
            lemma_then(a, p, none);
        }
    }
}

proof fn lemma_banner_words()
    ensures
        clean(
            "A bx apply is running; what it has not finished yet is shown as still to do."@,
        ),
        clean(
            "An interrupted bx session left a journal bx cannot read. `bx apply` sets it aside and writes nothing else; run `bx plan` again after `bx apply` sets it aside."@,
        ),
        clean("An interrupted bx "@),
        clean(" left "@),
        clean(
            " file(s) bx cannot account for; `bx apply` refuses, and rolls nothing back, until they are resolved."@,
        ),
        clean(
            " wrote everything but did not record it. `bx apply` records it and writes nothing else; run `bx plan` again after `bx apply` records it."@,
        ),
        clean(
            " was found. `bx apply` rolls back what is shown below and writes nothing else; run `bx plan` again after `bx apply` rolls these back."@,
        ),
        clean("apply"@),
        clean("restore"@),
{
    reveal_strlit("A bx apply is running; what it has not finished yet is shown as still to do.");
    reveal_strlit(
        "An interrupted bx session left a journal bx cannot read. `bx apply` sets it aside and writes nothing else; run `bx plan` again after `bx apply` sets it aside.",
    );
    reveal_strlit("An interrupted bx ");
    reveal_strlit(" left ");
    reveal_strlit(
        " file(s) bx cannot account for; `bx apply` refuses, and rolls nothing back, until they are resolved.",
    );
    reveal_strlit(
        " wrote everything but did not record it. `bx apply` records it and writes nothing else; run `bx plan` again after `bx apply` records it.",
    );
    reveal_strlit(
        " was found. `bx apply` rolls back what is shown below and writes nothing else; run `bx plan` again after `bx apply` rolls these back.",
    );
    reveal_strlit("apply");
    reveal_strlit("restore");
}

proof fn lemma_banner_is_clean(report: Report)
    ensures
        banner_text(report) matches Some(line) ==> clean(line),
{
    lemma_banner_words();
    if !report.apply_running && report.interrupted is Some {
        let interrupted = report.interrupted->0;
        let kind = session_name(interrupted.kind);
        let blocked = unresolvable(interrupted.unfinished@);
        let a = "An interrupted bx "@;
        lemma_clean_pairs(a);
        lemma_then(a, a, kind);
        let b = a + kind;
        lemma_then(
            b,
            b,
            " wrote everything but did not record it. `bx apply` records it and writes nothing else; run `bx plan` again after `bx apply` records it."@,
        );
        lemma_then(
            b,
            b,
            " was found. `bx apply` rolls back what is shown below and writes nothing else; run `bx plan` again after `bx apply` rolls these back."@,
        );
        lemma_then(b, b, " left "@);
        let c = b + " left "@;
        lemma_decimal_pairs(blocked);
        lemma_then(c, c, decimal(blocked));
        let d = c + decimal(blocked);
        lemma_then(
            d,
            d,
            " file(s) bx cannot account for; `bx apply` refuses, and rolls nothing back, until they are resolved."@,
        );
    }
}

proof fn lemma_summary_words()
    ensures
        clean("Plan: "@),
        clean(" to create, "@),
        clean(" to modify, "@),
        clean(" conflict, "@),
        clean(" blocked, "@),
        clean(" unchanged"@),
        clean(", "@),
        clean(" undeclared."@),
        clean("."@),
{
    reveal_strlit("Plan: ");
    reveal_strlit(" to create, ");
    reveal_strlit(" to modify, ");
    reveal_strlit(" conflict, ");
    reveal_strlit(" blocked, ");
    reveal_strlit(" unchanged");
    reveal_strlit(", ");
    reveal_strlit(" undeclared.");
    reveal_strlit(".");
}

/// A number and the words after it.
proof fn lemma_then_count(text: Seq<char>, n: nat, words: Seq<char>)
    requires
        pairs(text, text),
        clean(words),
    ensures
        pairs(text + decimal(n) + words, text + decimal(n) + words),
{
    lemma_decimal_pairs(n);
    lemma_then(text, text, decimal(n));
    lemma_then(text + decimal(n), text + decimal(n), words);
}

proof fn lemma_summary_is_clean(actions: Seq<Action>)
    ensures
        clean(summary_text(actions)),
{
    lemma_summary_words();
    let a = "Plan: "@;
    lemma_clean_pairs(a);
    lemma_then_count(a, tally(actions, Action::Create), " to create, "@);
    let b = a + decimal(tally(actions, Action::Create)) + " to create, "@;
    lemma_then_count(b, tally(actions, Action::Modify), " to modify, "@);
    let c = b + decimal(tally(actions, Action::Modify)) + " to modify, "@;
    lemma_then_count(c, tally(actions, Action::Conflict), " conflict, "@);
    let d = c + decimal(tally(actions, Action::Conflict)) + " conflict, "@;
    lemma_then_count(d, tally(actions, Action::Blocked), " blocked, "@);
    let e = d + decimal(tally(actions, Action::Blocked)) + " blocked, "@;
    lemma_then_count(e, tally(actions, Action::Unchanged), " unchanged"@);
    let f = e + decimal(tally(actions, Action::Unchanged)) + " unchanged"@;
    let n = tally(actions, Action::Undeclared);
    if n > 0 {
        lemma_clean_pairs(", "@);
        lemma_then_count(", "@, n, " undeclared."@);
        lemma_then(f, f, ", "@ + decimal(n) + " undeclared."@);
    } else {
        lemma_then(f, f, "."@);
    }
}

proof fn lemma_report_pairs(report: Report, shown: view::View, home: Seq<char>)
    ensures
        pairs(
            report_text(report, shown, vivid(), home),
            report_text(report, shown, dull(), home),
        ),
{
    let none = Seq::<char>::empty();
    let n = report.changes@.len() as int;
    lemma_row_words();
    lemma_banner_is_clean(report);
    let (a, p) = match banner_text(report) {
        Some(line) => {
            lemma_painted_pairs(Tone::Attention, line);
            lemma_then(
                vivid().painted(Tone::Attention, line),
                dull().painted(Tone::Attention, line),
                "\n"@,
            );
            (
                vivid().painted(Tone::Attention, line) + "\n"@,
                dull().painted(Tone::Attention, line) + "\n"@,
            )
        },
        None => {
            lemma_clean_pairs(none);
            (none, none)
        },
    };
    lemma_rows_pairs(report, shown, home, n);
    let c = rows_text(report, shown, vivid(), home, n);
    let q = rows_text(report, shown, dull(), home, n);
    lemma_pairs_both(a, p, c, q);
    let summary = summary_text(actions_of(report.changes@));
    lemma_summary_is_clean(actions_of(report.changes@));
    lemma_then(a + c, p + q, summary);
    lemma_then(a + c + summary, p + q + summary, "\n"@);
}

/// A coloured rendering says what the plain one says: without its style sequences
/// it is the plain one, whatever the report, the view and the home.
pub proof fn a_coloured_rendering_without_its_styles_is_the_plain_one(
    report: Report,
    shown: view::View,
    home: Seq<char>,
)
    ensures
        unstyled(report_text(report, shown, vivid(), home)) == report_text(
            report,
            shown,
            dull(),
            home,
        ),
{
    lemma_report_pairs(report, shown, home);
    let none = Seq::<char>::empty();
    let styled = report_text(report, shown, vivid(), home);
    let text = report_text(report, shown, dull(), home);
    assert(unstyled(styled + none) == text + unstyled(none));
    assert(styled + none =~= styled);
    assert(text + unstyled(none) =~= text);
}

/// A plain rendering holds no control character but newlines and tabs, whatever
/// the targets, the notes and the files it shows hold.
pub proof fn a_plain_rendering_holds_no_control_character(
    report: Report,
    shown: view::View,
    home: Seq<char>,
)
    ensures
        clean(report_text(report, shown, dull(), home)),
{
    lemma_report_pairs(report, shown, home);
}

} // verus!
