//! How a report is shown.

use crate::journal::record::SessionKind;
use crate::paths::{portable, to_portable};
use crate::plan::diff::{each_is_one_line, escape, escaped, terminated, Diff, DiffKind, Why};
use crate::plan::rows::{actions_of, unresolvable, Change, Interrupted, Report};
use crate::plan::view;
use crate::report::{summary, summary_text, Action};
use crate::text::{chars_of, decimal, decimal_of, digit, opt_text, push_char, text_of};
use std::borrow::Cow;
use vstd::prelude::*;

verus! {

/// Whether a rendering is coloured.
///
/// Decided once, from the environment, and carried explicitly: nothing that
/// renders reads `NO_COLOR` or asks whether it is writing to a terminal.
#[derive(Clone, Copy, Debug, PartialEq, Eq, Structural)]
pub struct Palette {
    pub color: bool,
}

/// A style: a foreground colour of the terminal's eight, and effects.
#[derive(Clone, Copy, Debug, PartialEq, Eq, Structural)]
pub struct Ink {
    pub foreground: Option<u8>,
    pub bold: bool,
    pub dimmed: bool,
}

impl Ink {
    /// Whether the colour is one of the eight.
    pub open spec fn wf(self) -> bool {
        self.foreground is Some ==> self.foreground->0 < 8
    }

    /// What puts the style on: the effects, then the colour.
    pub open spec fn start(self) -> Seq<char> {
        (if self.bold {
            "\x1b[1m"@
        } else {
            Seq::empty()
        }) + (if self.dimmed {
            "\x1b[2m"@
        } else {
            Seq::empty()
        }) + (match self.foreground {
            Some(color) => "\x1b[3"@ + seq![digit(color as nat)] + "m"@,
            None => Seq::empty(),
        })
    }

    /// What takes the style off, which is nothing where nothing was put on.
    pub open spec fn stop(self) -> Seq<char> {
        if self.bold || self.dimmed || self.foreground is Some {
            "\x1b[0m"@
        } else {
            Seq::empty()
        }
    }
}

/// What `anstyle::Style::render` gives for a style: bold, dimmed and one of the
/// eight colours, each as one escape sequence, in this order.
#[verifier::external_body]
fn style_start(foreground: Option<u8>, bold: bool, dimmed: bool) -> (r: String)
    requires
        foreground is Some ==> foreground->0 < 8,
    ensures
        r@ == (Ink { foreground, bold, dimmed }).start(),
{
    let color = foreground.and_then(|at| anstyle::Ansi256Color(at).into_ansi());
    let effects = anstyle::Effects::new().set(anstyle::Effects::BOLD, bold);
    let effects = effects.set(anstyle::Effects::DIMMED, dimmed);
    let style = anstyle::Style::new().fg_color(color.map(anstyle::Color::Ansi)).effects(effects);
    style.render().to_string()
}

/// What `anstyle::Style::render_reset` gives for a style: one escape sequence,
/// and nothing for the plain style.
#[verifier::external_body]
fn style_stop(foreground: Option<u8>, bold: bool, dimmed: bool) -> (r: String)
    requires
        foreground is Some ==> foreground->0 < 8,
    ensures
        r@ == (Ink { foreground, bold, dimmed }).stop(),
{
    let color = foreground.and_then(|at| anstyle::Ansi256Color(at).into_ansi());
    let effects = anstyle::Effects::new().set(anstyle::Effects::BOLD, bold);
    let effects = effects.set(anstyle::Effects::DIMMED, dimmed);
    let style = anstyle::Style::new().fg_color(color.map(anstyle::Color::Ansi)).effects(effects);
    style.render_reset().to_string()
}

/// What a line or a symbol is, for the style it is shown in.
#[derive(Clone, Copy, Debug, PartialEq, Eq, Structural)]
pub enum Tone {
    /// An added line.
    Added,
    /// A removed line.
    Removed,
    /// A hunk header, and the symbol of a row nothing happens to.
    Quiet,
    /// A diff's file headers.
    Header,
    /// A banner, and the symbol of a row that needs a human.
    Attention,
    /// The symbol of a row `apply` will write.
    Pending,
}

impl Tone {
    /// The style it is shown in.
    pub open spec fn style(self) -> Ink {
        match self {
            Tone::Added => Ink { foreground: Some(2), bold: false, dimmed: false },
            Tone::Removed => Ink { foreground: Some(1), bold: false, dimmed: false },
            Tone::Quiet => Ink { foreground: None, bold: false, dimmed: true },
            Tone::Header => Ink { foreground: None, bold: true, dimmed: false },
            Tone::Attention => Ink { foreground: Some(3), bold: true, dimmed: false },
            Tone::Pending => Ink { foreground: Some(2), bold: true, dimmed: false },
        }
    }

    /// The style it is shown in.
    fn ink(self) -> (r: Ink)
        ensures
            r == self.style(),
            r.wf(),
    {
        match self {
            Tone::Added => Ink { foreground: Some(2), bold: false, dimmed: false },
            Tone::Removed => Ink { foreground: Some(1), bold: false, dimmed: false },
            Tone::Quiet => Ink { foreground: None, bold: false, dimmed: true },
            Tone::Header => Ink { foreground: None, bold: true, dimmed: false },
            Tone::Attention => Ink { foreground: Some(3), bold: true, dimmed: false },
            Tone::Pending => Ink { foreground: Some(2), bold: true, dimmed: false },
        }
    }
}

impl Palette {
    /// No escape sequences at all.
    pub fn plain() -> (r: Palette)
        ensures
            !r.color,
    {
        Palette { color: false }
    }

    /// Colour only on a terminal, and only when `NO_COLOR` is unset or empty:
    /// `no_color` is whether it is set to anything else.
    pub fn resolve(no_color: bool, tty: bool) -> (r: Palette)
        ensures
            r.color == (tty && !no_color),
    {
        Palette { color: tty && !no_color }
    }

    /// Whether this palette emits colour.
    pub fn is_colored(self) -> (r: bool)
        ensures
            r == self.color,
    {
        self.color
    }

    /// `text` in the style of `tone`, or `text` alone when plain.
    pub open spec fn painted(self, tone: Tone, text: Seq<char>) -> Seq<char> {
        if self.color {
            tone.style().start() + text + tone.style().stop()
        } else {
            text
        }
    }

    /// `text` in the style of `tone`, or `text` alone when plain.
    pub fn paint(self, tone: Tone, text: &str) -> (r: String)
        ensures
            r@ == self.painted(tone, text@),
    {
        if !self.color {
            return text.to_owned();
        }
        let ink = tone.ink();
        style_start(ink.foreground, ink.bold, ink.dimmed).concat(text).concat(
            style_stop(ink.foreground, ink.bold, ink.dimmed).as_str(),
        )
    }
}

/// A session's name.
pub open spec fn session_name(kind: SessionKind) -> Seq<char> {
    match kind {
        SessionKind::Apply => "apply"@,
        SessionKind::Restore => "restore"@,
    }
}

/// The line above the rows, when the state directory has something to say.
pub open spec fn banner_text(report: Report) -> Option<Seq<char>> {
    if report.apply_running {
        Some("A bx apply is running; what it has not finished yet is shown as still to do."@)
    } else {
        match report.interrupted {
            None => None,
            Some(interrupted) => {
                let kind = session_name(interrupted.kind);
                let blocked = unresolvable(interrupted.unfinished@);
                Some(
                    if interrupted.unreadable {
                        "An interrupted bx session left a journal bx cannot read. `bx apply` sets it aside and writes nothing else; run `bx plan` again after `bx apply` sets it aside."@
                    } else if blocked > 0 {
                        "An interrupted bx "@ + kind + " left "@ + decimal(blocked)
                            + " file(s) bx cannot account for; `bx apply` refuses, and rolls nothing back, until they are resolved."@
                    } else if interrupted.complete {
                        "An interrupted bx "@ + kind
                            + " wrote everything but did not record it. `bx apply` records it and writes nothing else; run `bx plan` again after `bx apply` records it."@
                    } else {
                        "An interrupted bx "@ + kind
                            + " was found. `bx apply` rolls back what is shown below and writes nothing else; run `bx plan` again after `bx apply` rolls these back."@
                    },
                )
            },
        }
    }
}

/// The line above the rows, when the state directory has something to say.
pub fn banner(report: &Report) -> (r: Option<String>)
    ensures
        opt_text(r) == banner_text(*report),
{
    if report.apply_running {
        return Some(
            "A bx apply is running; what it has not finished yet is shown as still to do.".to_owned(),
        );
    }
    let interrupted: &Interrupted = match &report.interrupted {
        None => {
            return None;
        },
        Some(interrupted) => interrupted,
    };
    let kind = interrupted.kind.text();
    let blocked = interrupted.blocked();
    Some(
        if interrupted.unreadable {
            "An interrupted bx session left a journal bx cannot read. `bx apply` sets it aside and writes nothing else; run `bx plan` again after `bx apply` sets it aside.".to_owned()
        } else if blocked > 0 {
            "An interrupted bx ".to_owned().concat(kind).concat(" left ").concat(
                decimal_of(blocked).as_str(),
            ).concat(
                " file(s) bx cannot account for; `bx apply` refuses, and rolls nothing back, until they are resolved.",
            )
        } else if interrupted.complete {
            "An interrupted bx ".to_owned().concat(kind).concat(
                " wrote everything but did not record it. `bx apply` records it and writes nothing else; run `bx plan` again after `bx apply` records it.",
            )
        } else {
            "An interrupted bx ".to_owned().concat(kind).concat(
                " was found. `bx apply` rolls back what is shown below and writes nothing else; run `bx plan` again after `bx apply` rolls these back.",
            )
        },
    )
}

/// Whether every row in this report is about an interrupted session rather
/// than about a configured target.
///
/// [`view::View::Plan`] hides an unchanged row, because a target already in its
/// declared state is noise in a list of work. Over an interrupted session that
/// would hide the work itself, so an interrupted session's rows are never
/// hidden.
pub fn interrupted(report: &Report) -> (r: bool)
    ensures
        r == report.interrupted is Some,
{
    report.interrupted.is_some()
}

/// Where the line that holds position `i` ends.
pub open spec fn newline_at(text: Seq<char>, i: int) -> int
    decreases text.len() - i,
{
    if i >= text.len() {
        text.len() as int
    } else if text[i] == '\n' {
        i
    } else {
        newline_at(text, i + 1)
    }
}

/// The style a line of a diff is shown in, by its place and its first
/// character.
pub open spec fn line_tone(line: Seq<char>, index: int) -> Option<Tone> {
    if index < 2 {
        Some(Tone::Header)
    } else if line.len() == 0 {
        None
    } else if line[0] == '+' {
        Some(Tone::Added)
    } else if line[0] == '-' {
        Some(Tone::Removed)
    } else if line[0] == '@' {
        Some(Tone::Quiet)
    } else {
        None
    }
}

/// One line of a diff as it is shown.
pub open spec fn line_text(line: Seq<char>, index: int, palette: Palette) -> Seq<char> {
    "    "@ + (match line_tone(line, index) {
        Some(tone) => palette.painted(tone, escaped(line)),
        None => escaped(line),
    }) + "\n"@
}

/// The lines of a diff from position `i` on, the first of them the `index`th.
pub open spec fn lines_text(text: Seq<char>, i: int, index: int, palette: Palette) -> Seq<char>
    decreases text.len() + 1 - i,
    when 0 <= i
    via lines_text_decreases
{
    let end = newline_at(text, i);
    let line = line_text(text.subrange(i, end), index, palette);
    if end < text.len() {
        line + lines_text(text, end + 1, index + 1, palette)
    } else {
        line
    }
}

#[via_fn]
proof fn lines_text_decreases(text: Seq<char>, i: int, index: int, palette: Palette) {
    lemma_newline(text, i);
}

/// A line ends where the text does, or before.
pub proof fn lemma_newline(text: Seq<char>, i: int)
    ensures
        i <= text.len() ==> i <= newline_at(text, i) <= text.len(),
        i >= text.len() ==> newline_at(text, i) == text.len(),
    decreases text.len() - i,
{
    if i < text.len() && text[i] != '\n' {
        lemma_newline(text, i + 1);
    }
}

/// A text without the newline it ends in, where it ends in one.
pub open spec fn chomped(text: Seq<char>) -> Seq<char> {
    if text.len() > 0 && text.last() == '\n' {
        text.drop_last()
    } else {
        text
    }
}

/// A diff as it is shown beneath its row.
pub open spec fn diff_text(kind: DiffKind, palette: Palette) -> Seq<char> {
    match kind {
        DiffKind::Text(text) => lines_text(chomped(text@), 0, 0, palette),
        DiffKind::Mode { from, to } => "    mode "@ + from.shown() + " -> "@ + to.shown() + "\n"@,
        DiffKind::Checkout { from, to, url } => "    commit "@ + (match from {
            Some(from) => escaped(from@),
            None => "none"@,
        }) + " -> "@ + escaped(to@) + " of "@ + escaped(url@) + "\n"@,
        DiffKind::Summary { before, after, why } => "    "@ + (match why {
            Why::Binary => "binary content"@,
            Why::TooLarge => "too large to show"@,
        }) + ": "@ + (match before {
            Some(len) => decimal(len as nat) + " bytes"@,
            None => "no file"@,
        }) + " -> "@ + decimal(after as nat) + " bytes\n"@,
    }
}

/// The style of a row's symbol.
pub open spec fn row_tone(action: Action) -> Tone {
    if action.attention() {
        Tone::Attention
    } else if action.pending() {
        Tone::Pending
    } else {
        Tone::Quiet
    }
}

/// One change as it is shown: its symbol, its target, where it was declared,
/// its note, and its diff.
pub open spec fn row_text(change: Change, palette: Palette, home: Seq<char>) -> Seq<char> {
    "  "@ + palette.painted(row_tone(change.action), seq![change.action.sign()]) + " "@ + escaped(
        change.target@,
    ) + "  ("@ + escaped(portable(change.origin.file@, home)) + ":"@ + decimal(
        change.origin.line as nat,
    ) + ")"@ + (match change.note {
        Some(note) => " "@ + escaped(note@),
        None => Seq::empty(),
    }) + "\n"@ + (match change.diff {
        Some(diff) => diff_text(diff.kind, palette),
        None => Seq::empty(),
    })
}

/// Append a text, with its control characters spelled out.
fn push_escaped(out: &mut String, text: &str)
    ensures
        final(out)@ == old(out)@ + escaped(text@),
{
    match escape(text) {
        Cow::Borrowed(text) => out.append(text),
        Cow::Owned(text) => out.append(text.as_str()),
    }
}

/// A line with its control characters spelled out.
fn spell(text: &str) -> (r: String)
    ensures
        r@ == escaped(text@),
{
    let mut out = String::new();
    push_escaped(&mut out, text);
    assert(out@ =~= escaped(text@));
    out
}

fn push_line(out: &mut String, line: &[char], index: usize, palette: Palette)
    ensures
        final(out)@ == old(out)@ + line_text(line@, index as int, palette),
{
    let text = spell(text_of(line).as_str());
    let tone = if index < 2 {
        Some(Tone::Header)
    } else if line.len() == 0 {
        None
    } else if line[0] == '+' {
        Some(Tone::Added)
    } else if line[0] == '-' {
        Some(Tone::Removed)
    } else if line[0] == '@' {
        Some(Tone::Quiet)
    } else {
        None
    };
    out.append("    ");
    match tone {
        Some(tone) => out.append(palette.paint(tone, text.as_str()).as_str()),
        None => out.append(text.as_str()),
    }
    out.append("\n");
    assert(out@ =~= old(out)@ + line_text(line@, index as int, palette));
}

fn push_lines(out: &mut String, text: &str, palette: Palette)
    ensures
        final(out)@ == old(out)@ + lines_text(chomped(text@), 0, 0, palette),
{
    let all = chars_of(text);
    let end = if all.len() > 0 && all[all.len() - 1] == '\n' {
        all.len() - 1
    } else {
        all.len()
    };
    let chars = vstd::slice::slice_subrange(all.as_slice(), 0, end);
    assert(chars@ =~= chomped(text@));
    let ghost whole = old(out)@ + lines_text(chars@, 0, 0, palette);
    let mut at: usize = 0;
    let mut index: usize = 0;
    loop
        invariant
            at <= chars.len(),
            index <= at,
            chars@ == chomped(text@),
            whole == old(out)@ + lines_text(chars@, 0, 0, palette),
            out@ + lines_text(chars@, at as int, index as int, palette) == whole,
        decreases chars.len() + 1 - at,
    {
        let mut stop: usize = at;
        while stop < chars.len() && chars[stop] != '\n'
            invariant
                at <= stop <= chars.len(),
                newline_at(chars@, at as int) == newline_at(chars@, stop as int),
            decreases chars.len() - stop,
        {
            stop = stop + 1;
        }
        assert(stop == newline_at(chars@, at as int));
        let ghost before = out@;
        push_line(out, vstd::slice::slice_subrange(chars, at, stop), index, palette);
        if stop == chars.len() {
            assert(out@ =~= whole);
            return ;
        }
        assert(out@ + lines_text(chars@, stop + 1, index + 1, palette) =~= before + lines_text(
            chars@,
            at as int,
            index as int,
            palette,
        ));
        at = stop + 1;
        index = index + 1;
    }
}

fn push_diff(out: &mut String, diff: &Diff, palette: Palette)
    ensures
        final(out)@ == old(out)@ + diff_text(diff.kind, palette),
{
    match &diff.kind {
        DiffKind::Text(text) => push_lines(out, text.as_str(), palette),
        DiffKind::Mode { from, to } => {
            let line = "    mode ".to_owned().concat(from.text().as_str()).concat(" -> ").concat(
                to.text().as_str(),
            ).concat("\n");
            out.append(line.as_str());
        },
        DiffKind::Checkout { from, to, url } => {
            let from = match from {
                Some(from) => spell(from.as_str()),
                None => "none".to_owned(),
            };
            let line = "    commit ".to_owned().concat(from.as_str()).concat(" -> ").concat(
                spell(to.as_str()).as_str(),
            ).concat(" of ").concat(spell(url.as_str()).as_str()).concat("\n");
            out.append(line.as_str());
        },
        DiffKind::Summary { before, after, why } => {
            let why = match why {
                Why::Binary => "binary content",
                Why::TooLarge => "too large to show",
            };
            let size = match before {
                Some(len) => decimal_of(*len).concat(" bytes"),
                None => "no file".to_owned(),
            };
            let line = "    ".to_owned().concat(why).concat(": ").concat(size.as_str()).concat(
                " -> ",
            ).concat(decimal_of(*after).as_str()).concat(" bytes\n");
            out.append(line.as_str());
        },
    }
}

/// One change, then its diff.
pub fn row(out: &mut String, change: &Change, palette: Palette, home: &str)
    ensures
        final(out)@ == old(out)@ + row_text(*change, palette, home@),
{
    let tone = if change.action.needs_attention() {
        Tone::Attention
    } else if change.action.is_pending() {
        Tone::Pending
    } else {
        Tone::Quiet
    };
    let mut symbol = String::new();
    push_char(&mut symbol, change.action.symbol());
    assert(symbol@ =~= seq![change.action.sign()]);
    let mut line = "  ".to_owned().concat(palette.paint(tone, symbol.as_str()).as_str()).concat(
        " ",
    ).concat(spell(change.target.as_str()).as_str()).concat("  (").concat(
        spell(to_portable(change.origin.file.as_str(), home).as_str()).as_str(),
    ).concat(":").concat(decimal_of(change.origin.line).as_str()).concat(")");
    let ghost head = line@;
    if let Some(note) = &change.note {
        line.append(" ");
        line.append(spell(note.as_str()).as_str());
    }
    line.append("\n");
    let ghost with_note = line@;
    if let Some(diff) = &change.diff {
        push_diff(&mut line, diff, palette);
    }
    proof {
        let note = match &change.note {
            Some(note) => " "@ + escaped(note@),
            None => Seq::empty(),
        };
        assert(with_note =~= head + note + "\n"@);
        assert(line@ =~= row_text(*change, palette, home@));
    }
    out.append(line.as_str());
}

/// Whether a row is shown.
pub open spec fn row_shown(report: Report, view: view::View, change: Change) -> bool {
    !(view == view::View::Plan && change.action == Action::Unchanged && report.interrupted is None)
}

/// The rows of a report that are shown, the first `n` of them considered.
pub open spec fn rows_text(
    report: Report,
    view: view::View,
    palette: Palette,
    home: Seq<char>,
    n: int,
) -> Seq<char>
    decreases n,
{
    if n <= 0 {
        Seq::empty()
    } else {
        rows_text(report, view, palette, home, n - 1) + if row_shown(
            report,
            view,
            report.changes@[n - 1],
        ) {
            row_text(report.changes@[n - 1], palette, home)
        } else {
            Seq::empty()
        }
    }
}

/// A report as it is shown.
pub open spec fn report_text(
    report: Report,
    view: view::View,
    palette: Palette,
    home: Seq<char>,
) -> Seq<char> {
    (match banner_text(report) {
        Some(line) => palette.painted(Tone::Attention, line) + "\n"@,
        None => Seq::empty(),
    }) + rows_text(report, view, palette, home, report.changes@.len() as int) + summary_text(
        actions_of(report.changes@),
    ) + "\n"@
}

/// Render a report: any banner, one row per shown change with its diff, and
/// the summary as the last line.
///
/// Every path is portable: a target already is, a diff is headed by its
/// target, and an origin is spelled against `home`.
pub fn render(report: &Report, view: view::View, palette: Palette, home: &str) -> (r: String)
    ensures
        r@ == report_text(*report, view, palette, home@),
{
    let mut out = String::new();
    if let Some(line) = banner(report) {
        out.append(palette.paint(Tone::Attention, line.as_str()).as_str());
        out.append("\n");
    }
    let ghost head = out@;
    proof {
        let expected = match banner_text(*report) {
            Some(line) => palette.painted(Tone::Attention, line) + "\n"@,
            None => Seq::empty(),
        };
        assert(head =~= expected);
    }
    let mut i: usize = 0;
    assert(head + rows_text(*report, view, palette, home@, 0) =~= head);
    while i < report.changes.len()
        invariant
            i <= report.changes.len(),
            out@ == head + rows_text(*report, view, palette, home@, i as int),
        decreases report.changes.len() - i,
    {
        let change = &report.changes[i];
        if !(view == view::View::Plan && change.action == Action::Unchanged && !interrupted(report)) {
            row(&mut out, change, palette, home);
        }
        assert(out@ =~= head + rows_text(*report, view, palette, home@, i + 1));
        i = i + 1;
    }
    out.append(summary(&report.actions()).as_str());
    out.append("\n");
    out
}

/// Without colour nothing but the text is written: a plain rendering puts no
/// escape sequence round anything.
pub proof fn a_plain_palette_paints_nothing(tone: Tone, text: Seq<char>, no_color: bool, tty: bool)
    requires
        no_color || !tty,
    ensures
        (Palette { color: tty && !no_color }).painted(tone, text) == text,
{
}

/// Some lines of a diff as they are shown, the first of them the `index`th.
pub open spec fn shown_lines(lines: Seq<Seq<char>>, index: int, palette: Palette) -> Seq<char>
    decreases lines.len(),
{
    if lines.len() == 0 {
        Seq::empty()
    } else {
        line_text(lines[0], index, palette) + shown_lines(
            lines.subrange(1, lines.len() as int),
            index + 1,
            palette,
        )
    }
}

proof fn lemma_terminated_first(lines: Seq<Seq<char>>)
    requires
        lines.len() > 0,
    ensures
        terminated(lines) == lines[0] + "\n"@ + terminated(lines.subrange(1, lines.len() as int)),
    decreases lines.len(),
{
    let rest = lines.subrange(1, lines.len() as int);
    if lines.len() == 1 {
        reveal_with_fuel(terminated, 2);
        assert(lines.drop_last() =~= Seq::empty());
        assert(rest =~= Seq::empty());
        assert(terminated(lines) =~= lines[0] + "\n"@ + terminated(rest));
    } else {
        lemma_terminated_first(lines.drop_last());
        assert(lines.drop_last().subrange(1, lines.len() - 1) =~= rest.drop_last());
        assert(terminated(lines) =~= lines[0] + "\n"@ + terminated(rest));
    }
}

proof fn lemma_newline_after(text: Seq<char>, i: int, end: int)
    requires
        0 <= i <= end <= text.len(),
        end < text.len() ==> text[end] == '\n',
        forall|k: int| i <= k < end ==> text[k] != '\n',
    ensures
        newline_at(text, i) == end,
    decreases end - i,
{
    if i < end {
        lemma_newline_after(text, i + 1, end);
    }
}

proof fn lemma_shown_lines(
    text: Seq<char>,
    i: int,
    lines: Seq<Seq<char>>,
    index: int,
    palette: Palette,
)
    requires
        lines.len() > 0,
        each_is_one_line(lines),
        0 <= i <= text.len(),
        text.subrange(i, text.len() as int) + "\n"@ == terminated(lines),
    ensures
        lines_text(text, i, index, palette) == shown_lines(lines, index, palette),
    decreases lines.len(),
{
    let rest = lines.subrange(1, lines.len() as int);
    let tail = text.subrange(i, text.len() as int) + "\n"@;
    let end = i + lines[0].len();
    lemma_terminated_first(lines);
    reveal_strlit("\n");
    let whole = lines[0] + "\n"@ + terminated(rest);
    assert(tail == whole);
    assert(whole.len() == lines[0].len() + 1 + terminated(rest).len());
    assert(tail.len() == text.len() - i + 1);
    assert(end <= text.len());
    assert forall|k: int| i <= k < end implies text[k] != '\n' by {
        assert(tail[k - i] == text[k]);
        assert(whole[k - i] == lines[0][k - i]);
        assert(!lines[0].contains('\n'));
    }
    if end < text.len() {
        assert(tail[end - i] == text[end]);
        assert(whole[end - i] == '\n');
    }
    lemma_newline_after(text, i, end);
    assert(text.subrange(i, end) =~= lines[0]) by {
        assert forall|k: int| 0 <= k < lines[0].len() implies text[i + k] == lines[0][k] by {
            assert(tail[k] == text[i + k]);
            assert(whole[k] == lines[0][k]);
        }
    }
    if end < text.len() {
        assert(rest.len() > 0);
        assert(text.subrange(end + 1, text.len() as int) + "\n"@ =~= terminated(rest)) by {
            let next = text.subrange(end + 1, text.len() as int) + "\n"@;
            assert(next.len() == terminated(rest).len());
            assert forall|k: int| 0 <= k < next.len() implies next[k] == terminated(rest)[k] by {
                assert(next[k] == tail[end - i + 1 + k]);
                assert(whole[end - i + 1 + k] == terminated(rest)[k]);
            }
        }
        assert(each_is_one_line(rest)) by {
            assert forall|k: int| 0 <= k < rest.len() implies !(#[trigger] rest[k]).contains(
                '\n',
            ) by {
                assert(rest[k] == lines[k + 1]);
            }
        }
        lemma_shown_lines(text, end + 1, rest, index + 1, palette);
    } else {
        assert(terminated(rest).len() == 0);
        if rest.len() > 0 {
            lemma_terminated_first(rest);
        }
        assert(rest.len() == 0);
        reveal_with_fuel(shown_lines, 2);
        assert(shown_lines(lines, index, palette) =~= line_text(lines[0], index, palette));
    }
}

/// A diff's text splits back into its lines: each is shown on a row of its
/// own, in the style its own first character asks for, and no row is added.
pub proof fn a_diff_is_shown_line_by_line(text: String, lines: Seq<Seq<char>>, palette: Palette)
    requires
        lines.len() > 0,
        each_is_one_line(lines),
        text@ == terminated(lines),
    ensures
        diff_text(DiffKind::Text(text), palette) == shown_lines(lines, 0, palette),
{
    reveal_strlit("\n");
    assert(text@.last() == '\n');
    let body = chomped(text@);
    assert(body.subrange(0, body.len() as int) + "\n"@ =~= text@);
    lemma_shown_lines(body, 0, lines, 0, palette);
}

/// Over an interrupted session no row is hidden, in either view.
pub proof fn an_interrupted_session_hides_no_row(report: Report, view: view::View, i: int)
    requires
        report.interrupted is Some,
        0 <= i < report.changes@.len(),
    ensures
        row_shown(report, view, report.changes@[i]),
{
}

/// What is shown of some rows: each from `i` on, in order, but those a plan
/// leaves out.
pub open spec fn rows_from(
    report: Report,
    plan: bool,
    palette: Palette,
    home: Seq<char>,
    i: int,
) -> Seq<char>
    decreases report.changes@.len() - i,
{
    if i < 0 || i >= report.changes@.len() {
        Seq::empty()
    } else {
        (if plan && report.interrupted is None && report.changes@[i].action == Action::Unchanged {
            Seq::empty()
        } else {
            row_text(report.changes@[i], palette, home)
        }) + rows_from(report, plan, palette, home, i + 1)
    }
}

proof fn lemma_rows_from(
    report: Report,
    view: view::View,
    palette: Palette,
    home: Seq<char>,
    i: int,
)
    requires
        0 <= i <= report.changes@.len(),
    ensures
        rows_text(report, view, palette, home, report.changes@.len() as int) == rows_text(
            report,
            view,
            palette,
            home,
            i,
        ) + rows_from(report, view == view::View::Plan, palette, home, i),
    decreases report.changes@.len() - i,
{
    let n = report.changes@.len() as int;
    if i < n {
        lemma_rows_from(report, view, palette, home, i + 1);
        assert(rows_text(report, view, palette, home, n) =~= rows_text(
            report,
            view,
            palette,
            home,
            i,
        ) + rows_from(report, view == view::View::Plan, palette, home, i));
    } else {
        assert(rows_text(report, view, palette, home, n) + rows_from(
            report,
            view == view::View::Plan,
            palette,
            home,
            i,
        ) =~= rows_text(report, view, palette, home, n));
    }
}

/// A report is shown whole: the banner where there is one, every row that is not
/// left out, in order, and the summary of every row, those left out too. A row is
/// left out only by a plan, only where nothing happens to it, and only where no
/// interrupted session stands.
pub proof fn a_report_is_shown_whole(
    report: Report,
    view: view::View,
    palette: Palette,
    home: Seq<char>,
)
    ensures
        report_text(report, view, palette, home) == (match banner_text(report) {
            Some(line) => palette.painted(Tone::Attention, line) + seq!['\n'],
            None => Seq::empty(),
        }) + rows_from(report, view == view::View::Plan, palette, home, 0) + summary_text(
            Seq::new(report.changes@.len(), |i: int| report.changes@[i].action),
        ) + seq!['\n'],
{
    reveal_strlit("\n");
    assert("\n"@ =~= seq!['\n']);
    lemma_rows_from(report, view, palette, home, 0);
    let n = report.changes@.len() as int;
    assert(rows_text(report, view, palette, home, 0) =~= Seq::empty());
    assert(rows_text(report, view, palette, home, n) =~= rows_from(
        report,
        view == view::View::Plan,
        palette,
        home,
        0,
    ));
    assert(actions_of(report.changes@) =~= Seq::new(
        report.changes@.len(),
        |i: int| report.changes@[i].action,
    ));
}

/// A row starts with its action's sign, names its target and where that was
/// declared, says its note, and ends its line; what it shows is beneath it.
pub proof fn a_row_names_its_target_and_its_note(
    change: Change,
    palette: Palette,
    home: Seq<char>,
)
    ensures
        ({
            let tone = match change.action {
                Action::Conflict | Action::Blocked => Tone::Attention,
                Action::Create | Action::Modify => Tone::Pending,
                Action::Undeclared | Action::Unchanged => Tone::Quiet,
            };
            let sign = match change.action {
                Action::Create => '+',
                Action::Modify => '~',
                Action::Conflict => '!',
                Action::Blocked => '?',
                Action::Undeclared => '*',
                Action::Unchanged => '=',
            };
            let line = "  "@ + palette.painted(tone, seq![sign]) + " "@ + escaped(change.target@)
                + "  ("@ + escaped(portable(change.origin.file@, home)) + ":"@ + decimal(
                change.origin.line as nat,
            ) + ")"@;
            let said = match change.note {
                Some(note) => line + " "@ + escaped(note@) + "\n"@,
                None => line + "\n"@,
            };
            row_text(change, palette, home) == match change.diff {
                Some(diff) => said + diff_text(diff.kind, palette),
                None => said,
            }
        }),
{
    let line = "  "@ + palette.painted(row_tone(change.action), seq![change.action.sign()]) + " "@
        + escaped(change.target@) + "  ("@ + escaped(portable(change.origin.file@, home)) + ":"@
        + decimal(change.origin.line as nat) + ")"@;
    let note = match change.note {
        Some(note) => " "@ + escaped(note@),
        None => Seq::empty(),
    };
    assert(line + note + "\n"@ =~= match change.note {
        Some(note) => line + " "@ + escaped(note@) + "\n"@,
        None => line + "\n"@,
    });
    let said = line + note + "\n"@;
    assert(said + Seq::<char>::empty() =~= said);
}

/// What is shown of a difference that is not text: a mode that moves, the commits
/// a checkout moves between and its remote, or the sizes and why no more is shown.
pub proof fn what_is_no_text_is_shown_in_one_line(
    from: crate::fs::Mode,
    to: crate::fs::Mode,
    head: Option<String>,
    rev: String,
    url: String,
    before: Option<usize>,
    after: usize,
    palette: Palette,
)
    ensures
        diff_text(DiffKind::Mode { from, to }, palette) == "    mode "@ + from.shown() + " -> "@
            + to.shown() + "\n"@,
        diff_text(DiffKind::Checkout { from: head, to: rev, url }, palette) == "    commit "@ + (
        if head is Some {
            escaped(head->0@)
        } else {
            "none"@
        }) + " -> "@ + escaped(rev@) + " of "@ + escaped(url@) + "\n"@,
        diff_text(
            DiffKind::Summary { before: Some(after), after, why: Why::Binary },
            palette,
        ) == "    "@ + "binary content"@ + ": "@ + (decimal(after as nat) + " bytes"@) + " -> "@
            + decimal(after as nat) + " bytes\n"@,
        diff_text(DiffKind::Summary { before, after, why: Why::TooLarge }, palette) == "    "@
            + "too large to show"@ + ": "@ + (if before is Some {
            decimal(before->0 as nat) + " bytes"@
        } else {
            "no file"@
        }) + " -> "@ + decimal(after as nat) + " bytes\n"@,
        diff_text(DiffKind::Summary { before, after, why: Why::Binary }, palette) == "    "@
            + "binary content"@ + ": "@ + (if before is Some {
            decimal(before->0 as nat) + " bytes"@
        } else {
            "no file"@
        }) + " -> "@ + decimal(after as nat) + " bytes\n"@,
{
}

/// A line of a diff is shown by its place and its first character: the two lines
/// that head it, then what is added, what is removed, and where, each in its own
/// style; any other line is in none.
pub proof fn a_line_is_styled_by_its_sign(line: Seq<char>, index: int, palette: Palette)
    ensures
        ({
            let said = escaped(line);
            let shown = |tone: Tone| "    "@ + palette.painted(tone, said) + "\n"@;
            let first = |c: char| index >= 2 && line.len() > 0 && line[0] == c;
            &&& index < 2 ==> line_text(line, index, palette) == shown(Tone::Header)
            &&& first('+') ==> line_text(line, index, palette) == shown(Tone::Added)
            &&& first('-') ==> line_text(line, index, palette) == shown(Tone::Removed)
            &&& first('@') ==> line_text(line, index, palette) == shown(Tone::Quiet)
            &&& index >= 2 && !first('+') && !first('-') && !first('@') ==> line_text(
                line,
                index,
                palette,
            ) == "    "@ + said + "\n"@
        }),
{
}

/// Each style is its own: what is added is green, what is removed red, what needs
/// a human bold yellow, what is to be written bold green, a header bold, and the
/// rest dimmed. Without colour nothing is styled.
pub proof fn every_tone_has_its_own_style(tone: Tone, other: Tone, text: Seq<char>)
    ensures
        tone.style() == other.style() ==> tone == other,
        Tone::Added.style() == (Ink { foreground: Some(2), bold: false, dimmed: false }),
        Tone::Removed.style() == (Ink { foreground: Some(1), bold: false, dimmed: false }),
        Tone::Quiet.style() == (Ink { foreground: None, bold: false, dimmed: true }),
        Tone::Header.style() == (Ink { foreground: None, bold: true, dimmed: false }),
        Tone::Attention.style() == (Ink { foreground: Some(3), bold: true, dimmed: false }),
        Tone::Pending.style() == (Ink { foreground: Some(2), bold: true, dimmed: false }),
        (Palette { color: false }).painted(tone, text) == text,
        (Palette { color: true }).painted(tone, text) == tone.style().start() + text
            + tone.style().stop(),
{
}

/// What is said above the rows, in every case: that another apply runs; else, of
/// an interrupted session, that its journal cannot be read, how many files it left
/// that bx cannot account for, that it is only to be recorded, or that it is to be
/// rolled back; and nothing where nothing is unsettled.
pub proof fn the_banner_says_what_stands(report: Report)
    ensures
        report.apply_running ==> banner_text(report) == Some(
            "A bx apply is running; what it has not finished yet is shown as still to do."@,
        ),
        !report.apply_running && report.interrupted is None ==> banner_text(report) is None,
        !report.apply_running && report.interrupted is Some ==> ({
            let session = report.interrupted->0;
            let kind = if session.kind == SessionKind::Apply {
                "apply"@
            } else {
                "restore"@
            };
            let blocked = unresolvable(session.unfinished@);
            let said = banner_text(report);
            &&& session.unreadable ==> said == Some(
                "An interrupted bx session left a journal bx cannot read. `bx apply` sets it aside and writes nothing else; run `bx plan` again after `bx apply` sets it aside."@,
            )
            &&& !session.unreadable && blocked > 0 ==> said == Some(
                "An interrupted bx "@ + kind + " left "@ + decimal(blocked)
                    + " file(s) bx cannot account for; `bx apply` refuses, and rolls nothing back, until they are resolved."@,
            )
            &&& !session.unreadable && blocked == 0 && session.complete ==> said == Some(
                "An interrupted bx "@ + kind
                    + " wrote everything but did not record it. `bx apply` records it and writes nothing else; run `bx plan` again after `bx apply` records it."@,
            )
            &&& !session.unreadable && blocked == 0 && !session.complete ==> said == Some(
                "An interrupted bx "@ + kind
                    + " was found. `bx apply` rolls back what is shown below and writes nothing else; run `bx plan` again after `bx apply` rolls these back."@,
            )
        }),
{
}

} // verus!
