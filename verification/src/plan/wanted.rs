//! The bytes a target wants, or why it cannot have any yet.

use crate::paths::{render, rendered};
use crate::plan::error::Error;
use crate::plan::notes::{
    both, every_part_that_is_there_is_said, join, note_of, option_texts, two_parts_are_joined,
};
use crate::plan::rows::Origin;
use crate::plan::target::{
    Attach, Body, Direction, Format, Gen, Generated, Opened, Syntax, Target, Unread, Violation,
};
use crate::state::Portable;
use crate::text::{begins_at, chars_of, decimal, numeral_of, opt_text};
use vstd::prelude::*;
use vstd::utf8::*;

verus! {

/// Why a target's attachment, direction or format cannot be written yet.
pub open spec fn unsupported_words(target: Target) -> Option<Seq<char>> {
    if target.attach is Region && target.body !is Generated {
        Some("a managed region is not supported until entry C1"@)
    } else if target.attach is Include {
        Some("an include line is not supported until entry C1"@)
    } else if target.direction == Direction::Track {
        Some("track mode is not supported until entry C4"@)
    } else if target.format == Format::Jsonc {
        Some("owning JSONC keys is not supported until entry C3"@)
    } else {
        None
    }
}

/// Why a target's attachment, direction or format cannot be written yet.
///
/// A region is written for a generated body only. The placement graph's regions
/// hold fixed text, so a rewrite of one is never a question of whose edit wins;
/// a region a config author fills with a body of their own changes whenever the
/// body does.
pub fn unsupported(target: &Target) -> (r: Option<&'static str>)
    ensures
        match r {
            Some(note) => unsupported_words(*target) == Some(note@),
            None => unsupported_words(*target) is None,
        },
{
    let generated = match &target.body {
        Body::Generated(_) => true,
        _ => false,
    };
    match &target.attach {
        Attach::Region { .. } => {
            if !generated {
                return Some("a managed region is not supported until entry C1");
            }
        },
        Attach::Include { .. } => {
            return Some("an include line is not supported until entry C1");
        },
        Attach::Own => {},
    }
    if target.direction == Direction::Track {
        return Some("track mode is not supported until entry C4");
    }
    if target.format == Format::Jsonc {
        return Some("owning JSONC keys is not supported until entry C3");
    }
    None
}

/// One violation as a note names it, on a line of the file it is in.
pub open spec fn violation_text(found: Violation, before: nat) -> Seq<char> {
    "line "@ + decimal(found.line as nat + before) + ": "@ + found.name@ + " "@ + found.reason@
}

/// One note naming each violation.
pub open spec fn violations_note(found: Seq<Violation>, before: nat) -> Option<Seq<char>> {
    note_of(Seq::new(found.len(), |i: int| Some(violation_text(found[i], before))))
}

/// One note naming each violation as `line N: NAME <reason>`, each line moved
/// down by the `before` lines the scanned content is preceded by in its file.
pub fn violations(found: &Vec<Violation>, before: usize) -> (r: Option<String>)
    ensures
        opt_text(r) == violations_note(found@, before as nat),
{
    let ghost all = Seq::new(
        found@.len(),
        |i: int| Some(violation_text(found@[i], before as nat)),
    );
    let mut parts: Vec<Option<String>> = Vec::new();
    let mut i: usize = 0;
    while i < found.len()
        invariant
            i <= found.len(),
            parts@.len() == i,
            all == Seq::new(
                found@.len(),
                |i: int| Some(violation_text(found@[i], before as nat)),
            ),
            forall|k: int| 0 <= k < i ==> opt_text(#[trigger] parts@[k]) == all[k],
        decreases found.len() - i,
    {
        let line = numeral_of(found[i].line as u128 + before as u128, 10);
        let text = "line ".to_owned().concat(line.as_str()).concat(": ").concat(
            found[i].name.as_str(),
        ).concat(" ").concat(found[i].reason.as_str());
        parts.push(Some(text));
        i = i + 1;
    }
    assert(option_texts(parts@) =~= all);
    join(parts)
}

/// Judge a generated environment fragment.
///
/// `None` when the scan found nothing bx may not write; otherwise one note
/// naming each violation as `line N: NAME <reason>`. Applied to generated
/// bodies only: the guard's grammar knows nothing but assignments, and a file
/// the user wrote is not bx's output to judge.
pub fn guard_fragment(found: &Vec<Violation>) -> (r: Option<String>)
    ensures
        opt_text(r) == violations_note(found@, 0),
{
    guard_fragment_after(found, 0)
}

/// [`guard_fragment`] for a fragment that is one part of a file, preceded in it
/// by `before` lines, so each line the note names is the file's own.
pub fn guard_fragment_after(found: &Vec<Violation>, before: usize) -> (r: Option<String>)
    ensures
        opt_text(r) == violations_note(found@, before as nat),
{
    violations(found, before)
}

/// [`guard_fragment`] for an `environment.d` fragment, where every line is
/// exported although none says `export`.
pub fn guard_environment_d(found: &Vec<Violation>) -> (r: Option<String>)
    ensures
        opt_text(r) == violations_note(found@, 0),
{
    violations(found, 0)
}

/// What is said of a history file that is refused.
pub open spec fn history_note(
    file: Option<Portable>,
    refusal: Option<Seq<char>>,
) -> Option<Seq<char>> {
    match (file, refusal) {
        (Some(file), Some(reason)) => Some("[history] zsh file "@ + file@ + " "@ + reason),
        _ => None,
    }
}

/// Judge a declared zsh history file: the one path the interactive file's
/// `options` phase names.
///
/// zsh keeps no history file unless one is named, so naming one moves nothing
/// and needs no root; but zsh writes every command line typed into it, so it may
/// not lie inside a directory bx owns, nor inside the config repo, where it
/// would be committed.
pub fn guard_history_file(file: &Option<Portable>, refusal: &Option<String>) -> (r: Option<String>)
    ensures
        opt_text(r) == history_note(*file, opt_text(*refusal)),
{
    match (file, refusal) {
        (Some(file), Some(reason)) => Some(
            "[history] zsh file ".to_owned().concat(file.text.as_str()).concat(" ").concat(
                reason.as_str(),
            ),
        ),
        _ => None,
    }
}

/// The path a declared history file is judged by: rendered against the guard's
/// home, the same home `${HOME}` is at shell start, where it has one.
pub fn history_path(file: &Portable, home: Option<&str>) -> (r: String)
    ensures
        r@ == match home {
            Some(home) => rendered(file@, home@),
            None => file@,
        },
{
    match home {
        Some(home) => render(file.text.as_str(), home),
        None => file.text.clone(),
    }
}

/// What of a generated body the guard scans, and as what.
pub fn scanned<'a>(generated: &'a Generated) -> (r: Option<(&'a str, Syntax)>)
    ensures
        match generated.what {
            Gen::Env(syntax) => r matches Some((text, scan)) && text@ == generated.content@ && scan
                == syntax,
            Gen::Interactive { env, .. } => r matches Some((text, scan)) && text@ == env@ && scan
                == Syntax::Zsh,
            Gen::Source => r is None,
        },
{
    match &generated.what {
        Gen::Env(syntax) => Some((generated.content.as_str(), *syntax)),
        Gen::Interactive { env, .. } => Some((env.as_str(), Syntax::Zsh)),
        Gen::Source => None,
    }
}

/// Whether `part` stands in `text` at `i`.
pub open spec fn stands_at(text: Seq<char>, part: Seq<char>, i: int) -> bool {
    0 <= i && i + part.len() <= text.len() && text.subrange(i, i + part.len()) == part
}

/// Where `part` first stands in `text` from `i` on.
pub open spec fn first_at(text: Seq<char>, part: Seq<char>, i: int) -> Option<int>
    decreases text.len() + 1 - i,
{
    if i > text.len() {
        None
    } else if stands_at(text, part, i) {
        Some(i)
    } else {
        first_at(text, part, i + 1)
    }
}

/// How many newlines a text holds.
pub open spec fn newlines(text: Seq<char>) -> nat
    decreases text.len(),
{
    if text.len() == 0 {
        0
    } else {
        newlines(text.drop_last()) + if text.last() == '\n' {
            1nat
        } else {
            0
        }
    }
}

/// How many lines of `text` stand before `part`, or none where it does not
/// stand in it.
pub open spec fn lines_before(text: Seq<char>, part: Seq<char>) -> nat {
    match first_at(text, part, 0) {
        Some(i) => newlines(text.subrange(0, i)),
        None => 0,
    }
}

fn count_lines_before(text: &str, part: &str) -> (r: usize)
    ensures
        r == lines_before(text@, part@),
{
    let chars = chars_of(text);
    let part_chars = chars_of(part);
    let mut at: usize = 0;
    let mut lines: usize = 0;
    assert(chars@.subrange(0, 0) =~= Seq::empty());
    loop
        invariant
            chars@ == text@,
            part_chars@ == part@,
            at <= chars.len(),
            lines <= at,
            lines == newlines(chars@.subrange(0, at as int)),
            first_at(chars@, part_chars@, 0) == first_at(chars@, part_chars@, at as int),
        decreases chars.len() - at,
    {
        if begins_at(chars.as_slice(), at, part_chars.as_slice()) {
            assert(stands_at(chars@, part_chars@, at as int)) by {
                let rest = chars@.subrange(at as int, chars@.len() as int);
                assert(rest.subrange(0, part_chars@.len() as int) =~= chars@.subrange(
                    at as int,
                    at + part_chars@.len(),
                ));
            }
            return lines;
        }
        assert(!stands_at(chars@, part_chars@, at as int)) by {
            if at + part_chars@.len() <= chars@.len() {
                let rest = chars@.subrange(at as int, chars@.len() as int);
                assert(rest.subrange(0, part_chars@.len() as int) =~= chars@.subrange(
                    at as int,
                    at + part_chars@.len(),
                ));
            }
        }
        if at == chars.len() {
            assert(first_at(chars@, part_chars@, at + 1) is None);
            return 0;
        }
        assert(chars@.subrange(0, at + 1).drop_last() =~= chars@.subrange(0, at as int));
        if chars[at] == '\n' {
            lines = lines + 1;
        }
        at = at + 1;
    }
}

/// What is said of a generated body bx may not write.
pub open spec fn guard_note(generated: Generated) -> Option<Seq<char>> {
    match generated.what {
        Gen::Env(_) => violations_note(generated.violations@, 0),
        Gen::Interactive { env, history } => note_of(
            seq![
                violations_note(
                    generated.violations@,
                    lines_before(generated.content@, env@),
                ),
                history_note(history, opt_text(generated.refusal)),
            ],
        ),
        Gen::Source => None,
    }
}

/// Judge a generated body as what it is.
///
/// An environment fragment is judged by the guard in its own syntax. The line a
/// region sources a fragment with sets nothing, so it is not a fragment.
///
/// The interactive file is judged by its `env` phase alone, since that phase is
/// its one environment fragment, and by the history file it names. A line number
/// in the note is still the file's own: the phase is found in the file's text,
/// and each line is counted from the top of the file.
pub fn guard_generated(generated: &Generated) -> (r: Option<String>)
    ensures
        opt_text(r) == guard_note(*generated),
{
    match &generated.what {
        Gen::Env(syntax) => match syntax {
            Syntax::Zsh => guard_fragment(&generated.violations),
            Syntax::EnvironmentD => guard_environment_d(&generated.violations),
        },
        Gen::Interactive { env, history } => {
            let before = count_lines_before(generated.content.as_str(), env.as_str());
            both(
                guard_fragment_after(&generated.violations, before),
                guard_history_file(history, &generated.refusal),
            )
        },
        Gen::Source => None,
    }
}

/// A body read from the config repo.
///
/// The file is followed through a link, since a body the repo links to is the
/// user's layout. Anything but a regular file at the end of it would block the
/// read or never end it, so it is never read: `irregular` is whether the path
/// resolves to such a thing.
///
/// # Errors
///
/// The file, and why it cannot be read.
pub fn read_repo_file(path: &str, irregular: bool, read: Result<Vec<u8>, String>) -> (r: Result<
    Vec<u8>,
    Unread,
>)
    ensures
        match r {
            Ok(bytes) => !irregular && read == Ok::<Vec<u8>, String>(bytes),
            Err(unread) => unread.path@ == path@ && if irregular {
                unread.source@ == "not a regular file"@
            } else {
                read is Err && unread.source@ == read->Err_0@
            },
        },
{
    if irregular {
        return Err(Unread { path: path.to_owned(), source: "not a regular file".to_owned() });
    }
    match read {
        Ok(bytes) => Ok(bytes),
        Err(source) => Err(Unread { path: path.to_owned(), source }),
    }
}

/// The bytes a target wants, or why it cannot have any yet.
#[derive(Debug, PartialEq, Eq)]
pub enum Wanted {
    /// The whole content.
    Bytes(Vec<u8>),
    /// A directory, which has none.
    Dir,
    /// The note a blocked row carries.
    Blocked(String),
}

/// What a target wants, as a value.
pub ghost enum Want {
    Bytes { bytes: Seq<u8> },
    Dir,
    Blocked { note: Seq<char> },
    Unread { path: Seq<char>, source: Seq<char> },
}

impl View for Wanted {
    type V = Want;

    open spec fn view(&self) -> Want {
        match *self {
            Wanted::Bytes(bytes) => Want::Bytes { bytes: bytes@ },
            Wanted::Dir => Want::Dir,
            Wanted::Blocked(note) => Want::Blocked { note: note@ },
        }
    }
}

/// What a target wants.
pub open spec fn want(target: Target) -> Want {
    if unsupported_words(target) is Some {
        Want::Blocked { note: unsupported_words(target)->0 }
    } else {
        match target.body {
            Body::Inline(content) => Want::Bytes { bytes: encode_utf8(content@) },
            Body::File(Ok(bytes)) => Want::Bytes { bytes: bytes@ },
            Body::File(Err(unread)) => Want::Unread {
                path: unread.path@,
                source: unread.source@,
            },
            Body::Secret(Opened::Plain(bytes)) => Want::Bytes { bytes: bytes@ },
            Body::Secret(Opened::Refused(note)) => Want::Blocked { note: note@ },
            Body::Secret(Opened::Unread(unread)) => Want::Unread {
                path: unread.path@,
                source: unread.source@,
            },
            Body::Generated(generated) => match guard_note(generated) {
                Some(note) => Want::Blocked { note },
                None => Want::Bytes { bytes: encode_utf8(generated.content@) },
            },
            Body::Dir => Want::Dir,
        }
    }
}

/// Whether an error says of a target that its body could not be read.
pub open spec fn is_unread(error: Error, origin: Origin, path: Seq<char>, source: Seq<char>) -> bool {
    match error {
        Error::Body { origin: at, path: file, source: why } => at == origin && file@ == path && why@
            == source,
        _ => false,
    }
}

fn unread(target: &Target, why: &Unread) -> (r: Error)
    ensures
        is_unread(r, target.origin, why.path@, why.source@),
{
    Error::Body {
        origin: target.origin.clone(),
        path: why.path.clone(),
        source: why.source.clone(),
    }
}

/// Produce a target's desired bytes.
///
/// A shape this does not write is blocked before anything that was read is
/// looked at. Bodies are written verbatim: an inline body was substituted
/// before, and a file body is the repo's bytes. A secret is opened without a
/// prompt: a locked identity is a blocked row naming the fix.
///
/// # Errors
///
/// [`Error::Body`] when a body could not be read from the config repo.
pub fn wanted(target: &Target) -> (r: Result<Wanted, Error>)
    ensures
        match want(*target) {
            Want::Unread { path, source } => r is Err && is_unread(
                r->Err_0,
                target.origin,
                path,
                source,
            ),
            wanted => r is Ok && r->Ok_0@ == wanted,
        },
{
    if let Some(note) = unsupported(target) {
        return Ok(Wanted::Blocked(note.to_owned()));
    }
    match &target.body {
        Body::Inline(content) => Ok(
            Wanted::Bytes(vstd::slice::slice_to_vec(content.as_str().as_bytes())),
        ),
        Body::File(Ok(bytes)) => Ok(Wanted::Bytes(vstd::slice::slice_to_vec(bytes.as_slice()))),
        Body::File(Err(why)) => Err(unread(target, why)),
        Body::Secret(Opened::Plain(bytes)) => Ok(
            Wanted::Bytes(vstd::slice::slice_to_vec(bytes.as_slice())),
        ),
        Body::Secret(Opened::Refused(note)) => Ok(Wanted::Blocked(note.clone())),
        Body::Secret(Opened::Unread(why)) => Err(unread(target, why)),
        Body::Generated(generated) => match guard_generated(generated) {
            Some(note) => Ok(Wanted::Blocked(note)),
            None => Ok(
                Wanted::Bytes(vstd::slice::slice_to_vec(generated.content.as_str().as_bytes())),
            ),
        },
        Body::Dir => Ok(Wanted::Dir),
    }
}

/// What a target is to hold, in every case: a shape bx does not write yet is
/// blocked before anything that was read is looked at; a body the configuration
/// spells out is its text, a file of the repo its bytes, a secret its plaintext,
/// and text bx generates its text, unless the guard found something in it.
pub proof fn a_target_wants_what_it_declares(target: Target)
    ensures
        ({
            let region = target.attach is Region;
            let generated = target.body is Generated;
            let blocked = (region && !generated) || target.attach is Include || target.direction
                == Direction::Track || target.format == Format::Jsonc;
            &&& blocked ==> want(target) is Blocked
            &&& !blocked ==> match target.body {
                Body::Inline(text) => want(target) == (Want::Bytes { bytes: encode_utf8(text@) }),
                Body::File(Ok(bytes)) => want(target) == (Want::Bytes { bytes: bytes@ }),
                Body::File(Err(unread)) => want(target) == (Want::Unread {
                    path: unread.path@,
                    source: unread.source@,
                }),
                Body::Secret(Opened::Plain(bytes)) => want(target) == (Want::Bytes {
                    bytes: bytes@,
                }),
                Body::Secret(Opened::Refused(fix)) => want(target) == (Want::Blocked {
                    note: fix@,
                }),
                Body::Secret(Opened::Unread(unread)) => want(target) == (Want::Unread {
                    path: unread.path@,
                    source: unread.source@,
                }),
                Body::Generated(text) => {
                    let refused = (text.what !is Source && text.violations@.len() > 0) || (
                    text.what matches Gen::Interactive { env, history } && history is Some
                        && text.refusal is Some);
                    &&& refused ==> want(target) is Blocked
                    &&& !refused ==> want(target) == (Want::Bytes {
                        bytes: encode_utf8(text.content@),
                    })
                },
                Body::Dir => want(target) is Dir,
            }
        }),
{
    if let Body::Generated(text) = target.body {
        lemma_violations_are_said(text.violations@, 0);
        if let Gen::Interactive { env, history } = text.what {
            let before = lines_before(text.content@, env@);
            lemma_violations_are_said(text.violations@, before);
            two_parts_are_joined(
                violations_note(text.violations@, before),
                history_note(history, opt_text(text.refusal)),
            );
        }
    }
}

proof fn lemma_violations_are_said(found: Seq<Violation>, before: nat)
    ensures
        violations_note(found, before) is None <==> found.len() == 0,
    decreases found.len(),
{
    let parts = |some: Seq<Violation>|
        Seq::new(some.len(), |i: int| Some(violation_text(some[i], before)));
    if found.len() > 0 {
        assert(parts(found) =~= parts(found.drop_last()).push(
            Some(violation_text(found.last(), before)),
        ));
        every_part_that_is_there_is_said(
            parts(found.drop_last()),
            Some(violation_text(found.last(), before)),
        );
    } else {
        assert(parts(found) =~= Seq::empty());
        every_part_that_is_there_is_said(Seq::empty(), None);
    }
}

/// Every violation is named, in order, each by the line it is on in its file,
/// its variable and why.
pub proof fn every_violation_is_named(found: Seq<Violation>, one: Violation, before: nat)
    ensures
        ({
            let said = "line "@ + decimal(one.line as nat + before) + ": "@ + one.name@ + " "@
                + one.reason@;
            violations_note(found.push(one), before) == Some(
                match violations_note(found, before) {
                    Some(note) => note + "; "@ + said,
                    None => said,
                },
            )
        }),
        violations_note(Seq::empty(), before) is None,
{
    let parts = |some: Seq<Violation>|
        Seq::new(some.len(), |i: int| Some(violation_text(some[i], before)));
    assert(parts(found.push(one)) =~= parts(found).push(Some(violation_text(one, before))));
    assert(parts(Seq::<Violation>::empty()) =~= Seq::empty());
    every_part_that_is_there_is_said(parts(found), Some(violation_text(one, before)));
}

/// A part is found where it first stands: it stands there, it stands nowhere
/// before, and where none is found it stands nowhere.
pub proof fn a_part_is_found_where_it_first_stands(text: Seq<char>, part: Seq<char>, i: int)
    requires
        0 <= i,
    ensures
        match first_at(text, part, i) {
            Some(at) => {
                &&& i <= at <= text.len() - part.len()
                &&& text.subrange(at, at + part.len()) == part
                &&& forall|j: int|
                    i <= j < at ==> !(#[trigger] text.subrange(j, j + part.len()) == part && j
                        + part.len() <= text.len())
            },
            None => forall|j: int|
                i <= j <= text.len() - part.len() ==> #[trigger] text.subrange(
                    j,
                    j + part.len(),
                ) != part,
        },
    decreases text.len() + 1 - i,
{
    if i <= text.len() && !stands_at(text, part, i) {
        a_part_is_found_where_it_first_stands(text, part, i + 1);
    }
}

/// A line number counts the newlines before the part: a text with no newline has
/// none, and two texts one after the other have those of both.
pub proof fn newlines_are_counted(a: Seq<char>, b: Seq<char>)
    ensures
        newlines(a + b) == newlines(a) + newlines(b),
        newlines(seq!['\n']) == 1,
        (forall|i: int| 0 <= i < a.len() ==> a[i] != '\n') ==> newlines(a) == 0,
    decreases a.len() + b.len(),
{
    reveal_with_fuel(newlines, 2);
    assert(seq!['\n'].drop_last() =~= Seq::<char>::empty());
    if b.len() > 0 {
        assert((a + b).drop_last() =~= a + b.drop_last());
        newlines_are_counted(a, b.drop_last());
    } else {
        assert(a + b =~= a);
        if a.len() > 0 {
            newlines_are_counted(a.drop_last(), Seq::empty());
            assert(a.drop_last() + Seq::<char>::empty() =~= a.drop_last());
        }
    }
}

/// What cannot be written yet says why: the attachment before the direction, and
/// that before the format.
pub proof fn what_cannot_be_written_yet_says_why(target: Target)
    ensures
        ({
            let region = target.attach is Region && target.body !is Generated;
            let include_line = target.attach is Include;
            let track = target.direction == Direction::Track;
            let keys = target.format == Format::Jsonc;
            &&& region ==> want(target) == (Want::Blocked {
                note: "a managed region is not supported until entry C1"@,
            })
            &&& include_line ==> want(target) == (Want::Blocked {
                note: "an include line is not supported until entry C1"@,
            })
            &&& !region && !include_line && track ==> want(target) == (Want::Blocked {
                note: "track mode is not supported until entry C4"@,
            })
            &&& !region && !include_line && !track && keys ==> want(target) == (Want::Blocked {
                note: "owning JSONC keys is not supported until entry C3"@,
            })
            &&& unsupported_words(target) is None <==> !region && !include_line && !track && !keys
        }),
{
}

/// A generated body is judged as what it is: a fragment of the environment by
/// its violations, each line its own; the interactive file by those of its `env`
/// phase, each line counted from the top of the file, and then by the history
/// file it names; the line that sources a fragment by nothing.
pub proof fn a_generated_body_is_judged_as_what_it_is(generated: Generated)
    ensures
        generated.what is Source ==> guard_note(generated) is None,
        generated.what is Env ==> guard_note(generated) == violations_note(
            generated.violations@,
            0,
        ),
        generated.what matches Gen::Interactive { env, history } ==> ({
            let found = violations_note(
                generated.violations@,
                lines_before(generated.content@, env@),
            );
            let refused = history is Some && generated.refusal is Some;
            let said = "[history] zsh file "@ + history->0@ + " "@ + generated.refusal->0@;
            &&& !refused ==> guard_note(generated) == found
            &&& refused && found is None ==> guard_note(generated) == Some(said)
            &&& refused && found is Some ==> guard_note(generated) == Some(
                found->0 + "; "@ + said,
            )
        }),
{
    if let Gen::Interactive { env, history } = generated.what {
        two_parts_are_joined(
            violations_note(generated.violations@, lines_before(generated.content@, env@)),
            history_note(history, opt_text(generated.refusal)),
        );
    }
}

} // verus!
