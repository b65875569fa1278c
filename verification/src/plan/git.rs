//! What is asked of `git`, and how its answers read.
//!
//! Every question runs the `git` on `PATH`, unattended, so a missing credential
//! fails rather than waits. The program asks and hands back what came of it.

use crate::paths::{indent, is_white, path_is, same_path, white};
use crate::text::{chars_of, opt_text, push_char, strings};
use vstd::prelude::*;
use vstd::utf8::*;

verus! {

/// Why `git` did not answer.
#[derive(Debug, PartialEq, Eq)]
pub enum Trouble {
    /// It could not be started, and why.
    Spawn { source: String },
    /// It failed: what it was asked, its status, and what it printed.
    Git { args: String, code: Option<i32>, stderr: String },
    /// Anything else, in words.
    Other(String),
}

/// A question, or a command.
#[derive(Debug, PartialEq, Eq)]
pub enum Query {
    /// Where the top of the checkout is.
    Toplevel,
    /// The commit that is checked out.
    Head,
    /// The url of `origin`.
    Origin,
    /// Which tracked files differ from the commit checked out.
    Status,
    /// Which files differ or are not tracked.
    StatusAll,
    /// Whether a commit is here.
    Has { rev: String },
    /// Whether one commit is another or one of its ancestors.
    Ancestor { ancestor: String, descendant: String },
    /// How many commits the one checked out reaches that neither `rev`, nor any
    /// remote-tracking branch, nor `known` reaches.
    Ahead { rev: String, known: Option<String> },
    /// How many commits are here that neither any remote-tracking branch nor
    /// `known` reaches.
    Loose { known: Option<String> },
    /// Make a repository, in the object format `rev` is written in.
    Init { rev: String },
    /// Name the remote.
    Remote { url: String },
    /// Fetch every branch.
    Fetch,
    /// Fetch one commit by id.
    FetchRev { rev: String },
    /// Check a commit out, detached, which git refuses over local changes.
    CheckOut { rev: String },
}

/// The `git init` option for the object format a full commit id `rev` is in: a
/// 64-hex one is SHA-256, and a 40-hex one SHA-1 whatever the user's
/// configuration says.
pub open spec fn format_option(rev: Seq<char>) -> Seq<char> {
    if encode_utf8(rev).len() == 64 {
        "--object-format=sha256"@
    } else {
        "--object-format=sha1"@
    }
}

/// The `git init` option for the object format a full commit id `rev` is in.
pub fn object_format(rev: &str) -> (r: &'static str)
    ensures
        r@ == format_option(rev@),
{
    if rev.as_bytes().len() == 64 {
        "--object-format=sha256"
    } else {
        "--object-format=sha1"
    }
}

/// The arguments some words and a last one that may not be there make.
pub open spec fn and_maybe(args: Seq<Seq<char>>, last: Option<String>) -> Seq<Seq<char>> {
    match last {
        Some(last) => args.push(last@),
        None => args,
    }
}

/// What `git` is run with.
pub open spec fn arguments(query: Query) -> Seq<Seq<char>> {
    match query {
        Query::Toplevel => seq!["rev-parse"@, "--show-toplevel"@],
        Query::Head => seq!["rev-parse"@, "--verify"@, "--quiet"@, "HEAD^{commit}"@],
        Query::Origin => seq!["config"@, "--get"@, "remote.origin.url"@],
        Query::Status => seq!["status"@, "--porcelain"@, "--untracked-files=no"@],
        Query::StatusAll => seq!["status"@, "--porcelain"@, "--untracked-files=all"@],
        Query::Has { rev } => seq!["cat-file"@, "-e"@, rev@ + "^{commit}"@],
        Query::Ancestor { ancestor, descendant } => seq![
            "merge-base"@,
            "--is-ancestor"@,
            ancestor@,
            descendant@,
        ],
        Query::Ahead { rev, known } => and_maybe(
            seq!["rev-list"@, "--count"@, "HEAD"@, "--not"@, rev@, "--remotes"@],
            known,
        ),
        Query::Loose { known } => and_maybe(
            seq!["rev-list"@, "--count"@, "--all"@, "--not"@, "--remotes"@],
            known,
        ),
        Query::Init { rev } => seq!["init"@, "--quiet"@, format_option(rev@)],
        Query::Remote { url } => seq!["remote"@, "add"@, "origin"@, url@],
        Query::Fetch => seq!["fetch"@, "--quiet"@, "origin"@],
        Query::FetchRev { rev } => seq!["fetch"@, "--quiet"@, "origin"@, rev@],
        Query::CheckOut { rev } => seq![
            "-c"@,
            "advice.detachedHead=false"@,
            "checkout"@,
            "--quiet"@,
            "--detach"@,
            rev@,
        ],
    }
}

fn push_word(out: &mut Vec<String>, word: &str)
    ensures
        strings(final(out)@) == strings(old(out)@).push(word@),
{
    let ghost before = out@;
    out.push(word.to_owned());
    assert(strings(out@) =~= strings(before).push(word@));
}

fn push_maybe(out: &mut Vec<String>, word: &Option<String>)
    ensures
        strings(final(out)@) == and_maybe(strings(old(out)@), *word),
{
    if let Some(word) = word {
        push_word(out, word.as_str());
    }
}

impl Query {
    /// What `git` is run with.
    pub fn args(&self) -> (r: Vec<String>)
        ensures
            strings(r@) == arguments(*self),
            *self is Toplevel ==> strings(r@) == seq!["rev-parse"@, "--show-toplevel"@],
            *self is Head ==> strings(r@) == seq![
                "rev-parse"@,
                "--verify"@,
                "--quiet"@,
                "HEAD^{commit}"@,
            ],
            *self is Origin ==> strings(r@) == seq!["config"@, "--get"@, "remote.origin.url"@],
            *self is Status ==> strings(r@) == seq![
                "status"@,
                "--porcelain"@,
                "--untracked-files=no"@,
            ],
            *self is StatusAll ==> strings(r@) == seq![
                "status"@,
                "--porcelain"@,
                "--untracked-files=all"@,
            ],
            *self matches Query::Has { rev } ==> strings(r@) == seq![
                "cat-file"@,
                "-e"@,
                rev@ + "^{commit}"@,
            ],
            *self matches Query::Ancestor { ancestor, descendant } ==> strings(r@) == seq![
                "merge-base"@,
                "--is-ancestor"@,
                ancestor@,
                descendant@,
            ],
            *self matches Query::Ahead { rev, known } ==> strings(r@) == seq![
                "rev-list"@,
                "--count"@,
                "HEAD"@,
                "--not"@,
                rev@,
                "--remotes"@,
            ] + (match known {
                Some(commit) => seq![commit@],
                None => Seq::empty(),
            }),
            *self matches Query::Loose { known } ==> strings(r@) == seq![
                "rev-list"@,
                "--count"@,
                "--all"@,
                "--not"@,
                "--remotes"@,
            ] + (match known {
                Some(commit) => seq![commit@],
                None => Seq::empty(),
            }),
            *self matches Query::Init { rev } ==> strings(r@) == seq![
                "init"@,
                "--quiet"@,
                if encode_utf8(rev@).len() == 64 {
                    "--object-format=sha256"@
                } else {
                    "--object-format=sha1"@
                },
            ],
            *self matches Query::Remote { url } ==> strings(r@) == seq![
                "remote"@,
                "add"@,
                "origin"@,
                url@,
            ],
            *self is Fetch ==> strings(r@) == seq!["fetch"@, "--quiet"@, "origin"@],
            *self matches Query::FetchRev { rev } ==> strings(r@) == seq![
                "fetch"@,
                "--quiet"@,
                "origin"@,
                rev@,
            ],
            *self matches Query::CheckOut { rev } ==> strings(r@) == seq![
                "-c"@,
                "advice.detachedHead=false"@,
                "checkout"@,
                "--quiet"@,
                "--detach"@,
                rev@,
            ],
    {
        let mut out: Vec<String> = Vec::new();
        assert(strings(out@) =~= Seq::empty());
        match self {
            Query::Toplevel => {
                push_word(&mut out, "rev-parse");
                push_word(&mut out, "--show-toplevel");
            },
            Query::Head => {
                push_word(&mut out, "rev-parse");
                push_word(&mut out, "--verify");
                push_word(&mut out, "--quiet");
                push_word(&mut out, "HEAD^{commit}");
            },
            Query::Origin => {
                push_word(&mut out, "config");
                push_word(&mut out, "--get");
                push_word(&mut out, "remote.origin.url");
            },
            Query::Status => {
                push_word(&mut out, "status");
                push_word(&mut out, "--porcelain");
                push_word(&mut out, "--untracked-files=no");
            },
            Query::StatusAll => {
                push_word(&mut out, "status");
                push_word(&mut out, "--porcelain");
                push_word(&mut out, "--untracked-files=all");
            },
            Query::Has { rev } => {
                push_word(&mut out, "cat-file");
                push_word(&mut out, "-e");
                push_word(&mut out, rev.clone().concat("^{commit}").as_str());
            },
            Query::Ancestor { ancestor, descendant } => {
                push_word(&mut out, "merge-base");
                push_word(&mut out, "--is-ancestor");
                push_word(&mut out, ancestor.as_str());
                push_word(&mut out, descendant.as_str());
            },
            Query::Ahead { rev, known } => {
                push_word(&mut out, "rev-list");
                push_word(&mut out, "--count");
                push_word(&mut out, "HEAD");
                push_word(&mut out, "--not");
                push_word(&mut out, rev.as_str());
                push_word(&mut out, "--remotes");
                push_maybe(&mut out, known);
            },
            Query::Loose { known } => {
                push_word(&mut out, "rev-list");
                push_word(&mut out, "--count");
                push_word(&mut out, "--all");
                push_word(&mut out, "--not");
                push_word(&mut out, "--remotes");
                push_maybe(&mut out, known);
            },
            Query::Init { rev } => {
                push_word(&mut out, "init");
                push_word(&mut out, "--quiet");
                push_word(&mut out, object_format(rev.as_str()));
            },
            Query::Remote { url } => {
                push_word(&mut out, "remote");
                push_word(&mut out, "add");
                push_word(&mut out, "origin");
                push_word(&mut out, url.as_str());
            },
            Query::Fetch => {
                push_word(&mut out, "fetch");
                push_word(&mut out, "--quiet");
                push_word(&mut out, "origin");
            },
            Query::FetchRev { rev } => {
                push_word(&mut out, "fetch");
                push_word(&mut out, "--quiet");
                push_word(&mut out, "origin");
                push_word(&mut out, rev.as_str());
            },
            Query::CheckOut { rev } => {
                push_word(&mut out, "-c");
                push_word(&mut out, "advice.detachedHead=false");
                push_word(&mut out, "checkout");
                push_word(&mut out, "--quiet");
                push_word(&mut out, "--detach");
                push_word(&mut out, rev.as_str());
            },
        }
        assert(strings(out@) =~= arguments(*self));
        proof {
            if let Query::Ahead { rev, known } = self {
                let words = seq!["rev-list"@, "--count"@, "HEAD"@, "--not"@, rev@, "--remotes"@];
                assert(words + Seq::<Seq<char>>::empty() =~= words);
                if let Some(commit) = known {
                    assert(words.push(commit@) =~= words + seq![commit@]);
                }
            }
            if let Query::Loose { known } = self {
                let words = seq!["rev-list"@, "--count"@, "--all"@, "--not"@, "--remotes"@];
                assert(words + Seq::<Seq<char>>::empty() =~= words);
                if let Some(commit) = known {
                    assert(words.push(commit@) =~= words + seq![commit@]);
                }
            }
        }
        out
    }
}

/// Where the white space a text ends in starts, looking no further than `i`.
pub open spec fn trail(text: Seq<char>, from: int, i: int) -> int
    decreases i - from,
{
    if from < i <= text.len() && white(text[i - 1]) {
        trail(text, from, i - 1)
    } else {
        i
    }
}

/// A text without the white space it starts and ends in.
pub open spec fn trimmed(text: Seq<char>) -> Seq<char> {
    let start = indent(text, 0);
    text.subrange(start, trail(text, start, text.len() as int))
}

/// A text with every newline spelled `; `.
pub open spec fn on_one_line(text: Seq<char>) -> Seq<char>
    decreases text.len(),
{
    if text.len() == 0 {
        Seq::empty()
    } else if text.last() == '\n' {
        on_one_line(text.drop_last()) + "; "@
    } else {
        on_one_line(text.drop_last()).push(text.last())
    }
}

/// A git failure, in the words a row's note uses.
pub open spec fn trouble_words(trouble: Trouble) -> Seq<char> {
    match trouble {
        Trouble::Spawn { source } => "git could not be started: "@ + source@
            + "; bx needs git on PATH"@,
        Trouble::Git { args, code, stderr } => if trimmed(stderr@).len() == 0 {
            "`git "@ + args@ + "` failed"@
        } else {
            "`git "@ + args@ + "` failed: "@ + on_one_line(trimmed(stderr@))
        },
        Trouble::Other(words) => words@,
    }
}

fn trim(text: &str) -> (r: Vec<char>)
    ensures
        r@ == trimmed(text@),
{
    let chars = chars_of(text);
    let mut start: usize = 0;
    while start < chars.len() && is_white(chars[start])
        invariant
            start <= chars.len(),
            indent(chars@, 0) == indent(chars@, start as int),
        decreases chars.len() - start,
    {
        start = start + 1;
    }
    let mut end: usize = chars.len();
    while end > start && is_white(chars[end - 1])
        invariant
            start <= end <= chars.len(),
            trail(chars@, start as int, chars@.len() as int) == trail(
                chars@,
                start as int,
                end as int,
            ),
        decreases end,
    {
        end = end - 1;
    }
    vstd::slice::slice_to_vec(vstd::slice::slice_subrange(chars.as_slice(), start, end))
}

fn one_line(chars: &[char]) -> (r: String)
    ensures
        r@ == on_one_line(chars@),
{
    let mut out = String::new();
    let mut i: usize = 0;
    assert(chars@.subrange(0, 0) =~= Seq::empty());
    while i < chars.len()
        invariant
            i <= chars.len(),
            out@ == on_one_line(chars@.subrange(0, i as int)),
        decreases chars.len() - i,
    {
        let ghost more = chars@.subrange(0, i + 1);
        assert(more.drop_last() =~= chars@.subrange(0, i as int));
        if chars[i] == '\n' {
            out.append("; ");
        } else {
            push_char(&mut out, chars[i]);
        }
        i = i + 1;
    }
    assert(chars@.subrange(0, chars@.len() as int) =~= chars@);
    out
}

/// A git failure, in the words a row's note uses.
pub fn problem(trouble: &Trouble) -> (r: String)
    ensures
        r@ == trouble_words(*trouble),
{
    match trouble {
        Trouble::Spawn { source } => "git could not be started: ".to_owned().concat(
            source.as_str(),
        ).concat("; bx needs git on PATH"),
        Trouble::Git { args, code, stderr } => {
            let said = trim(stderr.as_str());
            if said.len() == 0 {
                "`git ".to_owned().concat(args.as_str()).concat("` failed")
            } else {
                "`git ".to_owned().concat(args.as_str()).concat("` failed: ").concat(
                    one_line(said.as_slice()).as_str(),
                )
            }
        },
        Trouble::Other(words) => words.clone(),
    }
}

/// Whether git failed with the status that means no.
pub open spec fn means_no(reply: Result<String, Trouble>) -> bool {
    reply matches Err(Trouble::Git { args, code, stderr }) && code == Some(1i32)
}

fn says_no(reply: &Result<String, Trouble>) -> (r: bool)
    ensures
        r == means_no(*reply),
{
    match reply {
        Err(Trouble::Git { args, code, stderr }) => match code {
            Some(code) => *code == 1,
            None => false,
        },
        _ => false,
    }
}

/// The url of `origin`, or `None` when there is no such remote.
///
/// # Errors
///
/// Why git did not say.
pub fn origin_url(reply: Result<String, Trouble>) -> (r: Result<Option<String>, Trouble>)
    ensures
        match reply {
            Ok(url) => r == Ok::<Option<String>, Trouble>(Some(url)),
            Err(trouble) => r == if means_no(reply) {
                Ok::<Option<String>, Trouble>(None)
            } else {
                Err(trouble)
            },
        },
{
    if says_no(&reply) {
        return Ok(None);
    }
    match reply {
        Ok(url) => Ok(Some(url)),
        Err(trouble) => Err(trouble),
    }
}

/// Whether one commit is another or one of its ancestors.
///
/// # Errors
///
/// Why git did not say.
pub fn is_ancestor(reply: Result<String, Trouble>) -> (r: Result<bool, Trouble>)
    ensures
        match reply {
            Ok(_) => r == Ok::<bool, Trouble>(true),
            Err(trouble) => r == if means_no(reply) {
                Ok::<bool, Trouble>(false)
            } else {
                Err(trouble)
            },
        },
{
    if says_no(&reply) {
        return Ok(false);
    }
    match reply {
        Ok(_) => Ok(true),
        Err(trouble) => Err(trouble),
    }
}

/// Whether `git status` shows anything.
///
/// # Errors
///
/// Why git did not say.
pub fn dirty(reply: Result<String, Trouble>) -> (r: Result<bool, Trouble>)
    ensures
        match reply {
            Ok(status) => r == Ok::<bool, Trouble>(status@.len() > 0),
            Err(trouble) => r == Err::<bool, Trouble>(trouble),
        },
{
    match reply {
        Ok(status) => Ok(chars_of(status.as_str()).len() > 0),
        Err(trouble) => Err(trouble),
    }
}

/// What is said of a directory that is not the top of a checkout of its own.
pub open spec fn not_own_words(
    reply: Result<String, Trouble>,
    canonical: Option<Seq<char>>,
) -> Option<Seq<char>> {
    match reply {
        Err(trouble) => Some(
            "is not a git checkout bx can read: "@ + trouble_words(trouble),
        ),
        Ok(top) => if canonical is Some && same_path(canonical->0, top@) {
            None
        } else {
            Some(
                "is not a git checkout of its own (git answers from "@ + top@
                    + "); bx left it as it is"@,
            )
        },
    }
}

/// Refuse a directory that is not the top of a git checkout of its own, so no
/// question is ever answered by a repository around it. `canonical` is where the
/// directory really is, where that can be told.
///
/// # Errors
///
/// The note for a row.
pub fn own_checkout(reply: &Result<String, Trouble>, canonical: &Option<String>) -> (r: Result<
    (),
    String,
>)
    ensures
        match r {
            Ok(_) => not_own_words(*reply, opt_text(*canonical)) is None,
            Err(note) => not_own_words(*reply, opt_text(*canonical)) == Some(note@),
        },
{
    match reply {
        Err(trouble) => Err(
            "is not a git checkout bx can read: ".to_owned().concat(problem(trouble).as_str()),
        ),
        Ok(top) => {
            let same = match canonical {
                Some(path) => path_is(path.as_str(), top.as_str()),
                None => false,
            };
            if same {
                Ok(())
            } else {
                Err(
                    "is not a git checkout of its own (git answers from ".to_owned().concat(
                        top.as_str(),
                    ).concat("); bx left it as it is"),
                )
            }
        },
    }
}

/// Before a checkout is moved git is asked about tracked files alone, and before
/// one is removed about every file: only the second question makes git list a
/// file that is not tracked, so only its empty answer says there is none.
pub proof fn only_the_question_before_a_removal_lists_untracked_files()
    ensures
        arguments(Query::StatusAll).contains("--untracked-files=all"@),
        !arguments(Query::StatusAll).contains("--untracked-files=no"@),
        arguments(Query::Status).contains("--untracked-files=no"@),
        !arguments(Query::Status).contains("--untracked-files=all"@),
        arguments(Query::StatusAll).contains("--porcelain"@),
        arguments(Query::Status).contains("--porcelain"@),
{
    reveal_strlit("--untracked-files=all");
    reveal_strlit("--untracked-files=no");
    reveal_strlit("--porcelain");
    reveal_strlit("status");
    let all = arguments(Query::StatusAll);
    let some = arguments(Query::Status);
    assert("--untracked-files=all"@.len() == 21);
    assert("--untracked-files=no"@.len() == 20);
    assert("--porcelain"@.len() == 11);
    assert("status"@.len() == 6);
    assert(all[2] == "--untracked-files=all"@);
    assert(some[2] == "--untracked-files=no"@);
    assert(all[1] == "--porcelain"@);
    assert(some[1] == "--porcelain"@);
}

/// A question about commits names every commit it is about: the one asked for,
/// every remote-tracking branch, and the one bx fetched, where there is one.
pub proof fn a_count_of_commits_leaves_out_what_bx_fetched(
    rev: String,
    known: Option<String>,
)
    ensures
        ({
            let ahead = arguments(Query::Ahead { rev, known });
            let loose = arguments(Query::Loose { known });
            let n: int = if known is Some {
                1
            } else {
                0
            };
            &&& ahead.len() == 6 + n
            &&& loose.len() == 5 + n
            &&& ahead[2] == "HEAD"@ && ahead[3] == "--not"@ && ahead[4] == rev@ && ahead[5]
                == "--remotes"@
            &&& loose[2] == "--all"@ && loose[3] == "--not"@ && loose[4] == "--remotes"@
            &&& known is Some ==> ahead[6] == known->0@ && loose[5] == known->0@
        }),
{
}

/// Git says no with one status and no other; any other failure is no answer.
pub proof fn only_one_status_means_no(reply: Result<String, Trouble>)
    ensures
        means_no(reply) <==> match reply {
            Ok(_) => false,
            Err(Trouble::Git { args, code, stderr }) => code == Some(1i32),
            Err(_) => false,
        },
{
}

/// A directory is a checkout of its own exactly where git answers from that very
/// directory: its answer and where the directory really is are one path.
pub proof fn a_checkout_of_its_own_answers_from_its_top(
    reply: Result<String, Trouble>,
    canonical: Option<Seq<char>>,
)
    ensures
        not_own_words(reply, canonical) is None <==> {
            &&& reply is Ok
            &&& canonical is Some
            &&& crate::paths::components(canonical->0) == crate::paths::components(reply->Ok_0@)
        },
        reply is Ok ==> not_own_words(reply, canonical) is Some ==> not_own_words(
            reply,
            canonical,
        ) == Some(
            "is not a git checkout of its own (git answers from "@ + reply->Ok_0@
                + "); bx left it as it is"@,
        ),
        reply is Err ==> not_own_words(reply, canonical) == Some(
            "is not a git checkout bx can read: "@ + trouble_words(reply->Err_0),
        ),
{
}

proof fn lemma_indent_bounds(text: Seq<char>, i: int)
    requires
        0 <= i <= text.len(),
    ensures
        i <= indent(text, i) <= text.len(),
        forall|j: int| i <= j < indent(text, i) ==> white(#[trigger] text[j]),
        indent(text, i) < text.len() ==> !white(text[indent(text, i)]),
    decreases text.len() - i,
{
    if i < text.len() && white(text[i]) {
        lemma_indent_bounds(text, i + 1);
    }
}

proof fn lemma_trail_bounds(text: Seq<char>, from: int, i: int)
    requires
        0 <= from <= i <= text.len(),
    ensures
        from <= trail(text, from, i) <= i,
        forall|j: int| trail(text, from, i) <= j < i ==> white(#[trigger] text[j]),
        trail(text, from, i) > from ==> !white(text[trail(text, from, i) - 1]),
    decreases i - from,
{
    if from < i && white(text[i - 1]) {
        lemma_trail_bounds(text, from, i - 1);
    }
}

/// What git printed is shown without the white space around it and with nothing
/// else taken away: what is left neither starts nor ends in white space, and what
/// was taken is white space alone.
pub proof fn only_white_space_is_trimmed(text: Seq<char>)
    ensures
        exists|a: int, b: int|
            #![trigger text.subrange(a, b)]
            {
                &&& 0 <= a <= b <= text.len()
                &&& trimmed(text) == text.subrange(a, b)
                &&& forall|j: int| 0 <= j < a ==> white(#[trigger] text[j])
                &&& forall|j: int| b <= j < text.len() ==> white(#[trigger] text[j])
                &&& a < b ==> !white(text[a]) && !white(text[b - 1])
            },
{
    lemma_indent_bounds(text, 0);
    let a = indent(text, 0);
    lemma_trail_bounds(text, a, text.len() as int);
    let b = trail(text, a, text.len() as int);
    assert(trimmed(text) == text.subrange(a, b));
}

/// A failure is said on one line: every newline of it becomes `; `, and every
/// other character stays where it is.
pub proof fn a_failure_is_said_on_one_line(some: Seq<char>, c: char)
    ensures
        on_one_line(some.push('\n')) == on_one_line(some) + seq![';', ' '],
        c != '\n' ==> on_one_line(some.push(c)) == on_one_line(some).push(c),
        on_one_line(Seq::empty()).len() == 0,
{
    reveal_strlit("; ");
    assert("; "@ =~= seq![';', ' ']);
    assert(some.push('\n').drop_last() =~= some);
    assert(some.push(c).drop_last() =~= some);
}

/// What is said of each trouble.
pub proof fn a_trouble_is_said_in_gits_words(
    source: String,
    args: String,
    code: Option<i32>,
    stderr: String,
)
    ensures
        trouble_words(Trouble::Spawn { source }) == "git could not be started: "@ + source@
            + "; bx needs git on PATH"@,
        trouble_words(Trouble::Other(source)) == source@,
        trimmed(stderr@).len() == 0 ==> trouble_words(Trouble::Git { args, code, stderr })
            == "`git "@ + args@ + "` failed"@,
        trimmed(stderr@).len() > 0 ==> trouble_words(Trouble::Git { args, code, stderr })
            == "`git "@ + args@ + "` failed: "@ + on_one_line(trimmed(stderr@)),
{
}

} // verus!
