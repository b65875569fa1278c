//! Declared git externals: one decision per external, and the work it announces.
//!
//! An external is a repository bx keeps checked out at one pinned commit. A
//! decision reads what was observed, the ledger, and git's answers, one question
//! at a time; `apply` does exactly what was decided, checking again before it
//! acts that the checkout is still what the decision saw.
//!
//! bx owns a directory it cloned, and nothing else. An existing directory that
//! the ledger does not record as bx's clone is a conflict: it is never cloned
//! into, overwritten or adopted. A clone bx did make is only ever fetched and
//! fast-forwarded. Uncommitted changes, local commits `rev` does not contain,
//! and a `rev` that is not a fast-forward all leave the checkout exactly as it
//! is, reported as blocked.

use crate::digest::sha256_of;
use crate::fs::{Kind, Observed, ParentState};
use crate::journal::error::kind_words;
use crate::paths::{
    lemma_parent_is_shorter, parent, parent_of, path_is, path_within, portable, render, rendered,
    same_path, to_portable, within,
};
use crate::plan::diff::{is_checkout, Diff, DiffKind};
use crate::plan::git::{
    dirty, is_ancestor, means_no, not_own_words, origin_url, own_checkout, problem, trouble_words,
    Query, Trouble,
};
use crate::plan::notes::{list, listed};
use crate::plan::owned::{attached_as, held, mechanism_words};
use crate::plan::parents::{above, lemma_above_next, reversed};
use crate::plan::rows::{Change, Origin};
use crate::report::Action;
use crate::state::{ContentHash, LedgerEntry, Mechanism, Portable};
use crate::text::{count, counted, numeral, numeral_of, opt_text, same_text, strings};
use vstd::prelude::*;
use vstd::utf8::*;

verus! {

/// A declared external.
#[derive(Debug, PartialEq, Eq)]
pub struct External {
    /// Where it is checked out.
    pub path: Portable,
    /// The remote.
    pub url: String,
    /// The commit it is pinned to.
    pub rev: String,
    /// Where it was declared.
    pub origin: Origin,
}

/// The three kinds of work an external can need.
#[derive(Debug, PartialEq, Eq)]
pub enum Work {
    /// Clone into a directory that is not there, first removing what an
    /// interrupted clone left when `replace` is set.
    Clone {
        /// Whether an interrupted clone's directory stands at the path.
        replace: bool,
        /// The directories above the path that are not there, deepest first.
        created_dirs: Vec<String>,
    },
    /// Fetch, and fast-forward from `from` to the pinned commit.
    Advance {
        /// The commit the decision found checked out.
        from: String,
    },
    /// The checkout is already at the pinned commit; only the ledger does not
    /// say so yet.
    Record,
}

/// The digest the ledger records for a clone.
pub open spec fn clone_digest(rev: Option<Seq<char>>) -> Seq<u8> {
    sha256_of(
        match rev {
            Some(rev) => encode_utf8(rev),
            None => Seq::empty(),
        },
    )
}

/// What the ledger records as written for a clone: the commit that is checked
/// out, or `None` for a clone that is not finished.
pub fn clone_written(rev: Option<&str>) -> (r: ContentHash)
    ensures
        r@ == clone_digest(
            match rev {
                Some(rev) => Some(rev@),
                None => None,
            },
        ),
{
    match rev {
        Some(rev) => ContentHash::of(rev.as_bytes()),
        None => {
            let none: &[u8] = &[];
            assert(none@ =~= Seq::<u8>::empty());
            ContentHash::of(none)
        },
    }
}

/// Whether an entry records a clone that is finished at `rev`, or with `None`
/// one that is not finished.
pub open spec fn clone_at(entry: LedgerEntry, rev: Option<Seq<char>>) -> bool {
    entry.written@ == clone_digest(rev)
}

fn is_clone_at(entry: &LedgerEntry, rev: Option<&str>) -> (r: bool)
    ensures
        r == clone_at(
            *entry,
            match rev {
                Some(rev) => Some(rev@),
                None => None,
            },
        ),
{
    entry.written.same(&clone_written(rev))
}

/// What stands where a directory above an external goes.
#[derive(Debug, PartialEq, Eq)]
pub enum There {
    /// Nothing.
    Missing,
    /// A directory, or a link to one.
    Dir,
    /// Something else.
    NotDir,
    /// It cannot be looked at, and why.
    Failed(String),
}

/// What was found at a path.
#[derive(Debug, PartialEq, Eq)]
pub struct Looked {
    pub path: String,
    pub there: There,
}

/// What was found at `path`: a directory, where nothing else is said.
pub open spec fn there_at(looked: Seq<Looked>, path: Seq<char>) -> There
    decreases looked.len(),
{
    if looked.len() == 0 {
        There::Dir
    } else if same_path(looked[0].path@, path) {
        looked[0].there
    } else {
        there_at(looked.drop_first(), path)
    }
}

/// The directories that are not there, from `at` up and below `home`, deepest
/// first, or why one of them cannot be made.
pub open spec fn missing_from(at: Seq<char>, home: Seq<char>, looked: Seq<Looked>) -> Result<
    Seq<Seq<char>>,
    Seq<char>,
>
    decreases at.len(),
    via missing_from_decreases
{
    if same_path(at, home) || !within(at, home) {
        Ok(Seq::empty())
    } else {
        match there_at(looked, at) {
            There::Dir => Ok(Seq::empty()),
            There::NotDir => Err(
                portable(at, home) + " is not a directory, so there is nowhere to clone it"@,
            ),
            There::Failed(why) => Err(portable(at, home) + " cannot be looked at: "@ + why@),
            There::Missing => match parent(at) {
                None => Ok(seq![at]),
                Some(up) => match missing_from(up, home, looked) {
                    Ok(rest) => Ok(seq![at] + rest),
                    Err(note) => Err(note),
                },
            },
        }
    }
}

#[via_fn]
proof fn missing_from_decreases(at: Seq<char>, home: Seq<char>, looked: Seq<Looked>) {
    lemma_parent_is_shorter(at);
}

/// The directories above `dest`, below `home`, that are not there, deepest
/// first, or why one of them cannot be made.
pub open spec fn missing_above(dest: Seq<char>, home: Seq<char>, looked: Seq<Looked>) -> Result<
    Seq<Seq<char>>,
    Seq<char>,
> {
    match parent(dest) {
        None => Ok(Seq::empty()),
        Some(up) => missing_from(up, home, looked),
    }
}

fn found_at<'a>(looked: &'a Vec<Looked>, path: &str) -> (r: Option<&'a There>)
    ensures
        match r {
            Some(there) => *there == there_at(looked@, path@),
            None => there_at(looked@, path@) is Dir,
        },
{
    let mut i: usize = 0;
    assert(looked@.subrange(0, looked@.len() as int) =~= looked@);
    while i < looked.len()
        invariant
            i <= looked.len(),
            there_at(looked@, path@) == there_at(
                looked@.subrange(i as int, looked@.len() as int),
                path@,
            ),
        decreases looked.len() - i,
    {
        let ghost rest = looked@.subrange(i as int, looked@.len() as int);
        assert(rest.drop_first() =~= looked@.subrange(i + 1, looked@.len() as int));
        assert(rest[0] == looked@[i as int]);
        if path_is(looked[i].path.as_str(), path) {
            return Some(&looked[i].there);
        }
        i = i + 1;
    }
    None
}

/// The directories above `dest`, below `home`, that are not there, deepest
/// first.
///
/// # Errors
///
/// The note for a row when one of them cannot be made: something that is not a
/// directory stands where one would go, or a directory cannot be looked at.
pub fn missing_dirs(dest: &str, home: &str, looked: &Vec<Looked>) -> (r: Result<
    Vec<String>,
    String,
>)
    ensures
        match r {
            Ok(dirs) => missing_above(dest@, home@, looked@) == Ok::<Seq<Seq<char>>, Seq<char>>(
                strings(dirs@),
            ),
            Err(note) => missing_above(dest@, home@, looked@) == Err::<Seq<Seq<char>>, Seq<char>>(
                note@,
            ),
        },
{
    let mut out: Vec<String> = Vec::new();
    let mut at = match parent_of(dest) {
        None => {
            assert(strings(out@) =~= Seq::empty());
            return Ok(out);
        },
        Some(up) => up,
    };
    let ghost all = missing_from(at@, home@, looked@);
    assert(forall|rest: Seq<Seq<char>>| strings(out@) + rest =~= rest);
    loop
        invariant
            all == missing_above(dest@, home@, looked@),
            match missing_from(at@, home@, looked@) {
                Ok(rest) => all == Ok::<Seq<Seq<char>>, Seq<char>>(strings(out@) + rest),
                Err(note) => all == Err::<Seq<Seq<char>>, Seq<char>>(note),
            },
        decreases at@.len(),
    {
        proof {
            lemma_parent_is_shorter(at@);
        }
        if path_is(at.as_str(), home) || !path_within(at.as_str(), home) {
            assert(strings(out@) + Seq::empty() =~= strings(out@));
            return Ok(out);
        }
        match found_at(looked, at.as_str()) {
            None | Some(There::Dir) => {
                assert(strings(out@) + Seq::empty() =~= strings(out@));
                return Ok(out);
            },
            Some(There::NotDir) => {
                return Err(
                    to_portable(at.as_str(), home).concat(
                        " is not a directory, so there is nowhere to clone it",
                    ),
                );
            },
            Some(There::Failed(why)) => {
                return Err(
                    to_portable(at.as_str(), home).concat(" cannot be looked at: ").concat(
                        why.as_str(),
                    ),
                );
            },
            Some(There::Missing) => {},
        }
        let ghost before = out@;
        let up = parent_of(at.as_str());
        out.push(at.clone());
        assert(strings(out@) =~= strings(before).push(at@));
        match up {
            None => {
                assert(strings(out@) =~= strings(before) + seq![at@]);
                return Ok(out);
            },
            Some(up) => {
                proof {
                    match missing_from(up@, home@, looked@) {
                        Ok(rest) => {
                            assert(strings(before) + (seq![at@] + rest) =~= strings(out@) + rest);
                        },
                        Err(_) => {},
                    }
                }
                at = up;
            },
        }
    }
}

/// What a decision came to.
#[derive(Debug, PartialEq, Eq)]
pub struct Settled {
    /// What happens.
    pub action: Action,
    /// What is said of it.
    pub note: Option<String>,
    /// What `apply` does for it.
    pub work: Option<Work>,
}

/// What is being asked about a checkout bx cloned and finished.
#[derive(Debug, PartialEq, Eq)]
pub enum Look {
    /// Whether it is a checkout of its own.
    Top,
    /// Which commit is checked out.
    Head,
    /// Where it came from, `head` being checked out.
    Origin { head: String },
    /// Whether it has uncommitted changes.
    Status { head: String },
    /// Whether the pinned commit is already here.
    Has { head: String },
    /// Whether the pinned commit descends from the one checked out.
    Ancestor { head: String },
    /// How many commits are the user's own.
    Ahead { head: String },
}

/// What comes next: a question, or the end.
#[derive(Debug, PartialEq, Eq)]
pub enum Ruling {
    /// Ask this next.
    Ask(Look),
    /// It is decided.
    Settle(Settled),
}

/// Whether a ruling ends with this action and note, and no work.
pub open spec fn refused(ruling: Ruling, action: Action, note: Seq<char>) -> bool {
    match ruling {
        Ruling::Settle(settled) => settled.action == action && opt_text(settled.note) == Some(note)
            && settled.work is None,
        Ruling::Ask(_) => false,
    }
}

/// Whether a ruling ends with a clone.
pub open spec fn clones(
    ruling: Ruling,
    note: Seq<char>,
    replace: bool,
    created: Seq<Seq<char>>,
) -> bool {
    match ruling {
        Ruling::Settle(settled) => settled.action == Action::Create && opt_text(settled.note)
            == Some(note) && (settled.work matches Some(Work::Clone { replace: again, created_dirs })
            && again == replace && strings(created_dirs@) == created),
        Ruling::Ask(_) => false,
    }
}

/// What a clone's row says.
pub open spec fn clone_words(
    entry: Option<LedgerEntry>,
    url: Seq<char>,
    rev: Seq<char>,
    created: Seq<Seq<char>>,
    home: Seq<char>,
) -> Seq<char> {
    let what = if entry is Some && clone_at(entry->0, None) {
        "completes an interrupted clone: clones "@ + url + " at "@ + rev
    } else if entry is Some {
        "the checkout bx cloned is gone; clones "@ + url + " at "@ + rev + " again"@
    } else {
        "clones "@ + url + " at "@ + rev
    };
    if created.len() == 0 {
        what
    } else {
        what + "; creates "@ + listed(shown(created.reverse(), home), ", "@)
    }
}

/// Some paths as a row names them.
pub open spec fn shown(paths: Seq<Seq<char>>, home: Seq<char>) -> Seq<Seq<char>> {
    Seq::new(paths.len(), |i: int| portable(paths[i], home))
}

fn show(paths: &Vec<String>, home: &str) -> (r: Vec<String>)
    ensures
        strings(r@) == shown(strings(paths@), home@),
{
    let mut out: Vec<String> = Vec::new();
    let mut i: usize = 0;
    while i < paths.len()
        invariant
            i <= paths.len(),
            out@.len() == i,
            forall|k: int| 0 <= k < i ==> (#[trigger] out@[k])@ == portable(paths@[k]@, home@),
        decreases paths.len() - i,
    {
        out.push(to_portable(paths[i].as_str(), home));
        i = i + 1;
    }
    assert(strings(out@) =~= shown(strings(paths@), home@));
    out
}

/// Whether a ruling is what an external comes to before git is asked.
pub open spec fn decided_from(
    ruling: Ruling,
    external: External,
    entry: Option<LedgerEntry>,
    observed: Observed,
    looked: Seq<Looked>,
    home: Seq<char>,
) -> bool {
    let url = external.url@;
    let rev = external.rev@;
    let dest = rendered(external.path@, home);
    let interrupted = entry is Some && clone_at(entry->0, None);
    if observed.parent is Some && observed.parent->0.state is Unusable {
        refused(
            ruling,
            Action::Conflict,
            "its parent "@ + portable(observed.parent->0.path@, home)
                + " does not resolve to a directory, so there is nowhere to clone it"@,
        )
    } else if entry is Some && entry->0.mechanism !is Clone {
        refused(
            ruling,
            Action::Conflict,
            "bx attached to this path as "@ + mechanism_words(entry->0.mechanism)
                + ", not as a clone"@,
        )
    } else {
        match observed.kind {
            Kind::Absent => match missing_above(dest, home, looked) {
                Ok(created) => clones(
                    ruling,
                    clone_words(entry, url, rev, created, home),
                    false,
                    created,
                ),
                Err(note) => refused(ruling, Action::Conflict, note),
            },
            Kind::Dir => if interrupted {
                clones(
                    ruling,
                    "removes what an interrupted clone left here and clones "@ + url + " at "@ + rev
                        + " again"@,
                    true,
                    Seq::empty(),
                )
            } else if entry is None {
                refused(
                    ruling,
                    Action::Conflict,
                    "exists and bx did not clone it; bx never clones into, overwrites or adopts a directory it did not create"@,
                )
            } else {
                ruling matches Ruling::Ask(Look::Top)
            },
            kind => refused(
                ruling,
                Action::Conflict,
                if entry is Some {
                    "is "@ + kind_words(kind) + ", not the checkout bx cloned"@
                } else {
                    "is "@ + kind_words(kind) + "; bx clones only where nothing is"@
                },
            ),
        }
    }
}

fn refusal(action: Action, note: String) -> (r: Ruling)
    ensures
        refused(r, action, note@),
{
    Ruling::Settle(Settled { action, note: Some(note), work: None })
}

/// Decide one external: what happens and what `apply` does for it, or the first
/// question about the checkout that is there.
pub fn decide(
    external: &External,
    entry: Option<&LedgerEntry>,
    observed: &Observed,
    looked: &Vec<Looked>,
    home: &str,
) -> (r: Ruling)
    ensures
        decided_from(r, *external, held(entry), *observed, looked@, home@),
{
    let url = external.url.as_str();
    let rev = external.rev.as_str();
    if let Some(above) = &observed.parent {
        if let ParentState::Unusable(_) = &above.state {
            return refusal(
                Action::Conflict,
                "its parent ".to_owned().concat(to_portable(above.path.as_str(), home).as_str()).concat(
                    " does not resolve to a directory, so there is nowhere to clone it",
                ),
            );
        }
    }
    if let Some(entry) = entry {
        match entry.mechanism {
            Mechanism::Clone => {},
            _ => {
                return refusal(
                    Action::Conflict,
                    "bx attached to this path as ".to_owned().concat(
                        attached_as(&entry.mechanism),
                    ).concat(", not as a clone"),
                );
            },
        }
    }
    let interrupted = match entry {
        Some(entry) => is_clone_at(entry, None),
        None => false,
    };
    match &observed.kind {
        Kind::Absent => {
            let dest = render(external.path.text.as_str(), home);
            let created_dirs = match missing_dirs(dest.as_str(), home, looked) {
                Ok(dirs) => dirs,
                Err(note) => {
                    return refusal(Action::Conflict, note);
                },
            };
            let what = if interrupted {
                "completes an interrupted clone: clones ".to_owned().concat(url).concat(
                    " at ",
                ).concat(rev)
            } else if entry.is_some() {
                "the checkout bx cloned is gone; clones ".to_owned().concat(url).concat(
                    " at ",
                ).concat(rev).concat(" again")
            } else {
                "clones ".to_owned().concat(url).concat(" at ").concat(rev)
            };
            assert(strings(created_dirs@).len() == created_dirs@.len());
            let note = if created_dirs.len() == 0 {
                what
            } else {
                let dirs = show(&reversed(&created_dirs), home);
                what.concat("; creates ").concat(list(&dirs, ", ").as_str())
            };
            Ruling::Settle(
                Settled {
                    action: Action::Create,
                    note: Some(note),
                    work: Some(Work::Clone { replace: false, created_dirs }),
                },
            )
        },
        Kind::Dir => {
            if interrupted {
                let none: Vec<String> = Vec::new();
                assert(strings(none@) =~= Seq::empty());
                return Ruling::Settle(
                    Settled {
                        action: Action::Create,
                        note: Some(
                            "removes what an interrupted clone left here and clones ".to_owned().concat(
                                url,
                            ).concat(" at ").concat(rev).concat(" again"),
                        ),
                        work: Some(Work::Clone { replace: true, created_dirs: none }),
                    },
                );
            }
            if entry.is_none() {
                return refusal(
                    Action::Conflict,
                    "exists and bx did not clone it; bx never clones into, overwrites or adopts a directory it did not create".to_owned(),
                );
            }
            Ruling::Ask(Look::Top)
        },
        kind => {
            let note = if entry.is_some() {
                "is ".to_owned().concat(kind.text().as_str()).concat(
                    ", not the checkout bx cloned",
                )
            } else {
                "is ".to_owned().concat(kind.text().as_str()).concat(
                    "; bx clones only where nothing is",
                )
            };
            refusal(Action::Conflict, note)
        },
    }
}

/// Whether a ruling asks a question next, `head` being checked out.
pub open spec fn asks_with_head(ruling: Ruling, stage: Look, head: Seq<char>) -> bool {
    match (ruling, stage) {
        (Ruling::Ask(Look::Origin { head: found }), Look::Origin { .. }) => found@ == head,
        (Ruling::Ask(Look::Status { head: found }), Look::Status { .. }) => found@ == head,
        (Ruling::Ask(Look::Has { head: found }), Look::Has { .. }) => found@ == head,
        (Ruling::Ask(Look::Ancestor { head: found }), Look::Ancestor { .. }) => found@ == head,
        (Ruling::Ask(Look::Ahead { head: found }), Look::Ahead { .. }) => found@ == head,
        _ => false,
    }
}

/// What a row says where the commits from `head` to `rev` do not run forward,
/// by how many of them are the user's own.
pub open spec fn not_forward_words(
    reply: Result<String, Trouble>,
    head: Seq<char>,
    rev: Seq<char>,
) -> Seq<char> {
    match reply {
        Err(trouble) => trouble_words(trouble),
        Ok(text) => match counted(text@) {
            None => rev + " is not a fast-forward from "@ + head + "; bx left it as it is"@,
            Some(n) => if n == 0 {
                rev + " is not a fast-forward from its current commit "@ + head
                    + "; bx left the checkout as it is"@
            } else {
                "has "@ + numeral(n, 10) + " local commit(s) not contained in "@ + rev
                    + "; bx left the checkout as it is"@
            },
        },
    }
}

/// Why a checkout at `head` cannot be fast-forwarded to `rev`, which is present
/// locally and does not descend from it: by how many commits `head` reaches that
/// neither `rev` nor any remote-tracking branch holds, which are the user's own.
pub fn not_forward(reply: &Result<String, Trouble>, head: &str, rev: &str) -> (r: String)
    ensures
        r@ == not_forward_words(*reply, head@, rev@),
{
    match reply {
        Err(trouble) => problem(trouble),
        Ok(text) => match count(text.as_str()) {
            None => rev.to_owned().concat(" is not a fast-forward from ").concat(head).concat(
                "; bx left it as it is",
            ),
            Some(n) => if n == 0 {
                rev.to_owned().concat(" is not a fast-forward from its current commit ").concat(
                    head,
                ).concat("; bx left the checkout as it is")
            } else {
                "has ".to_owned().concat(numeral_of(n as u128, 10).as_str()).concat(
                    " local commit(s) not contained in ",
                ).concat(rev).concat("; bx left the checkout as it is")
            },
        },
    }
}

/// Whether a ruling ends with a fast-forward from `head`.
pub open spec fn advances(ruling: Ruling, note: Seq<char>, head: Seq<char>) -> bool {
    match ruling {
        Ruling::Settle(settled) => settled.action == Action::Modify && opt_text(settled.note)
            == Some(note) && (settled.work matches Some(Work::Advance { from }) && from@ == head),
        Ruling::Ask(_) => false,
    }
}

/// Whether a ruling is what an answer about a checkout leads to.
pub open spec fn looked_at(
    ruling: Ruling,
    stage: Look,
    reply: Result<String, Trouble>,
    external: External,
    entry: LedgerEntry,
    canonical: Option<Seq<char>>,
    home: Seq<char>,
) -> bool {
    let url = external.url@;
    let rev = external.rev@;
    let dest = rendered(external.path@, home);
    match stage {
        Look::Top => match not_own_words(reply, canonical) {
            Some(note) => refused(ruling, Action::Conflict, note),
            None => ruling matches Ruling::Ask(Look::Head),
        },
        Look::Head => match reply {
            Err(trouble) => refused(
                ruling,
                Action::Conflict,
                "git cannot read its commit: "@ + trouble_words(trouble),
            ),
            Ok(head) => asks_with_head(ruling, Look::Origin { head }, head@),
        },
        Look::Origin { head } => if reply is Err && !means_no(reply) {
            refused(ruling, Action::Blocked, trouble_words(reply->Err_0))
        } else if reply is Err || reply->Ok_0@ != url {
            refused(
                ruling,
                Action::Blocked,
                "its remote `origin` is "@ + (match reply {
                    Ok(found) => found@,
                    Err(_) => "not set"@,
                }) + ", not "@ + url
                    + "; bx fetches only from the url the configuration declares. Set it with `git -C "@
                    + portable(dest, home) + " remote set-url origin "@ + url + "`"@,
            )
        } else if head@ != rev {
            asks_with_head(ruling, Look::Status { head }, head@)
        } else if clone_at(entry, Some(rev)) {
            ruling matches Ruling::Settle(settled) && settled.action == Action::Unchanged
                && settled.note is None && settled.work is None
        } else {
            ruling matches Ruling::Settle(settled) && settled.action == Action::Modify && opt_text(
                settled.note,
            ) == Some(
                "is already at "@ + rev
                    + "; records that in the ledger, which an earlier apply stopped before doing"@,
            ) && (settled.work matches Some(Work::Record))
        },
        Look::Status { head } => match reply {
            Err(trouble) => refused(ruling, Action::Blocked, trouble_words(trouble)),
            Ok(status) => if status@.len() > 0 {
                refused(
                    ruling,
                    Action::Blocked,
                    "has uncommitted changes; bx moves a checkout from "@ + head@ + " to "@ + rev
                        + " only when `git status` shows none, and left it as it is"@,
                )
            } else {
                asks_with_head(ruling, Look::Has { head }, head@)
            },
        },
        Look::Has { head } => if reply is Ok {
            asks_with_head(ruling, Look::Ancestor { head }, head@)
        } else {
            advances(
                ruling,
                "fetches "@ + url + " and fast-forwards from "@ + head@ + " to "@ + rev + ", if "@
                    + rev + " descends from "@ + head@,
                head@,
            )
        },
        Look::Ancestor { head } => if reply is Ok {
            advances(
                ruling,
                "fast-forwards from "@ + head@ + " to "@ + rev + ", fetching "@ + url + " first"@,
                head@,
            )
        } else if means_no(reply) {
            asks_with_head(ruling, Look::Ahead { head }, head@)
        } else {
            refused(ruling, Action::Blocked, trouble_words(reply->Err_0))
        },
        Look::Ahead { head } => refused(
            ruling,
            Action::Blocked,
            not_forward_words(reply, head@, rev),
        ),
    }
}

/// [`decide`] for a checkout bx cloned and finished: what git's answer to the
/// question that was asked leads to.
pub fn decide_checkout(
    external: &External,
    entry: &LedgerEntry,
    canonical: &Option<String>,
    home: &str,
    stage: Look,
    reply: Result<String, Trouble>,
) -> (r: Ruling)
    ensures
        looked_at(r, stage, reply, *external, *entry, opt_text(*canonical), home@),
{
    let url = external.url.as_str();
    let rev = external.rev.as_str();
    match stage {
        Look::Top => match own_checkout(&reply, canonical) {
            Err(note) => refusal(Action::Conflict, note),
            Ok(_) => Ruling::Ask(Look::Head),
        },
        Look::Head => match reply {
            Err(trouble) => refusal(
                Action::Conflict,
                "git cannot read its commit: ".to_owned().concat(problem(&trouble).as_str()),
            ),
            Ok(head) => Ruling::Ask(Look::Origin { head }),
        },
        Look::Origin { head } => {
            let found = match origin_url(reply) {
                Err(trouble) => {
                    return refusal(Action::Blocked, problem(&trouble));
                },
                Ok(found) => found,
            };
            let declared = match &found {
                Some(found) => same_text(found.as_str(), url),
                None => false,
            };
            if !declared {
                let dest = render(external.path.text.as_str(), home);
                let origin = match found {
                    Some(found) => found,
                    None => "not set".to_owned(),
                };
                return refusal(
                    Action::Blocked,
                    "its remote `origin` is ".to_owned().concat(origin.as_str()).concat(
                        ", not ",
                    ).concat(url).concat(
                        "; bx fetches only from the url the configuration declares. Set it with `git -C ",
                    ).concat(to_portable(dest.as_str(), home).as_str()).concat(
                        " remote set-url origin ",
                    ).concat(url).concat("`"),
                );
            }
            if !same_text(head.as_str(), rev) {
                return Ruling::Ask(Look::Status { head });
            }
            if is_clone_at(entry, Some(rev)) {
                return Ruling::Settle(
                    Settled { action: Action::Unchanged, note: None, work: None },
                );
            }
            Ruling::Settle(
                Settled {
                    action: Action::Modify,
                    note: Some(
                        "is already at ".to_owned().concat(rev).concat(
                            "; records that in the ledger, which an earlier apply stopped before doing",
                        ),
                    ),
                    work: Some(Work::Record),
                },
            )
        },
        Look::Status { head } => match dirty(reply) {
            Err(trouble) => refusal(Action::Blocked, problem(&trouble)),
            Ok(changed) => if changed {
                refusal(
                    Action::Blocked,
                    "has uncommitted changes; bx moves a checkout from ".to_owned().concat(
                        head.as_str(),
                    ).concat(" to ").concat(rev).concat(
                        " only when `git status` shows none, and left it as it is",
                    ),
                )
            } else {
                Ruling::Ask(Look::Has { head })
            },
        },
        Look::Has { head } => {
            if reply.is_ok() {
                return Ruling::Ask(Look::Ancestor { head });
            }
            let note = "fetches ".to_owned().concat(url).concat(" and fast-forwards from ").concat(
                head.as_str(),
            ).concat(" to ").concat(rev).concat(", if ").concat(rev).concat(
                " descends from ",
            ).concat(head.as_str());
            Ruling::Settle(
                Settled {
                    action: Action::Modify,
                    note: Some(note),
                    work: Some(Work::Advance { from: head }),
                },
            )
        },
        Look::Ancestor { head } => match is_ancestor(reply) {
            Err(trouble) => refusal(Action::Blocked, problem(&trouble)),
            Ok(forward) => {
                if !forward {
                    return Ruling::Ask(Look::Ahead { head });
                }
                let note = "fast-forwards from ".to_owned().concat(head.as_str()).concat(
                    " to ",
                ).concat(rev).concat(", fetching ").concat(url).concat(" first");
                Ruling::Settle(
                    Settled {
                        action: Action::Modify,
                        note: Some(note),
                        work: Some(Work::Advance { from: head }),
                    },
                )
            },
        },
        Look::Ahead { head } => refusal(
            Action::Blocked,
            not_forward(&reply, head.as_str(), rev),
        ),
    }
}

/// The commit bx itself last left checked out is never counted as the user's,
/// even when it was fetched by id and no branch holds it.
pub open spec fn known_commit(known: Option<String>, head: Seq<char>, entry: LedgerEntry) -> bool {
    opt_text(known) == if clone_at(entry, Some(head)) {
        Some(head)
    } else {
        None
    }
}

pub fn known(head: &String, entry: &LedgerEntry) -> (r: Option<String>)
    ensures
        known_commit(r, head@, *entry),
{
    if is_clone_at(entry, Some(head.as_str())) {
        Some(head.clone())
    } else {
        None
    }
}

impl Look {
    /// Whether a query is the question git is asked.
    pub open spec fn queried(self, external: External, entry: LedgerEntry, r: Query) -> bool {
        match self {
            Look::Top => r is Toplevel,
            Look::Head => r is Head,
            Look::Origin { .. } => r is Origin,
            Look::Status { .. } => r is Status,
            Look::Has { .. } => r matches Query::Has { rev } && rev@ == external.rev@,
            Look::Ancestor { head } => r matches Query::Ancestor { ancestor, descendant }
                && ancestor@ == head@ && descendant@ == external.rev@,
            Look::Ahead { head } => r matches Query::Ahead { rev, known } && rev@
                == external.rev@ && known_commit(known, head@, entry),
        }
    }

    /// The question git is asked.
    pub fn query(&self, external: &External, entry: &LedgerEntry) -> (r: Query)
        ensures
            self.queried(*external, *entry, r),
    {
        match self {
            Look::Top => Query::Toplevel,
            Look::Head => Query::Head,
            Look::Origin { .. } => Query::Origin,
            Look::Status { .. } => Query::Status,
            Look::Has { .. } => Query::Has { rev: external.rev.clone() },
            Look::Ancestor { head } => Query::Ancestor {
                ancestor: head.clone(),
                descendant: external.rev.clone(),
            },
            Look::Ahead { head } => Query::Ahead {
                rev: external.rev.clone(),
                known: known(head, entry),
            },
        }
    }
}

/// Whether a change is an external's row.
pub open spec fn is_external_row(change: Change, external: External, settled: Settled) -> bool {
    &&& change.target@ == external.path@
    &&& change.origin == external.origin
    &&& change.action == settled.action
    &&& opt_text(change.note) == opt_text(settled.note)
    &&& match settled.work {
        Some(Work::Clone { .. }) => change.diff is Some && is_checkout(
            change.diff->0,
            None,
            external.rev@,
            external.url@,
        ),
        Some(Work::Advance { from }) => change.diff is Some && is_checkout(
            change.diff->0,
            Some(from@),
            external.rev@,
            external.url@,
        ),
        _ => change.diff is None,
    }
}

/// An external's row: a clone and a fast-forward are shown as the commits they
/// move between.
pub fn row(external: &External, settled: &Settled) -> (r: Change)
    ensures
        is_external_row(r, *external, *settled),
{
    let diff = match &settled.work {
        Some(Work::Clone { .. }) => Some(
            Diff::checkout(None, external.rev.as_str(), external.url.as_str()),
        ),
        Some(Work::Advance { from }) => Some(
            Diff::checkout(Some(from.as_str()), external.rev.as_str(), external.url.as_str()),
        ),
        _ => None,
    };
    Change {
        target: external.path.text.clone(),
        origin: external.origin.clone(),
        action: settled.action,
        diff,
        note: match &settled.note {
            Some(note) => Some(note.clone()),
            None => None,
        },
    }
}

/// A directory bx did not clone is never cloned into, replaced or asked about:
/// where the ledger holds no clone of bx's and something is there, it is a
/// conflict.
pub proof fn what_bx_did_not_clone_is_left(
    ruling: Ruling,
    external: External,
    entry: Option<LedgerEntry>,
    observed: Observed,
    looked: Seq<Looked>,
    home: Seq<char>,
)
    requires
        decided_from(ruling, external, entry, observed, looked, home),
        observed.kind !is Absent,
        entry is None || entry->0.mechanism !is Clone,
    ensures
        ruling matches Ruling::Settle(settled) && settled.action == Action::Conflict
            && settled.work is None,
{
}

/// A clone that was interrupted is never reported as converged: it is cloned
/// again, or it is a conflict.
pub proof fn an_interrupted_clone_is_never_converged(
    ruling: Ruling,
    external: External,
    entry: LedgerEntry,
    observed: Observed,
    looked: Seq<Looked>,
    home: Seq<char>,
)
    requires
        decided_from(ruling, external, Some(entry), observed, looked, home),
        clone_at(entry, None),
    ensures
        ruling matches Ruling::Settle(settled) && (settled.action == Action::Create
            || settled.action == Action::Conflict),
{
}

/// A checkout moves only forward, and only when it holds nothing of the user's:
/// work that moves one is announced only after git showed no uncommitted change
/// and, where the pinned commit is here, that it descends from the one checked
/// out.
pub proof fn a_checkout_moves_only_forward(
    ruling: Ruling,
    stage: Look,
    reply: Result<String, Trouble>,
    external: External,
    entry: LedgerEntry,
    canonical: Option<Seq<char>>,
    home: Seq<char>,
)
    requires
        looked_at(ruling, stage, reply, external, entry, canonical, home),
        ruling matches Ruling::Settle(settled) && settled.work is Some,
    ensures
        match ruling->Settle_0.work->0 {
            Work::Clone { .. } => false,
            Work::Advance { .. } => (stage is Has && reply is Err) || (stage is Ancestor && reply is Ok),
            Work::Record => stage is Origin && stage->Origin_head@ == external.rev@,
        },
{
}

/// A finished checkout that is at its commit, with the ledger saying so, is
/// converged: there is nothing to do for it.
pub proof fn a_recorded_checkout_at_its_commit_is_left(
    ruling: Ruling,
    head: String,
    reply: Result<String, Trouble>,
    external: External,
    entry: LedgerEntry,
    canonical: Option<Seq<char>>,
    home: Seq<char>,
)
    requires
        looked_at(ruling, Look::Origin { head }, reply, external, entry, canonical, home),
        reply is Ok,
        reply->Ok_0@ == external.url@,
        head@ == external.rev@,
        clone_at(entry, Some(external.rev@)),
    ensures
        ruling matches Ruling::Settle(settled) && settled.action == Action::Unchanged
            && settled.work is None,
{
}

/// Deciding never reaches the network and never changes a checkout: no question
/// a decision puts to git fetches, checks out, or makes a repository.
pub proof fn a_decision_only_asks(
    look: Look,
    external: External,
    entry: LedgerEntry,
    query: Query,
)
    requires
        look.queried(external, entry, query),
    ensures
        query !is Fetch,
        query !is FetchRev,
        query !is CheckOut,
        query !is Init,
        query !is Remote,
{
}

/// What was found at a path is what was found first under any of its spellings.
pub proof fn what_was_found_first_counts(looked: Seq<Looked>, path: Seq<char>)
    ensures
        (forall|i: int| 0 <= i < looked.len() ==> !same_path((#[trigger] looked[i]).path@, path))
            ==> there_at(looked, path) is Dir,
        forall|i: int|
            0 <= i < looked.len() && same_path((#[trigger] looked[i]).path@, path) && (forall|j: int|
                0 <= j < i ==> !same_path((#[trigger] looked[j]).path@, path)) ==> there_at(
                looked,
                path,
            ) == looked[i].there,
    decreases looked.len(),
{
    if looked.len() > 0 {
        let rest = looked.drop_first();
        what_was_found_first_counts(rest, path);
        if !same_path(looked[0].path@, path) {
            assert forall|i: int| 0 <= i < rest.len() implies #[trigger] rest[i]
                == looked[i + 1] by {}
            if forall|i: int| 0 <= i < looked.len() ==> !same_path((#[trigger] looked[i]).path@, path) {
                assert forall|i: int| 0 <= i < rest.len() implies !same_path(
                    (#[trigger] rest[i]).path@,
                    path,
                ) by {
                    assert(!same_path(looked[i + 1].path@, path));
                }
            }
            assert forall|i: int|
                0 <= i < looked.len() && same_path((#[trigger] looked[i]).path@, path) && (forall|
                    j: int,
                |
                    0 <= j < i ==> !same_path((#[trigger] looked[j]).path@, path)) implies there_at(
                looked,
                path,
            ) == looked[i].there by {
                assert(i > 0);
                assert(rest[i - 1] == looked[i]);
                assert forall|j: int| 0 <= j < i - 1 implies !same_path(
                    (#[trigger] rest[j]).path@,
                    path,
                ) by {
                    assert(!same_path(looked[j + 1].path@, path));
                }
            }
        }
    }
}

/// The directories a clone needs are those above it that are not there, one after
/// the other from the nearest up, all below the home; they end at the home, or at
/// one that is there. Where one cannot be a directory there is nowhere to clone.
pub proof fn only_missing_directories_below_the_home_are_made(
    at: Seq<char>,
    home: Seq<char>,
    looked: Seq<Looked>,
)
    ensures
        match missing_from(at, home, looked) {
            Ok(dirs) => {
                &&& forall|k: nat|
                    k < dirs.len() ==> #[trigger] above(at, k) == Some(dirs[k as int]) && within(
                        dirs[k as int],
                        home,
                    ) && !same_path(dirs[k as int], home) && there_at(looked, dirs[k as int])
                        is Missing
                &&& above(at, dirs.len()) matches Some(next) ==> same_path(next, home) || !within(
                    next,
                    home,
                ) || there_at(looked, next) is Dir
            },
            Err(note) => exists|n: nat|
                {
                    &&& #[trigger] above(at, n) is Some
                    &&& within(above(at, n)->0, home)
                    &&& !same_path(above(at, n)->0, home)
                    &&& match there_at(looked, above(at, n)->0) {
                        There::NotDir => note == portable(above(at, n)->0, home)
                            + " is not a directory, so there is nowhere to clone it"@,
                        There::Failed(why) => note == portable(above(at, n)->0, home)
                            + " cannot be looked at: "@ + why@,
                        _ => false,
                    }
                    &&& forall|m: nat|
                        m < n ==> (#[trigger] above(at, m) matches Some(low) && there_at(
                            looked,
                            low,
                        ) is Missing)
                },
        },
    decreases at.len(),
{
    lemma_parent_is_shorter(at);
    assert(above(at, 0) == Some(at));
    if !same_path(at, home) && within(at, home) && there_at(looked, at) is Missing {
        if let Some(up) = parent(at) {
            only_missing_directories_below_the_home_are_made(up, home, looked);
            match missing_from(up, home, looked) {
                Ok(rest) => {
                    let dirs = seq![at] + rest;
                    assert forall|k: nat| k < dirs.len() implies #[trigger] above(at, k) == Some(
                        dirs[k as int],
                    ) && within(dirs[k as int], home) && !same_path(dirs[k as int], home)
                        && there_at(looked, dirs[k as int]) is Missing by {
                        if k > 0 {
                            lemma_above_next(at, k);
                            assert(above(up, (k - 1) as nat) == Some(rest[k - 1]));
                        }
                    }
                    lemma_above_next(at, dirs.len());
                    assert(above(at, dirs.len()) == above(up, rest.len()));
                },
                Err(note) => {
                    let n = choose|n: nat|
                        {
                            &&& #[trigger] above(up, n) is Some
                            &&& within(above(up, n)->0, home)
                            &&& !same_path(above(up, n)->0, home)
                            &&& match there_at(looked, above(up, n)->0) {
                                There::NotDir => note == portable(above(up, n)->0, home)
                                    + " is not a directory, so there is nowhere to clone it"@,
                                There::Failed(why) => note == portable(above(up, n)->0, home)
                                    + " cannot be looked at: "@ + why@,
                                _ => false,
                            }
                            &&& forall|m: nat|
                                m < n ==> (#[trigger] above(up, m) matches Some(low) && there_at(
                                    looked,
                                    low,
                                ) is Missing)
                        };
                    lemma_above_next(at, n + 1);
                    assert(above(at, n + 1) == above(up, n));
                    assert forall|m: nat| m < n + 1 implies (#[trigger] above(
                        at,
                        m,
                    ) matches Some(low) && there_at(looked, low) is Missing) by {
                        if m > 0 {
                            lemma_above_next(at, m);
                            assert(above(up, (m - 1) as nat) is Some);
                        }
                    }
                },
            }
        } else {
            lemma_above_next(at, 1);
            assert forall|k: nat| k < 1 implies #[trigger] above(at, k) == Some(at) by {}
        }
    }
}

/// What becomes of an external before git is asked, in every case: where nothing
/// is there it is cloned, unless there is nowhere to; what an interrupted clone of
/// bx's left is cloned again; a finished clone of bx's is asked about; and
/// anything else is a conflict that nothing is done to.
pub proof fn an_external_is_decided_by_what_is_there(
    ruling: Ruling,
    external: External,
    entry: Option<LedgerEntry>,
    observed: Observed,
    looked: Seq<Looked>,
    home: Seq<char>,
)
    requires
        decided_from(ruling, external, entry, observed, looked, home),
    ensures
        ({
            let refused = (observed.parent is Some && observed.parent->0.state is Unusable) || (
            entry is Some && entry->0.mechanism !is Clone);
            let unfinished = entry is Some && entry->0.written.bytes@ == sha256_of(Seq::empty());
            let missing = missing_above(rendered(external.path.text@, home), home, looked);
            let clones_again = |replace: bool|
                ruling matches Ruling::Settle(settled) && settled.action == Action::Create && (
                settled.work matches Some(Work::Clone { replace: again, .. }) && again == replace);
            let left = ruling matches Ruling::Settle(settled) && settled.action == Action::Conflict
                && settled.work is None;
            &&& refused ==> left
            &&& !refused && observed.kind is Absent && missing is Ok ==> clones_again(false) && (
            ruling matches Ruling::Settle(settled) && (settled.work matches Some(
                Work::Clone { created_dirs, .. },
            ) && strings(created_dirs@) == missing->Ok_0))
            &&& !refused && observed.kind is Absent && missing is Err ==> left && (
            ruling matches Ruling::Settle(settled) && (settled.note matches Some(note) && note@
                == missing->Err_0))
            &&& !refused && observed.kind is Dir && unfinished ==> clones_again(true)
            &&& !refused && observed.kind is Dir && entry is None ==> left
            &&& !refused && observed.kind is Dir && entry is Some && !unfinished ==> ruling
                == Ruling::Ask(Look::Top)
            &&& !refused && observed.kind !is Absent && observed.kind !is Dir ==> left
        }),
{
}

/// What is said of a clone: what is cloned and at which commit, that it is again
/// or the rest of an interrupted one, and the directories it makes, the
/// shallowest first.
pub proof fn a_clone_says_what_it_makes(
    entry: Option<LedgerEntry>,
    url: Seq<char>,
    rev: Seq<char>,
    created: Seq<Seq<char>>,
    home: Seq<char>,
)
    ensures
        ({
            let unfinished = entry is Some && entry->0.written.bytes@ == sha256_of(Seq::empty());
            let dirs = Seq::new(
                created.len(),
                |k: int| portable(created[created.len() - 1 - k], home),
            );
            let tail = if created.len() == 0 {
                Seq::empty()
            } else {
                "; creates "@ + listed(dirs, ", "@)
            };
            let said = clone_words(entry, url, rev, created, home);
            &&& entry is None ==> said == "clones "@ + url + " at "@ + rev + tail
            &&& unfinished ==> said == "completes an interrupted clone: clones "@ + url + " at "@
                + rev + tail
            &&& entry is Some && !unfinished ==> said == "the checkout bx cloned is gone; clones "@
                + url + " at "@ + rev + " again"@ + tail
        }),
{
    let dirs = Seq::new(created.len(), |k: int| portable(created[created.len() - 1 - k], home));
    assert(shown(created.reverse(), home) =~= dirs);
    let words = clone_words(entry, url, rev, Seq::empty(), home);
    let tail = "; creates "@ + listed(dirs, ", "@);
    assert(words + Seq::<char>::empty() =~= words);
    assert(words + tail =~= words + "; creates "@ + listed(dirs, ", "@));
}

/// What a finished clone comes to, question by question: it has to be a checkout
/// of its own, from the declared url; at its commit it is left, or recorded where
/// the ledger does not say so yet; elsewhere it has to hold no change, and is
/// moved forward where git says that is forward, or where only a fetch can say.
/// Any other answer leaves it as it is.
pub proof fn a_checkout_is_decided_question_by_question(
    ruling: Ruling,
    stage: Look,
    reply: Result<String, Trouble>,
    external: External,
    entry: LedgerEntry,
    canonical: Option<Seq<char>>,
    home: Seq<char>,
)
    requires
        looked_at(ruling, stage, reply, external, entry, canonical, home),
    ensures
        ({
            let rev = external.rev@;
            let no = reply matches Err(Trouble::Git { code, .. }) && code == Some(1i32);
            let done = |action: Action|
                ruling matches Ruling::Settle(settled) && settled.action == action && settled.work
                    is None;
            let moves = |head: Seq<char>|
                ruling matches Ruling::Settle(settled) && settled.action == Action::Modify && (
                settled.work matches Some(Work::Advance { from }) && from@ == head);
            match stage {
                Look::Top => if reply is Ok && canonical is Some && crate::paths::components(
                    canonical->0,
                ) == crate::paths::components(reply->Ok_0@) {
                    ruling == Ruling::Ask(Look::Head)
                } else {
                    done(Action::Conflict)
                },
                Look::Head => match reply {
                    Ok(head) => ruling matches Ruling::Ask(Look::Origin { head: found }) && found@
                        == head@,
                    Err(_) => done(Action::Conflict),
                },
                Look::Origin { head } => {
                    &&& reply is Err || reply->Ok_0@ != external.url@ ==> done(Action::Blocked)
                    &&& reply is Ok && reply->Ok_0@ == external.url@ ==> {
                        &&& head@ != rev ==> (ruling matches Ruling::Ask(
                            Look::Status { head: found },
                        ) && found@ == head@)
                        &&& head@ == rev && entry.written.bytes@ == sha256_of(encode_utf8(rev))
                            ==> done(Action::Unchanged)
                        &&& head@ == rev && entry.written.bytes@ != sha256_of(encode_utf8(rev)) ==> (
                        ruling matches Ruling::Settle(settled) && settled.action == Action::Modify
                            && settled.work == Some(Work::Record))
                    }
                },
                Look::Status { head } => if reply is Ok && reply->Ok_0@.len() == 0 {
                    ruling matches Ruling::Ask(Look::Has { head: found }) && found@ == head@
                } else {
                    done(Action::Blocked)
                },
                Look::Has { head } => if reply is Ok {
                    ruling matches Ruling::Ask(Look::Ancestor { head: found }) && found@ == head@
                } else {
                    moves(head@)
                },
                Look::Ancestor { head } => {
                    &&& reply is Ok ==> moves(head@)
                    &&& no ==> (ruling matches Ruling::Ask(Look::Ahead { head: found }) && found@
                        == head@)
                    &&& reply is Err && !no ==> done(Action::Blocked)
                },
                Look::Ahead { head } => done(Action::Blocked),
            }
        }),
{
}

/// What is said where a checkout cannot be moved forward: how many commits of the
/// user's own it holds, or that it holds none and the commits part.
pub proof fn what_is_not_forward_is_said(text: String, head: Seq<char>, rev: Seq<char>)
    ensures
        ({
            let said = not_forward_words(Ok(text), head, rev);
            &&& counted(text@) == Some(0nat) ==> said == rev
                + " is not a fast-forward from its current commit "@ + head
                + "; bx left the checkout as it is"@
            &&& counted(text@) is Some && counted(text@)->0 > 0 ==> said == "has "@ + numeral(
                counted(text@)->0,
                10,
            ) + " local commit(s) not contained in "@ + rev + "; bx left the checkout as it is"@
            &&& counted(text@) is None ==> said == rev + " is not a fast-forward from "@ + head
                + "; bx left it as it is"@
        }),
{
}

/// The commit bx last left checked out, and no other, is not counted as the
/// user's.
pub proof fn only_the_commit_bx_recorded_is_known(
    known: Option<String>,
    head: Seq<char>,
    entry: LedgerEntry,
)
    requires
        known_commit(known, head, entry),
    ensures
        known is Some <==> entry.written.bytes@ == sha256_of(encode_utf8(head)),
        known matches Some(commit) ==> commit@ == head,
{
}

/// Each question about a checkout is the one its answer is read as: it is asked
/// of the pinned commit and of the one that is checked out, in that order.
pub proof fn a_question_is_asked_of_the_commits_it_is_about(
    look: Look,
    external: External,
    entry: LedgerEntry,
    query: Query,
)
    requires
        look.queried(external, entry, query),
    ensures
        look is Top <==> query is Toplevel,
        look is Head <==> query is Head,
        look is Origin <==> query is Origin,
        look is Status <==> query is Status,
        look is Has ==> (query matches Query::Has { rev } && rev@ == external.rev@),
        look matches Look::Ancestor { head } ==> (query matches Query::Ancestor {
            ancestor,
            descendant,
        } && ancestor@ == head@ && descendant@ == external.rev@),
        look matches Look::Ahead { head } ==> (query matches Query::Ahead { rev, known } && rev@
            == external.rev@ && (known is Some <==> entry.written.bytes@ == sha256_of(
            encode_utf8(head@),
        )) && (known matches Some(commit) ==> commit@ == head@)),
{
}

/// An external's row shows the commits its work moves between, and the remote;
/// a row without such work shows nothing.
pub proof fn an_externals_row_shows_its_commits(
    change: Change,
    external: External,
    settled: Settled,
)
    requires
        is_external_row(change, external, settled),
    ensures
        change.target@ == external.path.text@,
        change.origin == external.origin,
        change.action == settled.action,
        change.note is Some <==> settled.note is Some,
        change.note matches Some(note) ==> note@ == settled.note->0@,
        settled.work is Some && settled.work->0 !is Record ==> (change.diff matches Some(diff) && (
        diff.kind matches DiffKind::Checkout { from, to, url } && to@ == external.rev@ && url@
            == external.url@ && match settled.work->0 {
            Work::Advance { from: head } => from is Some && from->0@ == head@,
            _ => from is None,
        })),
        settled.work is None || settled.work->0 is Record ==> change.diff is None,
{
}

} // verus!
