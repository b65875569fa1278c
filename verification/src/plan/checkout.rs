//! The work an external's decision announced, one command at a time.
//!
//! A stopped op changes nothing on disk and nothing in the ledger, except that a
//! clone which failed part way is removed again and its entry put back as it
//! was. Before a clone's first byte lands the ledger records the directory as
//! bx's and *not yet a finished checkout*; only once the checkout is at its
//! commit is the entry recorded with it.

use crate::digest::sha256_of;
use crate::fs::{Kind, Mode};
use crate::journal::error::kind_words;
use crate::list::backwards;
use crate::order::text_before;
use crate::paths::{components, depth, portable, render, rendered, to_portable};
use crate::plan::external::{
    clone_digest, clone_written, is_external_row, known, known_commit, not_forward,
    not_forward_words, row, External, Settled, Work,
};
use crate::plan::git::{
    dirty, is_ancestor, means_no, not_own_words, own_checkout, problem, trouble_words, Query,
    Trouble,
};
use crate::plan::owned::held;
use crate::plan::parents::reversed;
use crate::plan::rows::Change;
use crate::state::{
    is_entry, position, recorded, same_prior, texts, Ledger, LedgerEntry, Mechanism, Portable, Prior,
};
use crate::text::{count, counted, numeral, numeral_of, opt_text, same_text, strings};
use vstd::prelude::*;
use vstd::utf8::*;

verus! {

/// The work one decision announced.
#[derive(Debug, PartialEq, Eq)]
pub struct Op {
    /// The row this op belongs to, counted among the externals' rows.
    pub at: usize,
    /// The external's path.
    pub target: Portable,
    /// Where it renders.
    pub dest: String,
    /// The remote.
    pub url: String,
    /// The commit to leave checked out.
    pub rev: String,
    /// What to do.
    pub work: Work,
}

/// Where the work is.
#[derive(Debug, PartialEq, Eq)]
pub enum Step {
    /// The repository is being made.
    Init,
    /// Its remote is being named.
    Remote,
    /// The commit that is checked out is being read.
    Head,
    /// Changes are being looked for, the commit having been read.
    Status { head: Result<String, Trouble> },
    /// Every branch is being fetched.
    Fetch,
    /// The pinned commit is being looked for.
    Has,
    /// It is being fetched by id.
    FetchRev,
    /// It is being looked for again.
    HasAgain,
    /// Whether it descends from the commit checked out is being asked.
    Ancestor,
    /// The user's own commits are being counted.
    Ahead,
    /// It is being checked out.
    CheckOut,
    /// What was checked out is being read.
    Check,
}

/// What comes next.
#[derive(Debug, PartialEq, Eq)]
pub enum Go {
    /// Run this next.
    Ask(Step),
    /// The op stops here, and why. Nothing more is done for it.
    Stop(String),
    /// The checkout is at its commit.
    Done,
}

/// The step some work starts with.
pub fn first(work: &Work) -> (r: Step)
    ensures
        match *work {
            Work::Clone { .. } => r is Init,
            Work::Advance { .. } => r is Head,
            Work::Record => r is Head,
        },
{
    match work {
        Work::Clone { .. } => Step::Init,
        Work::Advance { .. } => Step::Head,
        Work::Record => Step::Head,
    }
}

/// Whether the work stops with this note.
pub open spec fn stops_with(go: Go, note: Seq<char>) -> bool {
    go matches Go::Stop(why) && why@ == note
}

/// What a step leads to where git's failure stops it and its success goes on.
pub open spec fn onward(go: Go, reply: Result<String, Trouble>, next: Step) -> bool {
    match reply {
        Ok(_) => go == Go::Ask(next),
        Err(trouble) => stops_with(go, trouble_words(trouble)),
    }
}

/// Whether `go` is what an answer leads to while a checkout is advanced.
pub open spec fn advanced(
    go: Go,
    from: Seq<char>,
    rev: Seq<char>,
    entry: Option<LedgerEntry>,
    step: Step,
    reply: Result<String, Trouble>,
) -> bool {
    match step {
        Step::Head => go == Go::Ask(Step::Status { head: reply }),
        Step::Status { head } => match (head, reply) {
            (Err(trouble), _) => stops_with(go, trouble_words(trouble)),
            (_, Err(trouble)) => stops_with(go, trouble_words(trouble)),
            (Ok(head), Ok(status)) => if status@.len() > 0 {
                stops_with(
                    go,
                    "has uncommitted changes since bx planned; bx left it as it is"@,
                )
            } else if head@ != from {
                stops_with(
                    go,
                    "moved to "@ + head@ + " since bx planned against "@ + from
                        + "; bx left it as it is"@,
                )
            } else {
                go == Go::Ask(Step::Fetch)
            },
        },
        Step::HasAgain => if reply is Ok {
            go == Go::Ask(Step::Ancestor)
        } else {
            stops_with(go, rev + " is not a commit the remote has"@)
        },
        Step::Ancestor => if reply is Ok {
            go == Go::Ask(Step::CheckOut)
        } else if !means_no(reply) {
            stops_with(go, trouble_words(reply->Err_0))
        } else if entry is Some {
            go == Go::Ask(Step::Ahead)
        } else {
            stops_with(go, rev + " is not a fast-forward from "@ + from)
        },
        Step::Ahead => stops_with(go, not_forward_words(reply, from, rev)),
        Step::CheckOut => match reply {
            Ok(_) => go is Done,
            Err(trouble) => stops_with(go, trouble_words(trouble)),
        },
        _ => fetched(go, step, reply),
    }
}

/// Whether `go` is what an answer leads to while commits are fetched.
pub open spec fn fetched(go: Go, step: Step, reply: Result<String, Trouble>) -> bool {
    match step {
        Step::Fetch => onward(go, reply, Step::Has),
        Step::Has => go == Go::Ask(
            if reply is Ok {
                Step::HasAgain
            } else {
                Step::FetchRev
            },
        ),
        Step::FetchRev => onward(go, reply, Step::HasAgain),
        _ => stops_with(go, "git was not asked"@),
    }
}

/// Whether `go` is what an answer leads to while a clone is populated.
pub open spec fn populated(
    go: Go,
    rev: Seq<char>,
    step: Step,
    reply: Result<String, Trouble>,
) -> bool {
    match step {
        Step::Init => onward(go, reply, Step::Remote),
        Step::Remote => onward(go, reply, Step::Fetch),
        Step::HasAgain => if reply is Ok {
            go == Go::Ask(Step::CheckOut)
        } else {
            stops_with(go, rev + " is not a commit the remote has"@)
        },
        Step::CheckOut => onward(go, reply, Step::Check),
        Step::Check => match reply {
            Ok(head) => if head@ == rev {
                go is Done
            } else {
                stops_with(go, "git checked out "@ + head@ + ", not "@ + rev)
            },
            Err(trouble) => stops_with(go, trouble_words(trouble)),
        },
        _ => fetched(go, step, reply),
    }
}

/// Whether `go` is what an answer leads to while a commit is recorded.
pub open spec fn noted(
    go: Go,
    rev: Seq<char>,
    step: Step,
    reply: Result<String, Trouble>,
) -> bool {
    match step {
        Step::Head => match reply {
            Ok(head) => if head@ == rev {
                go is Done
            } else {
                stops_with(
                    go,
                    "moved to "@ + head@ + " since bx planned; bx left it as it is"@,
                )
            },
            Err(trouble) => stops_with(go, trouble_words(trouble)),
        },
        _ => stops_with(go, "git was not asked"@),
    }
}

fn next(reply: Result<String, Trouble>, step: Step) -> (r: Go)
    ensures
        onward(r, reply, step),
{
    match reply {
        Ok(_) => Go::Ask(step),
        Err(trouble) => Go::Stop(problem(&trouble)),
    }
}

/// Fetch `origin`, then the pinned commit by id when it is still not here.
pub fn fetch(step: Step, reply: Result<String, Trouble>) -> (r: Go)
    ensures
        fetched(r, step, reply),
{
    match step {
        Step::Fetch => next(reply, Step::Has),
        Step::Has => if reply.is_ok() {
            Go::Ask(Step::HasAgain)
        } else {
            Go::Ask(Step::FetchRev)
        },
        Step::FetchRev => next(reply, Step::HasAgain),
        _ => Go::Stop("git was not asked".to_owned()),
    }
}

/// Fetch, and fast-forward from `from` to `rev`.
pub fn advance(
    from: &str,
    rev: &str,
    entry: Option<&LedgerEntry>,
    step: Step,
    reply: Result<String, Trouble>,
) -> (r: Go)
    ensures
        advanced(r, from@, rev@, held(entry), step, reply),
{
    match step {
        Step::Head => Go::Ask(Step::Status { head: reply }),
        Step::Status { head } => {
            let head = match head {
                Err(trouble) => {
                    return Go::Stop(problem(&trouble));
                },
                Ok(head) => head,
            };
            match dirty(reply) {
                Err(trouble) => Go::Stop(problem(&trouble)),
                Ok(changed) => if changed {
                    Go::Stop(
                        "has uncommitted changes since bx planned; bx left it as it is".to_owned(),
                    )
                } else if !same_text(head.as_str(), from) {
                    Go::Stop(
                        "moved to ".to_owned().concat(head.as_str()).concat(
                            " since bx planned against ",
                        ).concat(from).concat("; bx left it as it is"),
                    )
                } else {
                    Go::Ask(Step::Fetch)
                },
            }
        },
        Step::HasAgain => if reply.is_ok() {
            Go::Ask(Step::Ancestor)
        } else {
            Go::Stop(rev.to_owned().concat(" is not a commit the remote has"))
        },
        Step::Ancestor => match is_ancestor(reply) {
            Err(trouble) => Go::Stop(problem(&trouble)),
            Ok(forward) => if forward {
                Go::Ask(Step::CheckOut)
            } else if entry.is_some() {
                Go::Ask(Step::Ahead)
            } else {
                Go::Stop(rev.to_owned().concat(" is not a fast-forward from ").concat(from))
            },
        },
        Step::Ahead => Go::Stop(not_forward(&reply, from, rev)),
        Step::CheckOut => match reply {
            Ok(_) => Go::Done,
            Err(trouble) => Go::Stop(problem(&trouble)),
        },
        step => fetch(step, reply),
    }
}

/// Fill an empty directory with a checkout of `rev`.
///
/// Made from `init`, `remote add` and `fetch` rather than `clone`, so no local
/// branch is made: a branch bx created would carry commits past `rev` that `rm`
/// could not tell from the user's. The fetch takes every branch, as a clone
/// would, and then `rev` by id when no branch holds it.
pub fn populate(rev: &str, step: Step, reply: Result<String, Trouble>) -> (r: Go)
    ensures
        populated(r, rev@, step, reply),
{
    match step {
        Step::Init => next(reply, Step::Remote),
        Step::Remote => next(reply, Step::Fetch),
        Step::HasAgain => if reply.is_ok() {
            Go::Ask(Step::CheckOut)
        } else {
            Go::Stop(rev.to_owned().concat(" is not a commit the remote has"))
        },
        Step::CheckOut => next(reply, Step::Check),
        Step::Check => match reply {
            Ok(head) => if same_text(head.as_str(), rev) {
                Go::Done
            } else {
                Go::Stop(
                    "git checked out ".to_owned().concat(head.as_str()).concat(", not ").concat(
                        rev,
                    ),
                )
            },
            Err(trouble) => Go::Stop(problem(&trouble)),
        },
        step => fetch(step, reply),
    }
}

/// Check that the checkout still is at `rev`, before that is recorded.
pub fn record(rev: &str, step: Step, reply: Result<String, Trouble>) -> (r: Go)
    ensures
        noted(r, rev@, step, reply),
{
    match step {
        Step::Head => match reply {
            Ok(head) => if same_text(head.as_str(), rev) {
                Go::Done
            } else {
                Go::Stop(
                    "moved to ".to_owned().concat(head.as_str()).concat(
                        " since bx planned; bx left it as it is",
                    ),
                )
            },
            Err(trouble) => Go::Stop(problem(&trouble)),
        },
        _ => Go::Stop("git was not asked".to_owned()),
    }
}

/// Whether `go` is what an answer leads to.
pub open spec fn goes(
    go: Go,
    op: Op,
    entry: Option<LedgerEntry>,
    step: Step,
    reply: Result<String, Trouble>,
) -> bool {
    match op.work {
        Work::Clone { .. } => populated(go, op.rev@, step, reply),
        Work::Advance { from } => advanced(go, from@, op.rev@, entry, step, reply),
        Work::Record => noted(go, op.rev@, step, reply),
    }
}

/// Do one op: what git's answer to the command that was run leads to.
pub fn work(op: &Op, entry: Option<&LedgerEntry>, step: Step, reply: Result<String, Trouble>) -> (r:
    Go)
    ensures
        goes(r, *op, held(entry), step, reply),
{
    match &op.work {
        Work::Clone { .. } => populate(op.rev.as_str(), step, reply),
        Work::Advance { from } => advance(from.as_str(), op.rev.as_str(), entry, step, reply),
        Work::Record => record(op.rev.as_str(), step, reply),
    }
}

/// A checkout is only ever moved to a commit that descends from the one bx
/// planned against: the command that moves it comes straight after git said so.
pub proof fn a_checkout_is_moved_only_after_git_says_forward(
    op: Op,
    entry: Option<LedgerEntry>,
    step: Step,
    reply: Result<String, Trouble>,
)
    requires
        op.work is Advance,
        goes(Go::Ask(Step::CheckOut), op, entry, step, reply),
    ensures
        step is Ancestor,
        reply is Ok,
{
}

/// Nothing is fetched into a checkout that changed since it was planned: the
/// first fetch comes after git named the planned commit and showed no change.
pub proof fn a_changed_checkout_is_left(
    op: Op,
    entry: Option<LedgerEntry>,
    step: Step,
    reply: Result<String, Trouble>,
)
    requires
        op.work is Advance,
        goes(Go::Ask(Step::Fetch), op, entry, step, reply),
    ensures
        step matches Step::Status { head } && head is Ok && head->Ok_0@ == op.work->from@ && reply
            is Ok && reply->Ok_0@.len() == 0,
{
}

impl Step {
    /// Whether a query is the command that is run, where the ledger holds
    /// `entry`.
    pub open spec fn queried(self, op: Op, entry: Option<LedgerEntry>, r: Query) -> bool {
        match self {
            Step::Init => r matches Query::Init { rev } && rev@ == op.rev@,
            Step::Remote => r matches Query::Remote { url } && url@ == op.url@,
            Step::Head => r is Head,
            Step::Status { .. } => r is Status,
            Step::Fetch => r is Fetch,
            Step::Has => r matches Query::Has { rev } && rev@ == op.rev@,
            Step::FetchRev => r matches Query::FetchRev { rev } && rev@ == op.rev@,
            Step::HasAgain => r matches Query::Has { rev } && rev@ == op.rev@,
            Step::Ancestor => r matches Query::Ancestor { ancestor, descendant } && descendant@
                == op.rev@ && ancestor@ == match op.work {
                Work::Advance { from } => from@,
                _ => op.rev@,
            },
            Step::Ahead => r matches Query::Ahead { rev, known } && rev@ == op.rev@ && match (
                op.work,
                entry,
            ) {
                (Work::Advance { from }, Some(entry)) => known_commit(known, from@, entry),
                _ => known is None,
            },
            Step::CheckOut => r matches Query::CheckOut { rev } && rev@ == op.rev@,
            Step::Check => r is Head,
        }
    }

    /// The command that is run.
    pub fn query(&self, op: &Op, entry: Option<&LedgerEntry>) -> (r: Query)
        ensures
            self.queried(
                *op,
                match entry {
                    Some(entry) => Some(*entry),
                    None => None,
                },
                r,
            ),
    {
        match self {
            Step::Init => Query::Init { rev: op.rev.clone() },
            Step::Remote => Query::Remote { url: op.url.clone() },
            Step::Head => Query::Head,
            Step::Status { .. } => Query::Status,
            Step::Fetch => Query::Fetch,
            Step::Has => Query::Has { rev: op.rev.clone() },
            Step::FetchRev => Query::FetchRev { rev: op.rev.clone() },
            Step::HasAgain => Query::Has { rev: op.rev.clone() },
            Step::Ancestor => {
                let ancestor = match &op.work {
                    Work::Advance { from } => from.clone(),
                    _ => op.rev.clone(),
                };
                Query::Ancestor { ancestor, descendant: op.rev.clone() }
            },
            Step::Ahead => {
                let commit = match (&op.work, entry) {
                    (Work::Advance { from }, Some(entry)) => known(from, entry),
                    _ => None,
                };
                Query::Ahead { rev: op.rev.clone(), known: commit }
            },
            Step::CheckOut => Query::CheckOut { rev: op.rev.clone() },
            Step::Check => Query::Head,
        }
    }
}

/// What a clone does first.
#[derive(Debug, PartialEq, Eq)]
pub enum Start {
    /// Go on, first removing the directory an interrupted clone left if `remove`
    /// is set.
    Go { remove: bool },
    /// Stop, and why.
    Stop(String),
}

/// Whether a clone may start over what is at its path now: nothing, where
/// nothing was planned to be there, or the directory of an interrupted clone,
/// where that was to be replaced.
pub fn clone_start(replace: bool, now: &Kind, interrupted: bool) -> (r: Start)
    ensures
        if !replace && now is Absent {
            r == (Start::Go { remove: false })
        } else if replace && now is Dir && interrupted {
            r == (Start::Go { remove: true })
        } else {
            r matches Start::Stop(note) && note@ == "is "@ + kind_words(*now)
                + " now, which is not what bx planned against; bx left it as it is"@
        },
{
    match now {
        Kind::Absent => if !replace {
            return Start::Go { remove: false };
        },
        Kind::Dir => if replace && interrupted {
            return Start::Go { remove: true };
        },
        _ => {},
    }
    Start::Stop(
        "is ".to_owned().concat(now.text().as_str()).concat(
            " now, which is not what bx planned against; bx left it as it is",
        ),
    )
}

/// `dirs` with one more, after every one that is at least as deep.
pub open spec fn sunk(dirs: Seq<Seq<char>>, dir: Seq<char>) -> Seq<Seq<char>>
    decreases dirs.len(),
{
    if dirs.len() == 0 || components(dirs.last()).len() >= components(dir).len() {
        dirs.push(dir)
    } else {
        sunk(dirs.drop_last(), dir).push(dirs.last())
    }
}

/// `dirs`, deepest first; those as deep as each other keep their order.
pub open spec fn by_depth(dirs: Seq<Seq<char>>) -> Seq<Seq<char>>
    decreases dirs.len(),
{
    if dirs.len() == 0 {
        Seq::empty()
    } else {
        sunk(by_depth(dirs.drop_last()), dirs.last())
    }
}

proof fn lemma_sunk(dirs: Seq<Seq<char>>, dir: Seq<char>, p: int)
    requires
        0 <= p <= dirs.len(),
        p > 0 ==> components(dirs[p - 1]).len() >= components(dir).len(),
        forall|k: int|
            p <= k < dirs.len() ==> components(#[trigger] dirs[k]).len() < components(dir).len(),
    ensures
        sunk(dirs, dir) == dirs.insert(p, dir),
    decreases dirs.len(),
{
    if p == dirs.len() {
        assert(dirs.insert(p, dir) =~= dirs.push(dir));
    } else {
        lemma_sunk(dirs.drop_last(), dir, p);
        assert(dirs.insert(p, dir) =~= dirs.drop_last().insert(p, dir).push(dirs.last()));
    }
}

/// `dirs`, deepest first.
pub fn deepest_first(dirs: &Vec<String>) -> (r: Vec<String>)
    ensures
        strings(r@) == by_depth(strings(dirs@)),
{
    let ghost all = strings(dirs@);
    let mut out: Vec<String> = Vec::new();
    let mut i: usize = 0;
    assert(strings(out@) =~= by_depth(all.subrange(0, 0)));
    while i < dirs.len()
        invariant
            i <= dirs.len(),
            all == strings(dirs@),
            strings(out@) == by_depth(all.subrange(0, i as int)),
        decreases dirs.len() - i,
    {
        let ghost more = all.subrange(0, i + 1);
        let ghost so_far = strings(out@);
        assert(more.drop_last() =~= all.subrange(0, i as int));
        assert(more.last() == dirs@[i as int]@);
        let deep = depth(dirs[i].as_str());
        let mut p: usize = out.len();
        while p > 0 && depth(out[p - 1].as_str()) < deep
            invariant
                p <= out.len(),
                so_far == strings(out@),
                deep == components(dirs@[i as int]@).len(),
                forall|k: int|
                    p <= k < so_far.len() ==> components(#[trigger] so_far[k]).len() < deep,
            decreases p,
        {
            assert(so_far[p - 1] == out@[p - 1]@);
            p = p - 1;
        }
        proof {
            if p > 0 {
                assert(so_far[p - 1] == out@[p - 1]@);
            }
            lemma_sunk(so_far, dirs@[i as int]@, p as int);
        }
        let ghost before = out@;
        out.insert(p, dirs[i].clone());
        assert(strings(out@) =~= so_far.insert(p as int, dirs@[i as int]@));
        i = i + 1;
    }
    assert(all.subrange(0, all.len() as int) =~= all);
    out
}

proof fn lemma_sunk_keeps(dirs: Seq<Seq<char>>, dir: Seq<char>)
    requires
        forall|j: int, k: int|
            0 <= j < k < dirs.len() ==> components(#[trigger] dirs[j]).len() >= components(
                #[trigger] dirs[k],
            ).len(),
    ensures
        sunk(dirs, dir).len() == dirs.len() + 1,
        sunk(dirs, dir).to_multiset() == dirs.to_multiset().insert(dir),
        forall|j: int, k: int|
            0 <= j < k < sunk(dirs, dir).len() ==> components(
                #[trigger] sunk(dirs, dir)[j],
            ).len() >= components(#[trigger] sunk(dirs, dir)[k]).len(),
        forall|j: int|
            0 <= j < sunk(dirs, dir).len() ==> #[trigger] sunk(dirs, dir)[j] == dir || dirs.contains(
                sunk(dirs, dir)[j],
            ),
    decreases dirs.len(),
{
    broadcast use vstd::seq_lib::group_to_multiset_ensures;

    if dirs.len() == 0 || components(dirs.last()).len() >= components(dir).len() {
        let out = dirs.push(dir);
        assert forall|j: int| 0 <= j < out.len() implies #[trigger] out[j] == dir || dirs.contains(
            out[j],
        ) by {
            if j < dirs.len() {
                assert(out[j] == dirs[j]);
            }
        }
    } else {
        let rest = dirs.drop_last();
        lemma_sunk_keeps(rest, dir);
        let inner = sunk(rest, dir);
        let out = inner.push(dirs.last());
        assert(dirs =~= rest.push(dirs.last()));
        assert(out.to_multiset() =~= dirs.to_multiset().insert(dir));
        assert forall|j: int, k: int| 0 <= j < k < out.len() implies components(
            #[trigger] out[j],
        ).len() >= components(#[trigger] out[k]).len() by {
            if k < inner.len() {
                assert(out[j] == inner[j] && out[k] == inner[k]);
            } else {
                assert(out[j] == inner[j]);
                if inner[j] != dir {
                    assert(rest.contains(inner[j]));
                    let m = choose|m: int| 0 <= m < rest.len() && rest[m] == inner[j];
                    assert(rest[m] == dirs[m]);
                    assert(dirs[dirs.len() - 1] == dirs.last());
                }
            }
        }
        assert forall|j: int| 0 <= j < out.len() implies #[trigger] out[j] == dir || dirs.contains(
            out[j],
        ) by {
            if j < inner.len() {
                assert(out[j] == inner[j]);
                if inner[j] != dir {
                    let m = choose|m: int| 0 <= m < rest.len() && rest[m] == inner[j];
                    assert(rest.contains(inner[j]));
                    assert(dirs[m] == inner[j]);
                }
            } else {
                assert(out[j] == dirs[dirs.len() - 1]);
            }
        }
    }
}

/// Putting directories deepest first loses none and invents none, and no
/// directory comes before one that is deeper.
pub proof fn deepest_comes_first(dirs: Seq<Seq<char>>)
    ensures
        by_depth(dirs).to_multiset() == dirs.to_multiset(),
        forall|j: int, k: int|
            0 <= j < k < by_depth(dirs).len() ==> components(
                #[trigger] by_depth(dirs)[j],
            ).len() >= components(#[trigger] by_depth(dirs)[k]).len(),
    decreases dirs.len(),
{
    broadcast use vstd::seq_lib::group_to_multiset_ensures;

    if dirs.len() > 0 {
        deepest_comes_first(dirs.drop_last());
        lemma_sunk_keeps(by_depth(dirs.drop_last()), dirs.last());
        assert(dirs =~= dirs.drop_last().push(dirs.last()));
    }
}

/// What came of making a directory.
#[derive(Debug, PartialEq, Eq)]
pub enum Mkdir {
    /// It was made.
    Made,
    /// It was already there.
    Exists,
    /// It could not be made, and why.
    Failed(String),
}

/// Those of some directories that were made, in order.
pub open spec fn made_of(dirs: Seq<Seq<char>>, results: Seq<Mkdir>) -> Seq<Seq<char>>
    decreases dirs.len(),
{
    if dirs.len() == 0 {
        Seq::empty()
    } else if results[dirs.len() - 1] is Made {
        made_of(dirs.drop_last(), results).push(dirs.last())
    } else {
        made_of(dirs.drop_last(), results)
    }
}

/// The directories a clone made on the way to its path, deepest first.
///
/// `created` is the directories that were missing, deepest first, and `results`
/// what came of making each, shallowest first, up to the first that failed.
///
/// # Errors
///
/// Where one could not be made: those that were made before it, deepest first,
/// which are removed again, and the note.
pub fn made_dirs(created: &Vec<String>, results: &Vec<Mkdir>, home: &str) -> (r: Result<
    Vec<String>,
    (Vec<String>, String),
>)
    requires
        results@.len() == created@.len() || (results@.len() < created@.len() && results@.len() > 0
            && results@.last() is Failed),
    ensures
        match r {
            Ok(made) => (forall|i: int| 0 <= i < results@.len() ==> (#[trigger] results@[i]) !is Failed)
                && strings(made@) == by_depth(made_of(strings(created@).reverse(), results@)),
            Err((made, note)) => exists|i: int|
                0 <= i < results@.len() && (#[trigger] results@[i] matches Mkdir::Failed(why)
                    && note@ == portable(strings(created@).reverse()[i], home@)
                    + " cannot be created: "@ + why@) && strings(made@) == by_depth(
                    made_of(strings(created@).reverse().subrange(0, i), results@),
                ) && forall|j: int| 0 <= j < i ==> (#[trigger] results@[j]) !is Failed,
        },
{
    let order = reversed(created);
    let ghost all = strings(created@).reverse();
    assert(strings(order@).len() == order@.len());
    let mut made: Vec<String> = Vec::new();
    let mut i: usize = 0;
    assert(strings(made@) =~= made_of(all.subrange(0, 0), results@));
    while i < results.len()
        invariant
            i <= results.len() <= order.len(),
            strings(order@) == all,
            all == strings(created@).reverse(),
            strings(made@) == made_of(all.subrange(0, i as int), results@),
            forall|j: int| 0 <= j < i ==> (#[trigger] results@[j]) !is Failed,
        decreases results.len() - i,
    {
        let ghost more = all.subrange(0, i + 1);
        let ghost before = made@;
        assert(more.drop_last() =~= all.subrange(0, i as int));
        assert(all[i as int] == order@[i as int]@);
        match &results[i] {
            Mkdir::Made => {
                made.push(order[i].clone());
                assert(strings(made@) =~= strings(before).push(order@[i as int]@));
            },
            Mkdir::Exists => {},
            Mkdir::Failed(why) => {
                let note = to_portable(order[i].as_str(), home).concat(
                    " cannot be created: ",
                ).concat(why.as_str());
                assert(results@[i as int] matches Mkdir::Failed(why) && note@ == portable(
                    all[i as int],
                    home@,
                ) + " cannot be created: "@ + why@);
                return Err((deepest_first(&made), note));
            },
        }
        i = i + 1;
    }
    proof {
        if results@.len() < created@.len() {
            assert(results@[results@.len() - 1] is Failed);
        }
        assert(all.subrange(0, all.len() as int) =~= all);
    }
    Ok(deepest_first(&made))
}

/// Whether two entries say the same.
pub open spec fn same_entry(a: LedgerEntry, b: LedgerEntry) -> bool {
    &&& a.path == b.path
    &&& a.written@ == b.written@
    &&& a.mode == b.mode
    &&& a.mechanism == b.mechanism
    &&& same_prior(a.prior, b.prior)
    &&& texts(a.created_dirs@) == texts(b.created_dirs@)
}

fn copy_entry(entry: &LedgerEntry) -> (r: LedgerEntry)
    ensures
        same_entry(r, *entry),
{
    let mut dirs: Vec<Portable> = Vec::new();
    let mut i: usize = 0;
    while i < entry.created_dirs.len()
        invariant
            i <= entry.created_dirs.len(),
            dirs@.len() == i,
            forall|k: int| 0 <= k < i ==> (#[trigger] dirs@[k])@ == entry.created_dirs@[k]@,
        decreases entry.created_dirs.len() - i,
    {
        dirs.push(entry.created_dirs[i].clone());
        i = i + 1;
    }
    assert(texts(dirs@) =~= texts(entry.created_dirs@));
    LedgerEntry {
        path: entry.path.clone(),
        written: entry.written.copy(),
        mode: entry.mode,
        mechanism: entry.mechanism.clone(),
        prior: entry.prior.copy(),
        created_dirs: dirs,
    }
}

/// Whether an entry records a clone.
pub open spec fn is_clone_entry(
    entry: LedgerEntry,
    target: Portable,
    rev: Option<Seq<char>>,
    mode: Mode,
    created: Seq<Seq<char>>,
) -> bool {
    &&& entry.path == target
    &&& entry.written@ == clone_digest(rev)
    &&& entry.mode == mode
    &&& entry.mechanism is Clone
    &&& entry.prior is Absent
    &&& texts(entry.created_dirs@) == created
}

fn clone_entry(target: &Portable, rev: Option<&str>, mode: Mode, created_dirs: Vec<Portable>) -> (r:
    LedgerEntry)
    ensures
        is_clone_entry(
            r,
            *target,
            match rev {
                Some(rev) => Some(rev@),
                None => None,
            },
            mode,
            texts(created_dirs@),
        ),
{
    LedgerEntry {
        path: target.clone(),
        written: clone_written(rev),
        mode,
        mechanism: Mechanism::Clone,
        prior: Prior::Absent,
        created_dirs,
    }
}

/// Whether what a ledger held of a target is this.
pub open spec fn was(before: Option<LedgerEntry>, entries: Seq<LedgerEntry>, target: Seq<char>) -> bool {
    match position(entries, target) {
        Some(i) => before is Some && same_entry(before->0, entries[i]),
        None => before is None,
    }
}

/// Record a clone as begun, before the directory exists, so a run that stops
/// from here on leaves an entry that says the directory is bx's and unfinished.
/// Hands out what the ledger held before.
pub fn begin_clone(ledger: &mut Ledger, target: &Portable, created_dirs: Vec<Portable>) -> (r: Option<
    LedgerEntry,
>)
    requires
        old(ledger).wf(),
    ensures
        final(ledger).wf(),
        was(r, old(ledger).entries@, target@),
        exists|entry: LedgerEntry|
            is_clone_entry(
                entry,
                *target,
                None,
                Mode { bits: 0o755 },
                texts(created_dirs@),
            ) && #[trigger] recorded(old(ledger).entries@, entry, final(ledger).entries@),
{
    let before = match ledger.find(target.text.as_str()) {
        Some(i) => Some(copy_entry(&ledger.entries[i])),
        None => None,
    };
    let entry = clone_entry(target, None, Mode::default_dir(), created_dirs);
    ledger.record(entry);
    before
}

/// Record that a checkout is at `rev`, keeping its created directories. A clone
/// is recorded at the mode its directory was found at; a checkout that moved
/// keeps the mode it was recorded at.
pub fn record_rev(ledger: &mut Ledger, target: &Portable, rev: &str, found: Option<Mode>)
    requires
        old(ledger).wf(),
    ensures
        final(ledger).wf(),
        exists|entry: LedgerEntry|
            is_clone_entry(
                entry,
                *target,
                Some(rev@),
                match (found, position(old(ledger).entries@, target@)) {
                    (Some(mode), _) => mode,
                    (None, Some(i)) => old(ledger).entries@[i].mode,
                    (None, None) => Mode { bits: 0o755 },
                },
                Seq::empty(),
            ) && #[trigger] recorded(old(ledger).entries@, entry, final(ledger).entries@),
{
    let mode = match found {
        Some(mode) => mode,
        None => match ledger.find(target.text.as_str()) {
            Some(i) => ledger.entries[i].mode,
            None => Mode::default_dir(),
        },
    };
    let none: Vec<Portable> = Vec::new();
    assert(texts(none@) =~= Seq::empty());
    let entry = clone_entry(target, Some(rev), mode, none);
    ledger.record(entry);
}

/// Put a ledger back as it was before a clone was begun.
pub fn undo_clone(ledger: &mut Ledger, target: &Portable, before: Option<LedgerEntry>)
    requires
        old(ledger).wf(),
        before is Some ==> before->0.path@ == target@,
        position(old(ledger).entries@, target@) is Some,
    ensures
        final(ledger).wf(),
        ({
            let i = position(old(ledger).entries@, target@)->0;
            final(ledger).entries@ == match before {
                Some(entry) => old(ledger).entries@.update(i, entry),
                None => old(ledger).entries@.remove(i),
            }
        }),
{
    match before {
        None => {
            let _ = ledger.forget(target.text.as_str());
        },
        Some(entry) => {
            if let Some(i) = ledger.find(target.text.as_str()) {
                let ghost all = ledger.entries@;
                let _ = ledger.entries.remove(i);
                ledger.entries.insert(i, entry);
                proof {
                    assert(ledger.entries@ =~= all.update(i as int, entry));
                    assert forall|j: int, k: int| 0 <= j < k < ledger.entries@.len() implies text_before(
                        (#[trigger] ledger.entries@[j]).path@,
                        (#[trigger] ledger.entries@[k]).path@,
                    ) by {
                        assert(ledger.entries@[j].path@ == all[j].path@);
                        assert(ledger.entries@[k].path@ == all[k].path@);
                    }
                }
            }
        },
    }
}

/// A clone that fails leaves the ledger as it was: undoing what was recorded
/// when it was begun gives back every entry, in its place.
pub proof fn a_failed_clone_leaves_the_ledger_as_it_was(
    held: Ledger,
    entry: LedgerEntry,
    begun: Ledger,
    before: Option<LedgerEntry>,
    undone: Seq<LedgerEntry>,
)
    requires
        held.wf(),
        begun.wf(),
        recorded(held.entries@, entry, begun.entries@),
        was(before, held.entries@, entry.path@),
        ({
            let i = position(begun.entries@, entry.path@)->0;
            undone == match before {
                Some(entry) => begun.entries@.update(i, entry),
                None => begun.entries@.remove(i),
            }
        }),
    ensures
        undone.len() == held.entries@.len(),
        forall|i: int| 0 <= i < undone.len() ==> same_entry(#[trigger] undone[i], held.entries@[i]),
{
    let target = entry.path@;
    match position(held.entries@, target) {
        Some(i) => {
            assert(is_entry(held.entries@, target, i));
            assert(is_entry(begun.entries@, target, i));
            begun.lemma_position(target, i);
            assert forall|j: int| 0 <= j < undone.len() implies same_entry(
                #[trigger] undone[j],
                held.entries@[j],
            ) by {
                if j != i {
                    assert(begun.entries@[j] == held.entries@[j]);
                }
            }
        },
        None => {
            let k = choose|k: int|
                0 <= k <= held.entries@.len() && begun.entries@ == #[trigger] held.entries@.insert(
                    k,
                    entry,
                );
            assert(is_entry(begun.entries@, target, k));
            begun.lemma_position(target, k);
            assert(undone =~= held.entries@);
        },
    }
}

/// The op of an external's work.
pub open spec fn is_op(op: Op, at: int, external: External, work: Work, home: Seq<char>) -> bool {
    &&& op.at == at
    &&& op.target == external.path
    &&& op.dest@ == rendered(external.path@, home)
    &&& op.url@ == external.url@
    &&& op.rev@ == external.rev@
    &&& op.work == work
}

/// How many of the first `n` decisions announce work.
pub open spec fn working(settled: Seq<Settled>, n: int) -> nat
    decreases n,
{
    if n <= 0 {
        0
    } else {
        working(settled, n - 1) + if settled[n - 1].work is Some {
            1nat
        } else {
            0
        }
    }
}

proof fn lemma_working(settled: Seq<Settled>, m: int, n: int)
    requires
        0 <= m <= n,
    ensures
        working(settled, m) <= working(settled, n),
    decreases n,
{
    if m < n {
        lemma_working(settled, m, n - 1);
    }
}

/// Decide every external, in configuration order: its row, and, for each that
/// needs work, the op.
pub fn decide_all(externals: &Vec<External>, settled: Vec<Settled>, home: &str) -> (r: (
    Vec<Change>,
    Vec<Op>,
))
    requires
        settled@.len() == externals@.len(),
    ensures
        r.0@.len() == externals@.len(),
        forall|i: int|
            0 <= i < externals@.len() ==> is_external_row(
                #[trigger] r.0@[i],
                externals@[i],
                settled@[i],
            ),
        r.1@.len() == working(settled@, externals@.len() as int),
        forall|i: int|
            0 <= i < externals@.len() && (#[trigger] settled@[i]).work is Some ==> is_op(
                r.1@[working(settled@, i) as int],
                i,
                externals@[i],
                settled@[i].work->0,
                home@,
            ),
{
    let ghost all = settled@;
    let ghost n = externals@.len() as int;
    let mut settled = settled;
    let mut rows: Vec<Change> = Vec::new();
    let mut ops: Vec<Op> = Vec::new();
    while settled.len() > 0
        invariant
            n == externals@.len(),
            all.len() == n,
            settled@ == all.subrange(0, settled@.len() as int),
            settled@.len() + rows@.len() == n,
            forall|k: int|
                0 <= k < rows@.len() ==> is_external_row(
                    #[trigger] rows@[k],
                    externals@[n - 1 - k],
                    all[n - 1 - k],
                ),
            ops@.len() + working(all, settled@.len() as int) == working(all, n),
            forall|i: int|
                settled@.len() <= i < n && (#[trigger] all[i]).work is Some ==> is_op(
                    ops@[working(all, n) - 1 - working(all, i)],
                    i,
                    externals@[i],
                    all[i].work->0,
                    home@,
                ),
        decreases settled@.len(),
    {
        let at = settled.len() - 1;
        assert(settled@[at as int] == all[at as int]);
        let ghost before = ops@;
        if let Some(one) = settled.pop() {
            rows.push(row(&externals[at], &one));
            if let Some(work) = one.work {
                ops.push(
                    Op {
                        at,
                        target: externals[at].path.clone(),
                        dest: render(externals[at].path.text.as_str(), home),
                        url: externals[at].url.clone(),
                        rev: externals[at].rev.clone(),
                        work,
                    },
                );
            }
        }
        assert(settled@ =~= all.subrange(0, settled@.len() as int));
        proof {
            assert forall|i: int| at <= i < n && (#[trigger] all[i]).work is Some implies is_op(
                ops@[working(all, n) - 1 - working(all, i)],
                i,
                externals@[i],
                all[i].work->0,
                home@,
            ) by {
                if i > at {
                    lemma_working(all, at + 1, i);
                    lemma_working(all, i + 1, n);
                    let k = working(all, n) - 1 - working(all, i);
                    assert(ops@[k] == before[k]);
                }
            }
        }
    }
    let out = backwards(ops);
    let shown = backwards(rows);
    proof {
        assert forall|i: int| 0 <= i < n implies is_external_row(
            #[trigger] shown@[i],
            externals@[i],
            all[i],
        ) by {
            assert(shown@[i] == rows@[n - 1 - i]);
        }
        assert forall|i: int| 0 <= i < n && (#[trigger] all[i]).work is Some implies is_op(
            out@[working(all, i) as int],
            i,
            externals@[i],
            all[i].work->0,
            home@,
        ) by {
            lemma_working(all, i + 1, n);
            assert(out@[working(all, i) as int] == ops@[working(all, n) - 1 - working(all, i)]);
        }
    }
    (shown, out)
}

/// What is said of a checkout `rm` must leave, by git's answers in turn.
#[derive(Debug, PartialEq, Eq)]
pub enum Keeping {
    /// Whether it is a checkout of its own.
    Top,
    /// Whether it holds changes, or files that are not tracked.
    Status,
    /// Which commit is checked out.
    Head,
    /// How many commits are only here, `head` being checked out.
    Loose { head: String },
}

/// What comes next before a checkout is removed.
#[derive(Debug, PartialEq, Eq)]
pub enum Kept {
    /// Ask this next.
    Ask(Keeping),
    /// It stays, and why.
    Stays(String),
    /// Nothing in it is anyone's but the remote's.
    Goes,
}

/// Whether a checkout stays with this note.
pub open spec fn stays(kept: Kept, note: Seq<char>) -> bool {
    kept matches Kept::Stays(why) && why@ == note
}

/// Whether `kept` is what an answer leads to before a checkout is removed.
pub open spec fn keeps(
    kept: Kept,
    stage: Keeping,
    reply: Result<String, Trouble>,
    canonical: Option<Seq<char>>,
) -> bool {
    match stage {
        Keeping::Top => match not_own_words(reply, canonical) {
            Some(note) => stays(kept, note),
            None => kept == Kept::Ask(Keeping::Status),
        },
        Keeping::Status => match reply {
            Err(trouble) => stays(kept, trouble_words(trouble)),
            Ok(status) => if status@.len() > 0 {
                stays(
                    kept,
                    "has uncommitted changes or untracked files that removing it would lose"@,
                )
            } else {
                kept == Kept::Ask(Keeping::Head)
            },
        },
        Keeping::Head => match reply {
            Err(trouble) => stays(kept, trouble_words(trouble)),
            Ok(head) => kept == Kept::Ask(Keeping::Loose { head }),
        },
        Keeping::Loose { .. } => match reply {
            Err(trouble) => stays(kept, trouble_words(trouble)),
            Ok(text) => match counted(text@) {
                None => stays(kept, "git did not say how many commits are only here"@),
                Some(n) => if n == 0 {
                    kept is Goes
                } else {
                    stays(
                        kept,
                        "holds "@ + numeral(n, 10)
                            + " commit(s) bx did not fetch, which removing it would lose"@,
                    )
                },
            },
        },
    }
}

/// Why `rm` must leave a checkout, or that it may go: what git's answer to the
/// question that was asked leads to.
///
/// A file `git status` shows (changed, staged or untracked) and a commit that no
/// remote-tracking branch holds, on any ref or in the stash, are the user's:
/// removing the directory would lose them. The commit bx last left checked out
/// is not counted, since bx fetched it. A file the repository ignores is not the
/// user's either: the repository declares it disposable.
pub fn kept_by_rm(
    stage: Keeping,
    reply: Result<String, Trouble>,
    canonical: &Option<String>,
) -> (r: Kept)
    ensures
        keeps(r, stage, reply, opt_text(*canonical)),
{
    match stage {
        Keeping::Top => match own_checkout(&reply, canonical) {
            Err(note) => Kept::Stays(note),
            Ok(_) => Kept::Ask(Keeping::Status),
        },
        Keeping::Status => match dirty(reply) {
            Err(trouble) => Kept::Stays(problem(&trouble)),
            Ok(changed) => if changed {
                Kept::Stays(
                    "has uncommitted changes or untracked files that removing it would lose".to_owned(),
                )
            } else {
                Kept::Ask(Keeping::Head)
            },
        },
        Keeping::Head => match reply {
            Err(trouble) => Kept::Stays(problem(&trouble)),
            Ok(head) => Kept::Ask(Keeping::Loose { head }),
        },
        Keeping::Loose { .. } => match reply {
            Err(trouble) => Kept::Stays(problem(&trouble)),
            Ok(text) => match count(text.as_str()) {
                None => Kept::Stays("git did not say how many commits are only here".to_owned()),
                Some(n) => if n == 0 {
                    Kept::Goes
                } else {
                    Kept::Stays(
                        "holds ".to_owned().concat(numeral_of(n as u128, 10).as_str()).concat(
                            " commit(s) bx did not fetch, which removing it would lose",
                        ),
                    )
                },
            },
        },
    }
}

/// A checkout is removed only when nothing in it is anyone's but the remote's:
/// git said, in turn, that it is a checkout of its own, that nothing in it is
/// changed or untracked, which commit is checked out, and that no commit is
/// only here.
pub proof fn a_clone_is_removed_only_when_nothing_in_it_is_the_users(
    top: Result<String, Trouble>,
    status: Result<String, Trouble>,
    head: Result<String, Trouble>,
    loose: Result<String, Trouble>,
    canonical: Option<Seq<char>>,
    second: Keeping,
    third: Keeping,
    fourth: Keeping,
)
    requires
        keeps(Kept::Ask(second), Keeping::Top, top, canonical),
        keeps(Kept::Ask(third), second, status, canonical),
        keeps(Kept::Ask(fourth), third, head, canonical),
        keeps(Kept::Goes, fourth, loose, canonical),
    ensures
        not_own_words(top, canonical) is None,
        status matches Ok(changes) && changes@.len() == 0,
        head is Ok,
        loose matches Ok(text) && counted(text@) == Some(0nat),
        fourth == (Keeping::Loose { head: head->Ok_0 }),
{
}

impl Keeping {
    /// The question git is asked.
    pub fn query(&self, entry: &LedgerEntry) -> (r: Query)
        ensures
            match *self {
                Keeping::Top => r is Toplevel,
                Keeping::Status => r is StatusAll,
                Keeping::Head => r is Head,
                Keeping::Loose { head } => r matches Query::Loose { known } && known_commit(
                    known,
                    head@,
                    *entry,
                ),
            },
    {
        match self {
            Keeping::Top => Query::Toplevel,
            Keeping::Status => Query::StatusAll,
            Keeping::Head => Query::Head,
            Keeping::Loose { head } => Query::Loose {
                known: known(head, entry),
            },
        }
    }
}

/// Filling a clone takes each step in turn: the repository, its remote, every
/// branch, the pinned commit (by id where no branch brought it), the checkout, and
/// a last look. A step git fails stops it, in git's words, and it is done exactly
/// where the commit that is checked out in the end is the pinned one.
pub proof fn a_clone_is_filled_step_by_step(
    go: Go,
    op: Op,
    entry: Option<LedgerEntry>,
    step: Step,
    reply: Result<String, Trouble>,
)
    requires
        op.work is Clone,
        goes(go, op, entry, step, reply),
    ensures
        reply is Ok ==> match step {
            Step::Init => go == Go::Ask(Step::Remote),
            Step::Remote => go == Go::Ask(Step::Fetch),
            Step::Fetch => go == Go::Ask(Step::Has),
            Step::Has => go == Go::Ask(Step::HasAgain),
            Step::FetchRev => go == Go::Ask(Step::HasAgain),
            Step::HasAgain => go == Go::Ask(Step::CheckOut),
            Step::CheckOut => go == Go::Ask(Step::Check),
            Step::Check => go is Done <==> reply->Ok_0@ == op.rev@,
            _ => go is Stop,
        },
        reply is Err ==> match step {
            Step::Has => go == Go::Ask(Step::FetchRev),
            Step::HasAgain => go matches Go::Stop(why) && why@ == op.rev@
                + " is not a commit the remote has"@,
            Step::Init | Step::Remote | Step::Fetch | Step::FetchRev | Step::CheckOut | Step::Check => (
            go matches Go::Stop(why) && why@ == trouble_words(reply->Err_0)),
            _ => go is Stop,
        },
        step is Check && reply is Ok && reply->Ok_0@ != op.rev@ ==> (go matches Go::Stop(why)
            && why@ == "git checked out "@ + reply->Ok_0@ + ", not "@ + op.rev@),
{
}

/// Moving a checkout takes each step in turn: it has to be at the planned commit
/// and hold no change, then every branch is fetched, and the pinned commit by id
/// where no branch brought it; it is checked out exactly where git says it
/// descends from the planned one. Anything else stops it, and says why.
pub proof fn a_checkout_is_moved_step_by_step(
    go: Go,
    op: Op,
    entry: Option<LedgerEntry>,
    step: Step,
    reply: Result<String, Trouble>,
)
    requires
        op.work is Advance,
        goes(go, op, entry, step, reply),
    ensures
        ({
            let from = op.work->from@;
            let rev = op.rev@;
            let no = reply matches Err(Trouble::Git { code, .. }) && code == Some(1i32);
            match step {
                Step::Head => go == Go::Ask(Step::Status { head: reply }),
                Step::Status { head } => {
                    let still = head is Ok && head->Ok_0@ == from && reply is Ok
                        && reply->Ok_0@.len() == 0;
                    &&& go == Go::Ask(Step::Fetch) <==> still
                    &&& !still ==> go is Stop
                    &&& head is Ok && reply is Ok && reply->Ok_0@.len() > 0 ==> (
                    go matches Go::Stop(why) && why@
                        == "has uncommitted changes since bx planned; bx left it as it is"@)
                    &&& head is Ok && head->Ok_0@ != from && reply is Ok && reply->Ok_0@.len() == 0
                        ==> (go matches Go::Stop(why) && why@ == "moved to "@ + head->Ok_0@
                        + " since bx planned against "@ + from + "; bx left it as it is"@)
                },
                Step::Fetch => if reply is Ok {
                    go == Go::Ask(Step::Has)
                } else {
                    go matches Go::Stop(why) && why@ == trouble_words(reply->Err_0)
                },
                Step::Has => if reply is Ok {
                    go == Go::Ask(Step::HasAgain)
                } else {
                    go == Go::Ask(Step::FetchRev)
                },
                Step::FetchRev => if reply is Ok {
                    go == Go::Ask(Step::HasAgain)
                } else {
                    go matches Go::Stop(why) && why@ == trouble_words(reply->Err_0)
                },
                Step::HasAgain => if reply is Ok {
                    go == Go::Ask(Step::Ancestor)
                } else {
                    go matches Go::Stop(why) && why@ == rev + " is not a commit the remote has"@
                },
                Step::Ancestor => {
                    &&& reply is Ok ==> go == Go::Ask(Step::CheckOut)
                    &&& no && entry is Some ==> go == Go::Ask(Step::Ahead)
                    &&& no && entry is None ==> (go matches Go::Stop(why) && why@ == rev
                        + " is not a fast-forward from "@ + from)
                    &&& reply is Err && !no ==> (go matches Go::Stop(why) && why@ == trouble_words(
                        reply->Err_0,
                    ))
                },
                Step::Ahead => go is Stop,
                Step::CheckOut => if reply is Ok {
                    go is Done
                } else {
                    go matches Go::Stop(why) && why@ == trouble_words(reply->Err_0)
                },
                _ => go is Stop,
            }
        }),
{
}

/// A commit is recorded exactly where the checkout still is at it.
pub proof fn a_commit_is_recorded_only_where_it_is(
    go: Go,
    op: Op,
    entry: Option<LedgerEntry>,
    step: Step,
    reply: Result<String, Trouble>,
)
    requires
        op.work is Record,
        goes(go, op, entry, step, reply),
    ensures
        go is Done <==> step is Head && reply is Ok && reply->Ok_0@ == op.rev@,
        go is Done || go is Stop,
        step is Head && reply is Ok && reply->Ok_0@ != op.rev@ ==> (go matches Go::Stop(why)
            && why@ == "moved to "@ + reply->Ok_0@ + " since bx planned; bx left it as it is"@),
{
}

/// Each step runs the command its answer is read as, on the op's own commit and
/// remote, and on the commit it is moved from.
pub proof fn a_step_runs_its_own_command(
    step: Step,
    op: Op,
    entry: Option<LedgerEntry>,
    query: Query,
)
    requires
        step.queried(op, entry, query),
    ensures
        step is Init <==> query is Init,
        step is Remote <==> query is Remote,
        step is Head || step is Check <==> query is Head,
        step is Status <==> query is Status,
        step is Fetch <==> query is Fetch,
        step is Has || step is HasAgain <==> query is Has,
        step is FetchRev <==> query is FetchRev,
        step is Ancestor <==> query is Ancestor,
        step is Ahead <==> query is Ahead,
        step is CheckOut <==> query is CheckOut,
        query matches Query::Init { rev } ==> rev@ == op.rev@,
        query matches Query::Remote { url } ==> url@ == op.url@,
        query matches Query::Has { rev } ==> rev@ == op.rev@,
        query matches Query::FetchRev { rev } ==> rev@ == op.rev@,
        query matches Query::CheckOut { rev } ==> rev@ == op.rev@,
        query matches Query::Ancestor { ancestor, descendant } ==> descendant@ == op.rev@ && (
        op.work matches Work::Advance { from } ==> ancestor@ == from@),
        query matches Query::Ahead { rev, known } ==> rev@ == op.rev@ && (op.work matches
            Work::Advance { from } ==> entry is Some ==> (known is Some <==> entry->0.written.bytes@
            == sha256_of(encode_utf8(from@))) && (known matches Some(commit) ==> commit@
            == from@)),
{
}

/// Before a checkout is removed each question is asked in turn, and each answer
/// that leaves something of anyone's keeps it: where git answers from that very
/// directory, shows no file, names its commit and counts no commit that is only
/// here, it goes.
pub proof fn a_checkout_is_removed_question_by_question(
    kept: Kept,
    stage: Keeping,
    reply: Result<String, Trouble>,
    canonical: Option<Seq<char>>,
)
    requires
        keeps(kept, stage, reply, canonical),
    ensures
        match stage {
            Keeping::Top => if reply is Ok && canonical is Some && components(canonical->0)
                == components(reply->Ok_0@) {
                kept == Kept::Ask(Keeping::Status)
            } else {
                kept is Stays
            },
            Keeping::Status => if reply is Ok && reply->Ok_0@.len() == 0 {
                kept == Kept::Ask(Keeping::Head)
            } else {
                kept is Stays
            },
            Keeping::Head => match reply {
                Ok(head) => kept matches Kept::Ask(Keeping::Loose { head: found }) && found@
                    == head@,
                Err(_) => kept is Stays,
            },
            Keeping::Loose { .. } => if reply is Ok && counted(reply->Ok_0@) == Some(0nat) {
                kept is Goes
            } else {
                kept is Stays
            },
        },
        stage is Status && reply is Ok && reply->Ok_0@.len() > 0 ==> (kept matches Kept::Stays(why)
            && why@ == "has uncommitted changes or untracked files that removing it would lose"@),
        stage is Loose && reply is Ok && counted(reply->Ok_0@) is Some && counted(reply->Ok_0@)->0
            > 0 ==> (kept matches Kept::Stays(why) && why@ == "holds "@ + numeral(
            counted(reply->Ok_0@)->0,
            10,
        ) + " commit(s) bx did not fetch, which removing it would lose"@),
{
}

/// Those of some directories that were made are told by what came of each: one
/// that was made comes last, one that was there already is not among them.
pub proof fn only_what_was_made_is_claimed(
    dirs: Seq<Seq<char>>,
    dir: Seq<char>,
    results: Seq<Mkdir>,
)
    requires
        dirs.len() < results.len(),
    ensures
        made_of(Seq::empty(), results).len() == 0,
        results[dirs.len() as int] is Made ==> made_of(dirs.push(dir), results) == made_of(
            dirs,
            results,
        ).push(dir),
        results[dirs.len() as int] !is Made ==> made_of(dirs.push(dir), results) == made_of(
            dirs,
            results,
        ),
{
    assert(dirs.push(dir).drop_last() =~= dirs);
}

/// Directories that are as deep as each other keep their order: one that is no
/// deeper than any before it stays behind them all.
pub proof fn as_deep_directories_keep_their_order(dirs: Seq<Seq<char>>, dir: Seq<char>)
    requires
        forall|k: int|
            0 <= k < dirs.len() ==> components(#[trigger] dirs[k]).len() >= components(dir).len(),
    ensures
        by_depth(dirs.push(dir)) == by_depth(dirs).push(dir),
{
    broadcast use vstd::seq_lib::group_to_multiset_ensures;

    deepest_comes_first(dirs);
    assert(dirs.push(dir).drop_last() =~= dirs);
    let sorted = by_depth(dirs);
    if sorted.len() > 0 {
        let last = sorted.last();
        assert(sorted[sorted.len() - 1] == last);
        assert(sorted.contains(last));
        assert(sorted.to_multiset().count(last) > 0);
        assert(dirs.to_multiset().count(last) > 0);
        assert(dirs.contains(last));
        let k = choose|k: int| 0 <= k < dirs.len() && dirs[k] == last;
        assert(components(dirs[k]).len() >= components(dir).len());
    }
}

/// What the ledger says of a clone: its commit once it is finished and nothing
/// before, its directory, its mode, that nothing was there, and the directories it
/// made.
pub proof fn an_entry_records_its_clone(
    entry: LedgerEntry,
    target: Portable,
    rev: Option<Seq<char>>,
    mode: Mode,
    created: Seq<Seq<char>>,
)
    requires
        is_clone_entry(entry, target, rev, mode, created),
    ensures
        entry.path.text@ == target.text@,
        rev is Some ==> entry.written.bytes@ == sha256_of(encode_utf8(rev->0)),
        rev is None ==> entry.written.bytes@ == sha256_of(Seq::empty()),
        entry.mode == mode,
        entry.mechanism == Mechanism::Clone,
        entry.prior is Absent,
        entry.created_dirs@.len() == created.len(),
        forall|i: int|
            0 <= i < created.len() ==> (#[trigger] entry.created_dirs@[i]).text@ == created[i],
{
    assert(texts(entry.created_dirs@).len() == entry.created_dirs@.len());
    assert forall|i: int| 0 <= i < created.len() implies (
    #[trigger] entry.created_dirs@[i]).text@ == created[i] by {
        assert(texts(entry.created_dirs@)[i] == created[i]);
    }
}

/// Every external that needs work has its op, in configuration order, and no
/// other has one: the ops before it are as many as the externals before it that
/// need work.
pub proof fn every_external_that_needs_work_has_its_op(settled: Seq<Settled>, n: int)
    requires
        0 <= n < settled.len(),
    ensures
        working(settled, 0) == 0,
        settled[n].work is Some ==> working(settled, n + 1) == working(settled, n) + 1,
        settled[n].work is None ==> working(settled, n + 1) == working(settled, n),
{
}

/// Two entries are the same only if they are of one target and say the same of
/// it: the digest, the mode, the mechanism, the prior and the claims.
pub proof fn only_equal_entries_are_the_same(a: LedgerEntry, b: LedgerEntry)
    ensures
        same_entry(a, b) <==> a.path == b.path && a.written@ == b.written@ && a.mode == b.mode
            && a.mechanism == b.mechanism && (a.prior is Absent <==> b.prior is Absent) && (
        a.prior matches Prior::Existed(one) ==> (b.prior matches Prior::Existed(other)
            && one.digest@ == other.digest@ && one.mode == other.mode && one.len == other.len))
            && a.created_dirs@.len() == b.created_dirs@.len() && forall|i: int|
            0 <= i < a.created_dirs@.len() ==> (#[trigger] a.created_dirs@[i])@
                == b.created_dirs@[i]@,
{
    let x = texts(a.created_dirs@);
    let y = texts(b.created_dirs@);
    if x == y {
        assert forall|i: int| 0 <= i < a.created_dirs@.len() implies (#[trigger] a.created_dirs@[i])@
            == b.created_dirs@[i]@ by {
            assert(x[i] == y[i]);
        }
    } else if a.created_dirs@.len() == b.created_dirs@.len() && forall|i: int|
        0 <= i < a.created_dirs@.len() ==> (#[trigger] a.created_dirs@[i])@ == b.created_dirs@[i]@ {
        assert(x =~= y);
    }
}

/// What is to be done for an external is its own: its row, its path and where
/// that renders, its remote, its commit, and the work that was settled for it.
pub proof fn an_op_is_its_externals(op: Op, at: int, external: External, work: Work, home: Seq<char>)
    requires
        is_op(op, at, external, work, home),
    ensures
        op.at == at,
        op.target@ == external.path@,
        op.dest@ == rendered(external.path@, home),
        op.url@ == external.url@,
        op.rev@ == external.rev@,
        op.work == work,
{
}

} // verus!
