use bx::fs::{Kind, Mode, Observed, Parent, ParentState};
use bx::plan::checkout::{
    begin_clone, decide_all, deepest_first, first, kept_by_rm, made_dirs, record_rev, work, Go,
    Keeping, Kept, Mkdir, Op, Step,
};
use bx::plan::cloning::{Ask, Cloning, Did};
use bx::plan::diff::DiffKind;
use bx::plan::external::{
    clone_written, decide, decide_checkout, missing_dirs, row, External, Look, Looked, Ruling,
    Settled, There, Work,
};
use bx::plan::git::{dirty, is_ancestor, object_format, origin_url, problem, Query, Trouble};
use bx::plan::rows::{Change, Origin};
use bx::report::Action;
use bx::state::{ContentHash, Ledger, LedgerEntry, Mechanism, Portable, Prior};

const HOME: &str = "/home/someone";
const AT: &str = "/home/someone/.zsh/plugins/a";
const TARGET: &str = "~/.zsh/plugins/a";
const URL: &str = "https://example.invalid/upstream";
const FIRST: &str = "1111111111111111111111111111111111111111";
const SECOND: &str = "2222222222222222222222222222222222222222";
const SIDE: &str = "3333333333333333333333333333333333333333";
const MINE: &str = "4444444444444444444444444444444444444444";

fn portable(text: &str) -> Portable {
    Portable { text: text.to_owned() }
}

fn external(rev: &str) -> External {
    External {
        path: portable(TARGET),
        url: URL.to_owned(),
        rev: rev.to_owned(),
        origin: Origin { file: "/repo/bx.toml".to_owned(), line: 1 },
    }
}

/// A remote with `first` and `second` on one branch and `side` on another, a
/// checkout of it, and the ledger.
struct World {
    head: Option<String>,
    origin: String,
    fetched: bool,
    dirty: bool,
    ahead: usize,
    loose: usize,
    ledger: Ledger,
    saved: Ledger,
    dirs: Vec<String>,
    full: bool,
    asked: Vec<String>,
}

fn no() -> Trouble {
    Trouble::Git { args: "quiet".to_owned(), code: Some(1), stderr: String::new() }
}

impl World {
    fn new() -> World {
        World {
            head: None,
            origin: URL.to_owned(),
            fetched: false,
            dirty: false,
            ahead: 0,
            loose: 0,
            ledger: Ledger::new(),
            saved: Ledger::new(),
            dirs: Vec::new(),
            full: false,
            asked: Vec::new(),
        }
    }

    /// A checkout bx made at `rev`, and recorded.
    fn cloned(rev: &str) -> World {
        let mut world = World::new();
        world.head = Some(rev.to_owned());
        world.fetched = true;
        record_rev(&mut world.ledger, &portable(TARGET), rev, Some(Mode::default_dir()));
        world
    }

    fn entry(&self) -> Option<&LedgerEntry> {
        self.ledger.find(TARGET).map(|i| &self.ledger.entries[i])
    }

    fn observe(&self) -> Observed {
        let there = self.head.is_some();
        Observed {
            path: AT.to_owned(),
            kind: if there { Kind::Dir } else { Kind::Absent },
            mode: there.then(Mode::default_dir),
            bytes: None,
            parent: Some(Parent {
                path: "/home/someone/.zsh/plugins".to_owned(),
                state: if there {
                    ParentState::Present(Mode::default_dir())
                } else {
                    ParentState::Absent(Mode::default_dir())
                },
            }),
            stamp: None,
        }
    }

    fn looked(&self) -> Vec<Looked> {
        let missing = if self.head.is_some() { There::Dir } else { There::Missing };
        let again = if self.head.is_some() { There::Dir } else { There::Missing };
        vec![
            Looked { path: "/home/someone/.zsh/plugins".to_owned(), there: missing },
            Looked { path: "/home/someone/.zsh".to_owned(), there: again },
            Looked { path: HOME.to_owned(), there: There::Dir },
        ]
    }

    /// What git answers.
    fn git(&mut self, query: Query) -> Result<String, Trouble> {
        self.asked.push(query.args().join(" "));
        let ok = || Ok(String::new());
        match query {
            Query::Toplevel => Ok(AT.to_owned()),
            Query::Head => self.head.clone().ok_or_else(no),
            Query::Origin => Ok(self.origin.clone()),
            Query::Status | Query::StatusAll => {
                Ok(if self.dirty { " M a.zsh".to_owned() } else { String::new() })
            }
            Query::Has { rev } => {
                let known = [FIRST, SECOND, SIDE].contains(&rev.as_str()) || rev.len() == 64;
                if self.fetched && known {
                    ok()
                } else {
                    Err(no())
                }
            }
            Query::Ancestor { ancestor, descendant } => {
                if ancestor == FIRST || ancestor == descendant {
                    ok()
                } else {
                    Err(no())
                }
            }
            Query::Ahead { .. } => Ok(self.ahead.to_string()),
            Query::Loose { .. } => Ok(self.loose.to_string()),
            Query::Init { .. } | Query::Remote { .. } => ok(),
            Query::Fetch | Query::FetchRev { .. } => {
                self.fetched = true;
                ok()
            }
            Query::CheckOut { rev } => {
                self.head = Some(rev);
                ok()
            }
        }
    }

    fn settle(&mut self, external: &External) -> Settled {
        let entry = self.entry().cloned();
        let mut ruling =
            decide(external, entry.as_ref(), &self.observe(), &self.looked(), HOME);
        loop {
            match ruling {
                Ruling::Settle(settled) => return settled,
                Ruling::Ask(look) => {
                    let entry = entry.as_ref().expect("only a clone bx made is asked about");
                    let reply = self.git(look.query(external, entry));
                    let canonical = Some(AT.to_owned());
                    ruling = decide_checkout(external, entry, &canonical, HOME, look, reply);
                }
            }
        }
    }

    fn plan(&mut self, rev: &str) -> (Change, Vec<Op>) {
        let external = external(rev);
        let settled = self.settle(&external);
        let shown = row(&external, &settled);
        let (mut changes, ops) = decide_all(&vec![external], vec![settled], HOME);
        assert_eq!(changes.len(), 1);
        assert_eq!(changes[0], shown);
        (changes.remove(0), ops)
    }

    /// Do the work a plan announced: the note it stopped with, if it did.
    fn carry_out(&mut self, op: &Op) -> Option<String> {
        if let Work::Clone { .. } = &op.work {
            return self.clone_it(op);
        }
        let entry = self.entry().cloned();
        let mut step = first(&op.work);
        loop {
            let reply = self.git(step.query(op, entry.as_ref()));
            match work(op, entry.as_ref(), step, reply) {
                Go::Ask(next) => step = next,
                Go::Done => {
                    record_rev(&mut self.ledger, &op.target, &op.rev, Some(Mode::default_dir()));
                    return None;
                }
                Go::Stop(note) => return Some(note),
            }
        }
    }

    fn clone_it(&mut self, op: &Op) -> Option<String> {
        let op = Op {
            at: op.at,
            target: op.target.clone(),
            dest: op.dest.clone(),
            url: op.url.clone(),
            rev: op.rev.clone(),
            work: match &op.work {
                Work::Clone { replace, created_dirs } => {
                    Work::Clone { replace: *replace, created_dirs: created_dirs.clone() }
                }
                other => panic!("{other:?} is no clone"),
            },
        };
        let (mut cloning, mut ask) = Cloning::start(op, &self.ledger);
        loop {
            let did = match ask {
                Ask::Done => return None,
                Ask::Stopped(note) => return Some(note),
                Ask::Look(_) => Did::Found(self.observe().kind),
                Ask::Remove(_) => {
                    self.head = None;
                    Did::Removed
                }
                Ask::Parents(dirs) => {
                    self.dirs.extend(dirs.iter().cloned());
                    Did::Parents(dirs.iter().map(|_| Mkdir::Made).collect())
                }
                Ask::Save => {
                    self.saved = self.ledger.clone();
                    Did::Saved
                }
                Ask::Make(_) => {
                    let held = self.saved.find(TARGET).map(|i| &self.saved.entries[i]);
                    assert_eq!(
                        held.map(|entry| &entry.written),
                        Some(&clone_written(None)),
                        "saved as unfinished before the directory is made"
                    );
                    Did::Made(match self.full {
                        true => Err("No space left on device".to_owned()),
                        false => Ok(()),
                    })
                }
                Ask::Git(query) => Did::Replied(self.git(query)),
                Ask::Mode(_) => Did::Mode(Some(Mode::default_dir())),
                Ask::Discard(_) => {
                    self.head = None;
                    Did::Discarded
                }
                Ask::Prune(dirs) => {
                    self.dirs.retain(|dir| !dirs.contains(dir));
                    Did::Pruned
                }
            };
            ask = cloning.report(did, &mut self.ledger, HOME).expect("nothing fails");
        }
    }

    fn rm(&mut self) -> Kept {
        let entry = self.entry().cloned().expect("a clone bx made");
        let mut stage = Keeping::Top;
        loop {
            let reply = self.git(stage.query(&entry));
            match kept_by_rm(stage, reply, &Some(AT.to_owned())) {
                Kept::Ask(next) => stage = next,
                end => return end,
            }
        }
    }
}

#[test]
fn an_absent_external_is_a_create_that_clones_at_rev_and_then_converges() {
    let mut world = World::new();
    let (change, ops) = world.plan(FIRST);
    assert_eq!(change.action, Action::Create);
    assert_eq!(change.target, TARGET);
    let note = change.note.as_deref().expect("a note");
    assert!(note.contains(&format!("clones {URL} at {FIRST}")), "{note}");
    assert!(note.contains("creates ~/.zsh, ~/.zsh/plugins"), "{note}");
    assert_eq!(world.head, None, "plan writes nothing");
    assert_eq!(
        change.diff.map(|diff| diff.kind),
        Some(DiffKind::Checkout {
            from: None,
            to: FIRST.to_owned(),
            url: URL.to_owned(),
        })
    );
    assert_eq!(
        ops[0].work,
        Work::Clone {
            replace: false,
            created_dirs: vec![
                "/home/someone/.zsh/plugins".to_owned(),
                "/home/someone/.zsh".to_owned(),
            ],
        }
    );
    assert_eq!(world.carry_out(&ops[0]), None);
    assert_eq!(world.head.as_deref(), Some(FIRST));
    let entry = world.entry().expect("recorded");
    assert_eq!(entry.written, clone_written(Some(FIRST)));
    assert_eq!(entry.mechanism, Mechanism::Clone);
    let claims: Vec<&str> = entry.created_dirs.iter().map(|dir| dir.text.as_str()).collect();
    assert_eq!(claims, ["~/.zsh/plugins", "~/.zsh"]);
    assert!(
        !world.asked.iter().any(|args| args.contains("branch") || args.contains(" -b ")),
        "bx makes no local branch: {:?}",
        world.asked
    );

    // Converged: the second plan is empty, and it does not reach the remote.
    world.asked.clear();
    let (again, ops) = world.plan(FIRST);
    assert_eq!(again.action, Action::Unchanged);
    assert!(ops.is_empty(), "nothing to do");
    assert!(!world.asked.iter().any(|args| args.contains("fetch")), "{:?}", world.asked);
}

#[test]
fn a_clone_is_made_in_the_object_format_its_rev_is_written_in() {
    assert_eq!(object_format(FIRST), "--object-format=sha1");
    assert_eq!(object_format(&"a".repeat(64)), "--object-format=sha256");
    let init = Query::Init { rev: FIRST.to_owned() };
    assert_eq!(init.args(), ["init", "--quiet", "--object-format=sha1"]);

    // A rev of sixty-four digits is cloned into a SHA-256 checkout, and one of
    // forty into a SHA-1 checkout, whatever the user's git makes.
    let long = "a".repeat(64);
    for (rev, format) in [(long.as_str(), "sha256"), (FIRST, "sha1")] {
        let mut world = World::new();
        let (_, ops) = world.plan(rev);
        assert_eq!(world.carry_out(&ops[0]), None);
        assert_eq!(world.head.as_deref(), Some(rev));
        let made = format!("init --quiet --object-format={format}");
        assert!(world.asked.contains(&made), "{:?}", world.asked);
        assert_eq!(world.plan(rev).0.action, Action::Unchanged);
    }
}

#[test]
fn a_rev_that_moved_is_a_modify_naming_both_commits_and_apply_fast_forwards() {
    let mut world = World::cloned(FIRST);
    let (row, ops) = world.plan(SECOND);
    assert_eq!(row.action, Action::Modify);
    assert_eq!(
        row.diff.as_ref().map(|diff| &diff.kind),
        Some(&DiffKind::Checkout {
            from: Some(FIRST.to_owned()),
            to: SECOND.to_owned(),
            url: URL.to_owned(),
        })
    );
    let note = row.note.as_deref().expect("a note");
    assert!(note.contains(FIRST) && note.contains(SECOND), "{note}");

    assert_eq!(world.carry_out(&ops[0]), None);
    assert_eq!(world.head.as_deref(), Some(SECOND));
    assert_eq!(
        world.entry().expect("recorded").written,
        clone_written(Some(SECOND))
    );
    assert_eq!(world.plan(SECOND).0.action, Action::Unchanged);
}

#[test]
fn a_commit_fetched_only_at_apply_is_fast_forwarded_to() {
    let mut world = World::cloned(FIRST);
    world.fetched = false;
    let (row, ops) = world.plan(SECOND);
    let note = row.note.expect("a note");
    assert!(note.starts_with(&format!("fetches {URL}")), "{note}");
    assert_eq!(world.carry_out(&ops[0]), None);
    assert_eq!(world.head.as_deref(), Some(SECOND));
}

#[test]
fn a_rev_that_is_not_a_fast_forward_is_blocked_and_the_checkout_is_left() {
    let mut world = World::cloned(SECOND);
    let (row, ops) = world.plan(SIDE);
    assert_eq!(row.action, Action::Blocked);
    let note = row.note.as_deref().expect("a note");
    assert!(note.contains("is not a fast-forward"), "{note}");
    assert!(ops.is_empty());
    assert_eq!(world.head.as_deref(), Some(SECOND), "left as it was");
}

#[test]
fn a_rev_fetched_only_at_apply_that_is_not_a_fast_forward_stops_there() {
    let mut world = World::cloned(SECOND);
    world.fetched = false;
    let (_, ops) = world.plan(SIDE);
    let note = world.carry_out(&ops[0]).expect("it stops");
    assert!(note.contains("is not a fast-forward"), "{note}");
    assert_eq!(world.head.as_deref(), Some(SECOND));
    assert!(!world.asked.iter().any(|args| args.contains("checkout")), "{:?}", world.asked);

    // A commit of the user's on top of the checkout.
    let mut world = World::cloned(FIRST);
    world.fetched = false;
    world.head = Some(MINE.to_owned());
    world.ahead = 1;
    let (change, ops) = world.plan(SECOND);
    assert_eq!(change.action, Action::Modify, "{change:?}");
    let note = world.carry_out(&ops[0]).expect("it stops");
    assert!(note.contains("has 1 local commit(s) not contained in"), "{note}");
    assert_eq!(world.head.as_deref(), Some(MINE), "the user's commit is where it was");
    assert_eq!(
        world.entry().expect("recorded").written,
        clone_written(Some(FIRST)),
        "the ledger is unchanged"
    );
}

#[test]
fn a_checkout_with_uncommitted_changes_or_local_commits_is_blocked() {
    let mut world = World::cloned(FIRST);
    world.dirty = true;
    let (row, _) = world.plan(SECOND);
    assert_eq!(row.action, Action::Blocked);
    assert!(row.note.is_some_and(|note| note.contains("uncommitted changes")));

    world.dirty = false;
    world.head = Some(MINE.to_owned());
    world.ahead = 1;
    let (row, ops) = world.plan(SECOND);
    assert_eq!(row.action, Action::Blocked);
    assert!(
        row.note
            .as_deref()
            .is_some_and(|note| note.contains("has 1 local commit(s) not contained in")),
        "{row:?}"
    );
    assert!(ops.is_empty(), "so an apply leaves it where it is");

    let mut world = World::cloned(SECOND);
    world.ahead = 2;
    let (row, _) = world.plan(SIDE);
    assert_eq!(row.action, Action::Blocked);
    assert!(row.note.is_some_and(|note| note.contains("2 local commit(s)")));
}

#[test]
fn a_directory_bx_did_not_clone_is_a_conflict_and_is_never_touched() {
    let mut world = World::new();
    world.head = Some(FIRST.to_owned());
    let (change, ops) = world.plan(FIRST);
    assert_eq!(change.action, Action::Conflict);
    assert!(
        change.note.as_deref().is_some_and(|n| n.contains("bx did not clone it")),
        "{change:?}"
    );
    assert!(ops.is_empty());
    assert!(world.asked.is_empty(), "git is never asked about it");
    assert!(world.entry().is_none());

    // A file there is refused the same way.
    let external = external(FIRST);
    let observed = Observed {
        kind: Kind::File,
        mode: Some(Mode::default_file()),
        bytes: Some(b"a file\n".to_vec()),
        ..world.observe()
    };
    let Ruling::Settle(settled) = decide(&external, None, &observed, &world.looked(), HOME) else {
        panic!("nothing is asked about a file")
    };
    assert_eq!(row(&external, &settled).action, Action::Conflict);
}

#[test]
fn a_remote_origin_other_than_the_declared_url_is_blocked() {
    let mut world = World::cloned(FIRST);
    world.origin = "https://example.invalid/other".to_owned();
    let (row, _) = world.plan(SECOND);
    assert_eq!(row.action, Action::Blocked);
    assert!(
        row.note
            .as_deref()
            .is_some_and(|n| n.contains("its remote `origin` is https://example.invalid/other")),
        "{row:?}"
    );
}

#[test]
fn a_failed_clone_is_blocked_and_leaves_nothing_behind() {
    let mut world = World::new();
    let unknown = "4444444444444444444444444444444444444444";
    let (_, ops) = world.plan(unknown);
    let note = world.carry_out(&ops[0]).expect("it stops");
    assert_eq!(note, format!("{unknown} is not a commit the remote has"));
    assert_eq!(world.head, None);
    assert!(world.entry().is_none());
    assert_eq!(world.saved, Ledger::new());
    assert!(world.dirs.is_empty(), "the directories made on the way are removed again");

    world.full = true;
    let (_, ops) = world.plan(FIRST);
    assert_eq!(
        world.carry_out(&ops[0]).as_deref(),
        Some("cannot be created: No space left on device")
    );
    assert_eq!(world.saved, Ledger::new());
}

#[test]
fn a_parent_that_cannot_be_made_stops_a_clone_before_the_ledger_is_told() {
    let mut world = World::new();
    let (_, mut ops) = world.plan(FIRST);
    let (mut cloning, ask) = Cloning::start(ops.remove(0), &world.ledger);
    assert_eq!(ask, Ask::Look(AT.to_owned()));
    let ask = cloning.report(Did::Found(Kind::Absent), &mut world.ledger, HOME);
    assert_eq!(
        ask,
        Ok(Ask::Parents(vec![
            "/home/someone/.zsh".to_owned(),
            "/home/someone/.zsh/plugins".to_owned()
        ]))
    );
    let made = vec![Mkdir::Made, Mkdir::Failed("Read-only file system".to_owned())];
    let ask = cloning.report(Did::Parents(made), &mut world.ledger, HOME);
    assert_eq!(ask, Ok(Ask::Prune(vec!["/home/someone/.zsh".to_owned()])));
    let ask = cloning.report(Did::Pruned, &mut world.ledger, HOME);
    assert_eq!(
        ask,
        Ok(Ask::Stopped(
            "~/.zsh/plugins cannot be created: Read-only file system".to_owned()
        ))
    );
    assert_eq!(world.ledger, Ledger::new());
    // A report of something that was not asked moves nothing.
    assert!(cloning.report(Did::Saved, &mut world.ledger, HOME).is_err());
}

#[test]
fn an_interrupted_clone_is_removed_and_cloned_again() {
    let mut world = World::new();
    world.head = Some(FIRST.to_owned());
    begin_clone(&mut world.ledger, &portable(TARGET), Vec::new());
    let (row, ops) = world.plan(FIRST);
    assert_eq!(row.action, Action::Create, "{row:?}");
    assert!(
        row.note.as_deref().is_some_and(|n| n.contains("removes what an interrupted clone left")),
        "{row:?}"
    );
    assert!(matches!(ops[0].work, Work::Clone { replace: true, .. }), "{ops:?}");
    assert_eq!(world.carry_out(&ops[0]), None);
    assert_eq!(
        world.entry().expect("recorded").written,
        clone_written(Some(FIRST))
    );
    assert_eq!(world.plan(FIRST).0.action, Action::Unchanged);

    // A finished clone whose directory the user removed is made again.
    let mut world = World::cloned(FIRST);
    world.head = None;
    let (row, _) = world.plan(FIRST);
    assert_eq!(row.action, Action::Create);
    assert!(row.note.as_deref().is_some_and(|n| n.contains("is gone")), "{row:?}");
}

#[test]
fn a_checkout_at_rev_the_ledger_does_not_record_is_recorded() {
    let mut world = World::cloned(FIRST);
    // An apply that moved the checkout and stopped before saving.
    world.head = Some(SECOND.to_owned());

    let (row, ops) = world.plan(SECOND);
    assert_eq!(row.action, Action::Modify);
    assert!(
        row.note.as_deref().is_some_and(|n| n.contains("records that")),
        "{row:?}"
    );
    assert_eq!(world.carry_out(&ops[0]), None);
    assert_eq!(
        world.entry().expect("recorded").written,
        clone_written(Some(SECOND))
    );
    assert_eq!(world.plan(SECOND).0.action, Action::Unchanged);
}

#[test]
fn a_path_that_appears_after_plan_is_not_cloned_into() {
    let mut world = World::new();
    let (_, ops) = world.plan(FIRST);
    world.head = Some(SIDE.to_owned());
    let note = world.carry_out(&ops[0]).expect("it stops");
    assert_eq!(
        note,
        "is a directory now, which is not what bx planned against; bx left it as it is"
    );
    assert!(world.entry().is_none());
}

#[test]
fn a_checkout_that_changed_after_plan_is_not_fast_forwarded() {
    let mut world = World::cloned(FIRST);
    let (_, ops) = world.plan(SECOND);
    world.dirty = true;
    assert_eq!(
        world.carry_out(&ops[0]).as_deref(),
        Some("has uncommitted changes since bx planned; bx left it as it is")
    );
    assert_eq!(world.head.as_deref(), Some(FIRST));
    assert_eq!(world.entry().expect("recorded").written, clone_written(Some(FIRST)));
    world.dirty = false;
    world.head = Some(SIDE.to_owned());
    let note = world.carry_out(&ops[0]).expect("it stops");
    assert!(
        note.starts_with(&format!("moved to {SIDE} since bx planned against {FIRST}")),
        "{note}"
    );
    assert_eq!(world.head.as_deref(), Some(SIDE), "left where the user put it");
    assert_eq!(world.entry().expect("recorded").written, clone_written(Some(FIRST)));
}

#[test]
fn a_checkout_that_moved_after_plan_is_not_recorded_at_rev() {
    let mut world = World::cloned(FIRST);
    // The stale ledger a recording exists for: at `second`, recorded at `first`.
    world.head = Some(SECOND.to_owned());
    let (_, ops) = world.plan(SECOND);
    assert_eq!(ops[0].work, Work::Record);
    world.head = Some(FIRST.to_owned());
    let note = world.carry_out(&ops[0]).expect("it stops");
    assert!(note.contains(&format!("moved to {FIRST} since bx planned")), "{note}");
    assert_eq!(world.head.as_deref(), Some(FIRST));
    assert_eq!(
        world.entry().expect("recorded").written,
        clone_written(Some(FIRST)),
        "the ledger still says what is there"
    );
}

#[test]
fn a_path_bx_holds_another_way_or_under_a_file_is_a_conflict() {
    let mut world = World::new();
    world.ledger.record(LedgerEntry {
        path: portable(TARGET),
        written: ContentHash::of(b"x"),
        mode: Mode::default_file(),
        mechanism: Mechanism::Own,
        prior: Prior::Absent,
        created_dirs: Vec::new(),
    });
    let (row, ops) = world.plan(FIRST);
    assert_eq!(row.action, Action::Conflict);
    assert!(ops.is_empty());

    let mut observed = World::new().observe();
    observed.parent = Some(Parent {
        path: "/home/someone/.zsh".to_owned(),
        state: ParentState::Unusable("a file".to_owned()),
    });
    let ruling = decide(&external(FIRST), None, &observed, &vec![], HOME);
    assert_eq!(
        ruling,
        Ruling::Settle(Settled {
            action: Action::Conflict,
            note: Some(
                "its parent ~/.zsh does not resolve to a directory, so there is nowhere to clone it"
                    .to_owned()
            ),
            work: None,
        })
    );
}

#[test]
fn a_directory_above_that_cannot_be_looked_at_is_an_error() {
    let looked = |there| vec![Looked { path: "/home/someone/.zsh/plugins".to_owned(), there }];
    assert!(missing_dirs(AT, HOME, &looked(There::Failed("Permission denied".to_owned()))).is_err());
    assert!(missing_dirs(AT, HOME, &looked(There::NotDir)).is_err());
    assert_eq!(missing_dirs(AT, HOME, &looked(There::Dir)), Ok(vec![]));
}

#[test]
fn rm_removes_a_clean_clone_and_the_directories_bx_created_for_it() {
    let mut world = World::new();
    let (_, ops) = world.plan(FIRST);
    assert_eq!(world.carry_out(&ops[0]), None);

    assert_eq!(world.rm(), Kept::Goes);
    let entry = world.ledger.forget(TARGET).expect("it was managed");
    let dirs: Vec<String> = entry.created_dirs.iter().map(|dir| dir.text.clone()).collect();
    assert_eq!(dirs, ["~/.zsh/plugins", "~/.zsh"], "deepest first");
    assert!(world.entry().is_none(), "a second rm is a no-op");
}

#[test]
fn rm_leaves_a_clone_holding_anything_of_the_users() {
    let mut world = World::cloned(FIRST);
    world.dirty = true;
    assert_eq!(
        world.rm(),
        Kept::Stays(
            "has uncommitted changes or untracked files that removing it would lose".to_owned()
        )
    );
    let mut world = World::cloned(FIRST);
    world.loose = 3;
    assert_eq!(
        world.rm(),
        Kept::Stays("holds 3 commit(s) bx did not fetch, which removing it would lose".to_owned())
    );
}

#[test]
fn rm_counts_a_rev_fetched_by_id() {
    let mut world = World::cloned(FIRST);
    assert_eq!(world.rm(), Kept::Goes);
    assert_eq!(
        world.asked.last().map(String::as_str),
        Some(format!("rev-list --count --all --not --remotes {FIRST}").as_str())
    );
}

#[test]
fn directories_are_removed_deepest_first() {
    let dirs = ["/a", "/a/b/c", "/a/b"].map(str::to_owned).to_vec();
    assert_eq!(deepest_first(&dirs), ["/a/b/c", "/a/b", "/a"]);
    let made = vec![Mkdir::Exists, Mkdir::Made];
    assert_eq!(
        made_dirs(&vec!["/a/b".to_owned(), "/a".to_owned()], &made, HOME),
        Ok(vec!["/a/b".to_owned()])
    );
    let failed = vec![Mkdir::Made, Mkdir::Failed("Read-only file system".to_owned())];
    assert_eq!(
        made_dirs(
            &vec!["/home/someone/a/b".to_owned(), "/home/someone/a".to_owned()],
            &failed,
            HOME
        ),
        Err((
            vec!["/home/someone/a".to_owned()],
            "~/a/b cannot be created: Read-only file system".to_owned()
        ))
    );
}

#[test]
fn a_problem_names_what_git_said() {
    let spawn = Trouble::Spawn { source: "No such file or directory".to_owned() };
    assert!(problem(&spawn).contains("bx needs git on PATH"));
    let failed = Trouble::Git {
        args: "rev-parse --verify no-such-ref".to_owned(),
        code: Some(128),
        stderr: "fatal: Needed a single revision\n".to_owned(),
    };
    assert!(problem(&failed).starts_with("`git rev-parse --verify no-such-ref` failed"));
    assert!(problem(&failed).contains("fatal: Needed a single revision"));
    assert_eq!(problem(&no()), "`git quiet` failed");
    assert_eq!(problem(&Trouble::Other("anything".to_owned())), "anything");
}

#[test]
fn a_silent_refusal_is_an_answer_and_any_other_failure_is_not() {
    let loud = || Trouble::Git {
        args: "merge-base".to_owned(),
        code: Some(128),
        stderr: "fatal: not a commit".to_owned(),
    };
    assert_eq!(is_ancestor(Ok(String::new())), Ok(true));
    assert_eq!(is_ancestor(Err(no())), Ok(false));
    assert_eq!(is_ancestor(Err(loud())), Err(loud()));
    assert_eq!(origin_url(Err(no())), Ok(None));
    assert_eq!(origin_url(Ok(URL.to_owned())), Ok(Some(URL.to_owned())));
    assert_eq!(dirty(Ok(String::new())), Ok(false));
    assert_eq!(dirty(Ok("?? new".to_owned())), Ok(true));
}

#[test]
fn a_decision_asks_in_order_and_settles_on_the_first_refusal() {
    let mut world = World::cloned(FIRST);
    world.plan(SECOND);
    let first_words: Vec<String> = world
        .asked
        .iter()
        .map(|args| args.split(' ').next().unwrap_or_default().to_owned())
        .collect();
    assert_eq!(
        first_words,
        ["rev-parse", "rev-parse", "config", "status", "cat-file", "merge-base"]
    );
    let ruling = decide_checkout(
        &external(SECOND),
        world.entry().expect("held"),
        &Some("/elsewhere".to_owned()),
        HOME,
        Look::Top,
        Ok(AT.to_owned()),
    );
    assert!(
        matches!(&ruling, Ruling::Settle(settled) if settled.action == Action::Conflict),
        "{ruling:?}"
    );
    assert_eq!(first(&Work::Record), Step::Head);
}
