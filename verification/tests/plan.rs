use std::collections::BTreeMap;

use bx::fs::{Kind, Mode as FileMode, Observed, Parent, ParentState, Stamp};
use bx::journal::error::Error as JournalError;
use bx::journal::files::prior_of;
use bx::journal::load::Loaded;
use bx::journal::record::{Begin, Intent, Record, SessionKind, Written};
use bx::journal::session::{dir_digest, refuse_moved, Content, Ownership, Request};
use bx::paths::is_white;
use bx::plan::all::{decide_all, to_observe, Decided};
use bx::plan::checkout;
use bx::plan::compare::{compare, compare_dir};
use bx::plan::decide::{decide, decide_dir, Ctx, Facts, Made, Op};
use bx::plan::diff::{is_control, Diff, DiffKind};
use bx::plan::error::{Error, RecoverError};
use bx::plan::interrupted::{interrupted_rows, standing_of, Rolled};
use bx::plan::notes::join;
use bx::plan::owned::{attached_as, dir_ownership, ownership, region_ownership};
use bx::plan::parents::{portable_reason, Declared, Seen};
use bx::plan::render::{render, Palette, Tone};
use bx::plan::rows::{exit, Change, Interrupted, Mode, Origin, Report, Standing, Unfinished};
use bx::plan::run::{
    execute, executed, look_at_state, no_color, recovered, refuse_irregular_state_files, report_of,
    report_over, run, stopped, usable_home, Env, Inputs, StateEntry, Turn,
};
use bx::plan::target::{
    Attach, Body, Direction, Format, Gen, Generated, Held, Opened, Resolution, Syntax, Target,
    Unread, Violation,
};
use bx::plan::undeclared::undeclared;
use bx::plan::view::View;
use bx::plan::wanted::{
    guard_environment_d, guard_fragment, guard_fragment_after, guard_history_file, history_path,
    read_repo_file, scanned, unsupported, Wanted,
};
use bx::report::{summary, Action, Exit};
use bx::state::{ContentHash, Ledger, LedgerEntry, Mechanism, Portable, Prior, RestoreRef};

const HOME: &str = "/home/someone";

fn portable(text: &str) -> Portable {
    Portable { text: text.to_owned() }
}

fn child(rel: &str) -> String {
    format!("{HOME}/{rel}")
}

fn parent(path: &str) -> Option<&str> {
    let cut = path.rfind('/')?;
    match cut {
        0 if path.len() == 1 => None,
        0 => Some("/"),
        _ => Some(&path[..cut]),
    }
}

fn a_target(path: &str) -> Target {
    Target {
        path: portable(path),
        body: Body::Inline("x\n".to_owned()),
        mode: None,
        attach: Attach::Own,
        direction: Direction::Apply,
        format: Format::Opaque,
        origin: Origin { file: "/repo/bx.toml".to_owned(), line: 3 },
    }
}

fn inline(path: &str, content: &str) -> Resolution {
    let mut target = a_target(path);
    target.body = Body::Inline(content.to_owned());
    Resolution::Ready(target)
}

fn a_directory(path: &str, mode: u32) -> Resolution {
    let mut target = a_target(path);
    target.body = Body::Dir;
    target.mode = Some(FileMode::from_bits(mode));
    Resolution::Ready(target)
}

fn a_file(path: &str, content: &str, mode: u32) -> Resolution {
    let mut target = a_target(path);
    target.body = Body::Inline(content.to_owned());
    target.mode = Some(FileMode::from_bits(mode));
    Resolution::Ready(target)
}

/// What stands under a home, and what bx's ledger says of it.
struct Disk {
    files: BTreeMap<String, (Vec<u8>, FileMode)>,
    dirs: BTreeMap<String, FileMode>,
    links: Vec<String>,
    ledger: Ledger,
}

impl Disk {
    fn new() -> Disk {
        let mut dirs = BTreeMap::new();
        for dir in ["/", "/home", HOME] {
            dirs.insert(dir.to_owned(), FileMode::default_dir());
        }
        Disk { files: BTreeMap::new(), dirs, links: Vec::new(), ledger: Ledger::new() }
    }

    fn write(&mut self, rel: &str, bytes: &[u8]) {
        self.files.insert(child(rel), (bytes.to_vec(), FileMode::default_file()));
    }

    fn read(&self, rel: &str) -> Option<&[u8]> {
        self.files.get(&child(rel)).map(|(bytes, _)| bytes.as_slice())
    }

    fn mkdir(&mut self, rel: &str, mode: u32) {
        self.dirs.insert(child(rel), FileMode::from_bits(mode));
    }

    fn mode(&self, rel: &str) -> Option<FileMode> {
        let path = child(rel);
        self.files.get(&path).map(|(_, mode)| *mode).or(self.dirs.get(&path).copied())
    }

    /// A file bx wrote and owns.
    fn own(&mut self, rel: &str, bytes: &[u8], mechanism: Mechanism) {
        self.write(rel, bytes);
        self.ledger.record(LedgerEntry {
            path: portable(&format!("~/{rel}")),
            written: ContentHash::of(bytes),
            mode: FileMode::default_file(),
            mechanism,
            prior: Prior::Absent,
            created_dirs: Vec::new(),
        });
    }

    fn stands(&self, path: &str) -> bool {
        self.files.contains_key(path) || self.links.iter().any(|link| link == path)
    }

    fn parent_state(&self, dir: &str) -> ParentState {
        if let Some(mode) = self.dirs.get(dir) {
            return ParentState::Present(*mode);
        }
        if self.files.contains_key(dir) {
            return ParentState::Unusable(format!(
                "{dir} is not a directory, so bx cannot write a file inside it"
            ));
        }
        let mut at = Some(dir);
        while let Some(above) = at {
            if self.stands(above) {
                return ParentState::Unusable(format!(
                    "{above} does not resolve to a directory, so bx cannot create {dir} inside it"
                ));
            }
            at = parent(above);
        }
        ParentState::Absent(FileMode::default_dir())
    }

    fn observe(&self, path: &str) -> Observed {
        let found = self.files.get(path);
        let dir = self.dirs.get(path);
        Observed {
            path: path.to_owned(),
            kind: match (found, dir) {
                (Some(_), _) => Kind::File,
                (None, Some(_)) => Kind::Dir,
                (None, None) if self.stands(path) => Kind::Other("a symlink".to_owned()),
                (None, None) => Kind::Absent,
            },
            mode: found.map(|(_, mode)| *mode).or(dir.copied()),
            bytes: found.map(|(bytes, _)| bytes.clone()),
            parent: parent(path)
                .map(|up| Parent { path: up.to_owned(), state: self.parent_state(up) }),
            stamp: found.map(|_| Stamp { file: 1, changed: 1 }),
        }
    }

    /// What the program hands a decision about one target of a configuration.
    fn facts(&self, resolution: &Resolution) -> Result<Facts, String> {
        let Ok(Some(dest)) = to_observe(resolution, HOME) else {
            return Err("it was never looked at".to_owned());
        };
        let observed = self.observe(&dest);
        let mut seen = Vec::new();
        let mut at = parent(&dest);
        while let Some(dir) = at {
            let mode = self.dirs.get(dir).copied();
            let missing = mode.is_none() && !self.stands(dir);
            seen.push(Seen { path: dir.to_owned(), dir: mode, missing });
            at = parent(dir);
        }
        Ok(Facts { observed, seen })
    }

    fn decided(&self, resolutions: &Vec<Resolution>) -> Decided {
        let facts = resolutions.iter().map(|one| self.facts(one)).collect();
        decide_all(resolutions, &facts, &self.ledger, HOME).expect("decides")
    }

    fn plan(&self, resolutions: Vec<Resolution>) -> (Report, Vec<Op>) {
        let decided = self.decided(&resolutions);
        (report_of(false, decided.changes, Vec::new(), Vec::new()), decided.ops)
    }

    /// An approved apply.
    fn apply(&mut self, resolutions: Vec<Resolution>) -> Report {
        let (report, ops) = self.plan(resolutions);
        if run(Mode::Apply, &report, &ops, &vec![], None) == Turn::Show {
            return report;
        }
        let Turn::Write(scope) = run(Mode::Apply, &report, &ops, &vec![], Some(true)) else {
            panic!("an approved apply with work writes: {report:?}")
        };
        assert_eq!(scope.len(), ops.len());
        for Request { target, dest, content, mode, ownership } in execute(ops) {
            let Ownership::Owned(mechanism) = ownership else {
                panic!("a target of a configuration is owned")
            };
            let (planned, bytes) = match content {
                Content::Bytes { bytes, planned } => (planned, Some(bytes)),
                Content::Dir { planned } => (planned, None),
                Content::Absent { .. } => panic!("a configuration removes nothing"),
            };
            assert_eq!(refuse_moved(&planned, &self.observe(&dest)), Ok(()));
            let created = self.make_parents(&dest);
            let written = match bytes {
                Some(bytes) => {
                    let written = ContentHash::of(&bytes);
                    self.files.insert(dest, (bytes, mode));
                    written
                }
                None => {
                    self.dirs.insert(dest, mode);
                    dir_digest()
                }
            };
            self.record(target, written, mode, mechanism, prior_of(&planned), created);
        }
        executed(report)
    }

    fn make_parents(&mut self, dest: &str) -> Vec<Portable> {
        let mut made = Vec::new();
        let mut at = parent(dest).map(str::to_owned);
        while let Some(dir) = at.filter(|dir| !self.dirs.contains_key(dir)) {
            self.dirs.insert(dir.clone(), FileMode::default_dir());
            made.push(portable(&bx::paths::to_portable(&dir, HOME)));
            at = parent(&dir).map(str::to_owned);
        }
        made
    }

    fn record(
        &mut self,
        path: Portable,
        written: ContentHash,
        mode: FileMode,
        mechanism: Mechanism,
        prior: Prior,
        created_dirs: Vec<Portable>,
    ) {
        self.ledger.record(LedgerEntry { path, written, mode, mechanism, prior, created_dirs });
    }

    fn entry(&self, target: &str) -> Option<&LedgerEntry> {
        self.ledger.entries.iter().find(|entry| entry.path.text == target)
    }
}

/// The row a target has in a report.
fn row_for<'r>(report: &'r Report, target: &str) -> &'r Change {
    report
        .changes
        .iter()
        .find(|change| change.target == target)
        .unwrap_or_else(|| panic!("no row for {target}: {report:?}"))
}

fn text(change: &Change) -> &str {
    match change.diff.as_ref().map(|diff| &diff.kind) {
        Some(DiffKind::Text(text)) => text,
        other => panic!("expected a text diff, found {other:?}"),
    }
}

fn note(change: &Change) -> &str {
    change.note.as_deref().unwrap_or_default()
}

fn violation(line: usize, name: &str) -> Violation {
    Violation { line, name: name.to_owned(), reason: "is relocated outside every root".to_owned() }
}

#[test]
fn t8_the_fragment_guard_names_the_line_and_admits_what_it_allows() {
    let note = guard_fragment(&vec![violation(1, "CARGO_HOME")])
        .expect("a relocation with no root is a violation");
    assert!(note.starts_with("line 1: CARGO_HOME "), "{note}");

    let found = vec![violation(2, "CARGO_HOME"), violation(3, "RUSTUP_HOME")];
    let two = guard_fragment(&found).expect("two violations");
    assert!(two.contains("line 2: CARGO_HOME "), "{two}");
    assert!(two.contains("; line 3: RUSTUP_HOME "), "{two}");
    let after = guard_fragment_after(&found, 4).expect("two violations");
    assert!(after.starts_with("line 6: CARGO_HOME "), "{after}");

    assert_eq!(guard_fragment(&vec![]), None);
}

#[test]
fn decision_3_an_unsupported_shape_is_blocked_with_no_write() {
    let ledger = Ledger::new();
    let declared = Declared::new();
    let ctx = Ctx { ledger: &ledger, home: HOME, declared: &declared };
    let shaped = |change: fn(&mut Target)| {
        let mut target = a_target("~/.a");
        // A body that cannot be read, so a read before the block would err.
        target.body = Body::File(Err(Unread {
            path: "absent".to_owned(),
            source: "No such file".to_owned(),
        }));
        change(&mut target);
        target
    };
    let cases: [(Target, &str); 5] = [
        (shaped(|t| t.attach = Attach::Region { comment: '#' }), "entry C1"),
        (shaped(|t| t.attach = Attach::Include { line: "x".to_owned() }), "entry C1"),
        (shaped(|t| t.direction = Direction::Track), "entry C4"),
        (shaped(|t| t.format = Format::Jsonc), "entry C3"),
        // A directory is blocked by its shape like a file, before the
        // destination is looked at.
        (
            shaped(|t| {
                t.body = Body::Dir;
                t.direction = Direction::Track;
            }),
            "entry C4",
        ),
    ];

    for (target, entry) in cases {
        let resolution = Resolution::Ready(target);
        let looked = Err("it was never looked at".to_owned());
        let (change, op) = decide(&resolution, &looked, &ctx).expect("no read");
        assert_eq!(change.action, Action::Blocked, "{resolution:?}");
        assert_eq!(op, None, "{resolution:?}");
        assert_eq!(change.diff, None);
        let note = change.note.expect("a note");
        assert!(note.ends_with(&format!("not supported until {entry}")), "{note}");
        assert_eq!(change.target, "~/.a");
        assert_eq!(change.origin.line, 3);
    }
}

#[test]
fn the_filesystem_root_as_a_directory_target_is_blocked() {
    let ledger = Ledger::new();
    let declared = Declared::new();
    let ctx = Ctx { ledger: &ledger, home: HOME, declared: &declared };
    let mut target = a_target("/");
    target.body = Body::Dir;
    let looked = Err("it was never looked at".to_owned());

    // Whatever is found there: a root at another mode is no directory to set.
    let facts = Facts { observed: Disk::new().observe("/"), seen: Vec::new() };
    target.mode = Some(FileMode::private_dir());
    for found in [Ok(facts), Err("it was never looked at".to_owned())] {
        let (change, op) = decide_dir(&target, &found, &ctx).expect("decide");
        assert_eq!(change.action, Action::Blocked);
        assert_eq!(change.diff, None);
        assert_eq!(op, None);
    }

    let (change, op) = decide(&Resolution::Ready(target), &looked, &ctx).expect("decide");

    assert_eq!(change.action, Action::Blocked);
    assert_eq!(op, None);
}

#[test]
fn a_directory_target_bx_holds_as_a_file_is_a_conflict_and_the_reverse() {
    let observed = |kind| Observed {
        path: "/h/.d".to_owned(),
        kind,
        mode: Some(FileMode::default_dir()),
        bytes: None,
        parent: None,
        stamp: None,
    };
    let entry = |mechanism| LedgerEntry {
        path: portable("~/.d"),
        written: dir_digest(),
        mode: FileMode::default_dir(),
        mechanism,
        prior: Prior::Absent,
        created_dirs: Vec::new(),
    };

    let (action, note) = dir_ownership(
        Action::Create,
        &observed(Kind::Absent),
        Some(&entry(Mechanism::Own)),
        None,
    );
    assert_eq!(action, Action::Conflict);
    assert_eq!(note.as_deref(), Some("bx attached to this path as the whole file"));

    let (action, note) = ownership(
        Action::Create,
        &observed(Kind::Absent),
        Some(&entry(Mechanism::Dir)),
        None,
    );
    assert_eq!(action, Action::Conflict);
    assert_eq!(note.as_deref(), Some("bx attached to this file as a directory"));

    // A directory bx does not hold yet is set to its declared mode.
    assert_eq!(
        dir_ownership(Action::Modify, &observed(Kind::Dir), None, None),
        (Action::Modify, None)
    );
}

#[test]
fn the_supported_shape_is_not_unsupported() {
    assert_eq!(unsupported(&a_target("~/.a")), None);
}

#[test]
fn decision_9_an_unusable_parent_reason_names_its_paths_portably() {
    let home = "/var/home/u s";
    let reason = |dir: &str, rest: &str| format!("{dir} {rest}");

    // The parent itself, under the home.
    let dir = format!("{home}/.x");
    assert_eq!(
        portable_reason(
            &dir,
            &reason(&dir, "is not a directory, so bx cannot write a file inside it"),
            home
        ),
        "~/.x is not a directory, so bx cannot write a file inside it"
    );

    // An ancestor that stops it, and the parent it cannot create, with a space
    // in a name, so the leading spelling is matched as a path.
    let dir = format!("{home}/a b/c");
    let stops = format!("{home}/a b");
    assert_eq!(
        portable_reason(
            &dir,
            &format!(
                "{stops} does not resolve to a directory, so bx cannot create {dir} inside it"
            ),
            home
        ),
        "~/a b does not resolve to a directory, so bx cannot create ~/a b/c inside it"
    );

    // A tail naming a directory other than the parent is left as written.
    let other = "/elsewhere/d";
    assert_eq!(
        portable_reason(
            &dir,
            &format!("{stops} does not resolve, so bx cannot create {other} inside it"),
            home
        ),
        "~/a b does not resolve, so bx cannot create /elsewhere/d inside it"
    );

    // The source text in the middle is kept.
    let dir = format!("{home}/.loop");
    assert_eq!(
        portable_reason(
            &dir,
            &reason(
                &dir,
                "does not resolve to a directory (os error 40), so bx cannot write a file \
                 inside it"
            ),
            home
        ),
        "~/.loop does not resolve to a directory (os error 40), so bx cannot write a file \
         inside it"
    );

    // Outside the home every path stays absolute.
    let dir = "/srv/x/y";
    let stops = "/srv/x";
    let outside =
        format!("{stops} does not resolve to a directory, so bx cannot create {dir} inside it");
    assert_eq!(portable_reason(dir, &outside, home), outside);

    // A reason in any other shape names the parent alone.
    assert_eq!(
        portable_reason(
            &format!("{home}/.z"),
            "something went wrong at /var/home/u s/.z",
            home
        ),
        "~/.z does not resolve to a directory, so bx cannot write a file inside it"
    );
}

#[test]
fn notes_join_what_is_present() {
    assert_eq!(join(vec![None, None]), None);
    assert_eq!(join(vec![Some("a".to_string()), None]), Some("a".to_string()));
    assert_eq!(
        join(vec![Some("a".to_string()), Some("b".to_string())]),
        Some("a; b".to_string())
    );
}

#[test]
fn every_mechanism_has_its_own_words() {
    assert_eq!(attached_as(&Mechanism::Own), "the whole file");
    assert_eq!(
        attached_as(&Mechanism::Include { line: "x".to_string() }),
        "an include line"
    );
    assert_eq!(attached_as(&Mechanism::Region { comment: '#' }), "a managed region");
    assert_eq!(attached_as(&Mechanism::Dir), "a directory");
}

fn generated(what: Gen, content: &str, violations: Vec<Violation>) -> Body {
    Body::Generated(Generated {
        what,
        note: None,
        content: content.to_owned(),
        violations,
        refusal: None,
    })
}

#[test]
fn an_environment_d_line_is_judged_as_exported() {
    let disk = Disk::new();
    let mut target = a_target("~/.config/environment.d/50-bx.conf");
    target.format = Format::EnvD;
    target.body = generated(
        Gen::Env(Syntax::EnvironmentD),
        "# Generated by bx.\nSCRATCH_HOME=/home/someone\n",
        vec![violation(2, "SCRATCH_HOME")],
    );
    let Body::Generated(body) = &target.body else {
        unreachable!("a generated body")
    };
    assert_eq!(scanned(body).map(|(_, syntax)| syntax), Some(Syntax::EnvironmentD));
    assert!(guard_environment_d(&body.violations).is_some());
    let (report, ops) = disk.plan(vec![Resolution::Ready(target)]);
    let change = &report.changes[0];
    assert_eq!(change.action, Action::Blocked, "{change:?}");
    assert!(note(change).starts_with("line 2: SCRATCH_HOME "), "{change:?}");
    assert!(ops.is_empty());
    // What the scan admits is not held back.
    assert_eq!(guard_fragment(&vec![]), None);
    assert_eq!(guard_environment_d(&vec![]), None);
}

const ZSHRC_BODY: &str =
    "[[ -r ~/.local/share/bx/zshrc.zsh ]] && source ~/.local/share/bx/zshrc.zsh\n";

const ZSHRC_REGION: &str = "# >>> bx >>>\n\
     [[ -r ~/.local/share/bx/zshrc.zsh ]] && source ~/.local/share/bx/zshrc.zsh\n\
     # <<< bx <<<\n";

fn zshrc() -> Resolution {
    let mut target = a_target("~/.zshrc");
    target.body = generated(Gen::Source, ZSHRC_BODY, vec![]);
    target.attach = Attach::Region { comment: '#' };
    Resolution::Ready(target)
}

/// The `~/.zshrc` row an interactive declaration gets over `bytes`, with bx
/// having left `recorded` there as a region when it is given.
fn zshrc_row(bytes: Option<&str>, recorded: Option<&[u8]>) -> Change {
    let mut disk = Disk::new();
    if let Some(recorded) = recorded {
        disk.own(".zshrc", recorded, Mechanism::Region { comment: '#' });
    }
    if let Some(bytes) = bytes {
        disk.write(".zshrc", bytes.as_bytes());
    }
    disk.plan(vec![zshrc()]).0.changes.remove(0)
}

#[test]
fn a_region_is_rewritten_only_while_the_file_is_as_bx_left_it() {
    let old = "top\n# >>> bx >>>\nsource ~/.old\n# <<< bx <<<\n";
    // bx's own older region, in a file nobody has touched since.
    let change = zshrc_row(None, Some(old.as_bytes()));
    assert_eq!(change.action, Action::Modify, "{change:?}");
    // The same, after the user edited the file.
    let change = zshrc_row(Some(&format!("{old}more\n")), Some(old.as_bytes()));
    assert_eq!(change.action, Action::Conflict, "{change:?}");
    assert!(note(&change).contains("edited since"), "{change:?}");
}

#[test]
fn a_region_the_user_removed_or_bx_never_recorded_is_left_alone() {
    let recorded = format!("top\n{ZSHRC_REGION}");
    let removed = zshrc_row(Some("top\n"), Some(recorded.as_bytes()));
    assert_eq!(removed.action, Action::Conflict);
    assert!(note(&removed).contains("was removed"), "{removed:?}");

    let foreign = zshrc_row(Some("# >>> bx >>>\nsource ~/.elsewhere\n# <<< bx <<<\n"), None);
    assert_eq!(foreign.action, Action::Conflict);
    assert!(note(&foreign).contains("no record"), "{foreign:?}");

    // A region already holding what bx wants is unchanged either way.
    assert_eq!(
        zshrc_row(Some(&format!("mine\n{ZSHRC_REGION}")), None).action,
        Action::Unchanged
    );
}

#[test]
fn a_region_in_a_file_bx_owns_another_way_or_with_damaged_delimiters_is_a_conflict() {
    let mut disk = Disk::new();
    disk.own(".zshrc", b"whole\n", Mechanism::Own);
    let (report, _) = disk.plan(vec![zshrc()]);
    let change = &report.changes[0];
    assert_eq!(change.action, Action::Conflict);
    assert!(note(change).contains("the whole file"), "{change:?}");

    let damaged = zshrc_row(Some("# >>> bx >>>\nno end\n"), None);
    assert_eq!(damaged.action, Action::Conflict);
    assert_eq!(damaged.diff, None);
    let note = damaged.note.expect("a note");
    assert!(note.contains("damaged"), "{note}");
    assert!(note.contains("no closing one"), "{note}");
}

#[test]
fn a_region_keeps_the_mode_of_the_file_it_joins() {
    let mut disk = Disk::new();
    disk.files.insert(child(".zshrc"), (b"mine\n".to_vec(), FileMode::private_file()));
    let (report, ops) = disk.plan(vec![zshrc()]);
    assert_eq!(report.actions(), vec![Action::Modify]);
    assert_eq!(ops[0].mode, FileMode::private_file());
    assert_eq!(
        ops[0].made,
        Made::Region(format!("mine\n{ZSHRC_REGION}").into_bytes(), '#')
    );
}

#[test]
fn a_region_bx_wrote_is_owned_by_its_comment() {
    let mut disk = Disk::new();
    disk.own(".a", b"x\n", Mechanism::Region { comment: ';' });
    let entry = &disk.ledger.entries[0];
    let (action, note) =
        region_ownership(Action::Modify, &disk.observe(&child(".a")), Some(entry), '#', None);
    assert_eq!(action, Action::Conflict);
    assert!(note.is_some());
}

#[test]
fn t1_an_absent_target_is_a_create_with_the_whole_body_added() {
    let disk = Disk::new();
    let (report, ops) = disk.plan(vec![inline("~/.a", "one\ntwo\n")]);

    assert_eq!(report.actions(), vec![Action::Create]);
    assert_eq!(report.changes[0].target, "~/.a");
    assert_eq!(
        text(&report.changes[0]),
        "--- ~/.a (on disk)\n+++ ~/.a (bx)\n@@ -0,0 +1,2 @@\n+one\n+two\n"
    );
    assert_eq!(run(Mode::Plan, &report, &ops, &vec![], None), Turn::Show, "plan writes nothing");
    assert_eq!(exit(&report, Mode::Plan), Exit::Pending);
}

#[test]
fn t2_an_owned_file_whose_content_differs_is_a_modify_with_the_exact_diff() {
    let mut disk = Disk::new();
    disk.own(".a", b"one\ntwo\nthree\n", Mechanism::Own);
    let (report, ops) = disk.plan(vec![inline("~/.a", "one\nTWO\nthree\n")]);

    assert_eq!(report.actions(), vec![Action::Modify]);
    assert_eq!(report.changes[0].note, None);
    assert_eq!(
        text(&report.changes[0]),
        "--- ~/.a (on disk)\n+++ ~/.a (bx)\n@@ -1,3 +1,3 @@\n one\n-two\n+TWO\n three\n"
    );
    assert_eq!(ops[0].made, Made::Bytes(b"one\nTWO\nthree\n".to_vec()));
}

#[test]
fn t3_a_present_file_bx_does_not_own_is_a_conflict_apply_does_not_overwrite() {
    let mut disk = Disk::new();
    disk.write(".a", b"mine\n");
    let (report, ops) = disk.plan(vec![inline("~/.a", "bx\n"), inline("~/.b", "b\n")]);
    assert_eq!(report.actions(), vec![Action::Conflict, Action::Create]);
    assert_eq!(
        report.changes[0].note.as_deref(),
        Some("exists and bx does not own it")
    );
    assert_eq!(
        text(&report.changes[0]),
        "--- ~/.a (on disk)\n+++ ~/.a (bx)\n@@ -1 +1 @@\n-mine\n+bx\n"
    );
    assert_eq!(
        run(Mode::Apply, &report, &ops, &vec![], Some(true)),
        Turn::Write(vec![portable("~/.b")])
    );
    let applied = disk.apply(vec![inline("~/.a", "bx\n"), inline("~/.b", "b\n")]);
    assert!(applied.executed);
    assert_eq!(exit(&applied, Mode::Apply), Exit::Pending);
    assert_eq!(disk.read(".a"), Some(&b"mine\n"[..]));
    assert_eq!(disk.read(".b"), Some(&b"b\n"[..]));
}

#[test]
fn t4_an_owned_file_edited_since_bx_wrote_it_is_a_conflict_not_overwritten() {
    let mut disk = Disk::new();
    disk.own(".a", b"bx\n", Mechanism::Own);
    disk.write(".a", b"edited\n");
    let (report, ops) = disk.plan(vec![inline("~/.a", "new\n")]);
    assert_eq!(report.actions(), vec![Action::Conflict]);
    assert_eq!(
        report.changes[0].note.as_deref(),
        Some("edited since bx last wrote it")
    );
    assert_eq!(
        run(Mode::Apply, &report, &ops, &vec![], None),
        Turn::Show,
        "nothing to write, so no session"
    );
    assert!(!disk.apply(vec![inline("~/.a", "new\n")]).executed);
    assert_eq!(disk.read(".a"), Some(&b"edited\n"[..]));
}

#[test]
fn an_owned_file_already_holding_the_body_is_unchanged() {
    let mut disk = Disk::new();
    disk.own(".a", b"bx\n", Mechanism::Own);
    let (report, _) = disk.plan(vec![inline("~/.a", "bx\n")]);

    assert_eq!(report.actions(), vec![Action::Unchanged]);
    assert_eq!(report.changes[0].diff, None);
    assert_eq!(exit(&report, Mode::Plan), Exit::Converged);
}

#[test]
fn a_file_bx_attached_to_another_way_is_a_conflict() {
    let mut disk = Disk::new();
    disk.own(".a", b"old\n", Mechanism::Region { comment: '#' });
    let (report, _) = disk.plan(vec![inline("~/.a", "new\n")]);

    assert_eq!(report.actions(), vec![Action::Conflict]);
    assert_eq!(
        report.changes[0].note.as_deref(),
        Some("bx attached to this file as a managed region")
    );
}

#[test]
fn t6_an_unset_required_value_blocks_its_target_with_the_init_hint() {
    let disk = Disk::new();
    let hint = "run `bx init` to set scratch_root";
    let (report, ops) = disk.plan(vec![Resolution::Blocked(Held {
        key: "~/.env".to_owned(),
        origin: Origin { file: "/repo/bx.toml".to_owned(), line: 6 },
        hint: hint.to_owned(),
    })]);

    assert_eq!(report.actions(), vec![Action::Blocked]);
    assert_eq!(report.changes[0].note.as_deref(), Some(hint));
    assert_eq!(report.changes[0].diff, None);
    assert_eq!(run(Mode::Apply, &report, &ops, &vec![], None), Turn::Show);
}

#[test]
fn t7_rows_follow_the_configuration_order() {
    let disk = Disk::new();
    let (report, _) =
        disk.plan(vec![inline("~/.c", "c\n"), inline("~/.a", "a\n"), inline("~/.b", "b\n")]);

    let targets: Vec<&str> = report.changes.iter().map(|c| c.target.as_str()).collect();
    assert_eq!(targets, ["~/.c", "~/.a", "~/.b"]);
}

#[test]
fn decision_19_a_line_ending_change_on_an_owned_file_is_shown() {
    let mut disk = Disk::new();
    disk.own(".w", b"a\r\nb\r\n", Mechanism::Own);
    let (report, _) = disk.plan(vec![inline("~/.w", "a\nb\n")]);

    assert_eq!(report.actions(), vec![Action::Modify]);
    let rendered = render(&report, View::Plan, Palette::plain(), HOME);
    assert!(
        rendered.contains("    -a\\r\n    -b\\r\n    +a\n    +b\n"),
        "{rendered:?}"
    );
    assert!(!rendered.contains('\r'), "{rendered:?}");
}

#[test]
fn a_missing_file_body_is_an_error_naming_its_origin() {
    let mut target = a_target("~/.a");
    target.body = Body::File(Err(Unread {
        path: "/repo/files/absent".to_owned(),
        source: "No such file or directory".to_owned(),
    }));
    let resolutions = vec![Resolution::Ready(target)];
    let facts = vec![Err("it was never looked at".to_owned())];
    let err = decide_all(&resolutions, &facts, &Ledger::new(), HOME).expect_err("no body");
    assert_eq!(
        err.text(),
        "/repo/bx.toml:3: reading the body /repo/files/absent: No such file or directory"
    );
    // A destination that cannot be observed stops the run too.
    let resolutions = vec![inline("~/.a", "x\n")];
    let facts = vec![Err("/home/someone/.a: Permission denied".to_owned())];
    assert_eq!(
        decide_all(&resolutions, &facts, &Ledger::new(), HOME),
        Err(Error::Fs("/home/someone/.a: Permission denied".to_owned()))
    );
}

#[test]
fn a_file_body_is_read_from_the_config_repo_verbatim() {
    let disk = Disk::new();
    let body = b"[user]\n\tname = ~/x\n".to_vec();
    let read = read_repo_file("/repo/files/gitconfig", false, Ok(body.clone()));
    assert_eq!(read, Ok(body.clone()));
    let mut target = a_target("~/.gitconfig");
    target.body = Body::File(read);
    let (report, ops) = disk.plan(vec![Resolution::Ready(target)]);
    assert_eq!(report.actions(), vec![Action::Create]);
    assert_eq!(ops[0].made, Made::Bytes(body));
    let refused = read_repo_file("/repo/files/fifo", true, Ok(Vec::new()))
        .expect_err("only a regular file is read");
    assert_eq!(refused.path, "/repo/files/fifo");
}

#[test]
fn a_secret_is_written_and_never_shown() {
    let disk = Disk::new();
    let mut target = a_target("~/.netrc");
    target.body = Body::Secret(Opened::Plain(b"password hunter2\n".to_vec()));
    target.mode = Some(FileMode::private_file());
    let (report, ops) = disk.plan(vec![Resolution::Ready(target)]);
    assert_eq!(report.actions(), vec![Action::Create]);
    assert_eq!(ops[0].made, Made::Bytes(b"password hunter2\n".to_vec()));
    let rendered = render(&report, View::Status, Palette::plain(), HOME);
    assert!(!rendered.contains("hunter2"), "{rendered}");

    let mut locked = a_target("~/.netrc");
    locked.body = Body::Secret(Opened::Refused("unlock the key first".to_owned()));
    let (report, ops) = disk.plan(vec![Resolution::Ready(locked)]);
    assert_eq!(report.actions(), vec![Action::Blocked]);
    assert_eq!(note(&report.changes[0]), "unlock the key first");
    assert!(ops.is_empty());
}

#[test]
fn a_history_file_the_guard_refuses_blocks_the_interactive_file() {
    let disk = Disk::new();
    let mut target = a_target("~/.local/share/bx/zshrc.zsh");
    target.body = Body::Generated(Generated {
        what: Gen::Interactive { env: String::new(), history: Some(portable("~/.zsh_history")) },
        note: None,
        content: "HISTFILE=~/.zsh_history\n".to_owned(),
        violations: vec![],
        refusal: Some("is inside the config repo".to_owned()),
    });
    let (report, ops) = disk.plan(vec![Resolution::Ready(target)]);
    assert_eq!(report.actions(), vec![Action::Blocked]);
    assert!(ops.is_empty());
    assert_eq!(guard_history_file(&None, &Some("unread".to_owned())), None);
    assert_eq!(guard_history_file(&Some(portable("~/.h")), &None), None);
    assert_eq!(history_path(&portable("~/.h"), Some(HOME)), child(".h"));
    assert_eq!(
        bx::plan::wanted::wanted(&a_target("~/.a")),
        Ok(Wanted::Bytes(b"x\n".to_vec()))
    );
}

#[test]
fn the_inputs_name_the_places_they_were_loaded_from() {
    let inputs = Inputs {
        home: HOME.to_owned(),
        repo: child(".config/bx"),
        state: child(".local/state/bx"),
        resolved: Vec::new(),
        progress: false,
    };
    assert_eq!(inputs.home(), HOME);
    assert_eq!(inputs.repo(), child(".config/bx"));
    assert_eq!(inputs.state(), child(".local/state/bx"));
    assert!(!inputs.progress);
}

#[test]
fn decision_21_a_home_with_a_parent_component_is_refused_and_any_other_is_kept() {
    let climbing = "/var/home/../home/u";
    let refused = usable_home(climbing.to_owned()).expect_err("a `..` home");
    assert!(
        matches!(&refused, Error::HomeParentComponent(path) if path == climbing),
        "{refused:?}"
    );
    assert!(
        refused
            .text()
            .starts_with("HOME has a `..` component: /var/home/../home/u;"),
        "{}",
        refused.text()
    );

    // Kept exactly as spelled: bx does not normalise a home.
    for kept in ["/var/home/u", "/var/home/u/", "/var//home/./u"] {
        assert_eq!(usable_home(kept.to_owned()).expect("kept"), kept);
    }
}

#[test]
fn no_color_is_asked_for_by_any_value_but_the_empty_string() {
    assert!(!no_color(None));
    assert!(!no_color(Some("")));
    assert!(no_color(Some("1")));
    assert!(no_color(Some("0")));
    let env = Env {
        home: HOME.to_owned(),
        xdg_config_home: None,
        xdg_state_home: None,
        no_color: no_color(Some("1")),
        stdout_tty: true,
        stdin_tty: true,
        stderr_tty: true,
    };
    assert!(!Palette::resolve(env.no_color, env.stdout_tty).is_colored());
    assert!(Palette::resolve(false, true).is_colored());
    assert!(!Palette::resolve(false, false).is_colored());
}

#[test]
fn a_tone_is_painted_between_its_codes_and_a_reset() {
    let colored = Palette::resolve(false, true);
    assert_eq!(colored.paint(Tone::Added, "+x"), "\u{1b}[32m+x\u{1b}[0m");
    assert_eq!(colored.paint(Tone::Removed, "-x"), "\u{1b}[31m-x\u{1b}[0m");
    assert_eq!(Palette::plain().paint(Tone::Added, "+x"), "+x");
}

/// A state tree with a pipe at `path`: the run stops naming it.
fn a_fifo_state_file_is_refused(name: &str) {
    let state = child(".local/state/bx");
    let path = format!("{state}/{name}");
    let entries = vec![
        StateEntry { path: format!("{state}/restore"), irregular: false },
        StateEntry { path: path.clone(), irregular: true },
    ];
    let message = refuse_irregular_state_files(&entries).expect_err("refused").text();
    assert!(message.contains(&path), "{message}");
    assert!(message.contains("not a regular file"), "{message}");
}

#[test]
fn decision_20_a_fifo_at_the_ledger_is_refused_without_waiting() {
    a_fifo_state_file_is_refused("ledger.mpk");
}

#[test]
fn decision_20_a_fifo_at_the_fingerprints_is_refused_without_waiting() {
    a_fifo_state_file_is_refused("fingerprints.mpk");
}

#[test]
fn decision_20_a_fifo_at_the_journal_is_refused_without_waiting() {
    a_fifo_state_file_is_refused("journal.mpk");
}

#[test]
fn the_first_of_two_irregular_state_files_is_the_one_that_is_named() {
    let at = |path: &str| StateEntry { path: path.to_owned(), irregular: true };
    // A path is ordered by its components, not by its characters.
    let entries = vec![at("/s/b"), at("/s/a.b"), at("/s/a/z")];
    assert_eq!(
        refuse_irregular_state_files(&entries),
        Err(Error::NotARegularFile { path: "/s/a/z".to_owned() })
    );
    assert_eq!(refuse_irregular_state_files(&vec![]), Ok(()));
}

#[test]
fn a_declined_apply_writes_nothing_and_opens_no_session() {
    let disk = Disk::new();
    let (report, ops) = disk.plan(vec![inline("~/.a", "x\n")]);
    assert_eq!(report.actions(), vec![Action::Create]);
    assert_eq!(run(Mode::Apply, &report, &ops, &vec![], None), Turn::Ask);
    assert_eq!(run(Mode::Apply, &report, &ops, &vec![], Some(false)), Turn::Show);
    assert!(!report.executed);
    assert_eq!(exit(&report, Mode::Apply), Exit::Pending);
    assert_eq!(
        run(Mode::Apply, &report, &ops, &vec![], Some(true)),
        Turn::Write(vec![portable("~/.a")])
    );
}

fn standing(complete: bool, unfinished: Vec<Unfinished>) -> Interrupted {
    Interrupted {
        kind: SessionKind::Apply,
        journal: "/state/journal".to_owned(),
        complete,
        unreadable: false,
        unfinished,
    }
}

fn unfinished(target: &str, standing: Standing) -> Unfinished {
    Unfinished {
        target: portable(target),
        dest: child(&target[2..]),
        standing,
        resolvable: true,
        note: "rolls back".to_owned(),
    }
}

fn intent(target: &str, before: Prior, after: &[u8], mode: FileMode, dirs: &[&str]) -> Record {
    Record::Intent(Intent {
        target: portable(target),
        dest: child(&target[2..]),
        temp: None,
        before,
        after: Written::Present { digest: ContentHash::of(after), mode },
        created_dirs: dirs.iter().map(|dir| child(dir)).collect(),
        mechanism: Some(Mechanism::Own),
        ledger_written: None,
    })
}

fn existed(bytes: &[u8]) -> Prior {
    Prior::Existed(RestoreRef {
        digest: ContentHash::of(bytes),
        mode: FileMode::default_file(),
        len: bytes.len() as u64,
    })
}

/// A session that announced a create and a modify, and stopped.
fn crashed() -> Loaded {
    Loaded::Unterminated(vec![
        Record::Begin(Begin {
            kind: SessionKind::Apply,
            home: HOME.to_owned(),
            scope: Vec::new(),
        }),
        intent(
            "~/.config/made/new.conf",
            Prior::Absent,
            b"made\n",
            FileMode::default_file(),
            &[".config/made"],
        ),
        intent("~/.owned", existed(b"before\n"), b"after\n", FileMode::default_file(), &[]),
    ])
}

fn declared_at(path: &str, line: usize) -> Resolution {
    let mut target = a_target(path);
    target.origin.line = line;
    Resolution::Ready(target)
}

fn rolled(disk: &Disk, target: &str, prior: Option<&[u8]>, dirs: &[&str]) -> Result<Rolled, String> {
    Ok(Rolled {
        observed: disk.observe(&child(&target[2..])),
        prior: prior.map(<[u8]>::to_vec),
        standing: dirs.iter().map(|dir| child(dir)).collect(),
    })
}

#[test]
fn t14_a_standing_interruption_is_reported_as_its_roll_back_and_plan_writes_nothing() {
    let mut disk = Disk::new();
    disk.write(".config/made/new.conf", b"made\n");
    disk.write(".owned", b"after\n");
    let interrupted = standing(
        false,
        vec![
            unfinished("~/.config/made/new.conf", Standing::Written),
            unfinished("~/.owned", Standing::Written),
        ],
    );
    let facts = vec![
        rolled(&disk, "~/.config/made/new.conf", None, &[".config/made"]),
        rolled(&disk, "~/.owned", Some(b"before\n"), &[]),
    ];
    let resolutions = vec![declared_at("~/.config/made/new.conf", 1), declared_at("~/.owned", 4)];
    let rows =
        interrupted_rows(&interrupted, &crashed(), &resolutions, &facts, HOME).expect("rows");

    assert_eq!(rows.len(), 2);
    for (change, unfinished) in rows.iter().zip(&interrupted.unfinished) {
        assert_eq!(change.target, unfinished.target.text);
        assert_eq!(change.action, Action::Modify, "{change:?}");
        assert!(note(change).starts_with("rolls back"), "{change:?}");
        assert!(change.diff.is_some(), "{change:?}");
        // Each row keeps the origin of the target it rolls back.
        let line = if change.target == "~/.owned" { 4 } else { 1 };
        assert_eq!(change.origin.line, line, "{change:?}");
    }
    assert_eq!(
        text(&rows[1]),
        "--- ~/.owned (on disk)\n+++ ~/.owned (bx)\n@@ -1 +1 @@\n-after\n+before\n"
    );

    // A target the configuration no longer names is still reported.
    let unnamed =
        interrupted_rows(&interrupted, &crashed(), &vec![], &facts, HOME).expect("rows");
    assert_eq!(unnamed[0].action, Action::Modify);
    assert_eq!(unnamed[0].origin.line, 0);

    let mut report = look_at_state(false, Some(interrupted));
    report.changes = rows;
    assert_eq!(exit(&report, Mode::Plan), Exit::Pending);
    assert_eq!(run(Mode::Plan, &report, &vec![], &vec![], None), Turn::Show, "plan writes nothing");
    assert_eq!(run(Mode::Apply, &report, &vec![], &vec![], None), Turn::Ask);
    assert_eq!(run(Mode::Apply, &report, &vec![], &vec![], Some(true)), Turn::Recover);
}

#[test]
fn an_interrupted_mode_only_write_is_rolled_back_to_the_mode_it_had() {
    let mut disk = Disk::new();
    disk.files.insert(child(".m"), (b"same\n".to_vec(), FileMode::private_file()));
    let loaded = Loaded::Unterminated(vec![intent(
        "~/.m",
        existed(b"same\n"),
        b"same\n",
        FileMode::private_file(),
        &[],
    )]);
    let interrupted = standing(false, vec![unfinished("~/.m", Standing::Written)]);
    let facts = vec![rolled(&disk, "~/.m", Some(b"same\n"), &[])];
    let rows = interrupted_rows(&interrupted, &loaded, &vec![], &facts, HOME).expect("rows");

    assert_eq!(rows[0].action, Action::Modify);
    assert_eq!(
        rows[0].diff,
        Some(Diff {
            kind: DiffKind::Mode {
                from: FileMode::private_file(),
                to: FileMode::default_file()
            }
        })
    );
}

#[test]
fn an_interrupted_write_already_put_back_names_only_what_recovery_still_removes() {
    let mut disk = Disk::new();
    disk.write(".owned", b"before\n");
    let interrupted = standing(
        false,
        vec![
            unfinished("~/.config/made/new.conf", Standing::Before),
            unfinished("~/.owned", Standing::Before),
        ],
    );
    let facts = vec![
        rolled(&disk, "~/.config/made/new.conf", None, &[".config/made"]),
        rolled(&disk, "~/.owned", Some(b"before\n"), &[]),
    ];
    let rows = interrupted_rows(&interrupted, &crashed(), &vec![], &facts, HOME).expect("rows");
    assert_eq!(rows[0].action, Action::Modify, "{rows:?}");
    assert_eq!(
        rows[0].note.as_deref(),
        Some("rolls back: it already holds what was there before; removes ~/.config/made where empty")
    );
    assert_eq!(rows[1].action, Action::Unchanged, "{rows:?}");
    assert_eq!(
        rows[1].note.as_deref(),
        Some("rolls back: it already holds what was there before")
    );
}

#[test]
fn a_write_recovery_cannot_account_for_is_a_conflict_and_refuses_an_apply() {
    let disk = Disk::new();
    let mut diverged = unfinished("~/.owned", Standing::Diverged);
    diverged.resolvable = false;
    diverged.note = "edited since".to_owned();
    let interrupted = standing(false, vec![unfinished("~/.a", Standing::Before), diverged]);
    assert_eq!(interrupted.blocked(), 1);
    let facts = vec![rolled(&disk, "~/.a", None, &[]), Err("never looked at".to_owned())];
    let rows = interrupted_rows(&interrupted, &crashed(), &vec![], &facts, HOME).expect("rows");
    assert_eq!(rows[1].action, Action::Conflict);
    assert_eq!(
        note(&rows[1]),
        "edited since; recovery cannot put it back, so the interrupted session has to be abandoned"
    );
    let mut report = look_at_state(false, Some(interrupted));
    report.changes = rows;
    assert_eq!(run(Mode::Apply, &report, &vec![], &vec![], None), Turn::Refuse(vec![1]));
}

#[test]
fn decision_31_a_declined_apply_over_a_finished_session_reports_pending_like_plan() {
    let disk = Disk::new();
    let interrupted = standing(true, vec![unfinished("~/.owned", Standing::Written)]);
    let facts = vec![rolled(&disk, "~/.owned", None, &[])];
    let rows = interrupted_rows(&interrupted, &crashed(), &vec![], &facts, HOME).expect("rows");
    let mut report = look_at_state(false, Some(interrupted));
    report.changes = rows;
    assert!(
        report.interrupted.as_ref().expect("an interruption").complete,
        "the fixture is not a finished session"
    );
    assert_eq!(report.actions(), vec![Action::Unchanged]);
    assert_eq!(exit(&report, Mode::Plan), Exit::Pending);
    assert_eq!(
        run(Mode::Apply, &report, &vec![], &vec![], None),
        Turn::Ask,
        "the decline was never offered"
    );
    // A decline leaves the report to be shown as it was planned.
    assert_eq!(run(Mode::Apply, &report, &vec![], &vec![], Some(false)), Turn::Show);
    assert!(!report.executed);
    assert!(report.recovered.is_none(), "a decline recovered something");
    assert_eq!(report.actions(), vec![Action::Unchanged]);
    assert_eq!(
        exit(&report, Mode::Apply),
        Exit::Pending,
        "a declined apply reported converged over a standing journal"
    );
    assert_eq!(exit(&report, Mode::Apply), exit(&report, Mode::Plan));
}

fn report_with(actions: &[Action]) -> Report {
    let mut report = Report::default();
    report.changes = actions
        .iter()
        .map(|action| Change {
            target: "~/.a".to_owned(),
            origin: Origin::unknown("/repo/bx.toml"),
            action: *action,
            diff: None,
            note: None,
        })
        .collect();
    report
}

#[test]
fn t20_exit_follows_the_mode_and_whether_apply_wrote() {
    let (blocked, conflict, create, unchanged) =
        (Action::Blocked, Action::Conflict, Action::Create, Action::Unchanged);

    assert_eq!(exit(&report_with(&[]), Mode::Plan), Exit::Converged);
    assert_eq!(exit(&report_with(&[unchanged]), Mode::Plan), Exit::Converged);
    assert_eq!(exit(&report_with(&[create]), Mode::Plan), Exit::Pending);

    for complete in [false, true] {
        let mut interrupted = report_with(&[unchanged]);
        interrupted.interrupted = Some(Interrupted {
            kind: SessionKind::Apply,
            journal: "/state/journal".to_owned(),
            complete,
            unreadable: !complete,
            unfinished: Vec::new(),
        });
        assert_eq!(exit(&interrupted, Mode::Plan), Exit::Pending, "{complete}");
        assert_eq!(exit(&interrupted, Mode::Apply), Exit::Pending, "{complete}");

        // An apply that recovered stopped there: the configured targets are
        // still undecided, so it is the same answer and not a second arm.
        let mut recovered = interrupted;
        recovered.recovered = Some("recorded 1 entry".to_owned());
        assert_eq!(exit(&recovered, Mode::Apply), Exit::Pending, "{complete}");
    }

    // A run against another apply's held state directory decided its rows
    // against a directory that apply is concurrently changing.
    let mut running = report_with(&[unchanged]);
    running.apply_running = true;
    assert_eq!(exit(&running, Mode::Plan), Exit::Pending);

    let mut done = report_with(&[create, unchanged]);
    done.executed = true;
    assert_eq!(exit(&done, Mode::Apply), Exit::Converged);
    let mut attention = report_with(&[create, blocked]);
    attention.executed = true;
    assert_eq!(exit(&attention, Mode::Apply), Exit::Pending);
    let mut conflicted = report_with(&[conflict]);
    conflicted.executed = true;
    assert_eq!(exit(&conflicted, Mode::Apply), Exit::Pending);

    assert_eq!(exit(&report_with(&[create]), Mode::Apply), Exit::Pending);
    assert_eq!(exit(&report_with(&[unchanged]), Mode::Apply), Exit::Converged);
}

#[test]
fn a_summary_counts_each_action() {
    let text = summary(&vec![Action::Create, Action::Create, Action::Conflict]);
    assert!(text.contains('2') && text.contains('1'), "{text}");
    assert_eq!(Exit::from_actions(&vec![Action::Unchanged]), Exit::Converged);
    assert_eq!(Exit::from_actions(&vec![Action::Blocked]), Exit::Pending);
    assert_eq!(
        summary(&vec![Action::Unchanged, Action::Undeclared]),
        "Plan: 0 to create, 0 to modify, 0 conflict, 0 blocked, 1 unchanged, 1 undeclared."
    );
}

#[test]
fn what_is_no_longer_declared_is_shown_and_left() {
    let mut disk = Disk::new();
    disk.own(".kept", b"x\n", Mechanism::Own);
    disk.own(".dropped", b"x\n", Mechanism::Own);
    let resolutions = vec![inline("~/.kept", "x\n")];
    let rows = undeclared(&disk.ledger, &resolutions, &Vec::new(), "/state/ledger.mpk");
    assert_eq!(rows.len(), 1);
    assert_eq!(rows[0].target, "~/.dropped");
    assert_eq!(rows[0].action.symbol(), '*');
    assert_eq!(rows[0].diff, None);
    assert!(note(&rows[0]).contains("`bx rm` releases it"), "{rows:?}");

    let mut report = disk.plan(resolutions).0;
    report.changes.extend(rows);
    assert_eq!(exit(&report, Mode::Plan), Exit::Converged);
    let rendered = render(&report, View::Plan, Palette::plain(), HOME);
    assert!(rendered.contains("  * ~/.dropped  (/state/ledger.mpk:0) "), "{rendered}");
    assert!(!rendered.contains("~/.kept"), "{rendered}");
}

#[test]
fn white_space_and_control_characters_are_those_unicode_names() {
    for c in '\0'..=char::MAX {
        assert_eq!(is_white(c), c.is_whitespace(), "{c:?}");
        assert_eq!(is_control(c), c.is_control(), "{c:?}");
    }
}

#[test]
fn only_a_create_or_a_modify_produces_a_write_and_it_is_the_decided_one() {
    let mut disk = Disk::new();
    disk.write(".mine", b"user\n");
    let declared = Declared::new();
    let ctx = Ctx { ledger: &disk.ledger, home: HOME, declared: &declared };

    let new = inline("~/.new", "x\n");
    let (change, op) = decide(&new, &disk.facts(&new), &ctx).expect("decide");
    assert_eq!(change.action, Action::Create);
    let op = op.expect("a create writes");
    assert_eq!(op.target().text, "~/.new");
    let request = op.into_request();
    assert_eq!(request.dest, child(".new"));
    assert_eq!(request.mode, FileMode::default_file());
    assert_eq!(request.ownership, Ownership::Owned(Mechanism::Own));
    match request.content {
        Content::Bytes { bytes, planned } => {
            assert_eq!(bytes, b"x\n");
            assert_eq!(planned.kind, Kind::Absent);
        }
        _ => panic!("a create is bytes"),
    }

    let mine = inline("~/.mine", "x\n");
    let (change, op) = decide(&mine, &disk.facts(&mine), &ctx).expect("decide");
    assert_eq!(change.action, Action::Conflict);
    assert_eq!(op, None);
}

#[test]
fn every_write_is_made_in_order_as_it_was_decided() {
    let mut disk = Disk::new();
    disk.own(".modified", b"old\n", Mechanism::Own);
    disk.own(".same", b"x\n", Mechanism::Own);
    disk.write(".conflict", b"mine\n");
    let (report, ops) = disk.plan(vec![
        inline("~/.created", "x\n"),
        inline("~/.modified", "x\n"),
        inline("~/.same", "x\n"),
        inline("~/.conflict", "x\n"),
    ]);
    assert_eq!(
        report.actions(),
        vec![Action::Create, Action::Modify, Action::Unchanged, Action::Conflict]
    );
    let written: Vec<&str> = ops.iter().map(|op| op.target().text.as_str()).collect();
    assert_eq!(written, ["~/.created", "~/.modified"]);
    assert_eq!(ops[0].made, Made::Bytes(b"x\n".to_vec()));
    let asked = execute(ops);
    assert_eq!(asked[1].dest, child(".modified"));
    let Content::Bytes { planned, .. } = &asked[1].content else {
        panic!("a write holds bytes: {asked:?}")
    };
    assert_eq!(planned.bytes.as_deref(), Some(&b"old\n"[..]));
}

#[test]
fn an_absent_target_bx_attached_to_another_way_is_a_conflict_not_a_create() {
    for (mechanism, words) in [
        (Mechanism::Region { comment: '#' }, "a managed region"),
        (Mechanism::Include { line: "x".to_owned() }, "an include line"),
    ] {
        let mut disk = Disk::new();
        disk.own(".a", b"old\n", mechanism);
        disk.files.remove(&child(".a"));
        let declared = Declared::new();
        let ctx = Ctx { ledger: &disk.ledger, home: HOME, declared: &declared };

        let target = inline("~/.a", "x\n");
        let (change, op) = decide(&target, &disk.facts(&target), &ctx).expect("decide");

        assert_eq!(change.action, Action::Conflict, "{words}");
        assert_eq!(
            change.note.as_deref(),
            Some(format!("bx attached to this file as {words}").as_str())
        );
        assert_eq!(op, None, "{words}");
    }
}

#[test]
fn decision_24_a_file_whose_existing_parent_denies_its_owner_write_is_a_conflict() {
    for mode in [0o500_u32, 0o100] {
        let mut disk = Disk::new();
        disk.mkdir("locked", mode);

        let (report, _) = disk.plan(vec![inline("~/locked/conf", "x\n")]);

        let file = row_for(&report, "~/locked/conf");
        assert!(
            !file.action.is_pending(),
            "{mode:04o}: plan announced work apply cannot do: {file:?}"
        );
        assert_eq!(file.action, Action::Conflict, "{mode:04o}: {file:?}");
        let note = file.note.as_deref().expect("a note");
        assert!(
            note.contains("~/locked")
                && note.contains(&format!("{mode:04o}"))
                && note.contains("denies its owner write"),
            "{mode:04o}: {note}"
        );

        // Apply does exactly what plan announced, which here is nothing.
        let applied = disk.apply(vec![inline("~/locked/conf", "x\n")]);
        assert!(!applied.executed, "{mode:04o}: apply wrote");
        assert_eq!(disk.read("locked/conf"), None, "{mode:04o}: apply created the file");
    }
}

#[test]
fn decision_24_an_absent_parent_beneath_an_unwritable_one_names_what_cannot_be_created() {
    let mut disk = Disk::new();
    disk.mkdir("locked", 0o500);

    let (report, _) = disk.plan(vec![inline("~/locked/a/b/conf", "x\n")]);

    let file = row_for(&report, "~/locked/a/b/conf");
    assert_eq!(file.action, Action::Conflict, "{file:?}");
    let note = file.note.as_deref().expect("a note");
    assert!(
        note.contains("~/locked is 0500 on disk")
            && note.contains("could not create ~/locked/a/b inside it"),
        "{note}"
    );
}

#[test]
fn a_parent_bx_cannot_search_stops_the_run_before_any_decision() {
    // A destination that could not be observed ends the run, whatever else was
    // declared.
    let resolutions = vec![inline("~/.a", "x\n"), inline("~/locked/conf", "x\n")];
    let disk = Disk::new();
    let facts = vec![
        disk.facts(&resolutions[0]),
        Err("/home/someone/locked/conf: Permission denied".to_owned()),
    ];
    let error = decide_all(&resolutions, &facts, &disk.ledger, HOME)
        .expect_err("a parent bx cannot search stops the run");
    assert!(matches!(&error, Error::Fs(_)), "{error:?}");
}

#[test]
fn a_file_beneath_a_directory_declared_without_owner_write_is_a_conflict() {
    let layer = || vec![a_directory("~/.d", 0o555), inline("~/.d/f", "x\n")];
    let mut disk = Disk::new();

    let (report, _) = disk.plan(layer());
    assert_eq!(row_for(&report, "~/.d").action, Action::Create);
    let file = row_for(&report, "~/.d/f");
    assert_eq!(file.action, Action::Conflict, "{report:?}");
    assert_eq!(
        file.note.as_deref(),
        Some(
            "~/.d is declared 0555, which denies its owner write, so apply could not write \
             a file inside it"
        )
    );

    let applied = disk.apply(layer());
    assert!(applied.executed);
    assert_eq!(disk.mode(".d"), Some(FileMode::from_bits(0o555)));
    assert_eq!(disk.read(".d/f"), None);

    let mut control = Disk::new();
    let layer = || vec![inline("~/.d/f", "x\n")];
    assert_eq!(row_for(&control.plan(layer()).0, "~/.d/f").action, Action::Create);
    assert!(control.apply(layer()).executed);
    assert_eq!(control.mode(".d"), Some(FileMode::default_dir()));
}

#[test]
fn a_file_beneath_a_directory_declared_without_owner_search_is_a_conflict() {
    let disk = Disk::new();
    let (report, _) = disk.plan(vec![a_directory("~/.d", 0o600), inline("~/.d/f", "x\n")]);
    let file = &report.changes[1];
    assert_eq!(file.action, Action::Conflict, "{file:?}");
    assert!(
        file.note.as_deref().is_some_and(|note| note.contains("denies its owner search")),
        "{file:?}"
    );
}

#[test]
fn a_directory_target_is_created_at_every_mode_it_can_declare_and_then_left_alone() {
    let undeclared = || {
        let mut target = a_target("~/.d");
        target.body = Body::Dir;
        Resolution::Ready(target)
    };
    let layers: [(&dyn Fn() -> Resolution, u32); 5] = [
        (&|| a_directory("~/.d", 0o755), 0o755),
        (&|| a_directory("~/.d", 0o700), 0o700),
        (&|| a_directory("~/.d", 0o555), 0o555),
        (&|| a_directory("~/.d", 0o444), 0o444),
        (&undeclared, 0o755),
    ];
    for (layer, bits) in layers {
        let mut disk = Disk::new();
        let mode = FileMode::from_bits(bits);

        let (report, _) = disk.plan(vec![layer()]);
        let row = row_for(&report, "~/.d");
        assert_eq!(row.action, Action::Create, "{bits:o}");
        assert_eq!(row.note, Some(format!("creates ~/.d {}", mode.text())), "{bits:o}");
        assert_eq!(row.diff, None, "a directory has no bytes to show");
        assert_eq!(disk.mode(".d"), None, "{bits:o}: plan made it");

        assert!(disk.apply(vec![layer()]).executed, "{bits:o}");
        assert_eq!(disk.mode(".d"), Some(mode), "{bits:o}");

        assert_eq!(disk.plan(vec![layer()]).0.actions(), vec![Action::Unchanged], "{bits:o}");
        assert!(!disk.apply(vec![layer()]).executed, "{bits:o}");
        assert_eq!(disk.mode(".d"), Some(mode), "{bits:o}");
    }
}

#[test]
fn a_file_declared_before_or_after_its_directory_is_written_into_it_at_the_declared_mode() {
    for file_first in [true, false] {
        let layer = || {
            let mut layer =
                vec![a_file("~/.ssh/config", "Host *\n", 0o600), a_directory("~/.ssh", 0o700)];
            if !file_first {
                layer.reverse();
            }
            layer
        };
        let mut disk = Disk::new();

        let (report, _) = disk.plan(layer());
        assert_eq!(row_for(&report, "~/.ssh").note.as_deref(), Some("creates ~/.ssh 0700"));
        let config = row_for(&report, "~/.ssh/config");
        assert_eq!(config.action, Action::Create, "{report:?}");
        assert_eq!(
            config.note, None,
            "the directory's row announces the directory: {report:?}"
        );

        assert!(disk.apply(layer()).executed);
        assert_eq!(disk.mode(".ssh"), Some(FileMode::private_dir()));
        assert_eq!(disk.mode(".ssh/config"), Some(FileMode::private_file()));
        let config = disk.entry("~/.ssh/config").expect("the file is recorded");
        assert!(
            config.created_dirs.is_empty(),
            "the directory is its own target's to claim"
        );
        assert_eq!(
            disk.plan(layer()).0.actions(),
            vec![Action::Unchanged, Action::Unchanged]
        );
    }
}

#[test]
fn an_existing_wide_directory_is_narrowed_before_a_file_is_written_into_it() {
    let mut disk = Disk::new();
    disk.mkdir(".ssh", 0o755);
    disk.write(".ssh/known_hosts", b"theirs\n");
    let layer =
        || vec![a_file("~/.ssh/config", "Host *\n", 0o600), a_directory("~/.ssh", 0o700)];

    let (report, _) = disk.plan(layer());
    let dir = row_for(&report, "~/.ssh");
    assert_eq!(dir.action, Action::Modify, "{report:?}");
    assert_eq!(
        dir.diff,
        Some(Diff::mode(FileMode::default_dir(), FileMode::private_dir()))
    );
    let config = row_for(&report, "~/.ssh/config");
    assert_eq!(config.action, Action::Create);
    assert_eq!(
        config.note, None,
        "the directory will not be wider than the file: {report:?}"
    );
    let rendered = render(&report, View::Plan, Palette::plain(), HOME);
    assert!(rendered.contains("mode 0755 -> 0700"), "{rendered}");

    assert!(disk.apply(layer()).executed);
    assert_eq!(disk.mode(".ssh"), Some(FileMode::private_dir()));
    assert_eq!(disk.read(".ssh/known_hosts"), Some(&b"theirs\n"[..]));
    assert_eq!(
        disk.plan(layer()).0.actions(),
        vec![Action::Unchanged, Action::Unchanged]
    );
}

#[test]
fn a_directory_whose_mode_changed_since_bx_set_it_is_a_conflict() {
    let mut disk = Disk::new();
    assert!(disk.apply(vec![a_directory("~/.d", 0o700)]).executed);
    disk.mkdir(".d", 0o750);

    let (report, _) = disk.plan(vec![a_directory("~/.d", 0o700)]);
    let row = row_for(&report, "~/.d");
    assert_eq!(row.action, Action::Conflict, "{report:?}");
    assert_eq!(
        row.note.as_deref(),
        Some("its mode changed since bx set it to 0700; mode 0750 -> 0700")
    );
    assert!(!disk.apply(vec![a_directory("~/.d", 0o700)]).executed);
    assert_eq!(disk.mode(".d"), Some(FileMode::from_bits(0o750)));
}

#[test]
fn a_directory_bx_set_is_set_again_when_its_declaration_changes() {
    let mut disk = Disk::new();
    assert!(disk.apply(vec![a_directory("~/.d", 0o700)]).executed);

    let (report, _) = disk.plan(vec![a_directory("~/.d", 0o750)]);
    assert_eq!(report.actions(), vec![Action::Modify], "{report:?}");
    assert!(disk.apply(vec![a_directory("~/.d", 0o750)]).executed);
    assert_eq!(disk.mode(".d"), Some(FileMode::from_bits(0o750)));
}

#[test]
fn nested_directory_targets_are_made_shallowest_first_whatever_their_order() {
    for inner_first in [true, false] {
        let layer = || {
            let mut layer = vec![a_directory("~/a/b/c", 0o750), a_directory("~/a", 0o700)];
            if !inner_first {
                layer.reverse();
            }
            layer
        };
        let mut disk = Disk::new();

        let (report, ops) = disk.plan(layer());
        assert_eq!(
            row_for(&report, "~/a/b/c").note.as_deref(),
            Some("creates ~/a/b 0755, ~/a/b/c 0750"),
            "~/a is its own target's to name: {report:?}"
        );
        let made: Vec<&str> = ops.iter().map(|op| op.target().text.as_str()).collect();
        assert_eq!(made, ["~/a", "~/a/b/c"]);
        assert!(disk.apply(layer()).executed);
        assert_eq!(disk.mode("a"), Some(FileMode::private_dir()));
        assert_eq!(disk.mode("a/b"), Some(FileMode::default_dir()));
        assert_eq!(disk.mode("a/b/c"), Some(FileMode::from_bits(0o750)));
        let inner = disk.entry("~/a/b/c").expect("recorded");
        assert_eq!(inner.created_dirs, vec![portable("~/a/b")]);
    }
}

#[test]
fn a_directory_inside_a_directory_declared_without_owner_write_is_a_conflict() {
    let layer = || {
        let mut inner = a_target("~/a/b");
        inner.body = Body::Dir;
        vec![a_directory("~/a", 0o500), Resolution::Ready(inner)]
    };
    let mut disk = Disk::new();

    let (report, _) = disk.plan(layer());
    let inner = row_for(&report, "~/a/b");
    assert_eq!(inner.action, Action::Conflict, "{report:?}");
    assert!(
        note(inner).starts_with(
            "~/a is declared 0500, which denies its owner write, so apply could not create \
             ~/a/b inside it"
        ),
        "{report:?}"
    );
    assert!(disk.apply(layer()).executed);
    assert_eq!(disk.mode("a/b"), None);
}

#[test]
fn a_directory_whose_mode_changes_inside_one_declared_without_owner_search_is_a_conflict() {
    let mut disk = Disk::new();
    disk.mkdir("a", 0o700);
    disk.mkdir("a/b", 0o755);

    let (report, _) = disk.plan(vec![a_directory("~/a", 0o600), a_directory("~/a/b", 0o700)]);
    assert_eq!(row_for(&report, "~/a").action, Action::Modify, "{report:?}");
    let inner = row_for(&report, "~/a/b");
    assert_eq!(inner.action, Action::Conflict, "{report:?}");
    assert!(
        note(inner).starts_with(
            "~/a is declared 0600, which denies its owner search, so apply could not change \
             the mode of ~/a/b inside it"
        ),
        "{report:?}"
    );
    assert_eq!(inner.diff, None, "{report:?}");
}

#[test]
fn writes_beneath_a_declared_grandparent_without_owner_search_are_conflicts() {
    let layer = || {
        vec![
            a_directory("~/a", 0o600),
            a_directory("~/a/c/d", 0o700),
            inline("~/a/b/f", "x\n"),
        ]
    };
    let mut disk = Disk::new();
    disk.mkdir("a", 0o700);
    disk.mkdir("a/b", 0o755);
    disk.mkdir("a/c", 0o755);
    disk.mkdir("a/c/d", 0o755);

    let (report, _) = disk.plan(layer());
    assert_eq!(row_for(&report, "~/a").action, Action::Modify, "{report:?}");
    for (target, parent) in [("~/a/b/f", "~/a/b"), ("~/a/c/d", "~/a/c")] {
        let row = row_for(&report, target);
        assert_eq!(row.action, Action::Conflict, "{report:?}");
        assert!(
            note(row).starts_with(&format!(
                "~/a is declared 0600, which denies its owner search, so apply could not \
                 reach {parent} beneath it"
            )),
            "{report:?}"
        );
    }

    assert!(disk.apply(layer()).executed);
    assert_eq!(disk.mode("a"), Some(FileMode::from_bits(0o600)));
    assert_eq!(disk.read("a/b/f"), None);
    assert_eq!(disk.mode("a/c/d"), Some(FileMode::default_dir()));
}

#[test]
fn a_directory_whose_mode_changes_inside_one_declared_without_owner_write_is_changed() {
    let layer = || vec![a_directory("~/a", 0o500), a_directory("~/a/b", 0o700)];
    let mut disk = Disk::new();
    disk.mkdir("a", 0o700);
    disk.mkdir("a/b", 0o755);

    let (report, _) = disk.plan(layer());
    assert_eq!(row_for(&report, "~/a/b").action, Action::Modify, "{report:?}");
    assert!(disk.apply(layer()).executed);
    assert_eq!(disk.mode("a"), Some(FileMode::from_bits(0o500)));
    assert_eq!(disk.mode("a/b"), Some(FileMode::private_dir()));
    assert!(disk
        .plan(layer())
        .0
        .actions()
        .iter()
        .all(|action| *action == Action::Unchanged));
}

#[test]
fn a_file_inside_a_declared_directory_wider_than_it_is_noted() {
    let disk = Disk::new();
    let (report, _) =
        disk.plan(vec![a_directory("~/.d", 0o755), a_file("~/.d/conf", "x\n", 0o600)]);
    let file = row_for(&report, "~/.d/conf");
    assert_eq!(file.action, Action::Create, "{report:?}");
    assert_eq!(
        file.note.as_deref(),
        Some("~/.d is declared 0755, wider than the 0600 this file declares"),
        "{report:?}"
    );
}

#[test]
fn a_directory_target_whose_parent_is_not_a_directory_is_a_conflict_and_is_left() {
    let mut disk = Disk::new();
    disk.write(".x", b"the user's file\n");

    let (report, _) = disk.plan(vec![a_directory("~/.x/d", 0o700)]);
    assert_eq!(report.actions(), vec![Action::Conflict], "{report:?}");
    assert_eq!(
        report.changes[0].note.as_deref(),
        Some("~/.x is not a directory, so bx cannot write a file inside it"),
        "{report:?}"
    );
    assert_eq!(report.changes[0].diff, None, "{report:?}");
    disk.apply(vec![a_directory("~/.x/d", 0o700)]);
    assert_eq!(disk.read(".x"), Some(&b"the user's file\n"[..]));
}

#[test]
fn a_file_where_a_directory_is_declared_is_a_conflict_and_is_left() {
    let mut disk = Disk::new();
    disk.write(".d", b"the user's file\n");

    let (report, _) = disk.plan(vec![a_directory("~/.d", 0o700)]);
    assert_eq!(report.actions(), vec![Action::Conflict]);
    assert_eq!(
        report.changes[0].note.as_deref(),
        Some("a file, where the target declares a directory")
    );
    assert!(!disk.apply(vec![a_directory("~/.d", 0o700)]).executed);
    assert_eq!(disk.read(".d"), Some(&b"the user's file\n"[..]));
}

#[test]
fn decision_24_a_file_beneath_a_directory_its_owner_can_write_is_decided_as_before() {
    let disk = Disk::new();
    let (report, _) = disk.plan(vec![a_directory("~/.d", 0o755), inline("~/.d/f", "x\n")]);
    assert_eq!(row_for(&report, "~/.d/f").action, Action::Create, "{report:?}");
}

#[test]
fn decision_24_only_what_the_unwritable_directory_actually_holds_is_refused() {
    let mut disk = Disk::new();
    disk.mkdir("locked", 0o500);
    let (report, _) = disk.plan(vec![
        inline("~/locked/conf", "x\n"),
        inline("~/beside", "x\n"),
        a_file("~/narrow", "x\n", 0o444),
    ]);

    assert_eq!(row_for(&report, "~/locked/conf").action, Action::Conflict, "{report:?}");
    assert_eq!(row_for(&report, "~/beside").action, Action::Create, "{report:?}");
    let narrow = row_for(&report, "~/narrow");
    assert_eq!(narrow.action, Action::Create, "{report:?}");
    assert!(
        narrow
            .note
            .as_deref()
            .is_none_or(|note| !note.contains("denies its owner write")),
        "{report:?}"
    );
}

#[test]
fn an_interrupted_directory_write_is_shown_as_what_recovery_does() {
    for rel in [".d", ".made"] {
        let mut disk = Disk::new();
        let before = match rel {
            ".d" => Prior::Existed(RestoreRef {
                digest: dir_digest(),
                mode: FileMode::default_dir(),
                len: 0,
            }),
            _ => Prior::Absent,
        };
        disk.mkdir(rel, 0o700);
        let target = format!("~/{rel}");
        let written = Intent {
            target: portable(&target),
            dest: child(rel),
            temp: None,
            before,
            after: Written::Present {
                digest: dir_digest(),
                mode: FileMode::private_dir(),
            },
            created_dirs: Vec::new(),
            mechanism: Some(Mechanism::Dir),
            ledger_written: None,
        };
        let now = standing_of(&written, &disk.observe(&child(rel)));
        assert_eq!(now, Standing::Written);
        let loaded = Loaded::Unterminated(vec![
            Record::Begin(Begin {
                kind: SessionKind::Apply,
                home: HOME.to_owned(),
                scope: Vec::new(),
            }),
            Record::Intent(written),
        ]);
        let interrupted = standing(false, vec![unfinished(&target, now)]);
        let rows = interrupted_rows(
            &interrupted,
            &loaded,
            &vec![a_directory("~/.d", 0o700)],
            &vec![rolled(&disk, &target, None, &[])],
            HOME,
        )
        .expect("rows");
        let row = &rows[0];
        assert_eq!(row.action, Action::Modify);
        if rel == ".d" {
            assert_eq!(row.note.as_deref(), Some("rolls back: puts back the mode it had"));
            assert_eq!(
                row.diff,
                Some(Diff::mode(FileMode::private_dir(), FileMode::default_dir()))
            );
        } else {
            assert_eq!(
                row.note.as_deref(),
                Some("rolls back: removes the directory the session created where empty")
            );
            assert_eq!(row.diff, None);
        }
    }
}

#[test]
fn t5_a_symlink_a_directory_and_an_unusable_parent_are_conflicts() {
    let layer = || {
        vec![inline("~/.link", "x\n"), inline("~/.dir", "x\n"), inline("~/.file/inner", "x\n")]
    };
    let mut disk = Disk::new();
    disk.write("real", b"x\n");
    disk.links.push(child(".link"));
    disk.mkdir(".dir", 0o755);
    disk.write(".file", b"not a directory\n");

    let (report, _) = disk.plan(layer());

    assert_eq!(
        report.actions(),
        vec![Action::Conflict, Action::Conflict, Action::Conflict]
    );
    for change in &report.changes {
        assert!(change.note.is_some(), "{change:?}");
        assert_eq!(change.diff, None, "{change:?}");
    }
    assert!(note(&report.changes[0]).contains("symlink"));
    assert!(note(&report.changes[1]).contains("directory"));

    assert!(!disk.apply(layer()).executed);
    assert_eq!(disk.mode(".dir"), Some(FileMode::default_dir()));
}

#[test]
fn decision_9_every_unusable_parent_is_named_by_its_portable_path() {
    let mut disk = Disk::new();
    disk.write(".file", b"not a directory\n");
    disk.links.push(child(".dangling"));
    let (report, _) = disk.plan(vec![
        inline("~/.file/inner", "x\n"),
        inline("~/.file/a/b", "x\n"),
        inline("~/.dangling/x", "x\n"),
    ]);

    let notes: Vec<&str> = report
        .changes
        .iter()
        .map(|change| change.note.as_deref().expect("a note"))
        .collect();
    assert_eq!(
        notes,
        [
            "~/.file is not a directory, so bx cannot write a file inside it",
            "~/.file does not resolve to a directory, so bx cannot create ~/.file/a inside it",
            "~/.dangling does not resolve to a directory, so bx cannot create ~/.dangling \
             inside it",
        ]
    );
    for note in notes {
        assert!(!note.contains(HOME), "{note}");
    }
    assert_eq!(report.actions(), vec![Action::Conflict; 3]);
}

#[test]
fn t9_apply_twice_converges_and_changes_nothing_the_second_time() {
    let layer = || {
        vec![
            inline("~/.config/new/deep.conf", "deep\n"),
            inline("~/.owned", "v2\n"),
            a_file("~/.private", "secret\n", 0o600),
        ]
    };
    let mut disk = Disk::new();
    disk.own(".owned", b"v1\n", Mechanism::Own);

    let first = disk.apply(layer());
    assert!(first.executed);
    assert_eq!(
        first.actions(),
        vec![Action::Create, Action::Modify, Action::Create]
    );
    assert_eq!(exit(&first, Mode::Apply), Exit::Converged);

    let after = disk.plan(layer()).0;
    assert_eq!(after.actions(), vec![Action::Unchanged; 3]);
    assert_eq!(exit(&after, Mode::Plan), Exit::Converged);

    let written = (disk.files.clone(), disk.dirs.clone(), disk.ledger.clone());
    let second = disk.apply(layer());
    assert!(!second.executed);
    assert_eq!(exit(&second, Mode::Apply), Exit::Converged);
    assert_eq!((disk.files.clone(), disk.dirs.clone(), disk.ledger.clone()), written);
    assert_eq!(disk.mode(".private"), Some(FileMode::private_file()));
}

#[test]
fn a_region_and_what_is_around_it_converge_too() {
    let mut disk = Disk::new();
    disk.write(".zshrc", b"mine\n");
    assert_eq!(disk.apply(vec![zshrc()]).actions(), vec![Action::Modify]);
    let left = disk.read(".zshrc").map(<[u8]>::to_vec);
    assert_eq!(left, Some(format!("mine\n{ZSHRC_REGION}").into_bytes()));
    let second = disk.apply(vec![zshrc()]);
    assert_eq!(second.actions(), vec![Action::Unchanged]);
    assert_eq!(second.changes[0].diff, None);
    assert_eq!(disk.read(".zshrc").map(<[u8]>::to_vec), left);
}

#[test]
fn an_edit_outside_the_region_is_never_a_conflict() {
    let layer = |env: &str| {
        let mut fragment = a_target("~/.local/share/bx/zshrc.zsh");
        let what = Gen::Interactive { env: env.to_owned(), history: None };
        let header = "# Generated by bx. Edit the config repo, not this file.\n";
        let content = format!("{header}\n# bx phase: env\n{env}");
        fragment.body = generated(what, &content, vec![]);
        vec![Resolution::Ready(fragment), zshrc()]
    };
    let one = "export EDITOR=nvim\n";
    let mut disk = Disk::new();
    disk.write(".zshrc", b"alias ll='ls -l'\n");
    disk.apply(layer(one));

    // Above the region, below it, and the file's own mode.
    disk.write(
        ".zshrc",
        format!("export FOO=1\nalias ll='ls -l'\n{ZSHRC_REGION}bindkey -v\n").as_bytes(),
    );
    let (edited, _) = disk.plan(layer(one));
    assert_eq!(row_for(&edited, "~/.zshrc").action, Action::Unchanged);

    // A change of declaration rewrites bx's fragment, and the region's bytes,
    // which never vary, stay as they are.
    let changed = disk.apply(layer(&format!("{one}export VISUAL=nvim\n")));
    assert_eq!(
        row_for(&changed, "~/.local/share/bx/zshrc.zsh").action,
        Action::Modify
    );
    assert_eq!(row_for(&changed, "~/.zshrc").action, Action::Unchanged);
    assert!(disk
        .read(".local/share/bx/zshrc.zsh")
        .expect("the fragment")
        .ends_with(b"export VISUAL=nvim\n"));
    assert_eq!(
        disk.read(".zshrc").expect("the user's file"),
        format!("export FOO=1\nalias ll='ls -l'\n{ZSHRC_REGION}bindkey -v\n").as_bytes()
    );
}

#[test]
fn t10_apply_announces_exactly_what_plan_announced_and_plan_changes_nothing() {
    let layer = || {
        vec![inline("~/.owned", "v2\n"), inline("~/.new", "new\n"), inline("~/.mine", "bx\n")]
    };
    let seeded = || {
        let mut disk = Disk::new();
        disk.own(".owned", b"v1\n", Mechanism::Own);
        disk.write(".mine", b"mine\n");
        disk
    };
    let planned = seeded().plan(layer()).0;
    let applied = seeded().apply(layer());
    assert!(applied.executed);
    assert_eq!(applied.changes, planned.changes);
}

#[test]
fn t11_a_mode_only_drift_is_a_journalled_modify_that_converges() {
    let mut disk = Disk::new();
    disk.own(".a", b"same\n", Mechanism::Own);
    let layer = || vec![a_file("~/.a", "same\n", 0o600)];

    let (report, ops) = disk.plan(layer());
    assert_eq!(report.actions(), vec![Action::Modify]);
    assert!(
        note(&report.changes[0]).starts_with("mode 0644 -> 0600"),
        "{:?}",
        report.changes[0].note
    );
    assert_eq!(
        report.changes[0].diff,
        Some(Diff {
            kind: DiffKind::Mode {
                from: FileMode::default_file(),
                to: FileMode::private_file()
            }
        })
    );
    assert_eq!(ops[0].made, Made::Bytes(b"same\n".to_vec()));

    assert!(disk.apply(layer()).executed);
    assert_eq!(disk.mode(".a"), Some(FileMode::private_file()));
    assert_eq!(disk.read(".a"), Some(&b"same\n"[..]));
    assert_eq!(disk.plan(layer()).0.actions(), vec![Action::Unchanged]);
}

#[test]
fn decision_22_a_mode_the_user_changed_on_a_file_bx_owns_is_a_conflict() {
    let mut disk = Disk::new();
    disk.own(".a", b"token\n", Mechanism::Own);
    disk.files.insert(child(".a"), (b"token\n".to_vec(), FileMode::private_file()));

    let (report, _) = disk.plan(vec![inline("~/.a", "token\n")]);

    assert_eq!(report.actions(), vec![Action::Conflict]);
    assert!(
        note(&report.changes[0]).starts_with("its mode changed since bx wrote it"),
        "{:?}",
        report.changes[0].note
    );
    let applied = disk.apply(vec![inline("~/.a", "token\n")]);
    assert!(!applied.executed, "nothing is written over the user's mode");
    assert_eq!(disk.mode(".a"), Some(FileMode::private_file()));

    // Declaring the mode the user chose is converged, not a conflict.
    let (declared, _) = disk.plan(vec![a_file("~/.a", "token\n", 0o600)]);
    assert_eq!(declared.actions(), vec![Action::Unchanged]);
}

#[test]
fn decision_23_a_create_names_every_directory_apply_creates_with_its_mode() {
    let layer = || vec![inline("~/.config/made/deep/new.conf", "x\n"), inline("~/.b", "b\n")];
    let mut disk = Disk::new();
    disk.mkdir(".config", 0o755);

    let (report, _) = disk.plan(layer());

    assert_eq!(report.actions(), vec![Action::Create, Action::Create]);
    assert_eq!(
        report.changes[0].note.as_deref(),
        Some("creates ~/.config/made 0755, ~/.config/made/deep 0755")
    );
    assert_eq!(report.changes[1].note, None, "the home is already there");
    assert_eq!(disk.mode(".config/made"), None, "plan created a parent");

    assert!(disk.apply(layer()).executed);
    for dir in [".config/made", ".config/made/deep"] {
        assert_eq!(disk.mode(dir), Some(FileMode::default_dir()), "{dir}");
    }
}

#[test]
fn t15_apply_refuses_a_held_state_directory_and_plan_reports_it_running() {
    let disk = Disk::new();
    let decided = disk.decided(&vec![inline("~/.a", "x\n")]);
    let report = report_of(true, decided.changes, Vec::new(), Vec::new());
    let ops = decided.ops;

    for approved in [None, Some(true), Some(false)] {
        assert_eq!(run(Mode::Apply, &report, &ops, &vec![], approved), Turn::Locked);
    }

    assert_eq!(run(Mode::Plan, &report, &ops, &vec![], None), Turn::Show);
    assert!(report.apply_running);
    assert_eq!(report.interrupted, None);
    assert_eq!(report.actions(), vec![Action::Create]);
    assert_eq!(exit(&report, Mode::Plan), Exit::Pending);
    assert_eq!(disk.read(".a"), None);
    let held = look_at_state(true, Some(standing(true, Vec::new())));
    assert_eq!(held.interrupted, None, "a running apply's journal is no interruption");

    let (report, ops) = disk.plan(vec![inline("~/.a", "x\n")]);
    assert!(
        !report.apply_running,
        "a released lock is not a running apply"
    );
    assert_eq!(run(Mode::Apply, &report, &ops, &vec![], None), Turn::Ask);
}

#[test]
fn state_errors_are_one_variant_wherever_they_come_from() {
    let failure = || "/x is not a directory".to_owned();
    let state = Error::State(failure());
    assert_eq!(Error::of_recover(RecoverError::State(failure())), state);
    assert_eq!(Error::of_journal(JournalError::State { detail: failure() }), state);
    assert_eq!(
        Error::of_recover(RecoverError::Journal(JournalError::State { detail: failure() })),
        state
    );
    assert_eq!(state.text(), failure());
    assert_eq!(
        Error::of_recover(RecoverError::Journal(JournalError::InProgress {
            path: "/j".to_owned()
        })),
        Error::Journal(JournalError::InProgress { path: "/j".to_owned() })
    );
    assert_eq!(
        Error::of_recover(RecoverError::Blocked { conflicts: vec![] }),
        Error::Recover("0 interrupted write(s) cannot be put back".to_owned())
    );
}

#[test]
fn a_record_the_state_directory_refuses_is_a_state_error() {
    let foreign = || JournalError::ForeignRecord {
        home: HOME.to_owned(),
        stored: "/home/someone/.a".to_owned(),
    };
    let conflict = || JournalError::PriorConflict { target: portable("~/.zshrc") };
    let words =
        "~/.zshrc was changed since bx last wrote its region; bx left it as it is".to_owned();
    assert_eq!(Error::of_journal(foreign()), Error::State(foreign().text()));
    assert_eq!(Error::of_journal(conflict()), Error::State(words.clone()));
    assert_eq!(
        Error::of_recover(RecoverError::Journal(conflict())),
        Error::State(words)
    );
    let unencoded = JournalError::Encode { source: "not UTF-8".to_owned() };
    assert_eq!(unencoded.text(), "encoding a journal record: not UTF-8");
    assert!(matches!(Error::of_journal(unencoded), Error::Journal(_)));
    assert_eq!(
        Error::of_recover(RecoverError::Blocked { conflicts: vec![1, 4] }).text(),
        "2 interrupted write(s) cannot be put back"
    );
}

#[test]
fn a_comparison_finds_what_is_to_be_done() {
    let mut disk = Disk::new();
    disk.write(".a", b"x\n");
    let at = disk.observe(&child(".a"));
    let with = |at: &Observed, bytes: &[u8], mode: u32| {
        compare(at, bytes, FileMode::from_bits(mode), HOME)
    };
    assert_eq!(with(&at, b"x\n", 0o644).action, Action::Unchanged);
    assert_eq!(with(&at, b"x\n", 0o644).parent_note, None);
    assert_eq!(with(&at, b"y\n", 0o644).action, Action::Modify);
    let moved = with(&at, b"x\n", 0o600);
    assert_eq!(moved.action, Action::Modify);
    assert_eq!(
        moved.mode_drift,
        Some((FileMode::default_file(), FileMode::private_file()))
    );
    assert_eq!(moved.note.as_deref(), Some("mode 0644 -> 0600"));
    assert_eq!(
        moved.parent_note.as_deref(),
        Some("~ is 0755 on disk, wider than the 0600 this file declares")
    );
    let missing = disk.observe(&child(".b"));
    assert_eq!(with(&missing, b"x\n", 0o644).action, Action::Create);
    let home = disk.observe(HOME);
    assert_eq!(
        with(&home, b"x\n", 0o644).note.as_deref(),
        Some("a directory, where the target declares a file")
    );
    assert_eq!(compare_dir(&home, FileMode::default_dir()).action, Action::Unchanged);
    assert_eq!(compare_dir(&home, FileMode::private_dir()).action, Action::Modify);
    assert_eq!(compare_dir(&home, FileMode::private_dir()).parent_note, None);
    assert_eq!(
        compare_dir(&at, FileMode::default_dir()).note.as_deref(),
        Some("a file, where the target declares a directory")
    );
}

#[test]
fn a_directory_is_wider_where_it_lets_others_read_or_write_what_the_file_does_not() {
    for (dir, file, wider) in [
        (0o755, 0o600, true),
        (0o755, 0o644, false),
        (0o700, 0o600, false),
        (0o500, 0o644, false),
        (0o775, 0o644, true),
        (0o711, 0o600, false),
    ] {
        let found = FileMode::from_bits(dir).is_wider_than(FileMode::from_bits(file));
        assert_eq!(found, wider, "{dir:o} over {file:o}");
    }
}

#[test]
fn a_report_holds_every_row_in_order_and_says_what_a_run_came_to() {
    let row = |target: &str, action: Action| Change {
        target: target.to_owned(),
        origin: Origin { file: "/repo/bx.toml".to_owned(), line: 1 },
        action,
        diff: None,
        note: None,
    };
    let report = report_of(
        false,
        vec![row("~/.a", Action::Create)],
        vec![row("~/.x", Action::Modify), row("~/.y", Action::Create)],
        vec![row("~/.old", Action::Undeclared)],
    );
    let targets: Vec<&str> = report.changes.iter().map(|one| one.target.as_str()).collect();
    assert_eq!(targets, ["~/.a", "~/.x", "~/.y", "~/.old"]);
    assert!(!report.executed && !report.apply_running && report.interrupted.is_none());

    let report = executed(stopped(report, 1, 1, "git said no".to_owned()));
    assert!(report.executed);
    assert_eq!(
        report.actions(),
        vec![Action::Create, Action::Modify, Action::Blocked, Action::Undeclared]
    );
    assert_eq!(report.changes[2].note.as_deref(), Some("git said no"));
    assert_eq!(exit(&report, Mode::Apply), Exit::Pending);

    let over = report_over(standing(true, Vec::new()), vec![row("~/.a", Action::Unchanged)]);
    assert!(over.interrupted.is_some());
    assert_eq!(over.actions(), vec![Action::Unchanged]);
    assert_eq!(recovered(over, "recorded".to_owned()).recovered.as_deref(), Some("recorded"));
}

#[test]
fn the_work_of_an_external_is_asked_for_like_a_write() {
    let report = report_of(false, Vec::new(), Vec::new(), Vec::new());
    let work = vec![checkout::Op {
        at: 0,
        target: portable("~/.zsh/a"),
        dest: child(".zsh/a"),
        url: "https://example.invalid/a".to_owned(),
        rev: "1".repeat(40),
        work: bx::plan::external::Work::Record,
    }];
    assert_eq!(run(Mode::Plan, &report, &vec![], &work, None), Turn::Show);
    assert_eq!(run(Mode::Apply, &report, &vec![], &work, None), Turn::Ask);
    assert_eq!(run(Mode::Apply, &report, &vec![], &work, Some(true)), Turn::Write(vec![]));
    assert_eq!(run(Mode::Apply, &report, &vec![], &vec![], None), Turn::Show);
}

#[test]
fn the_order_targets_are_declared_in_changes_no_row_and_no_write() {
    let mut disk = Disk::new();
    disk.own(".owned", b"v1\n", Mechanism::Own);
    disk.write(".mine", b"mine\n");
    let layer = || {
        vec![
            a_file("~/.d/e/conf", "x\n", 0o600),
            a_directory("~/.d/e", 0o755),
            inline("~/.mine", "bx\n"),
            a_directory("~/.d", 0o500),
            inline("~/.owned", "v2\n"),
            a_directory("~/.c", 0o700),
        ]
    };
    let (straight, written) = disk.plan(layer());
    let mut turned = layer();
    turned.reverse();
    let (reversed, again) = disk.plan(turned);
    let mut back = reversed.changes;
    back.reverse();
    assert_eq!(back, straight.changes);
    assert_eq!(written.len(), again.len());
    for op in &again {
        assert!(written.contains(op), "{op:?}");
    }
}

#[test]
fn a_second_run_finds_nothing_to_do() {
    let mut disk = Disk::new();
    disk.own(".owned", b"v1\n", Mechanism::Own);
    disk.write(".zshrc", b"mine\n");
    disk.write(".same", b"");
    let layer = || {
        let mut shared = a_target("~/.zshrc");
        shared.attach = Attach::Region { comment: '#' };
        shared.body = Body::Generated(Generated {
            what: Gen::Source,
            note: None,
            content: "source x\n".to_owned(),
            violations: Vec::new(),
            refusal: None,
        });
        vec![
            a_directory("~/.d", 0o700),
            a_file("~/.d/conf", "x\n", 0o600),
            inline("~/.owned", "v2\n"),
            inline("~/.same", ""),
            Resolution::Ready(shared),
        ]
    };
    let (first, ops) = disk.plan(layer());
    assert_eq!(ops.len(), 4, "{first:?}");
    assert!(first.actions().iter().all(|one| one.is_pending() || *one == Action::Unchanged));
    assert!(disk.apply(layer()).executed);

    let (second, ops) = disk.plan(layer());
    assert!(ops.is_empty(), "{ops:?}");
    assert!(second.actions().iter().all(|one| *one == Action::Unchanged), "{second:?}");
    assert_eq!(run(Mode::Apply, &second, &ops, &vec![], None), Turn::Show);
    assert_eq!(exit(&second, Mode::Apply), Exit::Converged);
}

#[test]
fn a_coloured_rendering_is_the_plain_one_in_styles() {
    let mut disk = Disk::new();
    disk.own(".owned", b"one\n\x1b[31mred\n", Mechanism::Own);
    disk.write(".mine", b"mine\n");
    let (report, _) = disk.plan(vec![
        inline("~/.owned", "one\ntwo\n"),
        inline("~/.mine", "bx\n"),
        a_directory("~/.d\u{7}", 0o700),
    ]);
    let plain = render(&report, View::Plan, Palette::plain(), HOME);
    let coloured = render(&report, View::Plan, Palette::resolve(false, true), HOME);
    assert!(plain.chars().all(|c| c == '\n' || c == '\t' || !c.is_control()), "{plain}");
    assert!(coloured.contains('\x1b'));
    let mut unstyled = String::new();
    let mut rest = coloured.as_str();
    while let Some(at) = rest.find('\x1b') {
        unstyled.push_str(&rest[..at]);
        let end = rest[at..].find('m').expect("a style ends");
        rest = &rest[at + end + 1..];
    }
    unstyled.push_str(rest);
    assert_eq!(unstyled, plain);
}

#[test]
fn a_write_stands_as_it_was_before_as_it_was_written_or_as_neither() {
    let mut disk = Disk::new();
    let Record::Intent(written) =
        intent("~/.a", existed(b"before\n"), b"after\n", FileMode::default_file(), &[])
    else {
        panic!("an intent")
    };
    for (bytes, expected) in [
        (&b"before\n"[..], Standing::Before),
        (&b"after\n"[..], Standing::Written),
        (&b"edited\n"[..], Standing::Diverged),
    ] {
        disk.write(".a", bytes);
        assert_eq!(standing_of(&written, &disk.observe(&child(".a"))), expected);
    }
    assert_eq!(standing_of(&written, &disk.observe(&child(".gone"))), Standing::Diverged);
}
