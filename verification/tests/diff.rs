use bx::fs::Mode;
use bx::journal::record::SessionKind;
use bx::plan::diff::{escape, Diff, DiffKind, Why, TEXT_LIMIT};
use bx::plan::render::{render, Palette};
use bx::plan::rows::{Change, Interrupted, Origin, Report, Standing, Unfinished};
use bx::plan::view::View;
use bx::report::Action;
use bx::state::Portable;

#[test]
fn a_create_is_every_line_added() {
    let diff = Diff::between("~/.a", None, b"one\ntwo\n", None).expect("a diff");
    assert_eq!(
        diff.kind,
        DiffKind::Text(
            "--- ~/.a (on disk)\n+++ ~/.a (bx)\n@@ -0,0 +1,2 @@\n+one\n+two\n".to_string()
        )
    );
}

#[test]
fn an_empty_body_where_there_was_no_file_is_the_headers_alone() {
    // `similar` has no hunk between two sides with no line, so this used
    // to be `Text("")`, rendered as one blank indented line and no header.
    let diff = Diff::between("~/.a", None, b"", None).expect("a diff");
    assert_eq!(
        diff.kind,
        DiffKind::Text("--- ~/.a (on disk)\n+++ ~/.a (bx)\n".to_string())
    );

    let mut create = change("~/.a", 1, Action::Create);
    create.diff = Some(diff);
    let shown = render(
        &Report {
            changes: vec![create],
            ..Report::default()
        },
        View::Plan,
        Palette::plain(),
        HOME,
    );
    let lines: Vec<&str> = shown.lines().collect();
    assert_eq!(
        lines[1..3],
        ["    --- ~/.a (on disk)", "    +++ ~/.a (bx)"],
        "{shown}"
    );
    assert!(!lines.iter().any(|line| line.trim().is_empty()), "{shown}");
}

#[test]
fn identical_bytes_have_no_diff_unless_the_mode_moved() {
    assert_eq!(Diff::between("~/.a", Some(b"x"), b"x", None), None);
    assert_eq!(
        Diff::between(
            "~/.a",
            Some(b"x"),
            b"x",
            Some((Mode::default_file(), Mode::private_file()))
        ),
        Some(Diff {
            kind: DiffKind::Mode {
                from: Mode::default_file(),
                to: Mode::private_file()
            }
        })
    );
}

#[test]
fn t17_a_body_at_the_limit_is_shown_and_one_past_it_is_summarised() {
    let at = "a\n".repeat(TEXT_LIMIT / 2);
    assert!(matches!(
        Diff::between("~/.a", None, at.as_bytes(), None).map(|d| d.kind),
        Some(DiffKind::Text(_))
    ));

    let past = format!("{at}b");
    assert_eq!(
        Diff::between("~/.a", Some(b"old\n"), past.as_bytes(), None).map(|d| d.kind),
        Some(DiffKind::Summary {
            before: Some(4),
            after: TEXT_LIMIT + 1,
            why: Why::TooLarge
        })
    );
    // Either side past the limit summarises.
    assert_eq!(
        Diff::between("~/.a", Some(past.as_bytes()), b"new\n", None).map(|d| d.kind),
        Some(DiffKind::Summary {
            before: Some(TEXT_LIMIT + 1),
            after: 4,
            why: Why::TooLarge
        })
    );
}

#[test]
fn t17_an_on_disk_side_at_the_limit_is_still_shown() {
    // The limit is inclusive on both sides, not only on the side bx writes.
    let at = "a\n".repeat(TEXT_LIMIT / 2);
    assert_eq!(at.len(), TEXT_LIMIT);
    assert!(matches!(
        Diff::between("~/.a", Some(at.as_bytes()), b"new\n", None).map(|d| d.kind),
        Some(DiffKind::Text(_))
    ));
}

#[test]
fn t17_a_non_utf8_side_is_summarised_as_binary() {
    assert_eq!(
        Diff::between("~/.a", None, &[0xff, 0xfe], None).map(|d| d.kind),
        Some(DiffKind::Summary {
            before: None,
            after: 2,
            why: Why::Binary
        })
    );
    assert_eq!(
        Diff::between("~/.a", Some(&[0xff]), b"text\n", None).map(|d| d.kind),
        Some(DiffKind::Summary {
            before: Some(1),
            after: 5,
            why: Why::Binary
        })
    );
}

/// A home no test touches: rendering is pure.
const HOME: &str = "/var/home/example";

fn change(target: &str, line: usize, action: Action) -> Change {
    Change {
        target: target.to_string(),
        origin: Origin {
            file: format!("{HOME}/.config/bx/bx.toml"),
            line,
        },
        action,
        diff: None,
        note: None,
    }
}

/// A modify with a change in the middle of nine lines, an unchanged row
/// and a blocked row.
fn a_report() -> Report {
    let mut modify = change("~/.gitconfig", 4, Action::Modify);
    modify.diff = Diff::between(
        "~/.gitconfig",
        Some(b"1\n2\n3\n4\n5\n6\n7\n8\n9\n"),
        b"1\n2\n3\n4\nfive\n6\n7\n8\n9\n",
        None,
    );
    let mut blocked = change("~/.env", 12, Action::Blocked);
    blocked.note = Some("run `bx init` to set scratch_root".to_string());
    Report {
        changes: vec![modify, change("~/.b", 8, Action::Unchanged), blocked],
        ..Report::default()
    }
}

#[test]
fn t16_a_plan_renders_exactly_with_three_lines_of_context_and_portable_paths() {
    let rendered = render(&a_report(), View::Plan, Palette::plain(), HOME);

    assert_eq!(
        rendered,
        "  ~ ~/.gitconfig  (~/.config/bx/bx.toml:4)\n\
         \x20   --- ~/.gitconfig (on disk)\n\
         \x20   +++ ~/.gitconfig (bx)\n\
         \x20   @@ -2,7 +2,7 @@\n\
         \x20    2\n\
         \x20    3\n\
         \x20    4\n\
         \x20   -5\n\
         \x20   +five\n\
         \x20    6\n\
         \x20    7\n\
         \x20    8\n\
         \x20 ? ~/.env  (~/.config/bx/bx.toml:12) run `bx init` to set scratch_root\n\
         Plan: 0 to create, 1 to modify, 0 conflict, 1 blocked, 1 unchanged.\n"
    );
    assert!(!rendered.contains(HOME), "{rendered}");
}

#[test]
fn t17_a_mode_change_and_a_summary_render_as_one_line_each() {
    let mut mode = change("~/.a", 1, Action::Modify);
    mode.diff = Some(Diff {
        kind: DiffKind::Mode {
            from: Mode::default_file(),
            to: Mode::private_file(),
        },
    });
    let mut binary = change("~/.b", 2, Action::Create);
    binary.diff = Diff::between("~/.b", None, &[0xff, 0xfe], None);
    let mut large = change("~/.c", 3, Action::Conflict);
    large.diff = Some(Diff {
        kind: DiffKind::Summary {
            before: Some(4),
            after: TEXT_LIMIT + 1,
            why: Why::TooLarge,
        },
    });
    let report = Report {
        changes: vec![mode, binary, large],
        ..Report::default()
    };

    let rendered = render(&report, View::Plan, Palette::plain(), HOME);

    assert!(rendered.contains("  ~ ~/.a  (~/.config/bx/bx.toml:1)\n    mode 0644 -> 0600\n"));
    assert!(rendered.contains("    binary content: no file -> 2 bytes\n"));
    assert!(rendered.contains("    too large to show: 4 bytes -> 262145 bytes\n"));
}

#[test]
fn t18_colour_only_on_a_terminal_without_no_color() {
    assert_eq!(Palette::resolve(true, true), Palette::plain());
    assert_eq!(Palette::resolve(false, false), Palette::plain());
    assert_eq!(Palette::resolve(true, false), Palette::plain());
    assert!(Palette::resolve(false, true).is_colored());
    assert!(!Palette::plain().is_colored());

    let plain = render(
        &a_report(),
        View::Status,
        Palette::resolve(true, true),
        HOME,
    );
    assert!(!plain.contains('\x1b'), "{plain:?}");

    let coloured = render(
        &a_report(),
        View::Status,
        Palette::resolve(false, true),
        HOME,
    );
    assert!(coloured.contains("\x1b[32m+five\x1b[0m"), "{coloured:?}");
    assert!(coloured.contains("\x1b[31m-5\x1b[0m"), "{coloured:?}");
    assert!(
        coloured.contains("\x1b[2m@@ -2,7 +2,7 @@\x1b[0m"),
        "{coloured:?}"
    );
    assert!(coloured.contains("\x1b[1m--- ~/.gitconfig (on disk)\x1b[0m"));
    // Symbols by what they ask of a human.
    assert!(
        coloured.contains("\x1b[1m\x1b[33m?\x1b[0m") || coloured.contains("\x1b[33m\x1b[1m?")
    );
    assert!(coloured.contains("\x1b[2m=\x1b[0m"), "{coloured:?}");
    // The summary and a context line stay plain.
    assert!(coloured.ends_with("1 unchanged.\n"));
    assert!(coloured.contains("\n     2\n"), "{coloured:?}");
}

#[test]
fn t19_unchanged_rows_are_hidden_in_plan_and_shown_in_status() {
    let plan = render(&a_report(), View::Plan, Palette::plain(), HOME);
    let status = render(&a_report(), View::Status, Palette::plain(), HOME);

    assert!(!plan.contains("~/.b"), "{plan}");
    assert!(
        status.contains("  = ~/.b  (~/.config/bx/bx.toml:8)\n"),
        "{status}"
    );
    for rendered in [&plan, &status] {
        assert_eq!(
            rendered.lines().last(),
            Some("Plan: 0 to create, 1 to modify, 0 conflict, 1 blocked, 1 unchanged.")
        );
    }
    let empty = render(
        &Report::default(),
        View::Status,
        Palette::plain(),
        HOME,
    );
    assert_eq!(
        empty,
        "Plan: 0 to create, 0 to modify, 0 conflict, 0 blocked, 0 unchanged.\n"
    );
}

/// `report` rendered for plan, plain, against the test home.
fn plain(report: &Report) -> String {
    render(report, View::Plan, Palette::plain(), HOME)
}

#[test]
fn text_with_no_control_character_but_a_tab_is_shown_as_it_is() {
    // The mutation run found this unpinned: `escape` could copy every
    // string and still render the same text.
    for text in ["plain", "a\ttab", ""] {
        assert!(
            matches!(escape(text), std::borrow::Cow::Borrowed(kept) if kept == text),
            "{text:?}"
        );
    }
    assert!(matches!(escape("a\rb"), std::borrow::Cow::Owned(_)));
}

#[test]
fn decision_19_a_lone_carriage_return_is_shown_inside_its_line() {
    let mut modify = change("~/.cr", 1, Action::Modify);
    modify.diff = Diff::between("~/.cr", Some(b"one\ntwo\n"), b"one\rtwo\n", None);

    let rendered = plain(&Report {
        changes: vec![modify],
        ..Report::default()
    });

    assert!(
        rendered.contains("    -one\n    -two\n    +one\\rtwo\n"),
        "{rendered:?}"
    );
    assert!(!rendered.contains('\r'), "{rendered:?}");
}

#[test]
fn decision_19_control_bytes_are_shown_escaped_and_a_tab_is_kept() {
    let mut create = change("~/.e", 1, Action::Create);
    create.diff = Diff::between("~/.e", None, b"\x1b[31mred\tx\x7f\n", None);

    let rendered = plain(&Report {
        changes: vec![create],
        ..Report::default()
    });

    assert!(
        rendered.contains("    +\\x1b[31mred\tx\\x7f\n"),
        "{rendered:?}"
    );
    assert!(
        !rendered.contains('\x1b') && !rendered.contains('\x7f'),
        "{rendered:?}"
    );
}

#[test]
fn decision_19_a_newline_in_a_path_stays_on_its_row() {
    let mut create = change("~/.a\nb", 1, Action::Create);
    create.diff = Diff::between("~/.a\nb", None, b"x\n", None);

    let rendered = plain(&Report {
        changes: vec![create],
        ..Report::default()
    });

    let lines: Vec<&str> = rendered.lines().collect();
    assert_eq!(
        lines[0], "  + ~/.a\\nb  (~/.config/bx/bx.toml:1)",
        "{rendered:?}"
    );
    assert_eq!(lines[1], "    --- ~/.a\\nb (on disk)", "{rendered:?}");
    assert_eq!(lines[2], "    +++ ~/.a\\nb (bx)", "{rendered:?}");
    assert_eq!(lines[4], "    +x", "{rendered:?}");
    assert_eq!(lines.len(), 6, "{rendered:?}");
}

fn interrupted(unfinished: Vec<Unfinished>) -> Interrupted {
    Interrupted {
        kind: SessionKind::Apply,
        journal: format!("{HOME}/.local/state/bx/journal"),
        complete: false,
        unreadable: false,
        unfinished,
    }
}

fn unfinished(resolvable: bool) -> Unfinished {
    Unfinished {
        target: Portable { text: "~/.a".to_string() },
        dest: format!("{HOME}/.a"),
        standing: if resolvable {
            Standing::Written
        } else {
            Standing::Diverged
        },
        resolvable,
        note: "note".to_string(),
    }
}

#[test]
fn a_banner_names_what_the_next_apply_does() {
    let first_line = |report: &Report| {
        render(report, View::Plan, Palette::plain(), HOME)
            .lines()
            .next()
            .expect("a line")
            .to_string()
    };

    assert!(first_line(&Report::default()).starts_with("Plan: "));

    let running = Report {
        apply_running: true,
        interrupted: Some(interrupted(vec![])),
        ..Report::default()
    };
    assert!(first_line(&running).starts_with("A bx apply is running"));

    let rolled = Report {
        interrupted: Some(interrupted(vec![unfinished(true)])),
        ..Report::default()
    };
    // Decision 18: apply rolls back only what is shown and writes nothing
    // else, so the banner says to plan again afterwards.
    assert_eq!(
        first_line(&rolled),
        "An interrupted bx apply was found. `bx apply` rolls back what is shown below and \
         writes nothing else; run `bx plan` again after `bx apply` rolls these back."
    );

    let mut complete = interrupted(vec![unfinished(true)]);
    complete.complete = true;
    let complete = Report {
        interrupted: Some(complete),
        ..Report::default()
    };
    assert!(first_line(&complete).contains("records it and writes nothing else"));

    let blocked = Report {
        interrupted: Some(interrupted(vec![unfinished(true), unfinished(false)])),
        ..Report::default()
    };
    assert!(
        first_line(&blocked).contains("left 1 file(s) bx cannot account for"),
        "{}",
        first_line(&blocked)
    );

    let mut unreadable = interrupted(vec![]);
    unreadable.unreadable = true;
    let unreadable = Report {
        interrupted: Some(unreadable),
        ..Report::default()
    };
    assert!(first_line(&unreadable).contains("cannot read"));
    for report in [&running, &rolled, &complete, &blocked, &unreadable] {
        assert!(
            !render(report, View::Plan, Palette::plain(), HOME).contains(HOME),
            "a banner named an absolute path"
        );
    }
}