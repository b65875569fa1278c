use bx::plan::region::{block, find, splice, Found};

const BODY: &[u8] = b"[[ -r ~/.f ]] && source ~/.f\n";

#[test]
fn a_region_is_three_lines_for_a_one_line_body() {
    assert_eq!(
        block('#', BODY),
        b"# >>> bx >>>\n[[ -r ~/.f ]] && source ~/.f\n# <<< bx <<<\n".to_vec()
    );
    // A body with no final newline still leaves the delimiter its own line.
    assert_eq!(
        block(';', b"x"),
        b"; >>> bx >>>\nx\n; <<< bx <<<\n".to_vec()
    );
    assert_eq!(block('#', b""), b"# >>> bx >>>\n# <<< bx <<<\n".to_vec());
}

#[test]
fn no_file_becomes_the_region_alone() {
    assert_eq!(splice(None, '#', BODY), Ok(block('#', BODY)));
}

#[test]
fn a_file_without_a_region_gains_one_after_every_byte_the_user_wrote() {
    let user = b"alias ll='ls -l'\nexport X=1";
    let spliced = splice(Some(user), '#', BODY).expect("splices");
    assert!(spliced.starts_with(b"alias ll='ls -l'\nexport X=1\n# >>> bx >>>\n"));
    assert!(spliced.ends_with(&block('#', BODY)));
    // An empty file is just the region.
    assert_eq!(splice(Some(b""), '#', BODY), Ok(block('#', BODY)));
}

#[test]
fn a_region_is_replaced_in_place_and_nothing_around_it_moves() {
    let before = b"top\n# >>> bx >>>\nold\nlines\n# <<< bx <<<\nbottom\n";
    let spliced = splice(Some(before), '#', BODY).expect("splices");
    let mut expected = b"top\n".to_vec();
    expected.extend(block('#', BODY));
    expected.extend(b"bottom\n");
    assert_eq!(spliced, expected);
    // Splicing what is already there changes nothing: idempotent.
    assert_eq!(splice(Some(&expected), '#', BODY), Ok(expected.clone()));
    // A closing delimiter with no final newline is still found.
    let unterminated = b"# >>> bx >>>\nold\n# <<< bx <<<";
    assert_eq!(splice(Some(unterminated), '#', BODY), Ok(block('#', BODY)));
}

#[test]
fn delimiters_are_whole_lines_in_the_targets_comment_character() {
    // Indented, trailing text, or another comment character is not a
    // delimiter, so each of these files has no region and gains one.
    for text in [
        &b"  # >>> bx >>>\n# <<< bx <<< \n"[..],
        b"; >>> bx >>>\n; <<< bx <<<\n",
        b"echo '# >>> bx >>>'\n",
    ] {
        assert_eq!(find(text, '#'), Found::Absent, "{text:?}");
    }
    assert_eq!(find(b"; >>> bx >>>\n; <<< bx <<<\n", ';'), Found::At(0..26));
}

#[test]
fn delimiters_that_do_not_make_one_region_are_damaged_and_never_spliced() {
    for (text, why) in [
        (&b"# <<< bx <<<\n"[..], "no opening one"),
        (b"# >>> bx >>>\n", "no closing one"),
        (b"# <<< bx <<<\n# >>> bx >>>\n", "comes before"),
        (
            b"# >>> bx >>>\n# <<< bx <<<\n# >>> bx >>>\n# <<< bx <<<\n",
            "more than one",
        ),
        (
            b"# >>> bx >>>\n# >>> bx >>>\n# <<< bx <<<\n",
            "more than one",
        ),
    ] {
        match find(text, '#') {
            Found::Damaged(reason) => assert!(reason.contains(why), "{reason}"),
            other => panic!("{text:?}: {other:?}"),
        }
        assert!(splice(Some(text), '#', BODY).is_err());
    }
}

#[test]
fn the_mechanism_attaches_to_a_bashrc_as_it_does_to_a_zshrc() {
    // The same grammar serves every shell's rc file: nothing in it is zsh's.
    let bashrc = b"# ~/.bashrc\n[ -z \"$PS1\" ] && return\nHISTSIZE=1000\n";
    let spliced = splice(Some(bashrc), '#', BODY).expect("splices");
    assert!(spliced.starts_with(bashrc));
    assert_eq!(find(&spliced, '#'), Found::At(bashrc.len()..spliced.len()));
    assert_eq!(splice(Some(&spliced), '#', BODY), Ok(spliced.clone()));
}
