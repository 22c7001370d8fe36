use ttlint::lint_bytes;
use ttlint::patterns::Diagnostic;
use ttlint::patterns::LintError;
use ttlint::patterns::Reason;

fn run(contents: &[u8], pats: &[&str], fix: bool) -> (bool, Vec<Diagnostic>, Vec<u8>) {
    let contents: Vec<u8> = contents.to_vec();
    let pats: Vec<Vec<u8>> = pats.iter().map(|p| p.as_bytes().to_vec()).collect();
    lint_bytes(&contents, &pats, fix).unwrap()
}

#[test]
fn ok() {
    let contents = b"hello world";
    let (bad, _diags, fixed) = run(contents, &[], true);
    let fixed_str = String::from_utf8(fixed).unwrap();
    assert_eq!("hello world", &fixed_str);
    assert!(!bad);
}

#[test]
fn bom() {
    let contents = b"\xEF\xBB\xBFhello world";
    let (bad, diags, fixed) = run(contents, &[], true);
    let fixed_str = String::from_utf8(fixed).unwrap();
    assert_eq!("hello world", &fixed_str);
    assert!(bad);
    assert_eq!(1, diags.len());
    assert_eq!(Diagnostic { line: 1, col: 1, reason: Reason::ByteOrderMark }, diags[0]);
}

#[test]
fn merge_conflict() {
    let contents = b"some content\n>>>>>>> branch\n";
    let (bad, diags, fixed) = run(contents, &[], true);
    let fixed_str = String::from_utf8(fixed).unwrap();
    assert_eq!("some content\n branch\n", &fixed_str);
    assert!(bad);
    assert_eq!(1, diags.len());
    assert_eq!(Reason::ConflictEnd, diags[0].reason);
}

#[test]
fn merge_conflict_not_at_line_start() {
    let contents = b"some text <<<<<<< HEAD\nmore text ======= here\nand >>>>>>> branch\n";
    let (bad, diags, _fixed) = run(contents, &[], false);
    assert!(
        !bad,
        "Merge conflict markers in middle of line should not match"
    );
    assert_eq!(0, diags.len());
}

#[test]
fn trailing_whitespace() {
    let contents = b"line with trailing space \nline with trailing tab\t\nnext line\n";
    let (bad, diags, fixed) = run(contents, &[], true);
    let fixed_str = String::from_utf8(fixed).unwrap();
    assert_eq!(
        "line with trailing space\nline with trailing tab\nnext line\n",
        &fixed_str
    );
    assert!(bad);
    assert_eq!(2, diags.len());
    assert_eq!(Reason::TrailingWhitespace, diags[0].reason);
    assert_eq!(Reason::TrailingWhitespace, diags[1].reason);
}

#[test]
fn user_pat() {
    let contents = b"hello FIXME world\nand TODO here\n";
    let (bad, diags, fixed) = run(contents, &["FIXME", "TODO"], true);
    let fixed_str = String::from_utf8(fixed).unwrap();
    assert_eq!("hello  world\nand  here\n", &fixed_str);
    assert!(bad);
    assert_eq!(2, diags.len());
    assert_eq!(Reason::UserPattern(0), diags[0].reason);
    assert_eq!(Reason::UserPattern(1), diags[1].reason);
}

#[test]
fn carriage_return_position_and_fix() {
    let contents = b"a\rb\n";
    let (bad, diags, fixed) = run(contents, &[], true);
    assert!(bad);
    assert_eq!(b"ab\n".to_vec(), fixed);
    assert_eq!(1, diags.len());
    assert_eq!(Diagnostic { line: 1, col: 2, reason: Reason::CarriageReturn }, diags[0]);
}

#[test]
fn several_matches_on_one_line() {
    let contents = b"x\r\ry\r\n";
    let (bad, diags, fixed) = run(contents, &[], true);
    assert!(bad);
    assert_eq!(b"xy\n".to_vec(), fixed);
    assert_eq!(3, diags.len());
    assert_eq!((1, 2), (diags[0].line, diags[0].col));
    assert_eq!((1, 3), (diags[1].line, diags[1].col));
    assert_eq!((1, 5), (diags[2].line, diags[2].col));
}

// Line and column must equal the 1-based counts computed naively from the
// start of the buffer to the match's effective start offset.
#[test]
fn positions_match_naive_count() {
    let contents = b"x TODO y\nz TODO\n";
    let (bad, diags, fixed) = run(contents, &["TODO"], true);
    assert!(bad);
    assert_eq!(b"x  y\nz \n".to_vec(), fixed);
    let expected_offsets = [2usize, 11usize];
    assert_eq!(expected_offsets.len(), diags.len());
    for (d, off) in diags.iter().zip(expected_offsets.iter()) {
        let prefix = &contents[..*off];
        let line = 1 + prefix.iter().filter(|&&b| b == b'\n').count();
        let col = 1 + prefix.iter().rev().take_while(|&&b| b != b'\n').count();
        assert_eq!((line, col), (d.line, d.col));
    }
}

#[test]
fn conflict_separator_position() {
    let contents = b"a\n======= b\n";
    let (bad, diags, fixed) = run(contents, &[], true);
    assert!(bad);
    assert_eq!(b"a\n b\n".to_vec(), fixed);
    assert_eq!(1, diags.len());
    assert_eq!(
        Diagnostic { line: 2, col: 1, reason: Reason::ConflictSeparator },
        diags[0]
    );
}

#[test]
fn conflict_start_position() {
    let contents = b"a\n<<<<<<< HEAD\nrest\n";
    let (bad, diags, fixed) = run(contents, &[], true);
    assert!(bad);
    assert_eq!(b"a\n HEAD\nrest\n".to_vec(), fixed);
    assert_eq!(1, diags.len());
    assert_eq!(
        Diagnostic { line: 2, col: 1, reason: Reason::ConflictStart },
        diags[0]
    );
}

// Without fix, the scan runs over the original buffer, byte-order mark
// included; with fix, it runs over the stripped buffer, so columns on the
// first line differ by the width of the mark.
#[test]
fn bom_scan_asymmetry() {
    let contents = b"\xEF\xBB\xBFa TODO\n";
    let (bad, diags, fixed) = run(contents, &["TODO"], false);
    assert!(bad);
    assert_eq!(contents.to_vec(), fixed);
    assert_eq!(2, diags.len());
    assert_eq!(Diagnostic { line: 1, col: 1, reason: Reason::ByteOrderMark }, diags[0]);
    assert_eq!(Diagnostic { line: 1, col: 6, reason: Reason::UserPattern(0) }, diags[1]);

    let (bad, diags, fixed) = run(contents, &["TODO"], true);
    assert!(bad);
    assert_eq!(b"a \n".to_vec(), fixed);
    assert_eq!(2, diags.len());
    assert_eq!(Diagnostic { line: 1, col: 1, reason: Reason::ByteOrderMark }, diags[0]);
    assert_eq!(Diagnostic { line: 1, col: 3, reason: Reason::UserPattern(0) }, diags[1]);
}

// First match wins: a trailing-space match consumes the newline that the
// following merge marker would have needed as its anchor.
#[test]
fn overlapping_candidates_resolved_left_to_right() {
    let contents = b"a \n<<<<<<< b\n";
    let (bad, diags, _fixed) = run(contents, &[], false);
    assert!(bad);
    assert_eq!(1, diags.len());
    assert_eq!(
        Diagnostic { line: 1, col: 2, reason: Reason::TrailingWhitespace },
        diags[0]
    );
}

#[test]
fn empty_user_pattern_is_refused() {
    let contents: Vec<u8> = b"hello".to_vec();
    let pats: Vec<Vec<u8>> = vec![Vec::new()];
    let r = lint_bytes(&contents, &pats, false);
    assert_eq!(Err(LintError::EmptyPattern), r.map(|_| ()));
}

// Running the engine again on fixed output with the same patterns finds
// nothing more, for inputs whose fix does not itself create a new match.
#[test]
fn fix_is_idempotent_on_typical_inputs() {
    let cases: [(&[u8], &[&str]); 4] = [
        (b"\xEF\xBB\xBFhello world", &[]),
        (b"some content\n>>>>>>> branch\n", &[]),
        (b"line with trailing space \nline with trailing tab\t\nnext line\n", &[]),
        (b"hello FIXME world\nand TODO here\n", &["FIXME", "TODO"]),
    ];
    for (contents, pats) in cases.iter() {
        let (bad, _diags, fixed) = run(contents, pats, true);
        assert!(bad);
        let (bad2, diags2, fixed2) = run(&fixed, pats, true);
        assert!(!bad2);
        assert_eq!(0, diags2.len());
        assert_eq!(fixed, fixed2);
    }
}

// The one exception: removing a trailing-space span and putting the newline
// back can create a fresh trailing-space match, so a second pass still
// finds one.
#[test]
fn fix_can_create_a_new_match() {
    let contents = b"a  \n";
    let (bad, _diags, fixed) = run(contents, &[], true);
    assert!(bad);
    assert_eq!(b"a \n".to_vec(), fixed);
    let (bad2, _diags2, fixed2) = run(&fixed, &[], true);
    assert!(bad2);
    assert_eq!(b"a\n".to_vec(), fixed2);
}

#[test]
fn builtin_messages() {
    assert_eq!("UTF-8 byte-order mark", Reason::ByteOrderMark.message());
    assert_eq!("merge conflict start marker", Reason::ConflictStart.message());
    assert_eq!("merge conflict separator", Reason::ConflictSeparator.message());
    assert_eq!("merge conflict end marker", Reason::ConflictEnd.message());
    assert_eq!("trailing whitespace", Reason::TrailingWhitespace.message());
    assert_eq!("carriage return", Reason::CarriageReturn.message());
}

#[test]
fn no_fix_leaves_buffer_unchanged() {
    let contents = b"bad \nline\r\n";
    let (bad, diags, fixed) = run(contents, &[], false);
    assert!(bad);
    assert_eq!(2, diags.len());
    assert_eq!(contents.to_vec(), fixed);
}

#[test]
fn match_at_buffer_start() {
    let contents = b"\rx";
    let (bad, diags, fixed) = run(contents, &[], true);
    assert!(bad);
    assert_eq!(b"x".to_vec(), fixed);
    assert_eq!(1, diags.len());
    assert_eq!(Diagnostic { line: 1, col: 1, reason: Reason::CarriageReturn }, diags[0]);
}

#[test]
fn empty_input() {
    let (bad, diags, fixed) = run(b"", &[], true);
    assert!(!bad);
    assert_eq!(0, diags.len());
    assert_eq!(Vec::<u8>::new(), fixed);
}

#[test]
fn user_patterns_have_no_wildcards() {
    let contents = b"hello FIXME world\n";
    let (bad, diags, fixed) = run(contents, &["F?XME", "h*o"], false);
    assert!(!bad);
    assert_eq!(0, diags.len());
    assert_eq!(contents.to_vec(), fixed);
}
