use majjit::loader::{ParseError, SearchDirection};
use majjit::log_tree::{Commit, CommitOrText, DiffHunk, DiffHunkLine, FileDiff, FileDiffStatus};
use majjit::text::strip_ansi;

fn file_diff(line: &str) -> Result<FileDiff, ParseError> {
    FileDiff::new("qpvuntsm".to_string(), line.to_string(), "│ ".to_string())
}

#[test]
fn rename_with_braces_at_end() {
    let f = file_diff("R src/{old.rs => new.rs}").unwrap();
    assert_eq!(f.status, FileDiffStatus::Renamed);
    assert_eq!(f.path, "src/new.rs");
    assert_eq!(f.description, "src/{old.rs => new.rs}");
}

#[test]
fn rename_with_braces_in_middle() {
    let f = file_diff("R a/{x => y}/b.rs").unwrap();
    assert_eq!(f.path, "a/y/b.rs");
}

#[test]
fn copy_is_normalized_too() {
    let f = file_diff("C {a => b}/c.rs").unwrap();
    assert_eq!(f.status, FileDiffStatus::Copied);
    assert_eq!(f.path, "b/c.rs");
}

#[test]
fn modified_path_is_kept() {
    let f = file_diff("\x1b[36mM\x1b[0m src/{weird}.rs").unwrap();
    assert_eq!(f.status, FileDiffStatus::Modified);
    assert_eq!(f.path, "src/{weird}.rs");
    assert!(!f.unfolded && !f.loaded && f.diff_hunks.is_empty());
}

#[test]
fn bad_file_lines_are_errors() {
    assert!(matches!(file_diff("X foo"), Err(ParseError::FileDiffLine(_))));
    assert!(matches!(file_diff("M"), Err(ParseError::FileDiffLine(_))));
    assert!(matches!(file_diff("M "), Err(ParseError::FileDiffLine(_))));
    assert!(matches!(file_diff("M a\nb"), Err(ParseError::FileDiffLine(_))));
    assert!(matches!(file_diff("Mfoo"), Err(ParseError::FileDiffLine(_))));
    assert!(matches!(file_diff("R plain.rs"), Err(ParseError::RenamedPath(_))));
}

#[test]
fn file_summary_loads_every_line() {
    let out = "M a.rs\nA b.rs\nD c.rs\n";
    let fs = FileDiff::load_all("qpvuntsm", out, " ").unwrap();
    let statuses: Vec<FileDiffStatus> = fs.iter().map(|f| f.status).collect();
    assert_eq!(statuses, vec![FileDiffStatus::Modified, FileDiffStatus::Added, FileDiffStatus::Deleted]);
    assert_eq!(fs[2].path, "c.rs");
    assert_eq!(fs[0].change_id, "qpvuntsm");
    assert!(FileDiff::load_all("qpvuntsm", "M a.rs\n?? b\n", " ").is_err());
}

#[test]
fn strip_ansi_removes_colour_codes_only() {
    assert_eq!(strip_ansi("\x1b[1m\x1b[38;5;2mab\x1b[0mc\x1b[K"), "abc\x1b[K");
    assert_eq!(strip_ansi(""), "");
}

fn hunk_lines(texts: &[&str]) -> Vec<DiffHunkLine> {
    texts.iter().map(|t| DiffHunkLine::new(t.to_string(), " ".to_string())).collect()
}

#[test]
fn hunk_ranges_with_one_insertion() {
    let lines = hunk_lines(&["  12   12: a", "  13   13: b", "       14: new", "  14   15: c", "  15   16: d"]);
    let h = DiffHunk::new(" ".to_string(), lines).unwrap();
    assert_eq!(h.red_range(), (12, 4));
    assert_eq!(h.green_range(), (12, 5));
    assert!(h.unfolded);
    // numbers below 100 drop two of the padding spaces
    assert_eq!(h.diff_hunk_lines[0].pretty_string, "12   12: a");
    assert_eq!(h.diff_hunk_lines[2].pretty_string, "     14: new");
}

#[test]
fn added_file_hunk_has_no_before_side() {
    let lines = hunk_lines(&["        1: x", "        2: y"]);
    let h = DiffHunk::new(" ".to_string(), lines).unwrap();
    assert_eq!(h.red_range(), (0, 0));
    assert_eq!(h.green_range(), (1, 2));
}

#[test]
fn find_line_nums_scans_each_way() {
    let lines = hunk_lines(&["   3     : gone", "~", "   4    5: kept"]);
    assert_eq!(DiffHunk::find_line_nums(&lines, SearchDirection::Down).unwrap(), (3, 5));
    assert_eq!(DiffHunk::find_line_nums(&lines, SearchDirection::Up).unwrap(), (4, 5));
}

#[test]
fn unreadable_hunk_line_is_an_error() {
    let lines = hunk_lines(&["no numbers here"]);
    assert!(matches!(DiffHunk::new(" ".to_string(), lines), Err(ParseError::HunkLine(_))));
    let lines = hunk_lines(&["   99999999999    1: too big"]);
    assert!(matches!(DiffHunk::new(" ".to_string(), lines), Err(ParseError::LineNumber(_))));
}

#[test]
fn file_diff_splits_into_hunks_with_divider() {
    let out = "Modified regular file a.rs:\n   1    1: a\n   2     : b\n    ...\n  10   9: c\n";
    let hs = DiffHunk::load_all(out, "│").unwrap();
    assert_eq!(hs.len(), 2);
    assert_eq!(hs[0].diff_hunk_lines.len(), 2);
    assert_eq!(hs[1].diff_hunk_lines.len(), 2);
    assert_eq!(hs[1].diff_hunk_lines[1].pretty_string, "\x1b[35m~\x1b[0m");
    assert_eq!(hs[1].red_range(), (10, 1));
    assert_eq!(hs[0].red_range(), (1, 2));
    assert_eq!(hs[0].green_range(), (1, 1));
}

#[test]
fn empty_file_diff_has_no_hunks() {
    assert!(DiffHunk::load_all("Modified regular file a.rs:\n", " ").unwrap().is_empty());
}

const LINE1: &str = "@  qpvuntsm test@example.com 2024-01-01 12:00:00 5b3e0c1a";
const LINE2: &str = "│  (empty) (no description set)";

#[test]
fn change_header_is_read() {
    let c = Commit::new(format!("{LINE1}\n{LINE2}")).unwrap();
    assert_eq!(c.header.change_id, "qpvuntsm");
    assert_eq!(c.header.commit_id, "5b3e0c1a");
    assert!(c.header.current_working_copy);
    assert!(!c.header.has_conflict);
    assert!(c.header.empty);
    assert_eq!(c.header.description_first_line, None);
    assert_eq!(c.header.graph_indent, "│ ");
    assert_eq!(c.header.pretty_line2, "(empty) (no description set)");
    assert!(!c.unfolded && !c.loaded);
}

#[test]
fn described_change_keeps_its_description() {
    let l1 = "○  zzzzzzzz other@example.com 2024-01-02 10:00:00 0123abcd conflict";
    let l2 = "├─╮  fix the parser";
    let c = Commit::new(format!("{l1}\n{l2}")).unwrap();
    assert!(!c.header.current_working_copy);
    assert!(c.header.has_conflict);
    assert_eq!(c.header.description_first_line.as_deref(), Some("fix the parser"));
    assert_eq!(c.header.graph_indent, "│   ");
}

#[test]
fn log_mixes_changes_and_text() {
    let out = format!("{LINE1}\n{LINE2}\nwarning: something\n");
    let es = CommitOrText::load_all(&out).unwrap();
    assert_eq!(es.len(), 2);
    assert!(matches!(&es[0], CommitOrText::Commit(c) if c.header.change_id == "qpvuntsm"));
    assert!(matches!(&es[1], CommitOrText::InfoText(t) if t.pretty_string == "warning: something"));
}

#[test]
fn change_without_fields_is_an_error() {
    assert!(matches!(Commit::new("@  qpvuntsm\n│".to_string()), Err(ParseError::CommitHeader(_))));
}

#[test]
fn lone_header_line_takes_an_empty_second_line() {
    let es = CommitOrText::load_all(LINE1).unwrap();
    assert!(matches!(&es[0], CommitOrText::Commit(c) if c.header.pretty_line2.is_empty()));
}

#[test]
fn whitespace_path_is_what_the_pattern_leaves() {
    let f = file_diff("M  ").unwrap();
    assert_eq!(f.path, " ");
}

#[test]
fn malformed_middle_hunk_line_fails_the_load() {
    let lines = hunk_lines(&["   1    1: a", "garbage", "   2    2: b"]);
    assert!(matches!(DiffHunk::new(" ".to_string(), lines), Err(ParseError::HunkLine(_))));
}

#[test]
fn only_a_bare_ellipsis_separates_hunks() {
    let out = "Modified regular file a.rs:\n   1    1: f(...)\n   2    2: g\n";
    let hs = DiffHunk::load_all(out, " ").unwrap();
    assert_eq!(hs.len(), 1);
    assert_eq!(hs[0].diff_hunk_lines.len(), 3);
}
