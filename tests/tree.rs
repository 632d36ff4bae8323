use majjit::log_tree::{
    get_parent_tree_position, Commit, CommitHeader, CommitOrText, DiffHunk, DiffHunkLine, FileDiff,
    FileDiffStatus, InfoText, JjLog, LoadRequest, LoadedChildren, LogError,
};

fn header(id: &str, current: bool, two_lines: bool) -> CommitHeader {
    CommitHeader {
        change_id: id.to_string(),
        commit_id: "0123abcd".to_string(),
        current_working_copy: current,
        has_conflict: false,
        empty: false,
        description_first_line: None,
        symbol: if current { "@".to_string() } else { "○".to_string() },
        line1_graph_chars: String::new(),
        line1_graph_chars_part2: String::new(),
        line2_graph_chars: "│  ".to_string(),
        pretty_line1: format!("{id} someone"),
        pretty_line2: if two_lines { "description".to_string() } else { String::new() },
        graph_indent: "│ ".to_string(),
    }
}

fn hunk(n_lines: usize, unfolded: bool) -> DiffHunk {
    DiffHunk {
        graph_indent: " ".to_string(),
        unfolded,
        diff_hunk_lines: (0..n_lines).map(|i| DiffHunkLine::new(format!("  {i}  {i}: x"), " ".to_string())).collect(),
        red_start: 1,
        red_end: 2,
        green_start: 1,
        green_end: 2,
        flat_log_idx: 0,
    }
}

fn file(path: &str, hunks: Vec<DiffHunk>, unfolded: bool, loaded: bool) -> FileDiff {
    FileDiff {
        change_id: "c".to_string(),
        path: path.to_string(),
        description: path.to_string(),
        status: FileDiffStatus::Modified,
        graph_indent: " ".to_string(),
        unfolded,
        loaded,
        diff_hunks: hunks,
        flat_log_idx: 0,
    }
}

fn commit(id: &str, current: bool, files: Vec<FileDiff>, unfolded: bool, loaded: bool) -> CommitOrText {
    CommitOrText::Commit(Commit { header: header(id, current, true), unfolded, loaded, file_diffs: files, flat_log_idx: 0 })
}

fn sample_log() -> JjLog {
    let a = commit(
        "aaaaaaaa",
        false,
        vec![file("a.rs", vec![hunk(2, true)], true, true), file("b.rs", vec![], false, false)],
        true,
        true,
    );
    let info = CommitOrText::InfoText(InfoText::new("note".to_string()));
    let b = commit("bbbbbbbb", true, vec![], false, false);
    JjLog { log_tree: vec![a, info, b] }
}

fn flat(log: &mut JjLog) -> (Vec<usize>, Vec<Vec<usize>>) {
    let f = log.flatten_log();
    (f.heights, f.tree_positions)
}

#[test]
fn flatten_lists_visible_nodes_in_order() {
    let mut log = sample_log();
    let (heights, positions) = flat(&mut log);
    assert_eq!(heights.len(), positions.len());
    assert_eq!(
        positions,
        vec![vec![0], vec![0, 0], vec![0, 0, 0], vec![0, 0, 0, 0], vec![0, 0, 0, 1], vec![0, 1], vec![1], vec![2]]
    );
    assert_eq!(heights, vec![2, 1, 1, 1, 1, 1, 1, 2]);
    for (i, p) in positions.iter().enumerate() {
        assert_eq!(log.flat_idx_of(p), Some(i));
        assert!(log.child_count_at(p).is_some());
    }
}

#[test]
fn empty_log_flattens_to_nothing() {
    let mut log = JjLog::new();
    let (heights, positions) = flat(&mut log);
    assert!(heights.is_empty() && positions.is_empty());
}

#[test]
fn toggling_a_loaded_node_twice_restores_the_list() {
    let mut log = sample_log();
    let before = flat(&mut log);
    assert_eq!(log.toggle_fold(&vec![0, 0], None), Ok(1));
    let folded = flat(&mut log);
    assert_eq!(folded.1.len(), before.1.len() - 3);
    assert_eq!(log.toggle_fold(&vec![0, 0], None), Ok(1));
    assert_eq!(flat(&mut log), before);
}

#[test]
fn toggling_a_hunk_line_folds_its_hunk() {
    let mut log = sample_log();
    let before = flat(&mut log);
    assert_eq!(log.toggle_fold(&vec![0, 0, 0, 1], None), Ok(2));
    assert_eq!(flat(&mut log).1.len(), before.1.len() - 2);
}

#[test]
fn first_opening_loads_children_once() {
    let mut log = sample_log();
    let before = flat(&mut log);
    let req = log.pending_load(&vec![2]);
    assert!(matches!(req, Some(LoadRequest::FileDiffs { ref change_id, .. }) if change_id == "bbbbbbbb"));
    assert_eq!(log.toggle_fold(&vec![2], None), Err(LogError::MissingChildren));
    assert_eq!(flat(&mut log), before);
    let files = vec![file("x.rs", vec![], false, false), file("y.rs", vec![], false, false)];
    assert_eq!(log.toggle_fold(&vec![2], Some(LoadedChildren::FileDiffs(files))), Ok(7));
    assert_eq!(flat(&mut log).1.len(), before.1.len() + 2);
    assert!(log.pending_load(&vec![2]).is_none());
    assert_eq!(log.toggle_fold(&vec![2], None), Ok(7));
    assert_eq!(flat(&mut log), before);
}

#[test]
fn file_diff_load_asks_for_its_path() {
    let log = sample_log();
    let req = log.pending_load(&vec![0, 1]);
    assert!(matches!(req, Some(LoadRequest::DiffHunks { ref path, .. }) if path == "b.rs"));
    assert!(log.pending_load(&vec![0, 0]).is_none());
    assert!(log.pending_load(&vec![1]).is_none());
}

#[test]
fn invalid_positions_are_refused() {
    let mut log = sample_log();
    assert_eq!(log.toggle_fold(&vec![9], None), Err(LogError::InvalidPosition));
    assert_eq!(log.toggle_fold(&vec![], None), Err(LogError::InvalidPosition));
    assert_eq!(log.toggle_fold(&vec![1, 0], None), Err(LogError::InvalidPosition));
    assert!(log.next_sibling_position(&vec![0, 5]).is_none());
}

fn four_entries() -> JjLog {
    JjLog {
        log_tree: vec![
            commit("aaaaaaaa", false, vec![file("a.rs", vec![], false, false)], true, true),
            commit("bbbbbbbb", false, vec![], false, false),
            CommitOrText::InfoText(InfoText::new("note".to_string())),
            commit("cccccccc", false, vec![], false, false),
        ],
    }
}

#[test]
fn next_sibling_chain_reaches_last_entry_and_stays() {
    let log = four_entries();
    let mut p = vec![0];
    for _ in 0..3 {
        p = log.next_sibling_position(&p).unwrap();
    }
    assert_eq!(p, vec![3]);
    assert_eq!(log.next_sibling_position(&p).unwrap(), vec![3]);
}

#[test]
fn prev_sibling_clamps_at_first_entry() {
    let log = four_entries();
    assert_eq!(log.prev_sibling_position(&vec![2]).unwrap(), vec![1]);
    assert_eq!(log.prev_sibling_position(&vec![0]).unwrap(), vec![0]);
}

#[test]
fn sibling_moves_climb_out_of_a_branch() {
    let log = sample_log();
    // last file of the first change: next is the entry after the change
    assert_eq!(log.next_sibling_position(&vec![0, 1]).unwrap(), vec![1]);
    // first file: next is the second file
    assert_eq!(log.next_sibling_position(&vec![0, 0]).unwrap(), vec![0, 1]);
    // a hunk line moves from its hunk, the only hunk of the first file
    assert_eq!(log.next_sibling_position(&vec![0, 0, 0, 1]).unwrap(), vec![0, 1]);
    // first file: previous is the entry before the change, clamped at the top
    assert_eq!(log.prev_sibling_position(&vec![0, 0]).unwrap(), vec![0]);
    assert_eq!(log.prev_sibling_position(&vec![0, 1]).unwrap(), vec![0, 0]);
}

#[test]
fn parent_drops_the_last_index() {
    assert_eq!(get_parent_tree_position(&vec![0, 1, 2]), Some(vec![0, 1]));
    assert_eq!(get_parent_tree_position(&vec![3]), None);
}

#[test]
fn lookups_find_changes_and_files() {
    let log = sample_log();
    assert_eq!(log.get_current_commit().unwrap().header.change_id, "bbbbbbbb");
    assert_eq!(log.get_tree_commit(&vec![0, 1]).unwrap().header.change_id, "aaaaaaaa");
    assert!(log.get_tree_commit(&vec![1]).is_none());
    assert_eq!(log.get_tree_file_diff(&vec![0, 1]).unwrap().path, "b.rs");
    assert!(log.get_tree_file_diff(&vec![0]).is_none());
}
