use majjit::command_tree::{key_label, CommandTree, FeedResult, HelpCell, KeyCode, Message};
use majjit::jj_commands::{JjCommand, JjCommandError, ReturnOutput};
use majjit::model::{
    display_error_lines, line_dist_to_dest_node, GlobalArgs, InfoLine, Model, Rect, ScrollDirection, State,
};

fn model_with_heights(heights: Vec<usize>) -> Model {
    let mut m = Model::new(".".to_string(), "@".to_string());
    m.log_list_tree_positions = (0..heights.len()).map(|i| vec![i]).collect();
    m.log_list = heights;
    m.log_list_layout = Rect { x: 0, y: 2, width: 40, height: 4 };
    m
}

#[test]
fn walk_counts_rows_not_items() {
    let h = vec![1, 2, 1, 2, 1];
    assert_eq!(line_dist_to_dest_node(&h, 0, 0, ScrollDirection::Down), 0);
    assert_eq!(line_dist_to_dest_node(&h, 1, 0, ScrollDirection::Down), 1);
    assert_eq!(line_dist_to_dest_node(&h, 2, 0, ScrollDirection::Down), 1);
    assert_eq!(line_dist_to_dest_node(&h, 3, 0, ScrollDirection::Down), 2);
    assert_eq!(line_dist_to_dest_node(&h, 100, 0, ScrollDirection::Down), 4);
    assert_eq!(line_dist_to_dest_node(&h, 3, 4, ScrollDirection::Up), 2);
    assert_eq!(line_dist_to_dest_node(&h, 100, 4, ScrollDirection::Up), 0);
}

#[test]
fn page_down_stops_at_the_last_item() {
    let mut m = model_with_heights(vec![1, 1, 2, 1, 1]);
    m.selected = 1;
    m.offset = 1;
    m.scroll_down_page();
    assert_eq!((m.selected, m.offset), (4, 1));
    for _ in 0..3 {
        m.scroll_down_page();
        assert_eq!((m.selected, m.offset), (4, 1));
    }
}

#[test]
fn page_down_keeps_distance_from_offset() {
    let mut m = model_with_heights(vec![1; 20]);
    m.selected = 2;
    m.offset = 0;
    m.scroll_down_page();
    assert_eq!((m.selected, m.offset), (6, 4));
    m.scroll_up_page();
    assert_eq!((m.selected, m.offset), (2, 0));
    m.scroll_up_page();
    assert_eq!((m.selected, m.offset), (0, 0));
}

#[test]
fn wheel_scroll_moves_offset_and_drags_selection() {
    let mut m = model_with_heights(vec![1; 10]);
    m.scroll_down_once();
    assert_eq!((m.selected, m.offset), (1, 1));
    m.selected = 5;
    m.scroll_down_once();
    assert_eq!((m.selected, m.offset), (5, 2));
    m.scroll_up_once();
    assert_eq!((m.selected, m.offset), (4, 1));
    m.offset = 0;
    m.scroll_up_once();
    assert_eq!((m.selected, m.offset), (4, 0));
}

#[test]
fn wheel_scroll_down_stops_at_the_end() {
    let mut m = model_with_heights(vec![1; 3]);
    for _ in 0..5 {
        m.scroll_down_once();
    }
    assert_eq!((m.selected, m.offset), (2, 2));
}

#[test]
fn click_selects_the_item_under_the_row() {
    let mut m = model_with_heights(vec![2, 1, 1]);
    m.handle_mouse_click(3, 5);
    assert_eq!(m.selected, 0);
    m.handle_mouse_click(4, 5);
    assert_eq!(m.selected, 1);
    m.handle_mouse_click(0, 5);
    assert_eq!(m.selected, 1);
    m.handle_mouse_click(4, 50);
    assert_eq!(m.selected, 1);
}

#[test]
fn next_and_prev_node_stay_in_range() {
    let mut m = model_with_heights(vec![1, 1]);
    m.select_prev_node();
    assert_eq!(m.selected, 0);
    m.select_next_node();
    m.select_next_node();
    assert_eq!(m.selected, 1);
}

#[test]
fn chord_completes_and_misses_reset() {
    let mut m = Model::new(".".to_string(), "@".to_string());
    assert_eq!(m.handle_command_key(KeyCode::Char('b')), None);
    assert!(m.info_list.is_some());
    assert_eq!(m.handle_command_key(KeyCode::Char('s')), None);
    assert_eq!(m.handle_command_key(KeyCode::Char('m')), Some(Message::BookmarkSetMaster));
    assert!(m.command_keys.is_empty());

    assert_eq!(m.handle_command_key(KeyCode::Char('b')), None);
    assert_eq!(m.handle_command_key(KeyCode::Char('z')), None);
    assert!(m.command_keys.is_empty());
    let lines = m.info_list.as_ref().unwrap();
    assert!(matches!(lines.last(), Some(InfoLine::UnboundKey(k)) if k == "z"));
    assert_eq!(m.handle_command_key(KeyCode::Char('b')), None);
    assert_eq!(m.command_keys, vec![KeyCode::Char('b')]);
}

#[test]
fn trie_feed_reports_each_stage() {
    let t = CommandTree::new();
    let mut pending = Vec::new();
    assert!(matches!(t.feed(&mut pending, KeyCode::Char('g')), FeedResult::PartialMatch(_)));
    assert_eq!(t.feed(&mut pending, KeyCode::Char('p')), FeedResult::CompleteMatch(Message::Push));
    assert!(pending.is_empty());
    assert_eq!(t.feed(&mut pending, KeyCode::Char('x')), FeedResult::NoMatch);
    assert_eq!(t.feed(&mut pending, KeyCode::Char('n')), FeedResult::PartialMatch(t.get_node(&vec![KeyCode::Char('n')]).unwrap()));
    assert_eq!(t.feed(&mut pending, KeyCode::Char('b')), FeedResult::CompleteMatch(Message::NewBefore));
}

#[test]
fn unbound_keys_replace_each_other() {
    let mut info = None;
    display_error_lines(&mut info, KeyCode::Char('x'));
    display_error_lines(&mut info, KeyCode::Char('y'));
    let v = info.as_ref().unwrap();
    assert_eq!(v.len(), 1);
    assert!(matches!(&v[0], InfoLine::UnboundKey(k) if k == "y"));

    let mut info = Some(vec![InfoLine::Output("out".to_string())]);
    display_error_lines(&mut info, KeyCode::Char('x'));
    display_error_lines(&mut info, KeyCode::Char('y'));
    let v = info.unwrap();
    assert_eq!(v.len(), 3);
    assert!(matches!(&v[1], InfoLine::Blank));
    assert!(matches!(&v[2], InfoLine::UnboundKey(k) if k == "y"));

    let mut info = Some(vec![InfoLine::UnboundKey("a".to_string()), InfoLine::UnboundKey("b".to_string())]);
    display_error_lines(&mut info, KeyCode::Char('z'));
    let v = info.unwrap();
    assert_eq!(v.len(), 2);
    assert!(matches!(&v[1], InfoLine::UnboundKey(k) if k == "z"));
}

#[test]
fn default_tree_registers_every_chord() {
    let t = CommandTree::new();
    let chords = [
        ("aa", Message::Abandon),
        ("bsm", Message::BookmarkSetMaster),
        ("cc", Message::Commit),
        ("dd", Message::Describe),
        ("ee", Message::Edit),
        ("gf", Message::Fetch),
        ("gp", Message::Push),
        ("nn", Message::New),
        ("nb", Message::NewBefore),
        ("ss", Message::Squash),
        ("uu", Message::Undo),
    ];
    for (keys, m) in chords {
        let keys: Vec<KeyCode> = keys.chars().map(KeyCode::Char).collect();
        let n = t.get_node(&keys).unwrap();
        assert!(matches!(&t.nodes[n], majjit::command_tree::CommandTreeNode::Action(a) if *a == m));
    }
    assert!(t.get_node(&vec![KeyCode::Char('b'), KeyCode::Char('z')]).is_none());
    assert!(t.get_node(&vec![KeyCode::Char('a'), KeyCode::Char('a'), KeyCode::Char('a')]).is_none());
}

#[test]
fn key_labels_follow_the_terminal() {
    assert_eq!(key_label(KeyCode::Char('x')), "x");
    assert_eq!(key_label(KeyCode::Char(' ')), "Space");
}

#[test]
fn help_lists_groups_side_by_side_sorted() {
    let rows = CommandTree::new().get_help();
    assert!(matches!(&rows[0][0], HelpCell::Lead));
    assert!(matches!(&rows[0][1], HelpCell::Header { text, padding } if text == "Commands" && *padding == 18));
    let keys: Vec<String> = rows
        .iter()
        .skip(1)
        .filter_map(|r| match &r[1] {
            HelpCell::Entry { key, .. } => Some(key.clone()),
            _ => None,
        })
        .collect();
    assert_eq!(keys, vec!["a", "b", "c", "d", "e", "g", "n", "s", "u"]);
    assert!(matches!(&rows[1][1], HelpCell::Entry { help, padding, .. } if help == "Abandon change" && *padding == 10));
    assert!(matches!(&rows[0][2], HelpCell::Header { text, .. } if text == "Navigation"));
    assert!(matches!(&rows[11][3], HelpCell::Blank));
    assert_eq!(rows.len(), 12);
}

#[test]
fn command_arguments() {
    let ga = GlobalArgs { repository: "/r".to_string(), ignore_immutable: true };
    let cmd = JjCommand::log("@", ga);
    let args = cmd.full_args();
    assert_eq!(&args[..2], &["--color".to_string(), "always".to_string()]);
    assert_eq!(&args[4..], &["--repository", "/r", "--ignore-immutable", "log", "--revisions", "@"].map(String::from));
    assert_eq!(cmd.return_output, ReturnOutput::Stdout);
    let ga = GlobalArgs { repository: "/r".to_string(), ignore_immutable: false };
    let sq = JjCommand::squash_interactive("abc", Some("f.rs"), ga);
    assert_eq!(sq.args, vec!["squash", "--revision", "abc", "f.rs"]);
    assert!(sq.interactive);
}

#[test]
fn command_results_go_to_the_panel() {
    let mut m = Model::new(".".to_string(), "@".to_string());
    assert_eq!(m.handle_jj_command_result(Ok("done".to_string()), true), Ok(true));
    assert!(matches!(&m.info_list.as_ref().unwrap()[0], InfoLine::Output(s) if s == "done"));
    let failed = JjCommandError::new_failed("  bad revision \n".to_string());
    assert_eq!(m.handle_jj_command_result(Err(failed), true), Ok(false));
    assert!(matches!(&m.info_list.as_ref().unwrap()[0], InfoLine::Output(s) if s == "bad revision"));
    let other = JjCommandError::new_other("no jj".to_string());
    assert_eq!(m.handle_jj_command_result(Err(other), true), Err("no jj".to_string()));
    assert!(m.info_list.is_none());
}

#[test]
fn loading_a_log_selects_the_current_change() {
    let mut m = Model::new(".".to_string(), "@".to_string());
    let out = "○  kkkkkkkk a@b.c 2024-01-01 1111aaaa\n│  first\n@  qpvuntsm a@b.c 2024-01-01 2222bbbb\n│  second\n";
    m.load_log(out).unwrap();
    assert_eq!(m.log_list, vec![2, 2]);
    assert_eq!(m.selected, 1);
    assert_eq!(m.get_selected_change_id().as_deref(), Some("qpvuntsm"));
    let cmd = m.jj_new().unwrap();
    assert_eq!(cmd.args, vec!["new", "qpvuntsm"]);
    assert!(m.pending_fold_load().is_some());
    m.quit();
    assert_eq!(m.state, State::Quit);
}

use majjit::log_tree::{FileDiff, LoadRequest, LoadedChildren, LogError};

const LOG: &str = "○  kkkkkkkk a@b.c 2024-01-01 1111aaaa\n│  first\n@  qpvuntsm a@b.c 2024-01-01 2222bbbb\n│  second\n";

#[test]
fn opening_the_selected_change_loads_its_files() {
    let mut m = Model::new(".".to_string(), "@".to_string());
    m.load_log(LOG).unwrap();
    let req = m.pending_fold_load().unwrap();
    let LoadRequest::FileDiffs { change_id, graph_indent } = req else { panic!("expected files") };
    assert_eq!(change_id, "qpvuntsm");
    assert_eq!(m.toggle_current_fold(None), Err(LogError::MissingChildren));
    let files = FileDiff::load_all(&change_id, "M a.rs\nA b.rs\n", &graph_indent).unwrap();
    m.toggle_current_fold(Some(LoadedChildren::FileDiffs(files))).unwrap();
    assert_eq!(m.log_list, vec![2, 2, 1, 1]);
    assert_eq!(m.selected, 1);
    m.select_next_node();
    assert_eq!(m.get_selected_file_path().as_deref(), Some("a.rs"));
    m.select_current_next_sibling_node();
    assert_eq!(m.selected, 3);
    m.select_parent_node();
    assert_eq!(m.selected, 1);
    m.selected = 3;
    // past the last file of the last change: climbs, and clamps at the last change
    m.select_current_next_sibling_node();
    assert_eq!(m.selected, 1);
    m.select_current_prev_sibling_node();
    assert_eq!(m.selected, 0);
    m.select_current_working_copy();
    assert_eq!(m.selected, 1);
    m.toggle_current_fold(None).unwrap();
    assert_eq!(m.log_list, vec![2, 2]);
}

#[test]
fn keys_act_at_once_outside_a_chord() {
    let mut m = Model::new(".".to_string(), "@".to_string());
    assert_eq!(m.handle_key_event(KeyCode::Char('j'), false), Some(Message::SelectNextNode));
    assert_eq!(m.handle_key_event(KeyCode::Char('r'), true), Some(Message::Refresh));
    assert_eq!(m.handle_key_event(KeyCode::Char('c'), false), None);
    assert_eq!(m.handle_key_event(KeyCode::Char('c'), false), Some(Message::Commit));
    assert_eq!(m.handle_key_event(KeyCode::Char('d'), false), None);
    assert_eq!(m.handle_key_event(KeyCode::Esc, false), Some(Message::Clear));
    m.clear();
    assert!(m.command_keys.is_empty() && m.info_list.is_none());
}
