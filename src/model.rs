use vstd::prelude::*;
use crate::command_tree::{
    CommandTree, CommandTreeNode, FeedResult, HelpCell, KeyCode, Message, feed_spec, general_help,
    help_rows, inserted, key_label, navigation_help, num_rows, root_groups, rows_view, sorted_groups,
};
use crate::help::{GroupsView, help_groups};
use crate::jj_commands::{JjCommand, JjCommandError, copy_str};
use crate::loader::ParseError;
use crate::log_tree::{
    CommitOrText, JjLog, LoadRequest, LoadedChildren, LogError, TreePosition, current_index,
    entry_flat_idx, flat_idx_at, fold_subject, get_parent_tree_position, log_idx_ok, log_items,
    next_sibling_target, node_at, out_ok, parent_target, prev_sibling_target, toggle_at, zip_items,
};

verus! {

/// Rows kept between the selection and the edge of the view when scrolling.
pub const LOG_LIST_SCROLL_PADDING: usize = 0;

#[derive(Clone, Copy, Debug, PartialEq, Eq, Structural)]
pub enum State {
    Running,
    Quit,
}

/// Options passed to every run of the history tool.
#[derive(Debug)]
pub struct GlobalArgs {
    pub repository: String,
    pub ignore_immutable: bool,
}

/// A screen area, in cells.
#[derive(Clone, Copy, Debug, PartialEq, Eq, Structural)]
pub struct Rect {
    pub x: u16,
    pub y: u16,
    pub width: u16,
    pub height: u16,
}

#[derive(Clone, Copy, Debug, PartialEq, Eq, Structural)]
pub enum ScrollDirection {
    Up,
    Down,
}

/// A row of the information panel.
pub enum InfoLine {
    /// Text from the history tool, colour codes kept.
    Output(String),
    /// A row of the help layout.
    Help(Vec<HelpCell>),
    /// An empty row.
    Blank,
    /// The label of a key that no command continues with.
    UnboundKey(String),
}

// ---------------------------------------------------------------------------
// The line-distance walk.

/// From item `node`, with `remaining` rows still to cover, walks item by item
/// in `dir`: it stops at the item whose rows take the count past the
/// target, or at the first or last item.
pub open spec fn walk(heights: Seq<usize>, node: int, remaining: int, dir: ScrollDirection) -> int
    decreases (match dir {
        ScrollDirection::Down => heights.len() - node,
        ScrollDirection::Up => node,
    }),
{
    if node < 0 || node >= heights.len() {
        node
    } else {
        let at_edge = match dir {
            ScrollDirection::Down => node == heights.len() - 1,
            ScrollDirection::Up => node == 0,
        };
        if at_edge || heights[node] > remaining {
            node
        } else {
            walk(
                heights,
                match dir {
                    ScrollDirection::Down => node + 1,
                    ScrollDirection::Up => node - 1,
                },
                remaining - heights[node],
                dir,
            )
        }
    }
}

pub proof fn lemma_walk_bounds(heights: Seq<usize>, node: int, remaining: int, dir: ScrollDirection)
    requires
        0 <= node < heights.len(),
    ensures
        0 <= walk(heights, node, remaining, dir) < heights.len(),
    decreases (match dir {
        ScrollDirection::Down => heights.len() - node,
        ScrollDirection::Up => node,
    }),
{
    let at_edge = match dir {
        ScrollDirection::Down => node == heights.len() - 1,
        ScrollDirection::Up => node == 0,
    };
    if !(at_edge || heights[node] > remaining) {
        lemma_walk_bounds(
            heights,
            match dir {
                ScrollDirection::Down => node + 1,
                ScrollDirection::Up => node - 1,
            },
            remaining - heights[node],
            dir,
        );
    }
}

/// The item reached from item `starting_node` by walking `line_dist` rows in
/// `direction`.
pub fn line_dist_to_dest_node(
    heights: &Vec<usize>,
    line_dist: usize,
    starting_node: usize,
    direction: ScrollDirection,
) -> (r: usize)
    requires
        starting_node < heights@.len(),
    ensures
        r == walk(heights@, starting_node as int, line_dist as int, direction),
        r < heights@.len(),
{
    proof {
        lemma_walk_bounds(heights@, starting_node as int, line_dist as int, direction);
    }
    let mut node = starting_node;
    let mut remaining = line_dist;
    loop
        invariant
            node < heights@.len(),
            walk(heights@, node as int, remaining as int, direction) == walk(
                heights@,
                starting_node as int,
                line_dist as int,
                direction,
            ),
        decreases (match direction {
            ScrollDirection::Down => heights@.len() - node,
            ScrollDirection::Up => node as int,
        }),
    {
        let at_edge = match direction {
            ScrollDirection::Down => node == heights.len() - 1,
            ScrollDirection::Up => node == 0,
        };
        if at_edge || heights[node] > remaining {
            return node;
        }
        remaining = remaining - heights[node];
        node = match direction {
            ScrollDirection::Down => node + 1,
            ScrollDirection::Up => node - 1,
        };
    }
}

// ---------------------------------------------------------------------------
// Page scrolling.

/// Selection and offset after scrolling a page of `num_lines` rows: the
/// offset walks the page and the selection keeps its distance from it
/// (clamped to the last item); going down, a walk that reaches the last item
/// leaves the offset and selects the last item; going up, a walk that stays
/// at the top selects the first item.
pub open spec fn scroll_lines_spec(
    heights: Seq<usize>,
    selected: int,
    offset: int,
    num_lines: int,
    dir: ScrollDirection,
) -> (int, int) {
    let n = heights.len() as int;
    let dist = if selected >= offset { selected - offset } else { 0 };
    let target_offset = walk(heights, offset, num_lines, dir);
    let moved = if target_offset + dist < n { target_offset + dist } else { n - 1 };
    match dir {
        ScrollDirection::Down => if target_offset == n - 1 {
            (target_offset, offset)
        } else {
            (moved, target_offset)
        },
        ScrollDirection::Up => if target_offset == 0 && offset == 0 {
            (0, target_offset)
        } else {
            (moved, target_offset)
        },
    }
}

/// Scrolling down by pages never moves past the end: once a page walk
/// reaches the last item, the last item is selected, the offset stays, and
/// further scrolling changes nothing.
pub proof fn lemma_scroll_down_stops(
    heights: Seq<usize>,
    selected: int,
    offset: int,
    num_lines: int,
)
    requires
        0 <= offset < heights.len(),
        walk(heights, offset, num_lines, ScrollDirection::Down) == heights.len() - 1,
    ensures
        scroll_lines_spec(heights, selected, offset, num_lines, ScrollDirection::Down) == (
            heights.len() - 1,
            offset,
        ),
        scroll_lines_spec(heights, heights.len() - 1, offset, num_lines, ScrollDirection::Down) == (
            heights.len() - 1,
            offset,
        ),
{
}

// ---------------------------------------------------------------------------
// The unbound-key annotation.

pub open spec fn is_unbound(l: InfoLine) -> bool {
    l is UnboundKey
}

/// The panel after a key that no command continues with: the annotation
/// replaces one already at the bottom, and is otherwise added at the
/// bottom, set off by a blank row from other content. Returns how many old
/// rows are kept and whether a blank row follows them.
pub open spec fn annotated_len(old_lines: Option<Seq<InfoLine>>) -> (nat, bool) {
    match old_lines {
        None => (0, false),
        Some(ls) => if ls.len() == 0 {
            (0, false)
        } else if is_unbound(ls.last()) {
            ((ls.len() - 1) as nat, false)
        } else {
            (ls.len(), !is_unbound(ls[0]))
        },
    }
}

/// Adds the annotation for an unbound key to the panel.
pub fn display_error_lines(info_list: &mut Option<Vec<InfoLine>>, key_code: KeyCode)
    ensures
        ({
            let (kept, blank) = annotated_len(match *old(info_list) {
                Some(v) => Some(v@),
                None => None,
            });
            &&& *final(info_list) matches Some(v)
            &&& v@.len() == kept + (if blank { 1nat } else { 0 }) + 1
            &&& forall|i: int| 0 <= i < kept ==> v@[i] == (*old(info_list))->0@[i]
            &&& blank ==> v@[kept as int] is Blank
            &&& v@.last() is UnboundKey
            &&& (v@.last() matches InfoLine::UnboundKey(label) ==> (key_code matches KeyCode::Char(c) ==> (c
                != ' ' ==> label@ == seq![c])))
        }),
{
    let label = key_label(key_code);
    let mut lines = match info_list.take() {
        Some(v) => v,
        None => Vec::new(),
    };
    let n = lines.len();
    if n > 0 && matches!(lines[n - 1], InfoLine::UnboundKey(_)) {
        lines.truncate(n - 1);
    } else if n > 0 && !matches!(lines[0], InfoLine::UnboundKey(_)) {
        lines.push(InfoLine::Blank);
    }
    lines.push(InfoLine::UnboundKey(label));
    *info_list = Some(lines);
}

// ---------------------------------------------------------------------------
// The viewer's state.

/// Everything the viewer shows and remembers between events.
pub struct Model {
    pub global_args: GlobalArgs,
    pub revset: String,
    pub state: State,
    pub command_tree: CommandTree,
    /// Keys of a chord pressed so far.
    pub command_keys: Vec<KeyCode>,
    pub jj_log: JjLog,
    /// The rows each listed item takes.
    pub log_list: Vec<usize>,
    /// The tree address of each listed item.
    pub log_list_tree_positions: Vec<TreePosition>,
    /// The selected item.
    pub selected: usize,
    /// The first item in view.
    pub offset: usize,
    pub log_list_layout: Rect,
    pub log_list_scroll_padding: usize,
    pub info_list: Option<Vec<InfoLine>>,
}

impl Model {
    /// The list and the selection agree: both lists have one entry per item
    /// and the selection and offset are items (0 for an empty list).
    pub open spec fn wf(&self) -> bool {
        &&& self.log_list@.len() == self.log_list_tree_positions@.len()
        &&& self.log_list@.len() == 0 ==> self.selected == 0 && self.offset == 0
        &&& self.log_list@.len() > 0 ==> self.selected < self.log_list@.len() && self.offset
            < self.log_list@.len()
    }

    /// The list is the flattening of the tree.
    pub open spec fn synced(&self) -> bool {
        &&& out_ok(self.log_list@, self.log_list_tree_positions@)
        &&& zip_items(self.log_list@, self.log_list_tree_positions@) == log_items(self.jj_log@)
        &&& log_idx_ok(self.jj_log)
    }

    /// Everything but the selection and the view's offset is as in `o`.
    pub open spec fn same_but_view(&self, o: &Model) -> bool {
        &&& self.global_args == o.global_args
        &&& self.revset == o.revset
        &&& self.state == o.state
        &&& self.command_tree == o.command_tree
        &&& self.command_keys == o.command_keys
        &&& self.jj_log == o.jj_log
        &&& self.log_list == o.log_list
        &&& self.log_list_tree_positions == o.log_list_tree_positions
        &&& self.log_list_layout == o.log_list_layout
        &&& self.log_list_scroll_padding == o.log_list_scroll_padding
        &&& self.info_list == o.info_list
    }

    /// Everything but the information panel and the pending chord is as in
    /// `o`.
    pub open spec fn same_but_panel(&self, o: &Model) -> bool {
        &&& self.global_args == o.global_args
        &&& self.revset == o.revset
        &&& self.state == o.state
        &&& self.command_tree == o.command_tree
        &&& self.jj_log == o.jj_log
        &&& self.log_list == o.log_list
        &&& self.log_list_tree_positions == o.log_list_tree_positions
        &&& self.log_list_layout == o.log_list_layout
        &&& self.log_list_scroll_padding == o.log_list_scroll_padding
        &&& self.selected == o.selected
        &&& self.offset == o.offset
    }

    pub open spec fn selected_pos(&self) -> Option<Seq<usize>> {
        if self.selected < self.log_list_tree_positions@.len() {
            Some(self.log_list_tree_positions@[self.selected as int]@)
        } else {
            None
        }
    }

    /// The selection after moving to flat index `idx`, if it is an item.
    pub open spec fn selects(&self, old_selected: usize, idx: Option<usize>) -> bool {
        match idx {
            Some(i) => if i < self.log_list@.len() {
                self.selected == i
            } else {
                self.selected == old_selected
            },
            None => self.selected == old_selected,
        }
    }

    /// A viewer on a repository and a set of revisions, with nothing loaded.
    pub fn new(repository: String, revset: String) -> (r: Self)
        ensures
            r.wf(),
            r.synced(),
            r.state == State::Running,
            r.jj_log@.len() == 0,
            r.log_list@.len() == 0,
            r.info_list is None,
            r.command_keys@.len() == 0,
            r.command_tree.nodes@.len() > 0,
            crate::command_tree::default_tree(r.command_tree.nodes@),
            r.global_args.repository@ == repository@,
            !r.global_args.ignore_immutable,
            r.revset@ == revset@,
    {
        let r = Model {
            global_args: GlobalArgs { repository, ignore_immutable: false },
            revset,
            state: State::Running,
            command_tree: CommandTree::new(),
            command_keys: Vec::new(),
            jj_log: JjLog::new(),
            log_list: Vec::new(),
            log_list_tree_positions: Vec::new(),
            selected: 0,
            offset: 0,
            log_list_layout: Rect { x: 0, y: 0, width: 0, height: 0 },
            log_list_scroll_padding: LOG_LIST_SCROLL_PADDING,
            info_list: None,
        };
        assert(zip_items(r.log_list@, r.log_list_tree_positions@) =~= log_items(r.jj_log@));
        r
    }

    pub fn quit(&mut self)
        ensures
            final(self).state == State::Quit,
    {
        self.state = State::Quit;
    }

    pub fn toggle_ignore_immutable(&mut self)
        ensures
            final(self).global_args.ignore_immutable == !old(self).global_args.ignore_immutable,
            final(self).global_args.repository == old(self).global_args.repository,
    {
        self.global_args.ignore_immutable = !self.global_args.ignore_immutable;
    }

    /// Re-flattens the tree into the list, keeping the selection on an item.
    fn sync_log_list(&mut self)
        ensures
            final(self).synced(),
            final(self).jj_log@ == old(self).jj_log@,
            final(self).log_list@.len() == 0 ==> final(self).selected == 0 && final(self).offset == 0,
            final(self).log_list@.len() > 0 ==> final(self).selected == (if old(self).selected
                < final(self).log_list@.len() {
                old(self).selected
            } else {
                (final(self).log_list@.len() - 1) as usize
            }),
            final(self).wf(),
            final(self).command_tree == old(self).command_tree,
            final(self).command_keys == old(self).command_keys,
            final(self).info_list == old(self).info_list,
    {
        let flat = self.jj_log.flatten_log();
        self.log_list = flat.heights;
        self.log_list_tree_positions = flat.tree_positions;
        let n = self.log_list.len();
        if n == 0 {
            self.selected = 0;
            self.offset = 0;
        } else {
            if self.selected >= n {
                self.selected = n - 1;
            }
            if self.offset >= n {
                self.offset = n - 1;
            }
        }
    }

    fn log_select(&mut self, idx: Option<usize>)
        ensures
            final(self).same_but_view(old(self)),
            final(self).selects(old(self).selected, idx),
            final(self).log_list == old(self).log_list,
            final(self).log_list_tree_positions == old(self).log_list_tree_positions,
            final(self).offset == old(self).offset,
            final(self).jj_log == old(self).jj_log,
            final(self).info_list == old(self).info_list,
            final(self).command_keys == old(self).command_keys,
            final(self).command_tree == old(self).command_tree,
            old(self).wf() ==> final(self).wf(),
    {
        match idx {
            Some(i) => if i < self.log_list.len() {
                self.selected = i;
            },
            None => {},
        }
    }

    /// Replaces the log with the tool's log output and selects the current
    /// checkout, or the first item. On a parse error nothing changes.
    pub fn load_log(&mut self, log_output: &str) -> (r: Result<(), ParseError>)
        ensures
            ({
                let us = crate::loader::log_units(crate::loader::log_lines(log_output@));
                r is Ok <==> forall|i: int| 0 <= i < us.len() ==> #[trigger] crate::loader::unit_parses(us[i])
            }),
            r is Err ==> final(self).jj_log@ == old(self).jj_log@,
            r is Ok ==> crate::log_tree::log_wf(final(self).jj_log@),
            r is Ok ==> final(self).synced() && final(self).wf() && ({
                let us = crate::loader::log_units(crate::loader::log_lines(log_output@));
                &&& final(self).jj_log@.len() == us.len()
                &&& forall|i: int|
                    0 <= i < us.len() ==> crate::loader::entry_matches(
                        #[trigger] final(self).jj_log@[i],
                        us[i],
                    )
            }),
            r is Ok ==> final(self).selects(
                0,
                if current_index(final(self).jj_log.log_tree@, 0) >= 0 {
                    Some(
                        entry_flat_idx(
                            final(self).jj_log.log_tree@[current_index(final(self).jj_log.log_tree@, 0)],
                        ),
                    )
                } else {
                    None
                },
            ),
    {
        match self.jj_log.load_log_tree(log_output) {
            Ok(()) => {},
            Err(e) => {
                return Err(e);
            },
        }
        self.selected = 0;
        self.offset = 0;
        self.sync_log_list();
        let idx = match self.jj_log.get_current_commit() {
            Some(c) => Some(c.flat_log_idx),
            None => None,
        };
        self.log_select(idx);
        Ok(())
    }

    pub fn select_next_node(&mut self)
        ensures
            final(self).same_but_view(old(self)),
            final(self).selected == if old(self).selected + 1 < old(self).log_list@.len() {
                old(self).selected + 1
            } else {
                old(self).selected as int
            },
            final(self).offset == old(self).offset,
            final(self).log_list == old(self).log_list,
            final(self).log_list_tree_positions == old(self).log_list_tree_positions,
            old(self).wf() ==> final(self).wf(),
    {
        if self.log_list.len() > 0 && self.selected < self.log_list.len() - 1 {
            self.selected = self.selected + 1;
        }
    }

    pub fn select_prev_node(&mut self)
        ensures
            final(self).same_but_view(old(self)),
            final(self).selected == if old(self).selected > 0 {
                old(self).selected - 1
            } else {
                0
            },
            final(self).offset == old(self).offset,
            final(self).log_list == old(self).log_list,
            final(self).log_list_tree_positions == old(self).log_list_tree_positions,
            old(self).wf() ==> final(self).wf(),
    {
        if self.selected > 0 {
            self.selected = self.selected - 1;
        }
    }

    /// Selects the current checkout, if the log has one.
    pub fn select_current_working_copy(&mut self)
        ensures
            final(self).same_but_view(old(self)),
            final(self).selects(
                old(self).selected,
                if current_index(old(self).jj_log.log_tree@, 0) >= 0 {
                    Some(
                        entry_flat_idx(
                            old(self).jj_log.log_tree@[current_index(old(self).jj_log.log_tree@, 0)],
                        ),
                    )
                } else {
                    None
                },
            ),
            old(self).wf() ==> final(self).wf(),
    {
        let idx = match self.jj_log.get_current_commit() {
            Some(commit) => Some(commit.flat_log_idx),
            None => None,
        };
        self.log_select(idx);
    }

    /// Selects the parent of the selected node; a top-level entry stays.
    pub fn select_parent_node(&mut self)
        ensures
            final(self).same_but_view(old(self)),
            final(self).selects(
                old(self).selected,
                match old(self).selected_pos() {
                    Some(p) => match parent_target(p) {
                        Some(q) => flat_idx_at(old(self).jj_log, q),
                        None => None,
                    },
                    None => None,
                },
            ),
            old(self).wf() ==> final(self).wf(),
    {
        if self.selected >= self.log_list_tree_positions.len() {
            return;
        }
        let idx = match get_parent_tree_position(&self.log_list_tree_positions[self.selected]) {
            Some(parent_pos) => self.jj_log.flat_idx_of(&parent_pos),
            None => None,
        };
        self.log_select(idx);
    }

    /// Moves to the next sibling of the selected node, or of its nearest
    /// ancestor that has one.
    pub fn select_current_next_sibling_node(&mut self)
        ensures
            final(self).same_but_view(old(self)),
            final(self).selects(
                old(self).selected,
                match old(self).selected_pos() {
                    Some(p) => if node_at(old(self).jj_log@, p) is Some {
                        flat_idx_at(old(self).jj_log, next_sibling_target(old(self).jj_log@, p))
                    } else {
                        None
                    },
                    None => None,
                },
            ),
            old(self).wf() ==> final(self).wf(),
    {
        if self.selected >= self.log_list_tree_positions.len() {
            return;
        }
        let idx = match self.jj_log.next_sibling_position(&self.log_list_tree_positions[self.selected]) {
            Some(q) => self.jj_log.flat_idx_of(&q),
            None => None,
        };
        self.log_select(idx);
    }

    /// Moves to the previous sibling of the selected node, or of its nearest
    /// ancestor that has one.
    pub fn select_current_prev_sibling_node(&mut self)
        ensures
            final(self).same_but_view(old(self)),
            final(self).selects(
                old(self).selected,
                match old(self).selected_pos() {
                    Some(p) => if node_at(old(self).jj_log@, p) is Some {
                        flat_idx_at(old(self).jj_log, prev_sibling_target(p))
                    } else {
                        None
                    },
                    None => None,
                },
            ),
            old(self).wf() ==> final(self).wf(),
    {
        if self.selected >= self.log_list_tree_positions.len() {
            return;
        }
        let idx = match self.jj_log.prev_sibling_position(&self.log_list_tree_positions[self.selected]) {
            Some(q) => self.jj_log.flat_idx_of(&q),
            None => None,
        };
        self.log_select(idx);
    }

    /// What toggling the selected node's fold needs fetched first.
    pub fn pending_fold_load(&self) -> (r: Option<LoadRequest>)
        ensures
            r is Some <==> (self.selected_pos() matches Some(p) && node_at(self.jj_log@, fold_subject(p)) matches Some(n)
                && crate::log_tree::needs_load(n)),
    {
        if self.selected >= self.log_list_tree_positions.len() {
            return None;
        }
        self.jj_log.pending_load(&self.log_list_tree_positions[self.selected])
    }

    /// Toggles the fold of the selected node with the children fetched for
    /// it, re-flattens, and keeps the node selected.
    pub fn toggle_current_fold(&mut self, children: Option<LoadedChildren>) -> (r: Result<(), LogError>)
        ensures
            match old(self).selected_pos() {
                None => r == Err::<(), LogError>(LogError::InvalidPosition) && final(self).jj_log@
                    == old(self).jj_log@,
                Some(p) => match node_at(old(self).jj_log@, fold_subject(p)) {
                    None => r == Err::<(), LogError>(LogError::InvalidPosition) && final(self).jj_log@
                        == old(self).jj_log@,
                    Some(n) => if !crate::log_tree::children_fit(n, children) {
                        r == Err::<(), LogError>(LogError::MissingChildren) && final(self).jj_log@
                            == old(self).jj_log@
                    } else {
                        &&& r is Ok
                        &&& final(self).jj_log@ == toggle_at(
                            old(self).jj_log@,
                            fold_subject(p),
                            crate::log_tree::supplied_files(children).unwrap_or(Seq::empty()),
                            crate::log_tree::supplied_hunks(children).unwrap_or(Seq::empty()),
                        )
                        &&& final(self).synced()
                        &&& (flat_idx_at(final(self).jj_log, fold_subject(p)) matches Some(i) ==> (i
                            < final(self).log_list@.len() ==> final(self).selected == i))
                    },
                },
            },
            final(self).command_tree == old(self).command_tree,
            final(self).command_keys == old(self).command_keys,
            final(self).info_list == old(self).info_list,
            old(self).wf() ==> final(self).wf(),
            crate::log_tree::log_wf(old(self).jj_log@) && crate::log_tree::children_wf(children)
                ==> crate::log_tree::log_wf(final(self).jj_log@),
    {
        if self.selected >= self.log_list_tree_positions.len() {
            return Err(LogError::InvalidPosition);
        }
        let pos = self.log_list_tree_positions[self.selected].clone();
        let mut q = pos.clone();
        if q.len() > crate::log_tree::DIFF_HUNK_IDX + 1 {
            q.truncate(crate::log_tree::DIFF_HUNK_IDX + 1);
        }
        assert(q@ =~= fold_subject(pos@));
        match self.jj_log.toggle_fold(&pos, children) {
            Ok(_) => {},
            Err(e) => {
                return Err(e);
            },
        }
        self.sync_log_list();
        let idx = self.jj_log.flat_idx_of(&q);
        self.log_select(idx);
        Ok(())
    }

    /// Drops the information panel and any pending chord.
    pub fn clear(&mut self)
        ensures
            final(self).same_but_panel(old(self)),
            final(self).info_list is None,
            final(self).command_keys@.len() == 0,
            final(self).selected == old(self).selected,
            final(self).offset == old(self).offset,
            final(self).log_list == old(self).log_list,
            final(self).log_list_tree_positions == old(self).log_list_tree_positions,
    {
        self.info_list = None;
        self.command_keys.clear();
    }

    /// Shows the help for all commands in the information panel: the root's
    /// groups with their entries sorted, then navigation and general keys.
    pub fn show_help(&mut self)
        ensures
            final(self).same_but_panel(old(self)),
            final(self).command_keys == old(self).command_keys,
            old(self).command_tree.nodes@.len() == 0 ==> final(self).info_list == old(self).info_list,
            old(self).command_tree.nodes@.len() > 0 ==> (final(self).info_list matches Some(v) && exists|
                s: GroupsView,
            |
                #[trigger] sorted_groups(s, root_groups(old(self).command_tree.nodes@[0])) && shows_help(
                    v@,
                    inserted(inserted(s, "Navigation"@, navigation_help()), "General"@, general_help()),
                )),
    {
        if self.command_tree.nodes.len() == 0 {
            return;
        }
        let rows = self.command_tree.get_help();
        let ghost rv = rows@;
        let lines = help_lines(rows);
        proof {
            let s = choose|s: GroupsView|
                #[trigger] sorted_groups(s, root_groups(self.command_tree.nodes@[0])) && ({
                    let g = inserted(inserted(s, "Navigation"@, navigation_help()), "General"@, general_help());
                    num_rows(g) <= usize::MAX ==> rows_view(rv) == help_rows(g)
                });
            let g = inserted(inserted(s, "Navigation"@, navigation_help()), "General"@, general_help());
            lemma_help_lines_show(lines@, rv, g);
        }
        self.info_list = Some(lines);
    }

    /// Feeds a key to the chord dispatcher: a miss annotates the panel, a
    /// prefix shows the help for what can follow, a complete chord returns
    /// its action.
    pub fn handle_command_key(&mut self, key_code: KeyCode) -> (r: Option<Message>)
        ensures
            final(self).same_but_panel(old(self)),
            ({
                let (res, pending) = feed_spec(old(self).command_tree.nodes@, old(self).command_keys@, key_code);
                &&& final(self).command_keys@ == pending
                &&& r == match res {
                    FeedResult::CompleteMatch(m) => Some(m),
                    _ => None,
                }
                &&& res == FeedResult::NoMatch ==> (final(self).info_list matches Some(v) && v@.len() > 0
                    && v@.last() is UnboundKey)
                &&& res matches FeedResult::PartialMatch(n) ==> (old(self).command_tree.nodes@[n as int] matches CommandTreeNode::Children(c)
                    && final(self).info_list matches Some(v) && exists|g: GroupsView|
                    #[trigger] sorted_groups(g, help_groups(c.help)) && shows_help(v@, g))
            }),
            final(self).selected == old(self).selected,
            final(self).offset == old(self).offset,
            final(self).log_list == old(self).log_list,
            final(self).log_list_tree_positions == old(self).log_list_tree_positions,
    {
        match self.command_tree.feed(&mut self.command_keys, key_code) {
            FeedResult::NoMatch => {
                display_error_lines(&mut self.info_list, key_code);
                None
            },
            FeedResult::PartialMatch(n) => {
                let lines = match &self.command_tree.nodes[n] {
                    CommandTreeNode::Children(children) => {
                        let rows = children.get_help();
                        let ghost rv = rows@;
                        let lines = help_lines(rows);
                        proof {
                            let g = choose|g: GroupsView|
                                #[trigger] sorted_groups(g, help_groups(children.help)) && (num_rows(g) <= usize::MAX
                                    ==> rows_view(rv) == help_rows(g));
                            lemma_help_lines_show(lines@, rv, g);
                        }
                        lines
                    },
                    CommandTreeNode::Action(_) => Vec::new(),
                };
                self.info_list = Some(lines);
                None
            },
            FeedResult::CompleteMatch(message) => Some(message),
        }
    }

    /// One wheel tick down: the selection follows when it sits at the top
    /// padding, and the view moves down one item unless it shows the last.
    pub fn scroll_down_once(&mut self)
        ensures
            final(self).same_but_view(old(self)),
            final(self).offset == if old(self).offset + 1 < old(self).log_list@.len() {
                old(self).offset + 1
            } else {
                old(self).offset as int
            },
            final(self).selected == if old(self).selected <= old(self).offset + old(self).log_list_scroll_padding
                && old(self).selected + 1 < old(self).log_list@.len() {
                old(self).selected + 1
            } else {
                old(self).selected as int
            },
            old(self).wf() ==> final(self).wf(),
    {
        let n = self.log_list.len();
        if self.selected <= self.offset || self.selected - self.offset <= self.log_list_scroll_padding {
            self.select_next_node();
        }
        if n > 0 && self.offset < n - 1 {
            self.offset = self.offset + 1;
        }
    }

    /// One wheel tick up: nothing at the top; else the selection follows
    /// when it sits at the bottom padding of the view, and the view moves up.
    pub fn scroll_up_once(&mut self)
        ensures
            final(self).same_but_view(old(self)),
            old(self).offset == 0 ==> final(self).offset == 0 && final(self).selected == old(self).selected,
            old(self).offset > 0 && old(self).offset < old(self).log_list@.len() ==> ({
                let last_visible = walk(
                    old(self).log_list@,
                    old(self).offset as int,
                    if old(self).log_list_layout.height > 0 { old(self).log_list_layout.height - 1 } else { 0 },
                    ScrollDirection::Down,
                );
                let band = last_visible - 1 - old(self).log_list_scroll_padding;
                &&& final(self).offset == old(self).offset - 1
                &&& final(self).selected == if old(self).selected >= band && old(self).selected > 0 {
                    old(self).selected - 1
                } else {
                    old(self).selected as int
                }
            }),
            old(self).wf() ==> final(self).wf(),
    {
        if self.offset == 0 || self.offset >= self.log_list.len() {
            return;
        }
        let height = self.log_list_layout.height as usize;
        let last_node_visible = line_dist_to_dest_node(
            &self.log_list,
            if height > 0 { height - 1 } else { 0 },
            self.offset,
            ScrollDirection::Down,
        );
        let follow = if last_node_visible < 1 {
            true
        } else if last_node_visible - 1 < self.log_list_scroll_padding {
            true
        } else {
            self.selected >= last_node_visible - 1 - self.log_list_scroll_padding
        };
        if follow {
            self.select_prev_node();
        }
        self.offset = self.offset - 1;
    }

    /// Scrolls a page of `num_lines` rows in a direction.
    pub fn scroll_lines(&mut self, num_lines: usize, direction: ScrollDirection)
        ensures
            final(self).same_but_view(old(self)),
            old(self).offset < old(self).log_list@.len() ==> (final(self).selected as int, final(self).offset as int)
                == scroll_lines_spec(
                old(self).log_list@,
                old(self).selected as int,
                old(self).offset as int,
                num_lines as int,
                direction,
            ),
            old(self).offset >= old(self).log_list@.len() ==> final(self).selected == old(self).selected
                && final(self).offset == old(self).offset,
            final(self).log_list == old(self).log_list,
            old(self).wf() ==> final(self).wf(),
    {
        let n = self.log_list.len();
        if self.offset >= n {
            return;
        }
        let dist = if self.selected >= self.offset { self.selected - self.offset } else { 0 };
        let mut target_offset = line_dist_to_dest_node(&self.log_list, num_lines, self.offset, direction);
        let mut target_node = if dist < n - target_offset { target_offset + dist } else { n - 1 };
        match direction {
            ScrollDirection::Down => {
                if target_offset == n - 1 {
                    target_node = target_offset;
                    target_offset = self.offset;
                }
            },
            ScrollDirection::Up => {
                if target_offset == 0 && target_offset == self.offset {
                    target_node = 0;
                }
            },
        }
        self.selected = target_node;
        self.offset = target_offset;
    }

    pub fn scroll_down_page(&mut self)
        ensures
            final(self).same_but_view(old(self)),
            old(self).offset < old(self).log_list@.len() ==> (final(self).selected as int, final(self).offset as int)
                == scroll_lines_spec(
                old(self).log_list@,
                old(self).selected as int,
                old(self).offset as int,
                old(self).log_list_layout.height as int,
                ScrollDirection::Down,
            ),
            old(self).wf() ==> final(self).wf(),
    {
        let h = self.log_list_layout.height as usize;
        self.scroll_lines(h, ScrollDirection::Down);
    }

    pub fn scroll_up_page(&mut self)
        ensures
            final(self).same_but_view(old(self)),
            old(self).offset < old(self).log_list@.len() ==> (final(self).selected as int, final(self).offset as int)
                == scroll_lines_spec(
                old(self).log_list@,
                old(self).selected as int,
                old(self).offset as int,
                old(self).log_list_layout.height as int,
                ScrollDirection::Up,
            ),
            old(self).wf() ==> final(self).wf(),
    {
        let h = self.log_list_layout.height as usize;
        self.scroll_lines(h, ScrollDirection::Up);
    }

    /// Selects the item under a click inside the list's area.
    pub fn handle_mouse_click(&mut self, row: u16, column: u16)
        ensures
            final(self).same_but_view(old(self)),
            ({
                let l = old(self).log_list_layout;
                let inside = l.y <= row < l.y + l.height && l.x <= column < l.x + l.width;
                &&& (inside && old(self).offset < old(self).log_list@.len()) ==> final(self).selected == walk(
                    old(self).log_list@,
                    old(self).offset as int,
                    row - l.y,
                    ScrollDirection::Down,
                )
                &&& !(inside && old(self).offset < old(self).log_list@.len()) ==> final(self).selected
                    == old(self).selected
            }),
            final(self).offset == old(self).offset,
            old(self).wf() ==> final(self).wf(),
    {
        let l = self.log_list_layout;
        let row32 = row as u32;
        let col32 = column as u32;
        if row32 < l.y as u32 || row32 >= l.y as u32 + l.height as u32 || col32 < l.x as u32 || col32
            >= l.x as u32 + l.width as u32 {
            return;
        }
        if self.offset >= self.log_list.len() {
            return;
        }
        let target_node = line_dist_to_dest_node(
            &self.log_list,
            (row - l.y) as usize,
            self.offset,
            ScrollDirection::Down,
        );
        self.selected = target_node;
    }

    /// The change id of the change the selection lies in.
    pub open spec fn selected_change_id(&self) -> Seq<char> {
        match self.jj_log.log_tree@[self.selected_pos()->0[0] as int] {
            CommitOrText::Commit(c) => c.header.change_id@,
            _ => Seq::empty(),
        }
    }

    /// The path of the file diff the selection lies in, if it lies in one.
    pub open spec fn selected_file_path(&self) -> Option<Seq<char>> {
        match self.selected_pos() {
            Some(p) => if p.len() > 1 && node_at(self.jj_log@, p.take(2)) is Some {
                match self.jj_log.log_tree@[p[0] as int] {
                    CommitOrText::Commit(c) => Some(c.file_diffs@[p[1] as int].path@),
                    _ => None,
                }
            } else {
                None
            },
            None => None,
        }
    }

    pub fn get_selected_change_id(&self) -> (r: Option<String>)
        ensures
            r is Some <==> self.get_selected_change_id_spec(),
            r matches Some(id) ==> id@ == self.selected_change_id(),
            r is Some ==> self.selected_pos() is Some,
            r matches Some(id) ==> ({
                let p = self.selected_pos()->0;
                p.len() > 0 && p[0] < self.jj_log.log_tree@.len() && (self.jj_log.log_tree@[p[0] as int] matches CommitOrText::Commit(c) && id@ == c.header.change_id@)
            }),
    {
        if self.selected >= self.log_list_tree_positions.len() {
            return None;
        }
        match self.jj_log.get_tree_commit(&self.log_list_tree_positions[self.selected]) {
            Some(commit) => Some(copy_str(commit.header.change_id.as_str())),
            None => None,
        }
    }

    /// The path of the file diff the selection lies in.
    pub fn get_selected_file_path(&self) -> (r: Option<String>)
        ensures
            r is Some <==> self.selected_file_path() is Some,
            r matches Some(path) ==> Some(path@) == self.selected_file_path(),
            r is Some ==> self.selected_pos() is Some,
            r matches Some(path) ==> ({
                let p = self.selected_pos()->0;
                p.len() > 1 && (self.jj_log.log_tree@[p[0] as int] matches CommitOrText::Commit(c)
                    && p[1] < c.file_diffs@.len() && path@ == c.file_diffs@[p[1] as int].path@)
            }),
    {
        if self.selected >= self.log_list_tree_positions.len() {
            return None;
        }
        match self.jj_log.get_tree_file_diff(&self.log_list_tree_positions[self.selected]) {
            Some(file_diff) => Some(copy_str(file_diff.path.as_str())),
            None => None,
        }
    }

    /// Shows the selected change, or its selected file.
    pub fn jj_show(&self) -> (r: Option<JjCommand>)
        ensures
            r is Some <==> self.get_selected_change_id_spec(),
            r matches Some(cmd) ==> crate::jj_commands::str_views(cmd.args@) == match self.selected_file_path() {
                None => seq!["show"@, self.selected_change_id()],
                Some(f) => seq!["diff"@, "--revisions"@, self.selected_change_id(), f],
            },
    {
        let change_id = self.get_selected_change_id();
        let file_path = self.get_selected_file_path();
        match change_id {
            Some(id) => Some(JjCommand::show(
                id.as_str(),
                match &file_path {
                    Some(p) => Some(p.as_str()),
                    None => None,
                },
                self.global_args.copy(),
            )),
            None => None,
        }
    }

    /// Whether the selection lies in a change.
    pub open spec fn get_selected_change_id_spec(&self) -> bool {
        self.selected_pos() matches Some(p) && p.len() > 0 && p[0] < self.jj_log.log_tree@.len()
            && self.jj_log.log_tree@[p[0] as int] is Commit
    }

    pub fn jj_describe(&self) -> (r: Option<JjCommand>)
        ensures
            r is Some <==> self.get_selected_change_id_spec(),
            r matches Some(cmd) ==> crate::jj_commands::str_views(cmd.args@) == seq!["describe"@, self.selected_change_id()],
    {
        match self.get_selected_change_id() {
            Some(id) => Some(JjCommand::describe(id.as_str(), self.global_args.copy())),
            None => None,
        }
    }

    pub fn jj_new(&self) -> (r: Option<JjCommand>)
        ensures
            r is Some <==> self.get_selected_change_id_spec(),
            r matches Some(cmd) ==> crate::jj_commands::str_views(cmd.args@) == seq!["new"@, self.selected_change_id()],
    {
        match self.get_selected_change_id() {
            Some(id) => Some(JjCommand::new(id.as_str(), self.global_args.copy())),
            None => None,
        }
    }

    pub fn jj_new_before(&self) -> (r: Option<JjCommand>)
        ensures
            r is Some <==> self.get_selected_change_id_spec(),
            r matches Some(cmd) ==> crate::jj_commands::str_views(cmd.args@) == seq!["new"@, "--no-edit"@, "--insert-before"@, self.selected_change_id()],
    {
        match self.get_selected_change_id() {
            Some(id) => Some(JjCommand::new_before(id.as_str(), self.global_args.copy())),
            None => None,
        }
    }

    pub fn jj_abandon(&self) -> (r: Option<JjCommand>)
        ensures
            r is Some <==> self.get_selected_change_id_spec(),
            r matches Some(cmd) ==> crate::jj_commands::str_views(cmd.args@) == seq!["abandon"@, self.selected_change_id()],
    {
        match self.get_selected_change_id() {
            Some(id) => Some(JjCommand::abandon(id.as_str(), self.global_args.copy())),
            None => None,
        }
    }

    pub fn jj_undo(&self) -> (r: JjCommand)
        ensures
            crate::jj_commands::str_views(r.args@) == seq!["undo"@],
    {
        JjCommand::undo(self.global_args.copy())
    }

    pub fn jj_commit(&self) -> (r: JjCommand)
        ensures
            crate::jj_commands::str_views(r.args@) == seq!["commit"@],
    {
        JjCommand::commit(self.global_args.copy())
    }

    /// Squashes the selected change (or file) into its parent: at once when
    /// it has no description, else letting the user merge the descriptions.
    pub fn jj_squash(&self) -> (r: Option<JjCommand>)
        ensures
            r is Some <==> self.get_selected_change_id_spec(),
            r matches Some(cmd) ==> (self.jj_log.log_tree@[self.selected_pos()->0[0] as int] matches CommitOrText::Commit(c)
                && cmd.interactive == (c.header.description_first_line is Some)),
    {
        if self.selected >= self.log_list_tree_positions.len() {
            return None;
        }
        let commit = match self.jj_log.get_tree_commit(&self.log_list_tree_positions[self.selected]) {
            Some(c) => c,
            None => {
                return None;
            },
        };
        let file_path = self.get_selected_file_path();
        let fp = match &file_path {
            Some(p) => Some(p.as_str()),
            None => None,
        };
        let interactive = commit.header.description_first_line.is_some();
        Some(JjCommand::squash(commit.header.change_id.as_str(), fp, self.global_args.copy(), interactive))
    }

    pub fn jj_edit(&self) -> (r: Option<JjCommand>)
        ensures
            r is Some <==> self.get_selected_change_id_spec(),
            r matches Some(cmd) ==> crate::jj_commands::str_views(cmd.args@) == seq!["edit"@, self.selected_change_id()],
    {
        match self.get_selected_change_id() {
            Some(id) => Some(JjCommand::edit(id.as_str(), self.global_args.copy())),
            None => None,
        }
    }

    pub fn jj_fetch(&self) -> (r: JjCommand)
        ensures
            crate::jj_commands::str_views(r.args@) == seq!["git"@, "fetch"@],
    {
        JjCommand::fetch(self.global_args.copy())
    }

    pub fn jj_push(&self) -> (r: JjCommand)
        ensures
            crate::jj_commands::str_views(r.args@) == seq!["git"@, "push"@],
    {
        JjCommand::push(self.global_args.copy())
    }

    pub fn jj_bookmark_set_master(&self) -> (r: Option<JjCommand>)
        ensures
            r is Some <==> self.get_selected_change_id_spec(),
            r matches Some(cmd) ==> crate::jj_commands::str_views(cmd.args@) == seq!["bookmark"@, "set"@, "master"@, "--revision"@, self.selected_change_id()],
    {
        match self.get_selected_change_id() {
            Some(id) => Some(JjCommand::bookmark_set_master(id.as_str(), self.global_args.copy())),
            None => None,
        }
    }

    /// Takes the outcome of a command: its output, or the tool's diagnostics
    /// when it failed, goes to the panel; success asks for a reload when
    /// `sync_on_success`; a failure to run the tool is returned.
    pub fn handle_jj_command_result(
        &mut self,
        result: Result<String, JjCommandError>,
        sync_on_success: bool,
    ) -> (r: Result<bool, String>)
        ensures
            final(self).same_but_panel(old(self)),
            match result {
                Ok(out) => r == Ok::<bool, String>(sync_on_success) && (final(self).info_list matches Some(v)
                    && v@ == seq![InfoLine::Output(out)]),
                Err(JjCommandError::Failed { stderr }) => r == Ok::<bool, String>(false)
                    && (final(self).info_list matches Some(v) && v@ == seq![InfoLine::Output(stderr)]),
                Err(JjCommandError::Other { err }) => r == Err::<bool, String>(err)
                    && final(self).info_list is None,
            },
            final(self).command_keys@.len() == 0,
            final(self).selected == old(self).selected,
            final(self).offset == old(self).offset,
            final(self).log_list == old(self).log_list,
            final(self).log_list_tree_positions == old(self).log_list_tree_positions,
    {
        self.clear();
        match result {
            Ok(output) => {
                self.info_list = Some(vec![InfoLine::Output(output)]);
                Ok(sync_on_success)
            },
            Err(JjCommandError::Failed { stderr }) => {
                self.info_list = Some(vec![InfoLine::Output(stderr)]);
                Ok(false)
            },
            Err(JjCommandError::Other { err }) => Err(err),
        }
    }

    /// A key press: outside a chord a key with its own action takes it;
    /// `Esc` always clears; any other key goes to the chord dispatcher.
    pub fn handle_key_event(&mut self, key_code: KeyCode, ctrl: bool) -> (r: Option<Message>)
        ensures
            final(self).same_but_panel(old(self)),
            old(self).command_keys@.len() == 0 && crate::command_tree::key_message(key_code, ctrl) is Some
                ==> r == crate::command_tree::key_message(key_code, ctrl)
                && final(self).command_keys@ == old(self).command_keys@,
            !(old(self).command_keys@.len() == 0 && crate::command_tree::key_message(key_code, ctrl) is Some)
                && key_code == KeyCode::Esc ==> r == Some(Message::Clear),
            !(old(self).command_keys@.len() == 0 && crate::command_tree::key_message(key_code, ctrl) is Some)
                && key_code != KeyCode::Esc ==> ({
                let (res, pending) = feed_spec(old(self).command_tree.nodes@, old(self).command_keys@, key_code);
                &&& final(self).command_keys@ == pending
                &&& r == match res {
                    FeedResult::CompleteMatch(m) => Some(m),
                    _ => None,
                }
            }),
            final(self).selected == old(self).selected,
            final(self).offset == old(self).offset,
            final(self).log_list == old(self).log_list,
            final(self).log_list_tree_positions == old(self).log_list_tree_positions,
    {
        if self.command_keys.len() == 0 {
            match crate::command_tree::handle_key(key_code, ctrl) {
                Some(m) => {
                    return Some(m);
                },
                None => {},
            }
        }
        if key_code == KeyCode::Esc {
            return Some(Message::Clear);
        }
        self.handle_command_key(key_code)
    }
}

/// In a viewer whose list is the flattening of its tree, the flat index
/// recorded at a listed address is that item's index: selecting a node by
/// its recorded index selects its own item.
pub proof fn lemma_synced_lookup(m: Model, j: int)
    requires
        m.synced(),
        crate::log_tree::bounded_log(m.jj_log@),
        0 <= j < m.log_list@.len(),
        m.log_list@.len() <= usize::MAX,
    ensures
        flat_idx_at(m.jj_log, m.log_list_tree_positions@[j]@) == Some(j as usize),
{
    crate::log_tree::lemma_flat_index_matches(m.jj_log);
    let items = log_items(m.jj_log@);
    assert(items[j] == zip_items(m.log_list@, m.log_list_tree_positions@)[j]);
}

/// The panel shows the help layout `g`, one row per panel line (when the
/// layout can be counted at all).
pub open spec fn shows_help(v: Seq<InfoLine>, g: GroupsView) -> bool {
    num_rows(g) <= usize::MAX ==> v.len() == num_rows(g) && forall|i: int|
        0 <= i < v.len() ==> (#[trigger] v[i] matches InfoLine::Help(row) && row@.map_values(
            |c: HelpCell| c@,
        ) == help_rows(g)[i])
}

proof fn lemma_help_lines_show(v: Seq<InfoLine>, rows: Seq<Vec<HelpCell>>, g: GroupsView)
    requires
        v.len() == rows.len(),
        forall|i: int| 0 <= i < v.len() ==> (#[trigger] v[i]) == InfoLine::Help(rows[i]),
        num_rows(g) <= usize::MAX ==> rows_view(rows) == help_rows(g),
    ensures
        shows_help(v, g),
{
    if num_rows(g) <= usize::MAX {
        assert(rows_view(rows).len() == rows.len());
        assert(help_rows(g).len() == num_rows(g));
        assert forall|i: int| 0 <= i < v.len() implies (#[trigger] v[i] matches InfoLine::Help(row)
            && row@.map_values(|c: HelpCell| c@) == help_rows(g)[i]) by {
            assert(rows_view(rows)[i] == rows[i]@.map_values(|c: HelpCell| c@));
        };
    }
}

/// Help rows as rows of the information panel.
pub fn help_lines(rows: Vec<Vec<HelpCell>>) -> (r: Vec<InfoLine>)
    ensures
        r@.len() == rows@.len(),
        forall|i: int| 0 <= i < r@.len() ==> (#[trigger] r@[i]) == InfoLine::Help(rows@[i]),
{
    let mut rows = rows;
    let ghost orig = rows@;
    let mut out: Vec<InfoLine> = Vec::new();
    let n = rows.len();
    while rows.len() > 0
        invariant
            rows@.len() + out@.len() == n == orig.len(),
            rows@ == orig.take(rows@.len() as int),
            forall|i: int| 0 <= i < out@.len() ==> (#[trigger] out@[i]) == InfoLine::Help(orig[n - 1 - i]),
        decreases rows@.len(),
    {
        let row = rows.pop().unwrap();
        assert(rows@ =~= orig.take(rows@.len() as int));
        out.push(InfoLine::Help(row));
    }
    let mut r: Vec<InfoLine> = Vec::new();
    while out.len() > 0
        invariant
            out@.len() + r@.len() == n == orig.len(),
            forall|i: int| 0 <= i < out@.len() ==> (#[trigger] out@[i]) == InfoLine::Help(orig[n - 1 - i]),
            forall|i: int| 0 <= i < r@.len() ==> (#[trigger] r@[i]) == InfoLine::Help(orig[i]),
        decreases out@.len(),
    {
        let line = out.pop().unwrap();
        r.push(line);
    }
    r
}

} // verus!
