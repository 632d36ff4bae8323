use vstd::prelude::*;
use crossterm::event::KeyCode as CKey;
use crate::help::{
    entries_view, help_add, help_get, help_groups, help_insert, help_len, help_new, sort_entries,
    GroupsView, HelpEntries,
};
use crate::text::{chars_of, string_from_chars};

verus! {

/// A key as the command dispatcher sees it.
#[derive(Clone, Copy, Debug, PartialEq, Eq, Structural)]
pub enum KeyCode {
    Backspace,
    Enter,
    Left,
    Right,
    Up,
    Down,
    Home,
    End,
    PageUp,
    PageDown,
    Tab,
    BackTab,
    Delete,
    Insert,
    F(u8),
    Char(char),
    Null,
    Esc,
}

/// What the viewer is asked to do.
#[derive(Clone, Copy, Debug, PartialEq, Eq, Structural)]
pub enum Message {
    Quit,
    SelectNextNode,
    SelectPrevNode,
    SelectCurrentWorkingCopy,
    SelectParentNode,
    SelectNextSiblingNode,
    SelectPrevSiblingNode,
    ToggleLogListFold,
    Clear,
    ShowHelp,
    ScrollDown,
    ScrollUp,
    ScrollDownPage,
    ScrollUpPage,
    LeftMouseClick { row: u16, column: u16 },
    RightMouseClick { row: u16, column: u16 },
    Refresh,
    ToggleIgnoreImmutable,
    Show,
    Describe,
    New,
    NewBefore,
    Abandon,
    Undo,
    Commit,
    Squash,
    Edit,
    Fetch,
    Push,
    BookmarkSetMaster,
}

/// The outgoing edges of an inner node of the trie, each a key and the
/// index of the node it leads to.
pub struct CommandTreeNodeChildren {
    pub nodes: Vec<(KeyCode, usize)>,
    pub help: HelpEntries,
}

pub enum CommandTreeNode {
    Children(CommandTreeNodeChildren),
    Action(Message),
}

/// A trie over key sequences, its nodes held in one list; the root is the
/// first node.
pub struct CommandTree {
    pub nodes: Vec<CommandTreeNode>,
}

/// The node reached from node `n` by key `k`: the target of `n`'s first edge
/// labelled `k`.
pub open spec fn edge_target(edges: Seq<(KeyCode, usize)>, k: KeyCode, i: int) -> Option<usize>
    decreases edges.len() - i,
{
    if i < 0 || i >= edges.len() {
        None
    } else if edges[i].0 == k {
        Some(edges[i].1)
    } else {
        edge_target(edges, k, i + 1)
    }
}

pub open spec fn child_of(nodes: Seq<CommandTreeNode>, n: int, k: KeyCode) -> Option<int> {
    if 0 <= n < nodes.len() {
        match nodes[n] {
            CommandTreeNode::Children(c) => match edge_target(c.nodes@, k, 0) {
                Some(t) => if t < nodes.len() { Some(t as int) } else { None },
                None => None,
            },
            CommandTreeNode::Action(_) => None,
        }
    } else {
        None
    }
}

/// The node a key sequence leads to from the root.
pub open spec fn lookup(nodes: Seq<CommandTreeNode>, keys: Seq<KeyCode>) -> Option<int>
    decreases keys.len(),
{
    if keys.len() == 0 {
        if nodes.len() > 0 { Some(0) } else { None }
    } else {
        match lookup(nodes, keys.drop_last()) {
            None => None,
            Some(n) => child_of(nodes, n, keys.last()),
        }
    }
}

/// What one key press resolves to.
#[derive(Clone, Copy, Debug, PartialEq, Eq, Structural)]
pub enum FeedResult {
    /// No command starts with the keys pressed; they are dropped.
    NoMatch,
    /// The keys so far lead to the inner node at this index.
    PartialMatch(usize),
    /// The keys lead to this action; they are dropped.
    CompleteMatch(Message),
}

/// The result of pressing `key` with `pending` keys already pressed, and the
/// keys pending afterwards.
pub open spec fn feed_spec(nodes: Seq<CommandTreeNode>, pending: Seq<KeyCode>, key: KeyCode) -> (
    FeedResult,
    Seq<KeyCode>,
) {
    let keys = pending.push(key);
    match lookup(nodes, keys) {
        None => (FeedResult::NoMatch, Seq::empty()),
        Some(n) => match nodes[n] {
            CommandTreeNode::Children(_) => (FeedResult::PartialMatch(n as usize), keys),
            CommandTreeNode::Action(m) => (FeedResult::CompleteMatch(m), Seq::empty()),
        },
    }
}

fn find_edge(edges: &Vec<(KeyCode, usize)>, k: KeyCode) -> (r: Option<usize>)
    ensures
        r == edge_target(edges@, k, 0),
{
    let mut i: usize = 0;
    while i < edges.len()
        invariant
            i <= edges@.len(),
            edge_target(edges@, k, i as int) == edge_target(edges@, k, 0),
        decreases edges@.len() - i,
    {
        if edges[i].0 == k {
            return Some(edges[i].1);
        }
        i += 1;
    }
    None
}

impl CommandTree {
    /// The node reached from node `n` by key `k`.
    pub fn child(&self, n: usize, k: KeyCode) -> (r: Option<usize>)
        ensures
            r matches Some(t) ==> child_of(self.nodes@, n as int, k) == Some(t as int),
            r is None <==> child_of(self.nodes@, n as int, k) is None,
    {
        if n >= self.nodes.len() {
            return None;
        }
        match &self.nodes[n] {
            CommandTreeNode::Children(c) => match find_edge(&c.nodes, k) {
                Some(t) => if t < self.nodes.len() {
                    Some(t)
                } else {
                    None
                },
                None => None,
            },
            CommandTreeNode::Action(_) => None,
        }
    }

    /// The node a key sequence leads to from the root.
    pub fn get_node(&self, key_codes: &Vec<KeyCode>) -> (r: Option<usize>)
        ensures
            r matches Some(t) ==> lookup(self.nodes@, key_codes@) == Some(t as int),
            r is None <==> lookup(self.nodes@, key_codes@) is None,
    {
        if self.nodes.len() == 0 {
            return None;
        }
        let mut node: usize = 0;
        let mut i: usize = 0;
        assert(key_codes@.take(0) =~= Seq::<KeyCode>::empty());
        while i < key_codes.len()
            invariant
                i <= key_codes@.len(),
                lookup(self.nodes@, key_codes@.take(i as int)) == Some(node as int),
            decreases key_codes@.len() - i,
        {
            assert(key_codes@.take(i + 1).drop_last() =~= key_codes@.take(i as int));
            match self.child(node, key_codes[i]) {
                Some(t) => {
                    node = t;
                },
                None => {
                    proof {
                        lemma_lookup_dead(self.nodes@, key_codes@, i as int + 1);
                    }
                    return None;
                },
            }
            i += 1;
        }
        assert(key_codes@.take(i as int) =~= key_codes@);
        Some(node)
    }

    /// Presses `key` after the `pending` ones: an inner node keeps the keys
    /// pending, an action or a miss clears them.
    pub fn feed(&self, pending: &mut Vec<KeyCode>, key: KeyCode) -> (r: FeedResult)
        ensures
            (r, final(pending)@) == feed_spec(self.nodes@, old(pending)@, key),
    {
        pending.push(key);
        match self.get_node(pending) {
            None => {
                pending.clear();
                FeedResult::NoMatch
            },
            Some(n) => match &self.nodes[n] {
                CommandTreeNode::Children(_) => FeedResult::PartialMatch(n),
                CommandTreeNode::Action(m) => {
                    pending.clear();
                    FeedResult::CompleteMatch(*m)
                },
            },
        }
    }
}

/// Once a prefix leads nowhere, every longer sequence leads nowhere.
proof fn lemma_lookup_dead(nodes: Seq<CommandTreeNode>, keys: Seq<KeyCode>, i: int)
    requires
        0 < i <= keys.len(),
        lookup(nodes, keys.take(i)) is None,
    ensures
        lookup(nodes, keys) is None,
    decreases keys.len() - i,
{
    if i < keys.len() {
        assert(keys.take(i + 1).drop_last() =~= keys.take(i));
        lemma_lookup_dead(nodes, keys, i + 1);
    } else {
        assert(keys.take(i) =~= keys);
    }
}

/// A chord of three keys along a registered path completes on its third key
/// and leaves nothing pending; a second key unknown under the first misses,
/// clears what was pending, and the first key then starts afresh.
pub proof fn lemma_chord(
    nodes: Seq<CommandTreeNode>,
    k1: KeyCode,
    k2: KeyCode,
    k3: KeyCode,
    z: KeyCode,
    m: Message,
)
    requires
        lookup(nodes, seq![k1]) matches Some(n1) && nodes[n1] is Children,
        lookup(nodes, seq![k1, k2]) matches Some(n2) && nodes[n2] is Children,
        lookup(nodes, seq![k1, k2, k3]) matches Some(n3) && nodes[n3] == CommandTreeNode::Action(m),
        lookup(nodes, seq![k1, z]) is None,
    ensures
        ({
            let (r1, pending1) = feed_spec(nodes, Seq::empty(), k1);
            let (r2, pending2) = feed_spec(nodes, pending1, k2);
            let (r3, pending3) = feed_spec(nodes, pending2, k3);
            &&& r1 is PartialMatch
            &&& r2 is PartialMatch
            &&& r3 == FeedResult::CompleteMatch(m)
            &&& pending3.len() == 0
        }),
        ({
            let (r1, pending1) = feed_spec(nodes, Seq::empty(), k1);
            let (rz, pending_z) = feed_spec(nodes, pending1, z);
            &&& rz == FeedResult::NoMatch
            &&& pending_z.len() == 0
            &&& feed_spec(nodes, pending_z, k1) == (r1, pending1)
        }),
{
    assert(Seq::<KeyCode>::empty().push(k1) =~= seq![k1]);
    assert(seq![k1].push(k2) =~= seq![k1, k2]);
    assert(seq![k1, k2].push(k3) =~= seq![k1, k2, k3]);
    assert(seq![k1].push(z) =~= seq![k1, z]);
}

// ---------------------------------------------------------------------------
// Key labels and help.

/// Relies on crossterm's `Display` for `KeyCode`: a character key shows as
/// itself, the space bar as `Space`.
#[verifier::external_body]
pub fn key_label(k: KeyCode) -> (r: String)
    ensures
        k matches KeyCode::Char(c) ==> (c != ' ' ==> r@ == seq![c]) && (c == ' ' ==> r@
            == "Space"@),
{
    let key = match k {
        KeyCode::Char(c) => CKey::Char(c), KeyCode::F(n) => CKey::F(n),
        KeyCode::Backspace => CKey::Backspace, KeyCode::Enter => CKey::Enter,
        KeyCode::Left => CKey::Left, KeyCode::Right => CKey::Right,
        KeyCode::Up => CKey::Up, KeyCode::Down => CKey::Down,
        KeyCode::Home => CKey::Home, KeyCode::End => CKey::End,
        KeyCode::PageUp => CKey::PageUp, KeyCode::PageDown => CKey::PageDown,
        KeyCode::Tab => CKey::Tab, KeyCode::BackTab => CKey::BackTab,
        KeyCode::Delete => CKey::Delete, KeyCode::Insert => CKey::Insert,
        KeyCode::Null => CKey::Null, KeyCode::Esc => CKey::Esc,
    };
    key.to_string()
}

/// Width of a help column, in characters.
pub const COL_WIDTH: usize = 26;

/// One cell of a help row.
pub enum HelpCell {
    /// The one-space margin that starts every row.
    Lead,
    /// A group's name, followed by `padding` spaces.
    Header { text: String, padding: usize },
    /// A key label and what it does, followed by `padding` spaces.
    Entry { key: String, help: String, padding: usize },
    /// A column's worth of spaces below a shorter column.
    Blank,
}

pub enum CellView {
    Lead,
    Header(Seq<char>, nat),
    Entry(Seq<char>, Seq<char>, nat),
    Blank,
}

impl View for HelpCell {
    type V = CellView;

    open spec fn view(&self) -> CellView {
        match self {
            HelpCell::Lead => CellView::Lead,
            HelpCell::Header { text, padding } => CellView::Header(text@, *padding as nat),
            HelpCell::Entry { key, help, padding } => CellView::Entry(key@, help@, *padding as nat),
            HelpCell::Blank => CellView::Blank,
        }
    }
}

/// What is left of the column width once `used` characters are written.
pub open spec fn fill(used: int) -> nat {
    if used >= COL_WIDTH { 0 } else { (COL_WIDTH - used) as nat }
}

/// The cell of row `i` in the column of group `g`: its name, then its
/// entries, then blanks.
pub open spec fn cell_at(g: (Seq<char>, Seq<(Seq<char>, Seq<char>)>), i: int) -> CellView {
    if i == 0 {
        CellView::Header(g.0, fill(g.0.len() as int))
    } else if i - 1 < g.1.len() {
        let (k, h) = g.1[i - 1];
        CellView::Entry(k, h, fill((k.len() + 1 + h.len()) as int))
    } else {
        CellView::Blank
    }
}

/// The number of rows: the tallest column, name included.
pub open spec fn num_rows(gs: GroupsView) -> nat
    decreases gs.len(),
{
    if gs.len() == 0 {
        0
    } else {
        let rest = num_rows(gs.drop_last());
        let h = 1 + gs.last().1.len();
        if rest >= h { rest } else { h as nat }
    }
}

/// The help laid out as rows of cells, groups side by side.
pub open spec fn help_rows(gs: GroupsView) -> Seq<Seq<CellView>> {
    Seq::new(
        num_rows(gs),
        |i: int| seq![CellView::Lead] + Seq::new(gs.len(), |j: int| cell_at(gs[j], i)),
    )
}

pub open spec fn rows_view(rows: Seq<Vec<HelpCell>>) -> Seq<Seq<CellView>> {
    rows.map_values(|r: Vec<HelpCell>| r@.map_values(|c: HelpCell| c@))
}

/// The groups with each group's entries sorted.
pub open spec fn sorted_groups(got: GroupsView, orig: GroupsView) -> bool {
    &&& got.len() == orig.len()
    &&& forall|i: int|
        0 <= i < got.len() ==> (#[trigger] got[i]).0 == orig[i].0 && crate::help::sorted(got[i].1)
            && got[i].1.to_multiset() == orig[i].1.to_multiset()
}

fn copy_string(s: &String) -> (r: String)
    ensures
        r@ == s@,
{
    string_from_chars(chars_of(s.as_str()).as_slice())
}

fn copy_entries(v: &Vec<(String, String)>) -> (r: Vec<(String, String)>)
    ensures
        entries_view(r@) == entries_view(v@),
{
    let mut r: Vec<(String, String)> = Vec::new();
    let mut i: usize = 0;
    while i < v.len()
        invariant
            i <= v@.len(),
            entries_view(r@) == entries_view(v@).take(i as int),
        decreases v@.len() - i,
    {
        let ghost before = r@;
        let a = copy_string(&v[i].0);
        let b = copy_string(&v[i].1);
        r.push((a, b));
        assert(entries_view(r@) =~= entries_view(before).push((v@[i as int].0@, v@[i as int].1@)));
        assert(entries_view(r@) =~= entries_view(v@).take(i + 1));
        i += 1;
    }
    assert(entries_view(v@).take(i as int) =~= entries_view(v@));
    r
}

/// A copy of the help with each group's entries sorted.
pub fn get_help_entries(help: &HelpEntries) -> (r: HelpEntries)
    ensures
        sorted_groups(help_groups(r), help_groups(*help)),
{
    let ghost orig = help_groups(*help);
    let mut out = help_new();
    let n = help_len(help);
    let mut i: usize = 0;
    while i < n
        invariant
            i <= n == orig.len(),
            orig == help_groups(*help),
            help_groups(out).len() == i,
            forall|j: int| 0 <= j < i ==> (#[trigger] help_groups(out)[j]).0 == orig[j].0,
            forall|j: int| 0 <= j < i ==> crate::help::sorted(#[trigger] help_groups(out)[j].1),
            forall|j: int|
                0 <= j < i ==> (#[trigger] help_groups(out)[j]).1.to_multiset()
                    == orig[j].1.to_multiset(),
            forall|j: int, t: int| 0 <= j < t < i ==> (#[trigger] help_groups(out)[j]).0 != (
            #[trigger] help_groups(out)[t]).0,
        decreases n - i,
    {
        match help_get(help, i) {
            Some((k, v)) => {
                let sorted = sort_entries(copy_entries(v));
                let ghost before = help_groups(out);
                proof {
                    crate::help::lemma_group_index(before, k@, 0);
                    assert forall|j: int| 0 <= j < before.len() implies before[j].0 != k@ by {
                        assert(before[j].0 == orig[j].0);
                        assert(j != i);
                    };
                    lemma_group_index_absent(before, k@, 0);
                }
                help_insert(&mut out, copy_string(k), sorted);
            },
            None => {},
        }
        i += 1;
    }
    out
}

proof fn lemma_group_index_absent(g: GroupsView, k: Seq<char>, i: int)
    requires
        0 <= i,
        forall|j: int| 0 <= j < g.len() ==> g[j].0 != k,
    ensures
        crate::help::group_index(g, k, i) == -1,
    decreases g.len() - i,
{
    if i < g.len() {
        lemma_group_index_absent(g, k, i + 1);
    }
}

fn fill_exec(used: usize) -> (r: usize)
    ensures
        r == fill(used as int),
{
    if used >= COL_WIDTH { 0 } else { COL_WIDTH - used }
}

fn cell_exec(name: &String, entries: &Vec<(String, String)>, i: usize) -> (r: HelpCell)
    ensures
        r@ == cell_at((name@, entries_view(entries@)), i as int),
{
    if i == 0 {
        let w = chars_of(name.as_str()).len();
        HelpCell::Header { text: copy_string(name), padding: fill_exec(w) }
    } else if i - 1 < entries.len() {
        let k = &entries[i - 1].0;
        let h = &entries[i - 1].1;
        let kw = chars_of(k.as_str()).len();
        let hw = chars_of(h.as_str()).len();
        let used = if kw >= COL_WIDTH || hw >= COL_WIDTH { COL_WIDTH } else { kw + 1 + hw };
        HelpCell::Entry { key: copy_string(k), help: copy_string(h), padding: fill_exec(used) }
    } else {
        HelpCell::Blank
    }
}

/// Lays the help out as rows: one column per group, its name on top and its
/// entries below, shorter columns filled with blanks. (A layout too tall to
/// count in a `usize` cannot be built and gives no rows.)
pub fn render_help_text(entries: &HelpEntries) -> (r: Vec<Vec<HelpCell>>)
    ensures
        num_rows(help_groups(*entries)) <= usize::MAX ==> rows_view(r@) == help_rows(
            help_groups(*entries),
        ),
{
    let ghost gs = help_groups(*entries);
    let n = help_len(entries);
    let mut rows_n: usize = 0;
    let mut j: usize = 0;
    assert(gs.take(0) =~= Seq::<(Seq<char>, Seq<(Seq<char>, Seq<char>)>)>::empty());
    while j < n
        invariant
            j <= n == gs.len(),
            gs == help_groups(*entries),
            rows_n == num_rows(gs.take(j as int)),
        decreases n - j,
    {
        assert(gs.take(j + 1).drop_last() =~= gs.take(j as int));
        match help_get(entries, j) {
            Some((_, v)) => {
                if v.len() == usize::MAX {
                    proof {
                        lemma_num_rows_grows(gs, j as int + 1);
                    }
                    return Vec::new();
                }
                if v.len() + 1 > rows_n {
                    rows_n = v.len() + 1;
                }
            },
            None => {},
        }
        j += 1;
    }
    assert(gs.take(n as int) =~= gs);
    let mut rows: Vec<Vec<HelpCell>> = Vec::new();
    let mut i: usize = 0;
    while i < rows_n
        invariant
            i <= rows_n == num_rows(gs),
            n == gs.len(),
            gs == help_groups(*entries),
            rows_view(rows@) == help_rows(gs).take(i as int),
        decreases rows_n - i,
    {
        let mut row: Vec<HelpCell> = vec![HelpCell::Lead];
        let mut j: usize = 0;
        while j < n
            invariant
                j <= n == gs.len(),
                gs == help_groups(*entries),
                i < num_rows(gs),
                row@.map_values(|c: HelpCell| c@) == help_rows(gs)[i as int].take(j + 1),
            decreases n - j,
        {
            match help_get(entries, j) {
                Some((name, v)) => {
                    let ghost before = row@;
                    let cell = cell_exec(name, v, i);
                    assert(cell@ == cell_at(gs[j as int], i as int));
                    assert(help_rows(gs)[i as int][j + 1] == cell_at(gs[j as int], i as int));
                    row.push(cell);
                    assert(row@.map_values(|c: HelpCell| c@) =~= before.map_values(|c: HelpCell| c@).push(
                        cell_at(gs[j as int], i as int),
                    ));
                    assert(row@.map_values(|c: HelpCell| c@) =~= help_rows(gs)[i as int].take(j + 2));
                },
                None => {},
            }
            j += 1;
        }
        assert(help_rows(gs)[i as int].take(n + 1) =~= help_rows(gs)[i as int]);
        let ghost before = rows@;
        let ghost rv = row@.map_values(|c: HelpCell| c@);
        rows.push(row);
        assert(rows_view(rows@) =~= rows_view(before).push(rv));
        assert(rows_view(rows@) =~= help_rows(gs).take(i + 1));
        i += 1;
    }
    assert(help_rows(gs).take(i as int) =~= help_rows(gs));
    rows
}

proof fn lemma_num_rows_grows(gs: GroupsView, k: int)
    requires
        0 <= k <= gs.len(),
    ensures
        num_rows(gs.take(k)) <= num_rows(gs),
        k > 0 ==> 1 + gs[k - 1].1.len() <= num_rows(gs),
    decreases gs.len() - k,
{
    if k < gs.len() {
        lemma_num_rows_grows(gs, k + 1);
        assert(gs.take(k + 1).drop_last() =~= gs.take(k));
        if k > 0 {
            assert(gs.take(k + 1)[k - 1] == gs[k - 1]);
        }
    } else {
        assert(gs.take(k) =~= gs);
        if k > 0 {
            assert(gs.drop_last().len() == k - 1);
        }
    }
}

impl CommandTreeNodeChildren {
    pub fn new() -> (r: Self)
        ensures
            r.nodes@.len() == 0,
            help_groups(r.help).len() == 0,
    {
        CommandTreeNodeChildren { nodes: Vec::new(), help: help_new() }
    }

    /// The help rows for this node's keys, entries sorted within each group.
    pub fn get_help(&self) -> (r: Vec<Vec<HelpCell>>)
        ensures
            exists|g: GroupsView|
                #[trigger] sorted_groups(g, help_groups(self.help)) && (num_rows(g) <= usize::MAX ==> rows_view(
                    r@,
                ) == help_rows(g)),
    {
        let entries = get_help_entries(&self.help);
        let r = render_help_text(&entries);
        assert(sorted_groups(help_groups(entries), help_groups(self.help)));
        r
    }
}

pub open spec fn help_added(g: GroupsView, group: Seq<char>, key: Seq<char>, help: Seq<char>) -> GroupsView {
    let i = crate::help::group_index(g, group, 0);
    if i >= 0 {
        g.update(i, (group, g[i].1.push((key, help))))
    } else {
        g.push((group, seq![(key, help)]))
    }
}

/// Whether a key sequence names a new child of an inner node: it is not
/// empty and all but its last key lead to an inner node.
pub open spec fn has_parent_slot(nodes: Seq<CommandTreeNode>, keys: Seq<KeyCode>) -> bool {
    keys.len() > 0 && match lookup(nodes, keys.drop_last()) {
        Some(p) => nodes[p] is Children,
        None => false,
    }
}

/// `after` is the inner node `before` with an edge `k` to node `target`
/// added, and for a character key an entry in its help.
pub open spec fn child_added(
    before: CommandTreeNode,
    after: CommandTreeNode,
    k: KeyCode,
    target: usize,
    group: Seq<char>,
    help: Seq<char>,
) -> bool {
    match (before, after) {
        (CommandTreeNode::Children(c0), CommandTreeNode::Children(c)) => {
            &&& c.nodes@ == c0.nodes@.push((k, target))
            &&& match k {
                KeyCode::Char(ch) => ch != ' ' ==> help_groups(c.help) == help_added(
                    help_groups(c0.help),
                    group,
                    seq![ch],
                    help,
                ),
                _ => true,
            }
        },
        _ => false,
    }
}

impl CommandTree {
    /// Adds `node` below the inner node that `key_codes` without its last key
    /// leads to, on an edge labelled with the last key, and lists it in that
    /// node's help. Returns `false`, changing nothing, when there is no such
    /// inner node.
    pub fn add_child(
        &mut self,
        help_group_text: &str,
        help_text: &str,
        key_codes: &Vec<KeyCode>,
        node: CommandTreeNode,
    ) -> (r: bool)
        ensures
            r == has_parent_slot(old(self).nodes@, key_codes@),
            !r ==> final(self).nodes@ == old(self).nodes@,
            r ==> ({
                let old_nodes = old(self).nodes@;
                let p = lookup(old_nodes, key_codes@.drop_last())->0;
                let n = old_nodes.len();
                &&& final(self).nodes@.len() == n + 1
                &&& final(self).nodes@[n as int] == node
                &&& forall|i: int| 0 <= i < n && i != p ==> final(self).nodes@[i] == old_nodes[i]
                &&& child_added(
                    old_nodes[p],
                    final(self).nodes@[p],
                    key_codes@.last(),
                    n as usize,
                    help_group_text@,
                    help_text@,
                )
            }),
    {
        if key_codes.len() == 0 {
            return false;
        }
        let mut prefix = key_codes.clone();
        let last = prefix.pop().unwrap();
        assert(prefix@ =~= key_codes@.drop_last());
        let p = match self.get_node(&prefix) {
            Some(p) => p,
            None => {
                return false;
            },
        };
        let is_children = match &self.nodes[p] {
            CommandTreeNode::Children(_) => true,
            CommandTreeNode::Action(_) => false,
        };
        if !is_children {
            return false;
        }
        let n = self.nodes.len();
        let label = key_label(last);
        match &mut self.nodes[p] {
            CommandTreeNode::Children(c) => {
                c.nodes.push((last, n));
                help_add(&mut c.help, help_group_text, label, copy_string_str(help_text));
            },
            CommandTreeNode::Action(_) => {},
        }
        self.nodes.push(node);
        true
    }

    /// The viewer's commands: a first key picks a family, a second (and for
    /// bookmarks a third) picks the command. Each inner node lists its keys
    /// in its help under one group.
    pub fn new() -> (r: Self)
        ensures
            r.nodes@.len() > 0,
            r.nodes@[0] is Children,
            forall|k: int| 0 <= k < default_chords().len() ==> #[trigger] chord_registered(
                r.nodes@,
                default_chords()[k],
            ),
            forall|k: int| 0 <= k < default_prefixes().len() ==> #[trigger] prefix_registered(
                r.nodes@,
                default_prefixes()[k],
            ),
            edge_keys(r.nodes@[0]) == seq![KeyCode::Char('a'), KeyCode::Char('b'), KeyCode::Char('c'), KeyCode::Char('d'), KeyCode::Char('e'), KeyCode::Char('g'), KeyCode::Char('n'), KeyCode::Char('s'), KeyCode::Char('u')],
            root_groups(r.nodes@[0]) == default_root_help(),
            forall|k: KeyCode| k != KeyCode::Char('s') ==> lookup(r.nodes@, seq![KeyCode::Char('b'), k]) is None,
    {
        let root_entries = vec![('a', "Abandon change"), ('b', "Bookmark"), ('c', "Commit change"), ('d', "Describe change"), ('e', "Edit change"), ('g', "Git commands"), ('n', "New change"), ('s', "Squash change"), ('u', "Undo operation")];
        let ghost re = root_entries@;
        let n0 = inner_node(vec![(KeyCode::Char('a'), 1), (KeyCode::Char('b'), 3), (KeyCode::Char('c'), 6), (KeyCode::Char('d'), 8), (KeyCode::Char('e'), 10), (KeyCode::Char('g'), 12), (KeyCode::Char('n'), 15), (KeyCode::Char('s'), 18), (KeyCode::Char('u'), 20)], "Commands", root_entries);
        proof {
            assert(re.map_values(|e: (char, &str)| (seq![e.0], e.1@)) =~= seq![(seq!['a'], "Abandon change"@), (seq!['b'], "Bookmark"@), (seq!['c'], "Commit change"@), (seq!['d'], "Describe change"@), (seq!['e'], "Edit change"@), (seq!['g'], "Git commands"@), (seq!['n'], "New change"@), (seq!['s'], "Squash change"@), (seq!['u'], "Undo operation"@)]);
        }
        let n1 = inner_node(
            vec![(KeyCode::Char('a'), 2)],
            "Abandon",
            vec![('a', "Selected change")],
        );
        let n3 = inner_node(
            vec![(KeyCode::Char('s'), 4)],
            "Bookmark",
            vec![('s', "Set")],
        );
        let n4 = inner_node(
            vec![(KeyCode::Char('m'), 5)],
            "Bookmark set",
            vec![('m', "Master for selected change")],
        );
        let n6 = inner_node(
            vec![(KeyCode::Char('c'), 7)],
            "Commit",
            vec![('c', "Selected change")],
        );
        let n8 = inner_node(
            vec![(KeyCode::Char('d'), 9)],
            "Describe",
            vec![('d', "Selected change")],
        );
        let n10 = inner_node(
            vec![(KeyCode::Char('e'), 11)],
            "Edit",
            vec![('e', "Selected change")],
        );
        let n12 = inner_node(
            vec![(KeyCode::Char('f'), 13), (KeyCode::Char('p'), 14)],
            "Git",
            vec![('f', "Fetch"), ('p', "Push")],
        );
        let n15 = inner_node(
            vec![(KeyCode::Char('n'), 16), (KeyCode::Char('b'), 17)],
            "New",
            vec![('n', "After selected change"), ('b', "Before selected change")],
        );
        let n18 = inner_node(
            vec![(KeyCode::Char('s'), 19)],
            "Squash",
            vec![('s', "Selected change into parent")],
        );
        let n20 = inner_node(
            vec![(KeyCode::Char('u'), 21)],
            "Undo",
            vec![('u', "Last operation")],
        );
        let ghost e0 = edges_of(n0);
        let ghost e1 = edges_of(n1);
        let ghost e3 = edges_of(n3);
        let ghost e4 = edges_of(n4);
        let ghost e6 = edges_of(n6);
        let ghost e8 = edges_of(n8);
        let ghost e10 = edges_of(n10);
        let ghost e12 = edges_of(n12);
        let ghost e15 = edges_of(n15);
        let ghost e18 = edges_of(n18);
        let ghost e20 = edges_of(n20);
        let nodes = vec![
            n0,
            n1,
            CommandTreeNode::Action(Message::Abandon),
            n3,
            n4,
            CommandTreeNode::Action(Message::BookmarkSetMaster),
            n6,
            CommandTreeNode::Action(Message::Commit),
            n8,
            CommandTreeNode::Action(Message::Describe),
            n10,
            CommandTreeNode::Action(Message::Edit),
            n12,
            CommandTreeNode::Action(Message::Fetch),
            CommandTreeNode::Action(Message::Push),
            n15,
            CommandTreeNode::Action(Message::New),
            CommandTreeNode::Action(Message::NewBefore),
            n18,
            CommandTreeNode::Action(Message::Squash),
            n20,
            CommandTreeNode::Action(Message::Undo),
        ];
        let r = CommandTree { nodes };
        proof {
            let ns = r.nodes@;
            assert(ns.len() == 22);
            assert(edges_of(ns[0]) == seq![(KeyCode::Char('a'), 1usize), (KeyCode::Char('b'), 3usize), (KeyCode::Char('c'), 6usize), (KeyCode::Char('d'), 8usize), (KeyCode::Char('e'), 10usize), (KeyCode::Char('g'), 12usize), (KeyCode::Char('n'), 15usize), (KeyCode::Char('s'), 18usize), (KeyCode::Char('u'), 20usize)]);
            assert(edges_of(ns[1]) == seq![(KeyCode::Char('a'), 2usize)]);
            assert(ns[2] == CommandTreeNode::Action(Message::Abandon));
            assert(edges_of(ns[3]) == seq![(KeyCode::Char('s'), 4usize)]);
            assert(edges_of(ns[4]) == seq![(KeyCode::Char('m'), 5usize)]);
            assert(ns[5] == CommandTreeNode::Action(Message::BookmarkSetMaster));
            assert(edges_of(ns[6]) == seq![(KeyCode::Char('c'), 7usize)]);
            assert(ns[7] == CommandTreeNode::Action(Message::Commit));
            assert(edges_of(ns[8]) == seq![(KeyCode::Char('d'), 9usize)]);
            assert(ns[9] == CommandTreeNode::Action(Message::Describe));
            assert(edges_of(ns[10]) == seq![(KeyCode::Char('e'), 11usize)]);
            assert(ns[11] == CommandTreeNode::Action(Message::Edit));
            assert(edges_of(ns[12]) == seq![(KeyCode::Char('f'), 13usize), (KeyCode::Char('p'), 14usize)]);
            assert(ns[13] == CommandTreeNode::Action(Message::Fetch));
            assert(ns[14] == CommandTreeNode::Action(Message::Push));
            assert(edges_of(ns[15]) == seq![(KeyCode::Char('n'), 16usize), (KeyCode::Char('b'), 17usize)]);
            assert(ns[16] == CommandTreeNode::Action(Message::New));
            assert(ns[17] == CommandTreeNode::Action(Message::NewBefore));
            assert(edges_of(ns[18]) == seq![(KeyCode::Char('s'), 19usize)]);
            assert(ns[19] == CommandTreeNode::Action(Message::Squash));
            assert(edges_of(ns[20]) == seq![(KeyCode::Char('u'), 21usize)]);
            assert(ns[21] == CommandTreeNode::Action(Message::Undo));
            assert(lookup(ns, Seq::<KeyCode>::empty()) == Some(0int));
            lemma_edge_at(edges_of(ns[0]), KeyCode::Char('a'), 0);
            lemma_lookup_step(ns, seq![], KeyCode::Char('a'), 0, 1);
            assert(seq![].push(KeyCode::Char('a')) =~= seq![KeyCode::Char('a')]);
            lemma_edge_at(edges_of(ns[1]), KeyCode::Char('a'), 0);
            lemma_lookup_step(ns, seq![KeyCode::Char('a')], KeyCode::Char('a'), 1, 2);
            assert(seq![KeyCode::Char('a')].push(KeyCode::Char('a')) =~= seq![KeyCode::Char('a'), KeyCode::Char('a')]);
            lemma_edge_at(edges_of(ns[0]), KeyCode::Char('b'), 1);
            lemma_lookup_step(ns, seq![], KeyCode::Char('b'), 0, 3);
            assert(seq![].push(KeyCode::Char('b')) =~= seq![KeyCode::Char('b')]);
            lemma_edge_at(edges_of(ns[3]), KeyCode::Char('s'), 0);
            lemma_lookup_step(ns, seq![KeyCode::Char('b')], KeyCode::Char('s'), 3, 4);
            assert(seq![KeyCode::Char('b')].push(KeyCode::Char('s')) =~= seq![KeyCode::Char('b'), KeyCode::Char('s')]);
            lemma_edge_at(edges_of(ns[4]), KeyCode::Char('m'), 0);
            lemma_lookup_step(ns, seq![KeyCode::Char('b'), KeyCode::Char('s')], KeyCode::Char('m'), 4, 5);
            assert(seq![KeyCode::Char('b'), KeyCode::Char('s')].push(KeyCode::Char('m')) =~= seq![KeyCode::Char('b'), KeyCode::Char('s'), KeyCode::Char('m')]);
            lemma_edge_at(edges_of(ns[0]), KeyCode::Char('c'), 2);
            lemma_lookup_step(ns, seq![], KeyCode::Char('c'), 0, 6);
            assert(seq![].push(KeyCode::Char('c')) =~= seq![KeyCode::Char('c')]);
            lemma_edge_at(edges_of(ns[6]), KeyCode::Char('c'), 0);
            lemma_lookup_step(ns, seq![KeyCode::Char('c')], KeyCode::Char('c'), 6, 7);
            assert(seq![KeyCode::Char('c')].push(KeyCode::Char('c')) =~= seq![KeyCode::Char('c'), KeyCode::Char('c')]);
            lemma_edge_at(edges_of(ns[0]), KeyCode::Char('d'), 3);
            lemma_lookup_step(ns, seq![], KeyCode::Char('d'), 0, 8);
            assert(seq![].push(KeyCode::Char('d')) =~= seq![KeyCode::Char('d')]);
            lemma_edge_at(edges_of(ns[8]), KeyCode::Char('d'), 0);
            lemma_lookup_step(ns, seq![KeyCode::Char('d')], KeyCode::Char('d'), 8, 9);
            assert(seq![KeyCode::Char('d')].push(KeyCode::Char('d')) =~= seq![KeyCode::Char('d'), KeyCode::Char('d')]);
            lemma_edge_at(edges_of(ns[0]), KeyCode::Char('e'), 4);
            lemma_lookup_step(ns, seq![], KeyCode::Char('e'), 0, 10);
            assert(seq![].push(KeyCode::Char('e')) =~= seq![KeyCode::Char('e')]);
            lemma_edge_at(edges_of(ns[10]), KeyCode::Char('e'), 0);
            lemma_lookup_step(ns, seq![KeyCode::Char('e')], KeyCode::Char('e'), 10, 11);
            assert(seq![KeyCode::Char('e')].push(KeyCode::Char('e')) =~= seq![KeyCode::Char('e'), KeyCode::Char('e')]);
            lemma_edge_at(edges_of(ns[0]), KeyCode::Char('g'), 5);
            lemma_lookup_step(ns, seq![], KeyCode::Char('g'), 0, 12);
            assert(seq![].push(KeyCode::Char('g')) =~= seq![KeyCode::Char('g')]);
            lemma_edge_at(edges_of(ns[12]), KeyCode::Char('f'), 0);
            lemma_lookup_step(ns, seq![KeyCode::Char('g')], KeyCode::Char('f'), 12, 13);
            assert(seq![KeyCode::Char('g')].push(KeyCode::Char('f')) =~= seq![KeyCode::Char('g'), KeyCode::Char('f')]);
            lemma_edge_at(edges_of(ns[12]), KeyCode::Char('p'), 1);
            lemma_lookup_step(ns, seq![KeyCode::Char('g')], KeyCode::Char('p'), 12, 14);
            assert(seq![KeyCode::Char('g')].push(KeyCode::Char('p')) =~= seq![KeyCode::Char('g'), KeyCode::Char('p')]);
            lemma_edge_at(edges_of(ns[0]), KeyCode::Char('n'), 6);
            lemma_lookup_step(ns, seq![], KeyCode::Char('n'), 0, 15);
            assert(seq![].push(KeyCode::Char('n')) =~= seq![KeyCode::Char('n')]);
            lemma_edge_at(edges_of(ns[15]), KeyCode::Char('n'), 0);
            lemma_lookup_step(ns, seq![KeyCode::Char('n')], KeyCode::Char('n'), 15, 16);
            assert(seq![KeyCode::Char('n')].push(KeyCode::Char('n')) =~= seq![KeyCode::Char('n'), KeyCode::Char('n')]);
            lemma_edge_at(edges_of(ns[15]), KeyCode::Char('b'), 1);
            lemma_lookup_step(ns, seq![KeyCode::Char('n')], KeyCode::Char('b'), 15, 17);
            assert(seq![KeyCode::Char('n')].push(KeyCode::Char('b')) =~= seq![KeyCode::Char('n'), KeyCode::Char('b')]);
            lemma_edge_at(edges_of(ns[0]), KeyCode::Char('s'), 7);
            lemma_lookup_step(ns, seq![], KeyCode::Char('s'), 0, 18);
            assert(seq![].push(KeyCode::Char('s')) =~= seq![KeyCode::Char('s')]);
            lemma_edge_at(edges_of(ns[18]), KeyCode::Char('s'), 0);
            lemma_lookup_step(ns, seq![KeyCode::Char('s')], KeyCode::Char('s'), 18, 19);
            assert(seq![KeyCode::Char('s')].push(KeyCode::Char('s')) =~= seq![KeyCode::Char('s'), KeyCode::Char('s')]);
            lemma_edge_at(edges_of(ns[0]), KeyCode::Char('u'), 8);
            lemma_lookup_step(ns, seq![], KeyCode::Char('u'), 0, 20);
            assert(seq![].push(KeyCode::Char('u')) =~= seq![KeyCode::Char('u')]);
            lemma_edge_at(edges_of(ns[20]), KeyCode::Char('u'), 0);
            lemma_lookup_step(ns, seq![KeyCode::Char('u')], KeyCode::Char('u'), 20, 21);
            assert(seq![KeyCode::Char('u')].push(KeyCode::Char('u')) =~= seq![KeyCode::Char('u'), KeyCode::Char('u')]);
            assert forall|k: KeyCode| k != KeyCode::Char('s') implies lookup(ns, seq![KeyCode::Char('b'), k]) is None by {
                lemma_edge_absent(edges_of(ns[3]), k, 0);
                assert(seq![KeyCode::Char('b'), k].drop_last() =~= seq![KeyCode::Char('b')]);
            };
            assert forall|k: int| 0 <= k < default_chords().len() implies #[trigger] chord_registered(
                ns,
                default_chords()[k],
            ) by {};
            assert forall|k: int| 0 <= k < default_prefixes().len() implies #[trigger] prefix_registered(
                ns,
                default_prefixes()[k],
            ) by {};
        }
        r
    }

    /// The help shown for the root: the command families with their entries
    /// sorted, then the navigation and general keys.
    pub fn get_help(&self) -> (r: Vec<Vec<HelpCell>>)
        requires
            self.nodes@.len() > 0,
        ensures
            exists|s: GroupsView|
                #[trigger] sorted_groups(s, root_groups(self.nodes@[0])) && ({
                    let g = inserted(inserted(s, "Navigation"@, navigation_help()), "General"@, general_help());
                    num_rows(g) <= usize::MAX ==> rows_view(r@) == help_rows(g)
                }),
    {
        let mut entries = match &self.nodes[0] {
            CommandTreeNode::Children(c) => get_help_entries(&c.help),
            CommandTreeNode::Action(_) => {
                let e = help_new();
                assert(sorted_groups(help_groups(e), Seq::empty()));
                e
            },
        };
        let ghost sorted = help_groups(entries);
        let nav = pairs(vec![
            ("Enter", "Show diff"),
            ("Tab ", "Toggle folding"),
            ("PgDn", "Move down page"),
            ("PgUp", "Move up page"),
            ("PgUp", "Move up page"),
            ("j/\u{1f80b} ", "Move down"),
            ("k/\u{1f809} ", "Move up"),
            ("l/\u{1f80a} ", "Next sibling"),
            ("h/\u{1f808} ", "Prev sibling"),
            ("K", "Select parent"),
            ("@", "Select @ change"),
        ]);
        let general = pairs(vec![
            ("Ctrl-r", "Refresh log tree"),
            ("Esc", "Clear app state"),
            ("i", "Toggle --ignore-immutable"),
            ("?", "Show help"),
            ("q", "Quit"),
        ]);
        assert(entries_view(nav@) =~= navigation_help());
        assert(entries_view(general@) =~= general_help());
        help_insert(&mut entries, copy_string_str("Navigation"), nav);
        help_insert(&mut entries, copy_string_str("General"), general);
        let r = render_help_text(&entries);
        assert(sorted_groups(sorted, root_groups(self.nodes@[0])));
        r
    }
}

/// The help groups of an inner node; none for an action.
pub open spec fn root_groups(n: CommandTreeNode) -> GroupsView {
    match n {
        CommandTreeNode::Children(c) => help_groups(c.help),
        CommandTreeNode::Action(_) => Seq::empty(),
    }
}

/// The groups after putting `v` under `k`: in place if `k` is there, else last.
pub open spec fn inserted(g: GroupsView, k: Seq<char>, v: Seq<(Seq<char>, Seq<char>)>) -> GroupsView {
    let i = crate::help::group_index(g, k, 0);
    if i >= 0 { g.update(i, (k, v)) } else { g.push((k, v)) }
}

pub open spec fn navigation_help() -> Seq<(Seq<char>, Seq<char>)> {
    seq![
        ("Enter"@, "Show diff"@),
        ("Tab "@, "Toggle folding"@),
        ("PgDn"@, "Move down page"@),
        ("PgUp"@, "Move up page"@),
        ("PgUp"@, "Move up page"@),
        ("j/\u{1f80b} "@, "Move down"@),
        ("k/\u{1f809} "@, "Move up"@),
        ("l/\u{1f80a} "@, "Next sibling"@),
        ("h/\u{1f808} "@, "Prev sibling"@),
        ("K"@, "Select parent"@),
        ("@"@, "Select @ change"@),
    ]
}

pub open spec fn general_help() -> Seq<(Seq<char>, Seq<char>)> {
    seq![
        ("Ctrl-r"@, "Refresh log tree"@),
        ("Esc"@, "Clear app state"@),
        ("i"@, "Toggle --ignore-immutable"@),
        ("?"@, "Show help"@),
        ("q"@, "Quit"@),
    ]
}

fn pairs(v: Vec<(&str, &str)>) -> (r: Vec<(String, String)>)
    ensures
        entries_view(r@) == v@.map_values(|p: (&str, &str)| (p.0@, p.1@)),
{
    let mut r: Vec<(String, String)> = Vec::new();
    let mut i: usize = 0;
    while i < v.len()
        invariant
            i <= v@.len(),
            entries_view(r@) == v@.map_values(|p: (&str, &str)| (p.0@, p.1@)).take(i as int),
        decreases v@.len() - i,
    {
        let ghost before = r@;
        let (a, b) = v[i];
        r.push((copy_string_str(a), copy_string_str(b)));
        assert(entries_view(r@) =~= entries_view(before).push((v@[i as int].0@, v@[i as int].1@)));
        assert(entries_view(r@) =~= v@.map_values(|p: (&str, &str)| (p.0@, p.1@)).take(i + 1));
        i += 1;
    }
    assert(v@.map_values(|p: (&str, &str)| (p.0@, p.1@)).take(i as int) =~= v@.map_values(
        |p: (&str, &str)| (p.0@, p.1@),
    ));
    r
}

fn copy_string_str(s: &str) -> (r: String)
    ensures
        r@ == s@,
{
    string_from_chars(chars_of(s).as_slice())
}

// ---------------------------------------------------------------------------
// Keys that act at once.

/// The action a key takes outside a chord (`ctrl` when Control is held);
/// `None` for keys left to the chord dispatcher.
pub open spec fn key_message(key: KeyCode, ctrl: bool) -> Option<Message> {
    match key {
        KeyCode::Char('q') => Some(Message::Quit),
        KeyCode::Char('c') if ctrl => Some(Message::Quit),
        KeyCode::Down | KeyCode::Char('j') => Some(Message::SelectNextNode),
        KeyCode::Up | KeyCode::Char('k') => Some(Message::SelectPrevNode),
        KeyCode::PageDown => Some(Message::ScrollDownPage),
        KeyCode::PageUp => Some(Message::ScrollUpPage),
        KeyCode::Left | KeyCode::Char('h') => Some(Message::SelectPrevSiblingNode),
        KeyCode::Right | KeyCode::Char('l') => Some(Message::SelectNextSiblingNode),
        KeyCode::Char('K') => Some(Message::SelectParentNode),
        KeyCode::Char('r') if ctrl => Some(Message::Refresh),
        KeyCode::Tab => Some(Message::ToggleLogListFold),
        KeyCode::Enter => Some(Message::Show),
        KeyCode::Esc => Some(Message::Clear),
        KeyCode::Char('@') => Some(Message::SelectCurrentWorkingCopy),
        KeyCode::Char('i') => Some(Message::ToggleIgnoreImmutable),
        KeyCode::Char('?') => Some(Message::ShowHelp),
        _ => None,
    }
}

pub fn handle_key(key: KeyCode, ctrl: bool) -> (r: Option<Message>)
    ensures
        r == key_message(key, ctrl),
{
    match key {
        KeyCode::Char('q') => Some(Message::Quit),
        KeyCode::Char('c') if ctrl => Some(Message::Quit),
        KeyCode::Down | KeyCode::Char('j') => Some(Message::SelectNextNode),
        KeyCode::Up | KeyCode::Char('k') => Some(Message::SelectPrevNode),
        KeyCode::PageDown => Some(Message::ScrollDownPage),
        KeyCode::PageUp => Some(Message::ScrollUpPage),
        KeyCode::Left | KeyCode::Char('h') => Some(Message::SelectPrevSiblingNode),
        KeyCode::Right | KeyCode::Char('l') => Some(Message::SelectNextSiblingNode),
        KeyCode::Char('K') => Some(Message::SelectParentNode),
        KeyCode::Char('r') if ctrl => Some(Message::Refresh),
        KeyCode::Tab => Some(Message::ToggleLogListFold),
        KeyCode::Enter => Some(Message::Show),
        KeyCode::Esc => Some(Message::Clear),
        KeyCode::Char('@') => Some(Message::SelectCurrentWorkingCopy),
        KeyCode::Char('i') => Some(Message::ToggleIgnoreImmutable),
        KeyCode::Char('?') => Some(Message::ShowHelp),
        _ => None,
    }
}


/// The chords of the default command tree and the action each completes.
pub open spec fn default_chords() -> Seq<(Seq<KeyCode>, Message)> {
    seq![
        (seq![KeyCode::Char('a'), KeyCode::Char('a')], Message::Abandon),
        (seq![KeyCode::Char('b'), KeyCode::Char('s'), KeyCode::Char('m')], Message::BookmarkSetMaster),
        (seq![KeyCode::Char('c'), KeyCode::Char('c')], Message::Commit),
        (seq![KeyCode::Char('d'), KeyCode::Char('d')], Message::Describe),
        (seq![KeyCode::Char('e'), KeyCode::Char('e')], Message::Edit),
        (seq![KeyCode::Char('g'), KeyCode::Char('f')], Message::Fetch),
        (seq![KeyCode::Char('g'), KeyCode::Char('p')], Message::Push),
        (seq![KeyCode::Char('n'), KeyCode::Char('n')], Message::New),
        (seq![KeyCode::Char('n'), KeyCode::Char('b')], Message::NewBefore),
        (seq![KeyCode::Char('s'), KeyCode::Char('s')], Message::Squash),
        (seq![KeyCode::Char('u'), KeyCode::Char('u')], Message::Undo),
    ]
}

/// The proper prefixes of the default chords: each leads to an inner node.
pub open spec fn default_prefixes() -> Seq<Seq<KeyCode>> {
    seq![
        seq![KeyCode::Char('a')],
        seq![KeyCode::Char('b')],
        seq![KeyCode::Char('b'), KeyCode::Char('s')],
        seq![KeyCode::Char('c')],
        seq![KeyCode::Char('d')],
        seq![KeyCode::Char('e')],
        seq![KeyCode::Char('g')],
        seq![KeyCode::Char('n')],
        seq![KeyCode::Char('s')],
        seq![KeyCode::Char('u')],
    ]
}

/// The root's help: one group listing the command families.
pub open spec fn default_root_help() -> GroupsView {
    seq![("Commands"@, seq![
        (seq!['a'], "Abandon change"@),
        (seq!['b'], "Bookmark"@),
        (seq!['c'], "Commit change"@),
        (seq!['d'], "Describe change"@),
        (seq!['e'], "Edit change"@),
        (seq!['g'], "Git commands"@),
        (seq!['n'], "New change"@),
        (seq!['s'], "Squash change"@),
        (seq!['u'], "Undo operation"@),
    ])]
}

/// The nodes are those of the default command tree: every chord and
/// prefix is registered, the root's keys and help are the defaults, and
/// under `b` only `s` continues.
pub open spec fn default_tree(nodes: Seq<CommandTreeNode>) -> bool {
    &&& nodes.len() > 0
    &&& nodes[0] is Children
    &&& forall|k: int|
        0 <= k < default_chords().len() ==> #[trigger] chord_registered(nodes, default_chords()[k])
    &&& forall|k: int|
        0 <= k < default_prefixes().len() ==> #[trigger] prefix_registered(nodes, default_prefixes()[k])
    &&& edge_keys(nodes[0]) == seq![
        KeyCode::Char('a'),
        KeyCode::Char('b'),
        KeyCode::Char('c'),
        KeyCode::Char('d'),
        KeyCode::Char('e'),
        KeyCode::Char('g'),
        KeyCode::Char('n'),
        KeyCode::Char('s'),
        KeyCode::Char('u'),
    ]
    &&& root_groups(nodes[0]) == default_root_help()
    &&& forall|k: KeyCode| k != KeyCode::Char('s') ==> lookup(nodes, seq![KeyCode::Char('b'), k]) is None
}

pub open spec fn chord_registered(nodes: Seq<CommandTreeNode>, chord: (Seq<KeyCode>, Message)) -> bool {
    lookup(nodes, chord.0) matches Some(i) && nodes[i] == CommandTreeNode::Action(chord.1)
}

pub open spec fn prefix_registered(nodes: Seq<CommandTreeNode>, keys: Seq<KeyCode>) -> bool {
    lookup(nodes, keys) matches Some(i) && nodes[i] is Children
}

/// The edges of an inner node; none for an action.
pub open spec fn edges_of(n: CommandTreeNode) -> Seq<(KeyCode, usize)> {
    match n {
        CommandTreeNode::Children(c) => c.nodes@,
        CommandTreeNode::Action(_) => Seq::empty(),
    }
}

/// The keys an inner node's edges are labelled with, in order.
pub open spec fn edge_keys(n: CommandTreeNode) -> Seq<KeyCode> {
    edges_of(n).map_values(|e: (KeyCode, usize)| e.0)
}

/// One help group holding the entries, or none if there are no entries.
pub open spec fn one_group(group: Seq<char>, entries: Seq<(char, &str)>) -> GroupsView {
    if entries.len() == 0 {
        Seq::empty()
    } else {
        seq![(group, entries.map_values(|e: (char, &str)| (seq![e.0], e.1@)))]
    }
}

/// An inner node with the given edges, its entries listed under one help
/// group with each key's label.
fn inner_node(edges: Vec<(KeyCode, usize)>, group: &str, entries: Vec<(char, &str)>) -> (r: CommandTreeNode)
    requires
        forall|i: int| 0 <= i < entries@.len() ==> (#[trigger] entries@[i]).0 != ' ',
    ensures
        r is Children,
        edges_of(r) == edges@,
        root_groups(r) == one_group(group@, entries@),
{
    let mut help = help_new();
    let mut i: usize = 0;
    while i < entries.len()
        invariant
            i <= entries@.len(),
            forall|j: int| 0 <= j < entries@.len() ==> (#[trigger] entries@[j]).0 != ' ',
            help_groups(help) == one_group(group@, entries@.take(i as int)),
        decreases entries@.len() - i,
    {
        let (c, h) = entries[i];
        let ghost before = help_groups(help);
        let label = key_label(KeyCode::Char(c));
        assert(label@ == seq![c]);
        if i > 0 {
            assert(crate::help::group_index(before, group@, 0) == 0);
        } else {
            assert(crate::help::group_index(before, group@, 0) == -1);
        }
        help_add(&mut help, group, label, copy_string_str(h));
        let ghost newe = entries@.take(i + 1).map_values(|e: (char, &str)| (seq![e.0], e.1@));
        let ghost olde = entries@.take(i as int).map_values(|e: (char, &str)| (seq![e.0], e.1@));
        assert(newe =~= olde.push((seq![c], h@)));
        if i == 0 {
            assert(olde =~= Seq::<(Seq<char>, Seq<char>)>::empty());
            assert(help_groups(help) =~= seq![(group@, newe)]);
        } else {
            assert(before[0] == (group@, olde));
            assert(help_groups(help) =~= seq![(group@, newe)]);
        }
        assert(one_group(group@, entries@.take(i + 1)) == seq![(group@, newe)]);
        i += 1;
    }
    assert(entries@.take(i as int) =~= entries@);
    CommandTreeNode::Children(CommandTreeNodeChildren { nodes: edges, help })
}

proof fn lemma_edge_from(edges: Seq<(KeyCode, usize)>, k: KeyCode, i: int, j: int)
    requires
        0 <= i <= j < edges.len(),
        edges[j].0 == k,
        forall|t: int| i <= t < j ==> edges[t].0 != k,
    ensures
        edge_target(edges, k, i) == Some(edges[j].1),
    decreases j - i,
{
    if i < j {
        lemma_edge_from(edges, k, i + 1, j);
    }
}

/// The first edge labelled `k` is at `j`.
pub proof fn lemma_edge_at(edges: Seq<(KeyCode, usize)>, k: KeyCode, j: int)
    requires
        0 <= j < edges.len(),
        edges[j].0 == k,
        forall|t: int| 0 <= t < j ==> edges[t].0 != k,
    ensures
        edge_target(edges, k, 0) == Some(edges[j].1),
{
    lemma_edge_from(edges, k, 0, j);
}

/// No edge from `i` on is labelled `k`.
pub proof fn lemma_edge_absent(edges: Seq<(KeyCode, usize)>, k: KeyCode, i: int)
    requires
        0 <= i,
        forall|t: int| i <= t < edges.len() ==> edges[t].0 != k,
    ensures
        edge_target(edges, k, i) is None,
    decreases edges.len() - i,
{
    if i < edges.len() {
        lemma_edge_absent(edges, k, i + 1);
    }
}

/// One more key from a node reached by `ks`.
pub proof fn lemma_lookup_step(nodes: Seq<CommandTreeNode>, ks: Seq<KeyCode>, k: KeyCode, n: int, t: usize)
    requires
        lookup(nodes, ks) == Some(n),
        0 <= n < nodes.len(),
        nodes[n] is Children,
        edge_target(edges_of(nodes[n]), k, 0) == Some(t),
        t < nodes.len(),
    ensures
        lookup(nodes, ks.push(k)) == Some(t as int),
{
    assert(ks.push(k).drop_last() =~= ks);
}

/// In the default tree, `b` `s` `m` completes to setting the master
/// bookmark and leaves nothing pending; `b` followed by any key but `s`
/// misses, clears what was pending, and a fresh `b` then starts over.
pub proof fn lemma_default_bookmark_chord(nodes: Seq<CommandTreeNode>, z: KeyCode)
    requires
        default_tree(nodes),
        z != KeyCode::Char('s'),
    ensures
        ({
            let (r1, pending1) = feed_spec(nodes, Seq::empty(), KeyCode::Char('b'));
            let (r2, pending2) = feed_spec(nodes, pending1, KeyCode::Char('s'));
            let (r3, pending3) = feed_spec(nodes, pending2, KeyCode::Char('m'));
            &&& r1 is PartialMatch
            &&& r2 is PartialMatch
            &&& r3 == FeedResult::CompleteMatch(Message::BookmarkSetMaster)
            &&& pending3.len() == 0
        }),
        ({
            let (r1, pending1) = feed_spec(nodes, Seq::empty(), KeyCode::Char('b'));
            let (rz, pending_z) = feed_spec(nodes, pending1, z);
            &&& rz == FeedResult::NoMatch
            &&& pending_z.len() == 0
            &&& feed_spec(nodes, pending_z, KeyCode::Char('b')) == (r1, pending1)
        }),
{
    assert(prefix_registered(nodes, default_prefixes()[1]));
    assert(prefix_registered(nodes, default_prefixes()[2]));
    assert(chord_registered(nodes, default_chords()[1]));
    lemma_chord(
        nodes,
        KeyCode::Char('b'),
        KeyCode::Char('s'),
        KeyCode::Char('m'),
        z,
        Message::BookmarkSetMaster,
    );
}

} // verus!
