use vstd::prelude::*;

verus! {

/// A path of child indices from the root of the log to one node.
pub type TreePosition = Vec<usize>;

pub const COMMIT_OR_TEXT_IDX: usize = 0;
pub const FILE_DIFF_IDX: usize = 1;
pub const DIFF_HUNK_IDX: usize = 2;
pub const DIFF_HUNK_LINE_IDX: usize = 3;

/// The kind of change a file went through.
#[derive(Clone, Copy, Debug, PartialEq, Eq, Structural)]
pub enum FileDiffStatus {
    Modified,
    Added,
    Deleted,
    Renamed,
    Copied,
}

/// What a change shows: its ids, flags and the two lines of decorated text.
#[derive(Debug)]
pub struct CommitHeader {
    pub change_id: String,
    pub commit_id: String,
    pub current_working_copy: bool,
    pub has_conflict: bool,
    pub empty: bool,
    pub description_first_line: Option<String>,
    pub symbol: String,
    pub line1_graph_chars: String,
    pub line1_graph_chars_part2: String,
    pub line2_graph_chars: String,
    pub pretty_line1: String,
    pub pretty_line2: String,
    pub graph_indent: String,
}

/// One line of a hunk's text.
#[derive(Debug)]
pub struct DiffHunkLine {
    pub pretty_string: String,
    pub graph_indent: String,
    pub flat_log_idx: usize,
}

/// One contiguous region of a file's diff.
#[derive(Debug)]
pub struct DiffHunk {
    pub graph_indent: String,
    pub unfolded: bool,
    pub diff_hunk_lines: Vec<DiffHunkLine>,
    pub red_start: u32,
    pub red_end: u32,
    pub green_start: u32,
    pub green_end: u32,
    pub flat_log_idx: usize,
}

/// One modified path of a change.
#[derive(Debug)]
pub struct FileDiff {
    pub change_id: String,
    pub path: String,
    pub description: String,
    pub status: FileDiffStatus,
    pub graph_indent: String,
    pub unfolded: bool,
    pub loaded: bool,
    pub diff_hunks: Vec<DiffHunk>,
    pub flat_log_idx: usize,
}

/// One history entry.
#[derive(Debug)]
pub struct Commit {
    pub header: CommitHeader,
    pub unfolded: bool,
    pub loaded: bool,
    pub file_diffs: Vec<FileDiff>,
    pub flat_log_idx: usize,
}

/// A line of the log that is not a change.
#[derive(Debug)]
pub struct InfoText {
    pub pretty_string: String,
    pub flat_log_idx: usize,
}

/// A top-level entry of the log.
#[derive(Debug)]
pub enum CommitOrText {
    Commit(Commit),
    InfoText(InfoText),
}

/// The whole log: its top-level entries in the order the log query gave them.
#[derive(Debug)]
pub struct JjLog {
    pub log_tree: Vec<CommitOrText>,
}

// ---------------------------------------------------------------------------
// Views: the tree without the cached flat indices.

pub struct LineView {
    pub pretty_string: Seq<char>,
    pub graph_indent: Seq<char>,
}

pub struct HunkView {
    pub graph_indent: Seq<char>,
    pub unfolded: bool,
    pub lines: Seq<LineView>,
    pub red_start: u32,
    pub red_end: u32,
    pub green_start: u32,
    pub green_end: u32,
}

pub struct FileView {
    pub change_id: Seq<char>,
    pub path: Seq<char>,
    pub description: Seq<char>,
    pub status: FileDiffStatus,
    pub graph_indent: Seq<char>,
    pub unfolded: bool,
    pub loaded: bool,
    pub hunks: Seq<HunkView>,
}

pub struct CommitView {
    pub header: CommitHeader,
    pub unfolded: bool,
    pub loaded: bool,
    pub files: Seq<FileView>,
}

pub enum EntryView {
    Commit(CommitView),
    Info(Seq<char>),
}

impl View for DiffHunkLine {
    type V = LineView;

    open spec fn view(&self) -> LineView {
        LineView { pretty_string: self.pretty_string@, graph_indent: self.graph_indent@ }
    }
}

impl View for DiffHunk {
    type V = HunkView;

    open spec fn view(&self) -> HunkView {
        HunkView {
            graph_indent: self.graph_indent@,
            unfolded: self.unfolded,
            lines: self.diff_hunk_lines@.map_values(|l: DiffHunkLine| l@),
            red_start: self.red_start,
            red_end: self.red_end,
            green_start: self.green_start,
            green_end: self.green_end,
        }
    }
}

impl View for FileDiff {
    type V = FileView;

    open spec fn view(&self) -> FileView {
        FileView {
            change_id: self.change_id@,
            path: self.path@,
            description: self.description@,
            status: self.status,
            graph_indent: self.graph_indent@,
            unfolded: self.unfolded,
            loaded: self.loaded,
            hunks: self.diff_hunks@.map_values(|h: DiffHunk| h@),
        }
    }
}

impl View for Commit {
    type V = CommitView;

    open spec fn view(&self) -> CommitView {
        CommitView {
            header: self.header,
            unfolded: self.unfolded,
            loaded: self.loaded,
            files: self.file_diffs@.map_values(|f: FileDiff| f@),
        }
    }
}

impl View for CommitOrText {
    type V = EntryView;

    open spec fn view(&self) -> EntryView {
        match self {
            CommitOrText::Commit(c) => EntryView::Commit(c@),
            CommitOrText::InfoText(t) => EntryView::Info(t.pretty_string@),
        }
    }
}

impl View for JjLog {
    type V = Seq<EntryView>;

    open spec fn view(&self) -> Seq<EntryView> {
        self.log_tree@.map_values(|e: CommitOrText| e@)
    }
}

// ---------------------------------------------------------------------------
// The flattened projection: each visible node as (address, number of rows).

pub type FlatItems = Seq<(Seq<usize>, usize)>;

/// A change takes two rows when it has a second line of text, else one.
pub open spec fn commit_height(c: CommitView) -> usize {
    if c.header.pretty_line2@.len() == 0 { 1 } else { 2 }
}

pub open spec fn hunk_items(h: HunkView, pos: Seq<usize>) -> FlatItems {
    seq![(pos, 1usize)] + if h.unfolded {
        h.lines.map(|i: int, l: LineView| (pos.push(i as usize), 1usize))
    } else {
        Seq::empty()
    }
}

pub open spec fn hunk_blocks(hs: Seq<HunkView>, pos: Seq<usize>) -> Seq<FlatItems> {
    hs.map(|i: int, h: HunkView| hunk_items(h, pos.push(i as usize)))
}

pub open spec fn file_items(f: FileView, pos: Seq<usize>) -> FlatItems {
    seq![(pos, 1usize)] + if f.unfolded {
        hunk_blocks(f.hunks, pos).flatten()
    } else {
        Seq::empty()
    }
}

pub open spec fn file_blocks(fs: Seq<FileView>, pos: Seq<usize>) -> Seq<FlatItems> {
    fs.map(|i: int, f: FileView| file_items(f, pos.push(i as usize)))
}

pub open spec fn commit_items(c: CommitView, pos: Seq<usize>) -> FlatItems {
    seq![(pos, commit_height(c))] + if c.unfolded {
        file_blocks(c.files, pos).flatten()
    } else {
        Seq::empty()
    }
}

pub open spec fn entry_items(e: EntryView, pos: Seq<usize>) -> FlatItems {
    match e {
        EntryView::Commit(c) => commit_items(c, pos),
        EntryView::Info(_) => seq![(pos, 1usize)],
    }
}

pub open spec fn entry_blocks(es: Seq<EntryView>) -> Seq<FlatItems> {
    es.map(|i: int, e: EntryView| entry_items(e, seq![i as usize]))
}

/// The visible nodes of the log, depth first, in order.
pub open spec fn log_items(es: Seq<EntryView>) -> FlatItems {
    entry_blocks(es).flatten()
}

/// The parallel lists of heights and addresses, read as one list of pairs.
pub open spec fn zip_items(heights: Seq<usize>, positions: Seq<TreePosition>) -> FlatItems {
    Seq::new(heights.len(), |i: int| (positions[i]@, heights[i]))
}

pub open spec fn out_ok(heights: Seq<usize>, positions: Seq<TreePosition>) -> bool {
    heights.len() == positions.len()
}

// ---------------------------------------------------------------------------
// Cached flat indices, as the last flattening left them.

pub open spec fn hunk_idx_ok(h: DiffHunk, s: int) -> bool {
    &&& h.flat_log_idx == s
    &&& h.unfolded ==> forall|i: int|
        0 <= i < h.diff_hunk_lines@.len() ==> #[trigger] h.diff_hunk_lines@[i].flat_log_idx == s + 1 + i
}

pub open spec fn file_idx_ok(f: FileDiff, s: int, pos: Seq<usize>) -> bool {
    &&& f.flat_log_idx == s
    &&& f.unfolded ==> forall|i: int|
        0 <= i < f.diff_hunks@.len() ==> hunk_idx_ok(
            #[trigger] f.diff_hunks@[i],
            s + 1 + hunk_blocks(f@.hunks, pos).take(i).flatten().len(),
        )
}

pub open spec fn commit_idx_ok(c: Commit, s: int, pos: Seq<usize>) -> bool {
    &&& c.flat_log_idx == s
    &&& c.unfolded ==> forall|i: int|
        0 <= i < c.file_diffs@.len() ==> file_idx_ok(
            #[trigger] c.file_diffs@[i],
            s + 1 + file_blocks(c@.files, pos).take(i).flatten().len(),
            pos.push(i as usize),
        )
}

pub open spec fn entry_idx_ok(e: CommitOrText, s: int, pos: Seq<usize>) -> bool {
    match e {
        CommitOrText::Commit(c) => commit_idx_ok(c, s, pos),
        CommitOrText::InfoText(t) => t.flat_log_idx == s,
    }
}

/// Every visible node holds the index at which the flattening emitted it.
pub open spec fn log_idx_ok(log: JjLog) -> bool {
    forall|i: int|
        0 <= i < log.log_tree@.len() ==> entry_idx_ok(
            #[trigger] log.log_tree@[i],
            entry_blocks(log@).take(i).flatten().len() as int,
            seq![i as usize],
        )
}

/// What a flattening leaves alone: below a folded node nothing changes.
pub open spec fn hunk_kept(a: DiffHunk, b: DiffHunk) -> bool {
    !a.unfolded ==> b.diff_hunk_lines == a.diff_hunk_lines
}

pub open spec fn file_kept(a: FileDiff, b: FileDiff) -> bool {
    if !a.unfolded {
        b.diff_hunks == a.diff_hunks
    } else {
        b.diff_hunks@.len() == a.diff_hunks@.len() && forall|k: int|
            0 <= k < a.diff_hunks@.len() ==> hunk_kept(#[trigger] a.diff_hunks@[k], b.diff_hunks@[k])
    }
}

pub open spec fn commit_kept(a: Commit, b: Commit) -> bool {
    if !a.unfolded {
        b.file_diffs == a.file_diffs
    } else {
        b.file_diffs@.len() == a.file_diffs@.len() && forall|k: int|
            0 <= k < a.file_diffs@.len() ==> file_kept(#[trigger] a.file_diffs@[k], b.file_diffs@[k])
    }
}

pub open spec fn entry_kept(a: CommitOrText, b: CommitOrText) -> bool {
    match (a, b) {
        (CommitOrText::Commit(x), CommitOrText::Commit(y)) => commit_kept(x, y),
        _ => true,
    }
}

/// Every node hidden behind a fold is as it was, its cached index included.
pub open spec fn log_kept(a: JjLog, b: JjLog) -> bool {
    b.log_tree@.len() == a.log_tree@.len() && forall|i: int|
        0 <= i < a.log_tree@.len() ==> entry_kept(#[trigger] a.log_tree@[i], b.log_tree@[i])
}

/// Taking one more block of a list of blocks adds that block to the end of
/// the flattening.
pub proof fn lemma_take_flatten_step<A>(s: Seq<Seq<A>>, k: int)
    requires
        0 <= k < s.len(),
    ensures
        s.take(k + 1).flatten() == s.take(k).flatten() + s[k],
{
    assert(s.take(k + 1) =~= s.take(k).push(s[k]));
    s.take(k).lemma_flatten_push(s[k]);
}

/// The address of the `i`-th child of the node at `pos`.
pub fn child_pos(pos: &TreePosition, i: usize) -> (r: TreePosition)
    ensures
        r@ == pos@.push(i),
{
    let mut r = pos.clone();
    r.push(i);
    r
}

impl DiffHunk {
    /// Emits this hunk and, when it is unfolded, its lines.
    pub fn flatten(
        &mut self,
        tree_pos: TreePosition,
        heights: &mut Vec<usize>,
        positions: &mut Vec<TreePosition>,
    )
        requires
            out_ok(old(heights)@, old(positions)@),
        ensures
            out_ok(final(heights)@, final(positions)@),
            zip_items(final(heights)@, final(positions)@) == zip_items(old(heights)@, old(positions)@)
                + hunk_items(old(self)@, tree_pos@),
            final(self)@ == old(self)@,
            hunk_idx_ok(*final(self), old(heights)@.len() as int),
            hunk_kept(*old(self), *final(self)),
    {
        let ghost start = heights@.len() as int;
        let ghost old_zip = zip_items(heights@, positions@);
        let ghost pos = tree_pos@;
        self.flat_log_idx = heights.len();
        heights.push(1);
        positions.push(tree_pos.clone());
        assert(zip_items(heights@, positions@) =~= old_zip.push((pos, 1usize)));
        if !self.unfolded {
            assert(hunk_items(self@, pos) =~= seq![(pos, 1usize)]);
            return;
        }
        let ghost lines = self@.lines;
        let ghost line_items = lines.map(|i: int, l: LineView| (pos.push(i as usize), 1usize));
        let n = self.diff_hunk_lines.len();
        let mut i: usize = 0;
        while i < n
            invariant
                0 <= i <= n == self.diff_hunk_lines@.len(),
                pos == tree_pos@,
                line_items == lines.map(|i: int, l: LineView| (pos.push(i as usize), 1usize)),
                lines == old(self)@.lines,
                line_items.len() == n,
                out_ok(heights@, positions@),
                heights@.len() == start + 1 + i,
                zip_items(heights@, positions@) == old_zip + seq![(pos, 1usize)] + line_items.take(i as int),
                self@ == old(self)@,
                self.unfolded,
                self.flat_log_idx == start,
                forall|j: int| 0 <= j < i ==> #[trigger] self.diff_hunk_lines@[j].flat_log_idx == start + 1 + j,
            decreases n - i,
        {
            let p = child_pos(&tree_pos, i);
            let ghost before = zip_items(heights@, positions@);
            let ghost old_lines = self.diff_hunk_lines@;
            self.diff_hunk_lines[i].flat_log_idx = heights.len();
            heights.push(1);
            positions.push(p);
            assert(positions@.last()@ == pos.push(i));
            assert(zip_items(heights@, positions@) =~= before.push((pos.push(i), 1usize)));
            assert(line_items.take(i + 1) =~= line_items.take(i as int).push((pos.push(i), 1usize)));
            assert(self.diff_hunk_lines@.map_values(|l: DiffHunkLine| l@) =~= old_lines.map_values(
                |l: DiffHunkLine| l@,
            ));
            i += 1;
        }
        assert(line_items.take(n as int) =~= line_items);
    }
}

impl FileDiff {
    /// Emits this file and, when it is unfolded, its hunks.
    pub fn flatten(
        &mut self,
        tree_pos: TreePosition,
        heights: &mut Vec<usize>,
        positions: &mut Vec<TreePosition>,
    )
        requires
            out_ok(old(heights)@, old(positions)@),
        ensures
            out_ok(final(heights)@, final(positions)@),
            zip_items(final(heights)@, final(positions)@) == zip_items(old(heights)@, old(positions)@)
                + file_items(old(self)@, tree_pos@),
            final(self)@ == old(self)@,
            file_idx_ok(*final(self), old(heights)@.len() as int, tree_pos@),
            file_kept(*old(self), *final(self)),
    {
        let ghost start = heights@.len() as int;
        let ghost old_zip = zip_items(heights@, positions@);
        let ghost pos = tree_pos@;
        self.flat_log_idx = heights.len();
        heights.push(1);
        positions.push(tree_pos.clone());
        assert(zip_items(heights@, positions@) =~= old_zip.push((pos, 1usize)));
        if !self.unfolded {
            assert(file_items(self@, pos) =~= seq![(pos, 1usize)]);
            return;
        }
        let ghost blocks = hunk_blocks(self@.hunks, pos);
        let n = self.diff_hunks.len();
        let mut i: usize = 0;
        while i < n
            invariant
                0 <= i <= n == self.diff_hunks@.len(),
                pos == tree_pos@,
                blocks == hunk_blocks(old(self)@.hunks, pos),
                blocks.len() == n,
                out_ok(heights@, positions@),
                heights@.len() == start + 1 + blocks.take(i as int).flatten().len(),
                zip_items(heights@, positions@) == old_zip + seq![(pos, 1usize)] + blocks.take(
                    i as int,
                ).flatten(),
                self@ == old(self)@,
                self.unfolded,
                self.flat_log_idx == start,
                forall|j: int|
                    0 <= j < i ==> hunk_idx_ok(
                        #[trigger] self.diff_hunks@[j],
                        start + 1 + blocks.take(j).flatten().len(),
                    ),
                forall|j: int| 0 <= j < i ==> hunk_kept(#[trigger] old(self).diff_hunks@[j], self.diff_hunks@[j]),
                forall|j: int| i <= j < n ==> #[trigger] self.diff_hunks@[j] == old(self).diff_hunks@[j],
            decreases n - i,
        {
            let p = child_pos(&tree_pos, i);
            let ghost old_hunks = self.diff_hunks@;
            self.diff_hunks[i].flatten(p, heights, positions);
            assert(zip_items(heights@, positions@).len() == heights@.len());
            proof {
                lemma_take_flatten_step(blocks, i as int);
            }
            assert(self.diff_hunks@.map_values(|h: DiffHunk| h@) =~= old_hunks.map_values(
                |h: DiffHunk| h@,
            ));
            i += 1;
        }
        assert(blocks.take(n as int) =~= blocks);
    }
}

impl Commit {
    /// Emits this change and, when it is unfolded, its files.
    pub fn flatten(
        &mut self,
        tree_pos: TreePosition,
        heights: &mut Vec<usize>,
        positions: &mut Vec<TreePosition>,
    )
        requires
            out_ok(old(heights)@, old(positions)@),
        ensures
            out_ok(final(heights)@, final(positions)@),
            zip_items(final(heights)@, final(positions)@) == zip_items(old(heights)@, old(positions)@)
                + commit_items(old(self)@, tree_pos@),
            final(self)@ == old(self)@,
            commit_idx_ok(*final(self), old(heights)@.len() as int, tree_pos@),
            commit_kept(*old(self), *final(self)),
    {
        let ghost start = heights@.len() as int;
        let ghost old_zip = zip_items(heights@, positions@);
        let ghost pos = tree_pos@;
        self.flat_log_idx = heights.len();
        let h = self.height();
        heights.push(h);
        positions.push(tree_pos.clone());
        assert(zip_items(heights@, positions@) =~= old_zip.push((pos, commit_height(self@))));
        if !self.unfolded {
            assert(commit_items(self@, pos) =~= seq![(pos, commit_height(self@))]);
            return;
        }
        let ghost blocks = file_blocks(self@.files, pos);
        let n = self.file_diffs.len();
        let mut i: usize = 0;
        while i < n
            invariant
                0 <= i <= n == self.file_diffs@.len(),
                pos == tree_pos@,
                blocks == file_blocks(old(self)@.files, pos),
                blocks.len() == n,
                out_ok(heights@, positions@),
                heights@.len() == start + 1 + blocks.take(i as int).flatten().len(),
                zip_items(heights@, positions@) == old_zip + seq![(pos, commit_height(old(self)@))]
                    + blocks.take(i as int).flatten(),
                self@ == old(self)@,
                self.unfolded,
                self.flat_log_idx == start,
                forall|j: int|
                    0 <= j < i ==> file_idx_ok(
                        #[trigger] self.file_diffs@[j],
                        start + 1 + blocks.take(j).flatten().len(),
                        pos.push(j as usize),
                    ),
                forall|j: int| 0 <= j < i ==> file_kept(#[trigger] old(self).file_diffs@[j], self.file_diffs@[j]),
                forall|j: int| i <= j < n ==> #[trigger] self.file_diffs@[j] == old(self).file_diffs@[j],
            decreases n - i,
        {
            let p = child_pos(&tree_pos, i);
            let ghost old_files = self.file_diffs@;
            self.file_diffs[i].flatten(p, heights, positions);
            assert(zip_items(heights@, positions@).len() == heights@.len());
            proof {
                lemma_take_flatten_step(blocks, i as int);
            }
            assert(self.file_diffs@.map_values(|f: FileDiff| f@) =~= old_files.map_values(
                |f: FileDiff| f@,
            ));
            i += 1;
        }
        assert(blocks.take(n as int) =~= blocks);
    }

    /// The number of rows this change takes.
    pub fn height(&self) -> (r: usize)
        ensures
            r == commit_height(self@),
    {
        if self.header.pretty_line2.as_str().is_empty() { 1 } else { 2 }
    }
}

impl CommitOrText {
    /// Emits this entry and its visible descendants.
    pub fn flatten(
        &mut self,
        tree_pos: TreePosition,
        heights: &mut Vec<usize>,
        positions: &mut Vec<TreePosition>,
    )
        requires
            out_ok(old(heights)@, old(positions)@),
        ensures
            out_ok(final(heights)@, final(positions)@),
            zip_items(final(heights)@, final(positions)@) == zip_items(old(heights)@, old(positions)@)
                + entry_items(old(self)@, tree_pos@),
            final(self)@ == old(self)@,
            entry_idx_ok(*final(self), old(heights)@.len() as int, tree_pos@),
            entry_kept(*old(self), *final(self)),
    {
        match self {
            CommitOrText::Commit(commit) => commit.flatten(tree_pos, heights, positions),
            CommitOrText::InfoText(info_text) => {
                let ghost old_zip = zip_items(heights@, positions@);
                info_text.flat_log_idx = heights.len();
                heights.push(1);
                let ghost pos = tree_pos@;
                positions.push(tree_pos);
                assert(zip_items(heights@, positions@) =~= old_zip.push((pos, 1usize)));
            },
        }
    }

    /// The index at which the last flattening emitted this entry.
    pub fn flat_log_idx(&self) -> (r: usize)
        ensures
            r == entry_flat_idx(*self),
    {
        match self {
            CommitOrText::Commit(commit) => commit.flat_log_idx,
            CommitOrText::InfoText(info_text) => info_text.flat_log_idx,
        }
    }
}

pub open spec fn entry_flat_idx(e: CommitOrText) -> usize {
    match e {
        CommitOrText::Commit(c) => c.flat_log_idx,
        CommitOrText::InfoText(t) => t.flat_log_idx,
    }
}

/// The output of a flattening: one row count and one address per visible node.
pub struct FlatLog {
    pub heights: Vec<usize>,
    pub tree_positions: Vec<TreePosition>,
}

impl JjLog {
    /// An empty log.
    pub fn new() -> (r: Self)
        ensures
            r@ == Seq::<EntryView>::empty(),
    {
        JjLog { log_tree: Vec::new() }
    }

    /// Projects the visible part of the tree into a list, recording in each
    /// visible node the index at which it was emitted.
    pub fn flatten_log(&mut self) -> (r: FlatLog)
        ensures
            out_ok(r.heights@, r.tree_positions@),
            zip_items(r.heights@, r.tree_positions@) == log_items(old(self)@),
            final(self)@ == old(self)@,
            log_idx_ok(*final(self)),
            log_kept(*old(self), *final(self)),
    {
        let mut heights: Vec<usize> = Vec::new();
        let mut positions: Vec<TreePosition> = Vec::new();
        let ghost blocks = entry_blocks(self@);
        let n = self.log_tree.len();
        let mut i: usize = 0;
        while i < n
            invariant
                0 <= i <= n == self.log_tree@.len(),
                blocks == entry_blocks(old(self)@),
                blocks.len() == n,
                out_ok(heights@, positions@),
                heights@.len() == blocks.take(i as int).flatten().len(),
                zip_items(heights@, positions@) == blocks.take(i as int).flatten(),
                self@ == old(self)@,
                forall|j: int|
                    0 <= j < i ==> entry_idx_ok(
                        #[trigger] self.log_tree@[j],
                        blocks.take(j).flatten().len() as int,
                        seq![j as usize],
                    ),
                forall|j: int| 0 <= j < i ==> entry_kept(#[trigger] old(self).log_tree@[j], self.log_tree@[j]),
                forall|j: int| i <= j < n ==> #[trigger] self.log_tree@[j] == old(self).log_tree@[j],
            decreases n - i,
        {
            let mut p: TreePosition = Vec::new();
            p.push(i);
            let ghost old_entries = self.log_tree@;
            self.log_tree[i].flatten(p, &mut heights, &mut positions);
            proof {
                lemma_take_flatten_step(blocks, i as int);
                assert(seq![i as usize] =~= Seq::<usize>::empty().push(i));
            }
            assert(self.log_tree@.map_values(|e: CommitOrText| e@) =~= old_entries.map_values(
                |e: CommitOrText| e@,
            ));
            i += 1;
        }
        assert(blocks.take(n as int) =~= blocks);
        FlatLog { heights, tree_positions: positions }
    }
}

// ---------------------------------------------------------------------------
// Addresses: what they point at.

/// A node of any of the four levels.
pub enum NodeView {
    Entry(EntryView),
    File(FileView),
    Hunk(HunkView),
    Line(LineView),
}

/// The node at an address, if the address is valid.
pub open spec fn node_at(log: Seq<EntryView>, p: Seq<usize>) -> Option<NodeView> {
    if p.len() == 0 || p[0] >= log.len() {
        None
    } else if p.len() == 1 {
        Some(NodeView::Entry(log[p[0] as int]))
    } else {
        match log[p[0] as int] {
            EntryView::Info(_) => None,
            EntryView::Commit(c) => {
                if p[1] >= c.files.len() {
                    None
                } else if p.len() == 2 {
                    Some(NodeView::File(c.files[p[1] as int]))
                } else {
                    let f = c.files[p[1] as int];
                    if p[2] >= f.hunks.len() {
                        None
                    } else if p.len() == 3 {
                        Some(NodeView::Hunk(f.hunks[p[2] as int]))
                    } else {
                        let h = f.hunks[p[2] as int];
                        if p[3] >= h.lines.len() || p.len() > 4 {
                            None
                        } else {
                            Some(NodeView::Line(h.lines[p[3] as int]))
                        }
                    }
                }
            },
        }
    }
}

pub open spec fn child_count(n: NodeView) -> nat {
    match n {
        NodeView::Entry(EntryView::Commit(c)) => c.files.len(),
        NodeView::Entry(EntryView::Info(_)) => 0,
        NodeView::File(f) => f.hunks.len(),
        NodeView::Hunk(h) => h.lines.len(),
        NodeView::Line(_) => 0,
    }
}

/// The flat index recorded in the node at an address.
pub open spec fn flat_idx_at(log: JjLog, p: Seq<usize>) -> Option<usize> {
    if p.len() == 0 || p[0] >= log.log_tree@.len() {
        None
    } else {
        match log.log_tree@[p[0] as int] {
            CommitOrText::InfoText(t) => if p.len() == 1 { Some(t.flat_log_idx) } else { None },
            CommitOrText::Commit(c) => {
                if p.len() == 1 {
                    Some(c.flat_log_idx)
                } else if p[1] >= c.file_diffs@.len() {
                    None
                } else {
                    let f = c.file_diffs@[p[1] as int];
                    if p.len() == 2 {
                        Some(f.flat_log_idx)
                    } else if p[2] >= f.diff_hunks@.len() {
                        None
                    } else {
                        let h = f.diff_hunks@[p[2] as int];
                        if p.len() == 3 {
                            Some(h.flat_log_idx)
                        } else if p[3] >= h.diff_hunk_lines@.len() || p.len() > 4 {
                            None
                        } else {
                            Some(h.diff_hunk_lines@[p[3] as int].flat_log_idx)
                        }
                    }
                }
            },
        }
    }
}

/// The parent of a valid address that is not top-level is valid, and the
/// address's last index is within its parent's children.
pub proof fn lemma_parent_valid(log: Seq<EntryView>, p: Seq<usize>)
    requires
        node_at(log, p) is Some,
        p.len() >= 2,
    ensures
        node_at(log, p.drop_last()) is Some,
        p.last() < child_count(node_at(log, p.drop_last())->0),
{
    let q = p.drop_last();
    assert(q.len() == p.len() - 1);
    assert(forall|k: int| 0 <= k < q.len() ==> q[k] == p[k]);
}

// ---------------------------------------------------------------------------
// Navigation targets.

/// The address without its last index, unless it is top-level.
pub open spec fn parent_target(p: Seq<usize>) -> Option<Seq<usize>> {
    if p.len() > 1 { Some(p.drop_last()) } else { None }
}

/// The next sibling of the node at `p`, or of its nearest ancestor that has
/// one; top-level entries clamp at the last one.
pub open spec fn next_from(log: Seq<EntryView>, p: Seq<usize>) -> Seq<usize>
    decreases p.len(),
{
    if p.len() <= 1 {
        if p.len() == 0 {
            p
        } else if p[0] + 1 < log.len() {
            seq![(p[0] + 1) as usize]
        } else {
            seq![(log.len() - 1) as usize]
        }
    } else {
        let parent = p.drop_last();
        match node_at(log, parent) {
            Some(n) => if p.last() + 1 < child_count(n) {
                parent.push((p.last() + 1) as usize)
            } else {
                next_from(log, parent)
            },
            None => p,
        }
    }
}

/// The previous sibling of the node at `p`, or of its nearest ancestor that
/// has one; top-level entries clamp at the first one.
pub open spec fn prev_from(p: Seq<usize>) -> Seq<usize>
    decreases p.len(),
{
    if p.len() <= 1 {
        if p.len() == 0 {
            p
        } else if p[0] > 0 {
            seq![(p[0] - 1) as usize]
        } else {
            seq![0usize]
        }
    } else if p.last() > 0 {
        p.drop_last().push((p.last() - 1) as usize)
    } else {
        prev_from(p.drop_last())
    }
}

/// A hunk line has no siblings of its own: navigation starts from its hunk.
pub open spec fn sibling_subject(p: Seq<usize>) -> Seq<usize> {
    if p.len() == DIFF_HUNK_LINE_IDX + 1 { p.drop_last() } else { p }
}

pub open spec fn next_sibling_target(log: Seq<EntryView>, p: Seq<usize>) -> Seq<usize> {
    next_from(log, sibling_subject(p))
}

pub open spec fn prev_sibling_target(p: Seq<usize>) -> Seq<usize> {
    prev_from(sibling_subject(p))
}

/// The address of the parent, or `None` for a top-level address.
pub fn get_parent_tree_position(tree_pos: &TreePosition) -> (r: Option<TreePosition>)
    ensures
        r matches Some(q) ==> parent_target(tree_pos@) == Some(q@),
        r is None <==> parent_target(tree_pos@) is None,
{
    if tree_pos.len() > 1 {
        let mut q = tree_pos.clone();
        q.pop();
        assert(q@ =~= tree_pos@.drop_last());
        Some(q)
    } else {
        None
    }
}

impl JjLog {
    /// The number of children of the node at an address, if it is valid.
    pub fn child_count_at(&self, tree_pos: &TreePosition) -> (r: Option<usize>)
        ensures
            r is Some <==> node_at(self@, tree_pos@) is Some,
            r matches Some(n) ==> n == child_count(node_at(self@, tree_pos@)->0),
    {
        let len = tree_pos.len();
        if len == 0 || tree_pos[0] >= self.log_tree.len() {
            return None;
        }
        let commit = match &self.log_tree[tree_pos[0]] {
            CommitOrText::InfoText(_) => {
                return if len == 1 { Some(0) } else { None };
            },
            CommitOrText::Commit(c) => c,
        };
        if len == 1 {
            return Some(commit.file_diffs.len());
        }
        if tree_pos[1] >= commit.file_diffs.len() {
            return None;
        }
        let file_diff = &commit.file_diffs[tree_pos[1]];
        if len == 2 {
            return Some(file_diff.diff_hunks.len());
        }
        if tree_pos[2] >= file_diff.diff_hunks.len() {
            return None;
        }
        let diff_hunk = &file_diff.diff_hunks[tree_pos[2]];
        if len == 3 {
            return Some(diff_hunk.diff_hunk_lines.len());
        }
        if tree_pos[3] >= diff_hunk.diff_hunk_lines.len() || len > 4 {
            return None;
        }
        Some(0)
    }

    /// The flat index recorded in the node at an address, if it is valid.
    pub fn flat_idx_of(&self, tree_pos: &TreePosition) -> (r: Option<usize>)
        ensures
            r == flat_idx_at(*self, tree_pos@),
    {
        let len = tree_pos.len();
        if len == 0 || tree_pos[0] >= self.log_tree.len() {
            return None;
        }
        let commit = match &self.log_tree[tree_pos[0]] {
            CommitOrText::InfoText(t) => {
                return if len == 1 { Some(t.flat_log_idx) } else { None };
            },
            CommitOrText::Commit(c) => c,
        };
        if len == 1 {
            return Some(commit.flat_log_idx);
        }
        if tree_pos[1] >= commit.file_diffs.len() {
            return None;
        }
        let file_diff = &commit.file_diffs[tree_pos[1]];
        if len == 2 {
            return Some(file_diff.flat_log_idx);
        }
        if tree_pos[2] >= file_diff.diff_hunks.len() {
            return None;
        }
        let diff_hunk = &file_diff.diff_hunks[tree_pos[2]];
        if len == 3 {
            return Some(diff_hunk.flat_log_idx);
        }
        if tree_pos[3] >= diff_hunk.diff_hunk_lines.len() || len > 4 {
            return None;
        }
        Some(diff_hunk.diff_hunk_lines[tree_pos[3]].flat_log_idx)
    }

    /// The address that "next sibling" moves to from a valid address.
    pub fn next_sibling_position(&self, tree_pos: &TreePosition) -> (r: Option<TreePosition>)
        ensures
            r is Some <==> node_at(self@, tree_pos@) is Some,
            r matches Some(q) ==> q@ == next_sibling_target(self@, tree_pos@),
    {
        if self.child_count_at(tree_pos).is_none() {
            return None;
        }
        let mut p = tree_pos.clone();
        if p.len() == DIFF_HUNK_LINE_IDX + 1 {
            proof {
                lemma_parent_valid(self@, p@);
            }
            p.pop();
        }
        assert(p@ =~= sibling_subject(tree_pos@));
        loop
            invariant
                node_at(self@, p@) is Some,
                node_at(self@, tree_pos@) is Some,
                1 <= p@.len() <= 3,
                next_from(self@, p@) == next_sibling_target(self@, tree_pos@),
            decreases p@.len(),
        {
            if p.len() == 1 {
                let i = p[0];
                let n = self.log_tree.len();
                let j = if i + 1 < n { i + 1 } else { n - 1 };
                let r = vec![j];
                assert(r@ =~= next_from(self@, p@));
                return Some(r);
            }
            proof {
                lemma_parent_valid(self@, p@);
            }
            let ghost old_p = p@;
            let last = p.pop().unwrap();
            assert(p@ =~= old_p.drop_last());
            let n = self.child_count_at(&p).unwrap();
            if last + 1 < n {
                p.push(last + 1);
                return Some(p);
            }
        }
    }

    /// The address that "previous sibling" moves to from a valid address.
    pub fn prev_sibling_position(&self, tree_pos: &TreePosition) -> (r: Option<TreePosition>)
        ensures
            r is Some <==> node_at(self@, tree_pos@) is Some,
            r matches Some(q) ==> q@ == prev_sibling_target(tree_pos@),
    {
        if self.child_count_at(tree_pos).is_none() {
            return None;
        }
        let mut p = tree_pos.clone();
        if p.len() == DIFF_HUNK_LINE_IDX + 1 {
            p.pop();
        }
        assert(p@ =~= sibling_subject(tree_pos@));
        loop
            invariant
                1 <= p@.len() <= 4,
                node_at(self@, tree_pos@) is Some,
                prev_from(p@) == prev_sibling_target(tree_pos@),
            decreases p@.len(),
        {
            if p.len() == 1 {
                let i = p[0];
                let j = if i > 0 { i - 1 } else { 0 };
                let r = vec![j];
                assert(r@ =~= prev_from(p@));
                return Some(r);
            }
            let ghost old_p = p@;
            let last = p.pop().unwrap();
            assert(p@ =~= old_p.drop_last());
            if last > 0 {
                p.push(last - 1);
                return Some(p);
            }
        }
    }
}

// ---------------------------------------------------------------------------
// Folding and loading.

/// What must be fetched from the history tool before a fold can open.
#[derive(Debug)]
pub enum LoadRequest {
    FileDiffs { change_id: String, graph_indent: String },
    DiffHunks { change_id: String, path: String, graph_indent: String },
}

/// Children parsed from the history tool's answer to a `LoadRequest`.
#[derive(Debug)]
pub enum LoadedChildren {
    FileDiffs(Vec<FileDiff>),
    DiffHunks(Vec<DiffHunk>),
}

#[derive(Debug, Clone, Copy, PartialEq, Eq, Structural)]
pub enum LogError {
    /// The address names no node.
    InvalidPosition,
    /// The node needs its children loaded and none of its kind were given.
    MissingChildren,
}

/// Loaded children that keep the tree well formed: files come folded with
/// nothing loaded.
pub open spec fn children_wf(ch: Option<LoadedChildren>) -> bool {
    supplied_files(ch) matches Some(fs) ==> forall|i: int| 0 <= i < fs.len() ==> file_wf(#[trigger] fs[i])
}

/// Folding acts on hunks and above: a hunk line folds its hunk.
pub open spec fn fold_subject(p: Seq<usize>) -> Seq<usize> {
    if p.len() > DIFF_HUNK_IDX + 1 { p.take(DIFF_HUNK_IDX + 1) } else { p }
}

/// Whether toggling the node first needs its children fetched: a change
/// when it opens for the first time, a file diff until it is loaded.
pub open spec fn needs_load(n: NodeView) -> bool {
    match n {
        NodeView::Entry(EntryView::Commit(c)) => !c.unfolded && !c.loaded,
        NodeView::File(f) => !f.loaded,
        _ => false,
    }
}

pub open spec fn supplied_files(ch: Option<LoadedChildren>) -> Option<Seq<FileView>> {
    match ch {
        Some(LoadedChildren::FileDiffs(fs)) => Some(fs@.map_values(|f: FileDiff| f@)),
        _ => None,
    }
}

pub open spec fn supplied_hunks(ch: Option<LoadedChildren>) -> Option<Seq<HunkView>> {
    match ch {
        Some(LoadedChildren::DiffHunks(hs)) => Some(hs@.map_values(|h: DiffHunk| h@)),
        _ => None,
    }
}

/// Whether the children given fit what the node needs.
pub open spec fn children_fit(n: NodeView, ch: Option<LoadedChildren>) -> bool {
    needs_load(n) ==> match n {
        NodeView::File(_) => supplied_hunks(ch) is Some,
        _ => supplied_files(ch) is Some,
    }
}

pub open spec fn toggle_commit(c: CommitView, files: Seq<FileView>) -> CommitView {
    if c.unfolded {
        CommitView { unfolded: false, ..c }
    } else if c.loaded {
        CommitView { unfolded: true, ..c }
    } else {
        CommitView { unfolded: true, loaded: true, files: files, ..c }
    }
}

pub open spec fn toggle_file(f: FileView, hunks: Seq<HunkView>) -> FileView {
    if f.loaded {
        FileView { unfolded: !f.unfolded, ..f }
    } else {
        FileView { unfolded: !f.unfolded, loaded: true, hunks: hunks, ..f }
    }
}

pub open spec fn toggle_hunk(h: HunkView) -> HunkView {
    HunkView { unfolded: !h.unfolded, ..h }
}

/// The log after toggling the fold of the node at `p` (of depth one to
/// three), with `files` or `hunks` as the children that a first opening loads.
pub open spec fn toggle_at(
    log: Seq<EntryView>,
    p: Seq<usize>,
    files: Seq<FileView>,
    hunks: Seq<HunkView>,
) -> Seq<EntryView> {
    match log[p[0] as int] {
        EntryView::Info(_) => log,
        EntryView::Commit(c) => if p.len() == 1 {
            log.update(p[0] as int, EntryView::Commit(toggle_commit(c, files)))
        } else {
            let f = c.files[p[1] as int];
            let nf = if p.len() == 2 {
                toggle_file(f, hunks)
            } else {
                FileView { hunks: f.hunks.update(p[2] as int, toggle_hunk(f.hunks[p[2] as int])), ..f }
            };
            log.update(p[0] as int, EntryView::Commit(CommitView { files: c.files.update(p[1] as int, nf), ..c }))
        },
    }
}

impl DiffHunk {
    pub fn toggle_fold(&mut self)
        ensures
            final(self)@ == toggle_hunk(old(self)@),
            final(self).flat_log_idx == old(self).flat_log_idx,
    {
        self.unfolded = !self.unfolded;
    }
}

impl FileDiff {
    /// Toggles the fold; `diff_hunks` become the children unless they were
    /// loaded before.
    pub fn toggle_fold(&mut self, diff_hunks: Vec<DiffHunk>)
        ensures
            final(self)@ == toggle_file(old(self)@, diff_hunks@.map_values(|h: DiffHunk| h@)),
            final(self).flat_log_idx == old(self).flat_log_idx,
    {
        self.unfolded = !self.unfolded;
        if !self.loaded {
            self.diff_hunks = diff_hunks;
            self.loaded = true;
        }
    }
}

impl Commit {
    /// Toggles the fold; `file_diffs` become the children when the change
    /// opens for the first time.
    pub fn toggle_fold(&mut self, file_diffs: Vec<FileDiff>)
        ensures
            final(self)@ == toggle_commit(old(self)@, file_diffs@.map_values(|f: FileDiff| f@)),
            final(self).flat_log_idx == old(self).flat_log_idx,
    {
        self.unfolded = !self.unfolded;
        if !self.unfolded {
            return;
        }
        if !self.loaded {
            self.file_diffs = file_diffs;
            self.loaded = true;
        }
    }
}

impl JjLog {
    /// What toggling the node at an address would need fetched first.
    pub fn pending_load(&self, tree_pos: &TreePosition) -> (r: Option<LoadRequest>)
        ensures
            r is Some <==> (node_at(self@, fold_subject(tree_pos@)) matches Some(n) && needs_load(n)),
            r matches Some(LoadRequest::FileDiffs { change_id, graph_indent }) ==> (node_at(
                self@,
                fold_subject(tree_pos@),
            ) matches Some(NodeView::Entry(EntryView::Commit(c))) && change_id@
                == c.header.change_id@ && graph_indent@ == c.header.graph_indent@),
            r matches Some(LoadRequest::DiffHunks { change_id, path, graph_indent }) ==> (node_at(
                self@,
                fold_subject(tree_pos@),
            ) matches Some(NodeView::File(f)) && change_id@ == f.change_id && path@ == f.path
                && graph_indent@ == f.graph_indent),
    {
        let len = tree_pos.len();
        if len == 0 || tree_pos[0] >= self.log_tree.len() {
            return None;
        }
        let commit = match &self.log_tree[tree_pos[0]] {
            CommitOrText::InfoText(_) => {
                return None;
            },
            CommitOrText::Commit(c) => c,
        };
        if len == 1 {
            if !commit.unfolded && !commit.loaded {
                return Some(
                    LoadRequest::FileDiffs {
                        change_id: commit.header.change_id.clone(),
                        graph_indent: commit.header.graph_indent.clone(),
                    },
                );
            }
            return None;
        }
        if tree_pos[1] >= commit.file_diffs.len() {
            return None;
        }
        let file_diff = &commit.file_diffs[tree_pos[1]];
        if len == 2 {
            if !file_diff.loaded {
                return Some(
                    LoadRequest::DiffHunks {
                        change_id: file_diff.change_id.clone(),
                        path: file_diff.path.clone(),
                        graph_indent: file_diff.graph_indent.clone(),
                    },
                );
            }
            return None;
        }
        None
    }

    /// Toggles the fold of the node at an address (a hunk line folds its
    /// hunk) and returns the node's flat index. A node that needs loading
    /// takes the children given; when none of its kind are given the tree is
    /// left as it was.
    pub fn toggle_fold(&mut self, tree_pos: &TreePosition, children: Option<LoadedChildren>) -> (r:
        Result<usize, LogError>)
        ensures
            ({
                let q = fold_subject(tree_pos@);
                match node_at(old(self)@, q) {
                    None => r == Err::<usize, LogError>(LogError::InvalidPosition) && final(self)@
                        == old(self)@,
                    Some(n) => if !children_fit(n, children) {
                        r == Err::<usize, LogError>(LogError::MissingChildren) && final(self)@
                            == old(self)@
                    } else {
                        &&& r == Ok::<usize, LogError>(flat_idx_at(*old(self), q)->0)
                        &&& final(self)@ == toggle_at(
                            old(self)@,
                            q,
                            supplied_files(children).unwrap_or(Seq::empty()),
                            supplied_hunks(children).unwrap_or(Seq::empty()),
                        )
                    },
                }
            }),
            log_wf(old(self)@) && children_wf(children) ==> log_wf(final(self)@),
    {
        let mut q = tree_pos.clone();
        if q.len() > DIFF_HUNK_IDX + 1 {
            q.truncate(DIFF_HUNK_IDX + 1);
        }
        assert(q@ =~= fold_subject(tree_pos@));
        if self.child_count_at(&q).is_none() {
            return Err(LogError::InvalidPosition);
        }
        let ghost files = supplied_files(children).unwrap_or(Seq::empty());
        let ghost hunks = supplied_hunks(children).unwrap_or(Seq::empty());
        let len = q.len();
        let need = self.pending_load(&q).is_some();
        let (file_diffs, diff_hunks, is_files, is_hunks): (Vec<FileDiff>, Vec<DiffHunk>, bool, bool) =
            match children {
            Some(LoadedChildren::FileDiffs(fs)) => (fs, Vec::new(), true, false),
            Some(LoadedChildren::DiffHunks(hs)) => (Vec::new(), hs, false, true),
            None => (Vec::new(), Vec::new(), false, false),
        };
        assert(file_diffs@.map_values(|f: FileDiff| f@) =~= files);
        assert(diff_hunks@.map_values(|h: DiffHunk| h@) =~= hunks);
        if need && ((len == 1 && !is_files) || (len == 2 && !is_hunks)) {
            return Err(LogError::MissingChildren);
        }
        let entry = &mut self.log_tree[q[0]];
        let r = match entry {
            CommitOrText::InfoText(t) => t.flat_log_idx,
            CommitOrText::Commit(commit) => {
                let ghost c0 = commit@;
                if len == 1 {
                    commit.toggle_fold(file_diffs);
                    commit.flat_log_idx
                } else {
                    let file_diff = &mut commit.file_diffs[q[1]];
                    let ghost f0 = file_diff@;
                    let idx = if len == 2 {
                        file_diff.toggle_fold(diff_hunks);
                        file_diff.flat_log_idx
                    } else {
                        let diff_hunk = &mut file_diff.diff_hunks[q[2]];
                        diff_hunk.toggle_fold();
                        let idx = diff_hunk.flat_log_idx;
                        assert(file_diff.diff_hunks@.map_values(|h: DiffHunk| h@) =~= f0.hunks.update(
                            q[2] as int,
                            toggle_hunk(f0.hunks[q[2] as int]),
                        ));
                        idx
                    };
                    assert(commit.file_diffs@.map_values(|f: FileDiff| f@) =~= c0.files.update(
                        q[1] as int,
                        if len == 2 {
                            toggle_file(f0, hunks)
                        } else {
                            FileView {
                                hunks: f0.hunks.update(q[2] as int, toggle_hunk(f0.hunks[q[2] as int])),
                                ..f0
                            }
                        },
                    ));
                    idx
                }
            },
        };
        assert(self@ =~= toggle_at(old(self)@, q@, files, hunks));
        proof {
            if log_wf(old(self)@) && children_wf(children) {
                lemma_toggle_wf(old(self)@, q@, files, hunks);
            }
        }
        Ok(r)
    }
}

// ---------------------------------------------------------------------------
// Well-formedness and laws.

/// A file diff's hunks exist only once it has been opened.
pub open spec fn file_wf(f: FileView) -> bool {
    !f.loaded ==> !f.unfolded && f.hunks.len() == 0
}

/// A change's files exist only once it has been opened.
pub open spec fn commit_wf(c: CommitView) -> bool {
    &&& !c.loaded ==> !c.unfolded && c.files.len() == 0
    &&& forall|i: int| 0 <= i < c.files.len() ==> file_wf(#[trigger] c.files[i])
}

pub open spec fn log_wf(log: Seq<EntryView>) -> bool {
    forall|i: int|
        0 <= i < log.len() ==> (#[trigger] log[i] matches EntryView::Commit(c) ==> commit_wf(c))
}

/// Toggling the fold of a node twice gives back the same flattened list;
/// the second toggle loads nothing, and a node that needed no loading comes
/// back exactly as it was.
pub proof fn lemma_toggle_twice(
    log: Seq<EntryView>,
    p: Seq<usize>,
    files: Seq<FileView>,
    hunks: Seq<HunkView>,
    files2: Seq<FileView>,
    hunks2: Seq<HunkView>,
)
    requires
        log_wf(log),
        node_at(log, fold_subject(p)) is Some,
    ensures
        ({
            let q = fold_subject(p);
            let once = toggle_at(log, q, files, hunks);
            let twice = toggle_at(once, q, files2, hunks2);
            &&& node_at(once, q) matches Some(n) && !needs_load(n)
            &&& log_items(twice) == log_items(log)
            &&& !needs_load(node_at(log, q)->0) ==> twice == log
        }),
{
    let q = fold_subject(p);
    let once = toggle_at(log, q, files, hunks);
    let twice = toggle_at(once, q, files2, hunks2);
    let i0 = q[0] as int;
    assert(q.len() <= 3);
    match log[i0] {
        EntryView::Info(_) => {},
        EntryView::Commit(c) => {
            assert(commit_wf(c));
            if q.len() == 1 {
                let c1 = toggle_commit(c, files);
                let c2 = toggle_commit(c1, files2);
                assert(once[i0] == EntryView::Commit(c1));
                if !needs_load(node_at(log, q)->0) {
                    assert(c2 == c);
                    assert(twice =~= log);
                } else {
                    assert(commit_items(c2, seq![q[0]]) =~= commit_items(c, seq![q[0]]));
                    assert(entry_blocks(twice) =~= entry_blocks(log));
                }
            } else {
                let i1 = q[1] as int;
                let f = c.files[i1];
                assert(file_wf(f));
                if q.len() == 2 {
                    let f1 = toggle_file(f, hunks);
                    let f2 = toggle_file(f1, hunks2);
                    let c1 = CommitView { files: c.files.update(i1, f1), ..c };
                    assert(once[i0] == EntryView::Commit(c1));
                    assert(c1.files[i1] == f1);
                    let c2 = CommitView { files: c1.files.update(i1, f2), ..c1 };
                    assert(twice[i0] == EntryView::Commit(c2));
                    if !needs_load(node_at(log, q)->0) {
                        assert(f2 == f);
                        assert(c2.files =~= c.files);
                        assert(twice =~= log);
                    } else {
                        let pos = seq![q[0]];
                        assert(file_items(f2, pos.push(q[1])) =~= file_items(f, pos.push(q[1])));
                        assert(file_blocks(c2.files, pos) =~= file_blocks(c.files, pos));
                        assert(commit_items(c2, pos) =~= commit_items(c, pos));
                        assert(entry_blocks(twice) =~= entry_blocks(log));
                    }
                } else {
                    let i2 = q[2] as int;
                    let h = f.hunks[i2];
                    let f1 = FileView { hunks: f.hunks.update(i2, toggle_hunk(h)), ..f };
                    let c1 = CommitView { files: c.files.update(i1, f1), ..c };
                    assert(once[i0] == EntryView::Commit(c1));
                    assert(c1.files[i1] == f1);
                    assert(f1.hunks[i2] == toggle_hunk(h));
                    let f2 = FileView { hunks: f1.hunks.update(i2, toggle_hunk(toggle_hunk(h))), ..f1 };
                    assert(toggle_hunk(toggle_hunk(h)) == h);
                    assert(f2.hunks =~= f.hunks);
                    let c2 = CommitView { files: c1.files.update(i1, f2), ..c1 };
                    assert(c2.files =~= c.files);
                    assert(twice =~= log);
                }
            }
        },
    }
}

/// Applying "next sibling" `k` times.
pub open spec fn next_iter(log: Seq<EntryView>, p: Seq<usize>, k: nat) -> Seq<usize>
    decreases k,
{
    if k == 0 { p } else { next_sibling_target(log, next_iter(log, p, (k - 1) as nat)) }
}

proof fn lemma_next_iter_top(log: Seq<EntryView>, k: nat)
    requires
        k < log.len() <= usize::MAX,
    ensures
        next_iter(log, seq![0usize], k) == seq![k as usize],
    decreases k,
{
    if k > 0 {
        lemma_next_iter_top(log, (k - 1) as nat);
        let p = seq![(k - 1) as usize];
        assert(sibling_subject(p) == p);
        assert(next_from(log, p) =~= seq![k as usize]);
    }
}

/// From the first top-level entry, "next sibling" applied once less than
/// there are entries reaches the last one, and once more stays there.
pub proof fn lemma_sibling_chain(log: Seq<EntryView>)
    requires
        log.len() >= 1,
        log.len() <= usize::MAX,
    ensures
        next_iter(log, seq![0usize], (log.len() - 1) as nat) == seq![(log.len() - 1) as usize],
        next_sibling_target(log, seq![(log.len() - 1) as usize]) == seq![(log.len() - 1) as usize],
{
    let n = log.len();
    lemma_next_iter_top(log, (n - 1) as nat);
    let last = seq![(n - 1) as usize];
    assert(sibling_subject(last) == last);
    assert(next_from(log, last) =~= last);
}

// ---------------------------------------------------------------------------
// Lookups used by the viewer.

/// The index of the first change at or after `i` that is the current
/// checkout, or -1.
pub open spec fn current_index(es: Seq<CommitOrText>, i: int) -> int
    decreases es.len() - i,
{
    if i < 0 || i >= es.len() {
        -1
    } else if es[i] matches CommitOrText::Commit(c) && c.header.current_working_copy {
        i
    } else {
        current_index(es, i + 1)
    }
}

impl JjLog {
    /// The first change that is the current checkout.
    pub fn get_current_commit(&self) -> (r: Option<&Commit>)
        ensures
            r is None <==> current_index(self.log_tree@, 0) == -1,
            r matches Some(c) ==> 0 <= current_index(self.log_tree@, 0) && self.log_tree@[current_index(
                self.log_tree@,
                0,
            )] == CommitOrText::Commit(*c),
    {
        let mut i: usize = 0;
        while i < self.log_tree.len()
            invariant
                i <= self.log_tree@.len(),
                current_index(self.log_tree@, i as int) == current_index(self.log_tree@, 0),
            decreases self.log_tree@.len() - i,
        {
            match &self.log_tree[i] {
                CommitOrText::Commit(c) => {
                    if c.header.current_working_copy {
                        return Some(c);
                    }
                },
                CommitOrText::InfoText(_) => {},
            }
            i += 1;
        }
        None
    }

    /// The change an address lies in, if its top-level entry is a change.
    pub fn get_tree_commit(&self, tree_pos: &TreePosition) -> (r: Option<&Commit>)
        ensures
            r is Some <==> (tree_pos@.len() > 0 && tree_pos@[0] < self.log_tree@.len()
                && self.log_tree@[tree_pos@[0] as int] is Commit),
            r matches Some(c) ==> self.log_tree@[tree_pos@[0] as int] == CommitOrText::Commit(*c),
    {
        if tree_pos.len() == 0 || tree_pos[0] >= self.log_tree.len() {
            return None;
        }
        match &self.log_tree[tree_pos[0]] {
            CommitOrText::InfoText(_) => None,
            CommitOrText::Commit(commit) => Some(commit),
        }
    }

    /// The file diff an address lies in, if it lies in one.
    pub fn get_tree_file_diff(&self, tree_pos: &TreePosition) -> (r: Option<&FileDiff>)
        ensures
            r is Some <==> (tree_pos@.len() > 1 && node_at(self@, tree_pos@.take(2)) is Some),
            r matches Some(f) ==> (self.log_tree@[tree_pos@[0] as int] matches CommitOrText::Commit(c)
                && tree_pos@[1] < c.file_diffs@.len() && c.file_diffs@[tree_pos@[1] as int] == *f),
    {
        if tree_pos.len() <= FILE_DIFF_IDX {
            return None;
        }
        let ghost q = tree_pos@.take(2);
        assert(q[0] == tree_pos@[0] && q[1] == tree_pos@[1] && q.len() == 2);
        let commit = match self.get_tree_commit(tree_pos) {
            Some(c) => c,
            None => {
                return None;
            },
        };
        if tree_pos[1] >= commit.file_diffs.len() {
            return None;
        }
        Some(&commit.file_diffs[tree_pos[1]])
    }
}

/// The number of lines a hunk side spans: `end - start + 1`, or 0 for a
/// side with no numbered line.
pub open spec fn span_len(start: u32, end: u32) -> int {
    if end == 0 { 0 } else { end - start + 1 }
}

impl DiffHunk {
    /// The before side as (first line, number of lines).
    pub fn red_range(&self) -> (r: (u32, i64))
        ensures
            r.0 == self.red_start,
            r.1 == span_len(self.red_start, self.red_end),
    {
        (self.red_start, line_count(self.red_start, self.red_end))
    }

    /// The after side as (first line, number of lines).
    pub fn green_range(&self) -> (r: (u32, i64))
        ensures
            r.0 == self.green_start,
            r.1 == span_len(self.green_start, self.green_end),
    {
        (self.green_start, line_count(self.green_start, self.green_end))
    }
}

pub fn line_count(start: u32, end: u32) -> (r: i64)
    ensures
        r == span_len(start, end),
{
    if end == 0 { 0 } else { end as i64 - start as i64 + 1 }
}

// ---------------------------------------------------------------------------
// Every listed item names its node.

/// The rows a node takes.
pub open spec fn node_height(n: NodeView) -> usize {
    match n {
        NodeView::Entry(EntryView::Commit(c)) => commit_height(c),
        _ => 1,
    }
}

/// The item's address names a node of the tree, and the item has that
/// node's height.
pub open spec fn resolves(log: Seq<EntryView>, item: (Seq<usize>, usize)) -> bool {
    node_at(log, item.0) matches Some(n) && node_height(n) == item.1
}

pub open spec fn all_resolve(log: Seq<EntryView>, items: FlatItems) -> bool {
    forall|j: int| 0 <= j < items.len() ==> resolves(log, #[trigger] items[j])
}

proof fn lemma_flatten_resolve(log: Seq<EntryView>, s: Seq<FlatItems>)
    requires
        forall|k: int| 0 <= k < s.len() ==> all_resolve(log, #[trigger] s[k]),
    ensures
        all_resolve(log, s.flatten()),
    decreases s.len(),
{
    if s.len() > 0 {
        lemma_flatten_resolve(log, s.drop_first());
        assert(all_resolve(log, s[0]));
        let f = s.flatten();
        assert(f == s[0] + s.drop_first().flatten());
        assert forall|j: int| 0 <= j < f.len() implies resolves(log, #[trigger] f[j]) by {
            if j < s[0].len() {
                assert(f[j] == s[0][j]);
            } else {
                assert(f[j] == s.drop_first().flatten()[j - s[0].len()]);
            }
        };
    }
}

/// Every list of children fits in memory: its length is a `usize`.
pub open spec fn bounded_file(f: FileView) -> bool {
    &&& f.hunks.len() <= usize::MAX
    &&& forall|k: int| 0 <= k < f.hunks.len() ==> (#[trigger] f.hunks[k]).lines.len() <= usize::MAX
}

pub open spec fn bounded_commit(c: CommitView) -> bool {
    &&& c.files.len() <= usize::MAX
    &&& forall|k: int| 0 <= k < c.files.len() ==> bounded_file(#[trigger] c.files[k])
}

pub open spec fn bounded_log(log: Seq<EntryView>) -> bool {
    &&& log.len() <= usize::MAX
    &&& forall|k: int| 0 <= k < log.len() ==> (#[trigger] log[k] matches EntryView::Commit(c) ==> bounded_commit(c))
}

proof fn lemma_hunk_resolve(log: Seq<EntryView>, pos: Seq<usize>, h: HunkView)
    requires
        pos.len() == 3,
        h.lines.len() <= usize::MAX,
        node_at(log, pos) == Some(NodeView::Hunk(h)),
    ensures
        all_resolve(log, hunk_items(h, pos)),
{
    let items = hunk_items(h, pos);
    assert forall|j: int| 0 <= j < items.len() implies resolves(log, #[trigger] items[j]) by {
        if j > 0 && h.unfolded {
            let i = j - 1;
            let q = pos.push(i as usize);
            assert(items[j] == (q, 1usize));
            assert(q[0] == pos[0] && q[1] == pos[1] && q[2] == pos[2] && q[3] == i);
            assert(node_at(log, q) == Some(NodeView::Line(h.lines[i])));
        }
    };
}

proof fn lemma_file_resolve(log: Seq<EntryView>, pos: Seq<usize>, f: FileView)
    requires
        pos.len() == 2,
        bounded_file(f),
        node_at(log, pos) == Some(NodeView::File(f)),
    ensures
        all_resolve(log, file_items(f, pos)),
{
    let blocks = hunk_blocks(f.hunks, pos);
    assert forall|k: int| 0 <= k < blocks.len() implies all_resolve(log, #[trigger] blocks[k]) by {
        let q = pos.push(k as usize);
        assert(q[0] == pos[0] && q[1] == pos[1] && q[2] == k);
        assert(node_at(log, q) == Some(NodeView::Hunk(f.hunks[k])));
        assert(f.hunks[k].lines.len() <= usize::MAX);
        lemma_hunk_resolve(log, q, f.hunks[k]);
    };
    lemma_flatten_resolve(log, blocks);
    let items = file_items(f, pos);
    assert forall|j: int| 0 <= j < items.len() implies resolves(log, #[trigger] items[j]) by {
        if j > 0 {
            assert(items[j] == blocks.flatten()[j - 1]);
        }
    };
}

proof fn lemma_commit_resolve(log: Seq<EntryView>, pos: Seq<usize>, c: CommitView)
    requires
        pos.len() == 1,
        bounded_commit(c),
        node_at(log, pos) == Some(NodeView::Entry(EntryView::Commit(c))),
    ensures
        all_resolve(log, commit_items(c, pos)),
{
    let blocks = file_blocks(c.files, pos);
    assert forall|k: int| 0 <= k < blocks.len() implies all_resolve(log, #[trigger] blocks[k]) by {
        let q = pos.push(k as usize);
        assert(q[0] == pos[0] && q[1] == k);
        assert(node_at(log, q) == Some(NodeView::File(c.files[k])));
        assert(bounded_file(c.files[k]));
        lemma_file_resolve(log, q, c.files[k]);
    };
    lemma_flatten_resolve(log, blocks);
    let items = commit_items(c, pos);
    assert forall|j: int| 0 <= j < items.len() implies resolves(log, #[trigger] items[j]) by {
        if j > 0 {
            assert(items[j] == blocks.flatten()[j - 1]);
        }
    };
}

/// Every item of the flattened list has, at its address, a node of the
/// tree, and takes as many rows as that node.
pub proof fn lemma_flatten_invariant(log: Seq<EntryView>)
    requires
        bounded_log(log),
    ensures
        all_resolve(log, log_items(log)),
{
    let blocks = entry_blocks(log);
    assert forall|k: int| 0 <= k < blocks.len() implies all_resolve(log, #[trigger] blocks[k]) by {
        let q = seq![k as usize];
        assert(node_at(log, q) == Some(NodeView::Entry(log[k])));
        match log[k] {
            EntryView::Commit(c) => {
                assert(bounded_commit(c));
                lemma_commit_resolve(log, q, c);
            },
            EntryView::Info(_) => {},
        }
    };
    lemma_flatten_resolve(log, blocks);
}

// ---------------------------------------------------------------------------
// The cached flat indices are the items' indices.

/// Where item `j` of a flattening lies: in block `k`, at `t`, after the
/// items of the blocks before it.
pub proof fn lemma_flatten_locate<A>(s: Seq<Seq<A>>, j: int) -> (r: (int, int))
    requires
        0 <= j < s.flatten().len(),
    ensures
        0 <= r.0 < s.len(),
        0 <= r.1 < s[r.0].len(),
        j == s.take(r.0).flatten().len() + r.1,
        s.flatten()[j] == s[r.0][r.1],
    decreases s.len(),
{
    assert(s.len() > 0);
    assert(s.flatten() == s[0] + s.drop_first().flatten());
    if j < s[0].len() {
        assert(s.take(0) =~= Seq::<Seq<A>>::empty());
        (0, j)
    } else {
        let rest = s.drop_first();
        let (k, t) = lemma_flatten_locate(rest, j - s[0].len());
        assert(s.take(k + 1) =~= seq![s[0]] + rest.take(k));
        assert((seq![s[0]] + rest.take(k)).drop_first() =~= rest.take(k));
        assert(s.take(k + 1).flatten() == s[0] + rest.take(k).flatten());
        (k + 1, t)
    }
}

pub open spec fn idx_matches(log: JjLog, items: FlatItems, s: int) -> bool {
    forall|j: int| 0 <= j < items.len() ==> flat_idx_at(log, (#[trigger] items[j]).0) == Some((s + j) as usize)
}

proof fn lemma_hunk_idx(log: JjLog, pos: Seq<usize>, h: DiffHunk, s: int)
    requires
        pos.len() == 3,
        pos[0] < log.log_tree@.len(),
        log.log_tree@[pos[0] as int] matches CommitOrText::Commit(c) && pos[1] < c.file_diffs@.len()
            && pos[2] < c.file_diffs@[pos[1] as int].diff_hunks@.len()
            && c.file_diffs@[pos[1] as int].diff_hunks@[pos[2] as int] == h,
        hunk_idx_ok(h, s),
        h@.lines.len() <= usize::MAX,
        0 <= s,
        s + hunk_items(h@, pos).len() <= usize::MAX + 1,
    ensures
        idx_matches(log, hunk_items(h@, pos), s),
{
    let items = hunk_items(h@, pos);
    assert forall|j: int| 0 <= j < items.len() implies flat_idx_at(log, (#[trigger] items[j]).0) == Some(
        (s + j) as usize,
    ) by {
        if j > 0 {
            let i = j - 1;
            let q = pos.push(i as usize);
            assert(items[j] == (q, 1usize));
            assert(q[0] == pos[0] && q[1] == pos[1] && q[2] == pos[2] && q[3] == i);
            assert(h.diff_hunk_lines@[i].flat_log_idx == s + 1 + i);
        }
    };
}

proof fn lemma_file_idx(log: JjLog, pos: Seq<usize>, f: FileDiff, s: int)
    requires
        pos.len() == 2,
        pos[0] < log.log_tree@.len(),
        log.log_tree@[pos[0] as int] matches CommitOrText::Commit(c) && pos[1] < c.file_diffs@.len()
            && c.file_diffs@[pos[1] as int] == f,
        file_idx_ok(f, s, pos),
        bounded_file(f@),
        0 <= s,
        s + file_items(f@, pos).len() <= usize::MAX + 1,
    ensures
        idx_matches(log, file_items(f@, pos), s),
{
    let blocks = hunk_blocks(f@.hunks, pos);
    let items = file_items(f@, pos);
    assert forall|j: int| 0 <= j < items.len() implies flat_idx_at(log, (#[trigger] items[j]).0) == Some(
        (s + j) as usize,
    ) by {
        if j > 0 {
            assert(f.unfolded);
            let (k, t) = lemma_flatten_locate(blocks, j - 1);
            assert(items[j] == blocks.flatten()[j - 1]);
            let q = pos.push(k as usize);
            assert(q[0] == pos[0] && q[1] == pos[1] && q[2] == k);
            let h = f.diff_hunks@[k];
            let start = s + 1 + blocks.take(k).flatten().len();
            assert(hunk_idx_ok(h, start));
            assert(blocks[k] == hunk_items(h@, q));
            lemma_flatten_prefix_len(blocks, k);
            lemma_hunk_idx(log, q, h, start);
            assert(blocks[k][t] == hunk_items(h@, q)[t]);
        }
    };
}

proof fn lemma_commit_idx(log: JjLog, pos: Seq<usize>, c: Commit, s: int)
    requires
        pos.len() == 1,
        pos[0] < log.log_tree@.len(),
        log.log_tree@[pos[0] as int] == CommitOrText::Commit(c),
        commit_idx_ok(c, s, pos),
        bounded_commit(c@),
        0 <= s,
        s + commit_items(c@, pos).len() <= usize::MAX + 1,
    ensures
        idx_matches(log, commit_items(c@, pos), s),
{
    let blocks = file_blocks(c@.files, pos);
    let items = commit_items(c@, pos);
    assert forall|j: int| 0 <= j < items.len() implies flat_idx_at(log, (#[trigger] items[j]).0) == Some(
        (s + j) as usize,
    ) by {
        if j > 0 {
            assert(c.unfolded);
            let (k, t) = lemma_flatten_locate(blocks, j - 1);
            assert(items[j] == blocks.flatten()[j - 1]);
            let q = pos.push(k as usize);
            assert(q[0] == pos[0] && q[1] == k);
            let f = c.file_diffs@[k];
            let start = s + 1 + blocks.take(k).flatten().len();
            assert(file_idx_ok(f, start, q));
            assert(blocks[k] == file_items(f@, q));
            assert(bounded_file(c@.files[k]));
            lemma_flatten_prefix_len(blocks, k);
            lemma_file_idx(log, q, f, start);
            assert(blocks[k][t] == file_items(f@, q)[t]);
        }
    };
}

/// The blocks before `k`, and block `k`, fit within the whole flattening.
proof fn lemma_flatten_prefix_len<A>(s: Seq<Seq<A>>, k: int)
    requires
        0 <= k < s.len(),
    ensures
        s.take(k).flatten().len() + s[k].len() <= s.flatten().len(),
    decreases s.len() - k,
{
    lemma_take_flatten_step(s, k);
    if k + 1 < s.len() {
        lemma_flatten_prefix_len(s, k + 1);
        lemma_take_flatten_step(s, k + 1);
    } else {
        assert(s.take(k + 1) =~= s);
    }
}

/// After a flattening, the node at each listed address holds that item's
/// index in the list.
pub proof fn lemma_flat_index_matches(log: JjLog)
    requires
        log_idx_ok(log),
        bounded_log(log@),
        log_items(log@).len() <= usize::MAX + 1,
    ensures
        idx_matches(log, log_items(log@), 0),
{
    let blocks = entry_blocks(log@);
    let items = log_items(log@);
    assert forall|j: int| 0 <= j < items.len() implies flat_idx_at(log, (#[trigger] items[j]).0) == Some(
        j as usize,
    ) by {
        let (k, t) = lemma_flatten_locate(blocks, j);
        let q = seq![k as usize];
        let e = log.log_tree@[k];
        let start = blocks.take(k).flatten().len() as int;
        assert(entry_idx_ok(e, start, q));
        assert(blocks[k] == entry_items(e@, q));
        lemma_flatten_prefix_len(blocks, k);
        match e {
            CommitOrText::Commit(c) => {
                assert(log@[k] == EntryView::Commit(c@));
                assert(bounded_commit(c@));
                lemma_commit_idx(log, q, c, start);
                assert(blocks[k][t] == commit_items(c@, q)[t]);
            },
            CommitOrText::InfoText(_) => {},
        }
    };
}

/// Toggling keeps the tree well formed when the children it loads are.
pub proof fn lemma_toggle_wf(log: Seq<EntryView>, q: Seq<usize>, files: Seq<FileView>, hunks: Seq<HunkView>)
    requires
        log_wf(log),
        node_at(log, q) is Some,
        1 <= q.len() <= 3,
        forall|i: int| 0 <= i < files.len() ==> file_wf(#[trigger] files[i]),
    ensures
        log_wf(toggle_at(log, q, files, hunks)),
{
    let t = toggle_at(log, q, files, hunks);
    let i0 = q[0] as int;
    match log[i0] {
        EntryView::Info(_) => {},
        EntryView::Commit(c) => {
            assert(commit_wf(c));
            if q.len() == 1 {
                let c1 = toggle_commit(c, files);
                assert(commit_wf(c1));
                assert forall|i: int| 0 <= i < t.len() implies (#[trigger] t[i] matches EntryView::Commit(
                    x,
                ) ==> commit_wf(x)) by {
                    if i != i0 {
                        assert(t[i] == log[i]);
                    }
                };
            } else {
                let i1 = q[1] as int;
                let f = c.files[i1];
                assert(file_wf(f));
                let nf = if q.len() == 2 {
                    toggle_file(f, hunks)
                } else {
                    FileView { hunks: f.hunks.update(q[2] as int, toggle_hunk(f.hunks[q[2] as int])), ..f }
                };
                assert(file_wf(nf));
                let c1 = CommitView { files: c.files.update(i1, nf), ..c };
                assert forall|k: int| 0 <= k < c1.files.len() implies file_wf(#[trigger] c1.files[k]) by {
                    if k != i1 {
                        assert(c1.files[k] == c.files[k]);
                    }
                };
                assert(commit_wf(c1));
                assert forall|i: int| 0 <= i < t.len() implies (#[trigger] t[i] matches EntryView::Commit(
                    x,
                ) ==> commit_wf(x)) by {
                    if i != i0 {
                        assert(t[i] == log[i]);
                    }
                };
            }
        },
    }
}

} // verus!
