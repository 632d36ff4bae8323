use vstd::prelude::*;
use crate::log_tree::{
    Commit, CommitHeader, CommitOrText, CommitView, DiffHunk, DiffHunkLine, EntryView, FileDiff,
    FileDiffStatus, FileView, HunkView, InfoText, JjLog, LineView,
};
use crate::text::{
    chars_of, find_char, find_char_exec, is_digit, is_ws, lemma_find_char_bounds,
    lemma_skip_digits_bounds, lemma_skip_ws_bounds, skip_digits, skip_digits_exec,
    lines_of, lines_spec, skip_ws, skip_ws_exec, slice_chars, string_from_chars, views,
    strip_ansi, strip_ansi_chars, strip_spec, trim_chars, trim_spec,
};

verus! {

/// Why the history tool's answer could not be read.
#[derive(Debug, Clone, PartialEq, Eq)]
pub enum ParseError {
    /// A file line is not a status letter, whitespace and a path.
    FileDiffLine(String),
    /// A renamed or copied path lacks the `{old => new}` part.
    RenamedPath(String),
    /// A hunk line does not start with its line numbers and a colon.
    HunkLine(String),
    /// A line number does not fit in 32 bits.
    LineNumber(String),
    /// A change's header lines do not have the expected fields.
    CommitHeader(String),
}

// ---------------------------------------------------------------------------
// File lines: a status letter, whitespace, and a description.

pub open spec fn status_of(c: char) -> Option<FileDiffStatus> {
    if c == 'M' {
        Some(FileDiffStatus::Modified)
    } else if c == 'A' {
        Some(FileDiffStatus::Added)
    } else if c == 'D' {
        Some(FileDiffStatus::Deleted)
    } else if c == 'R' {
        Some(FileDiffStatus::Renamed)
    } else if c == 'C' {
        Some(FileDiffStatus::Copied)
    } else {
        None
    }
}

pub fn parse_status(c: char) -> (r: Option<FileDiffStatus>)
    ensures
        r == status_of(c),
{
    if c == 'M' {
        Some(FileDiffStatus::Modified)
    } else if c == 'A' {
        Some(FileDiffStatus::Added)
    } else if c == 'D' {
        Some(FileDiffStatus::Deleted)
    } else if c == 'R' {
        Some(FileDiffStatus::Renamed)
    } else if c == 'C' {
        Some(FileDiffStatus::Copied)
    } else {
        None
    }
}

pub open spec fn no_newline(s: Seq<char>) -> bool {
    forall|i: int| 0 <= i < s.len() ==> s[i] != '\n'
}

/// The status and description of a file line with colour codes removed, as
/// `^([MADRC])\s+(.+)$` reads it: the whitespace run is as long as it can be
/// while leaving a description, which holds no newline.
pub open spec fn file_line_fields(s: Seq<char>) -> Option<(FileDiffStatus, Seq<char>)> {
    if s.len() < 2 || status_of(s[0]) is None || !is_ws(s[1]) {
        None
    } else {
        let k = skip_ws(s, 1);
        let d = if k < s.len() { s.skip(k) } else { s.skip(s.len() - 1) };
        if (k < s.len() || k >= 3) && no_newline(d) {
            Some((status_of(s[0])->0, d))
        } else {
            None
        }
    }
}

/// The index of the first `=>` at or after `i`, or the length if none.
pub open spec fn find_arrow(s: Seq<char>, i: int) -> int
    decreases s.len() - i,
{
    if i + 1 >= s.len() {
        s.len() as int
    } else if s[i] == '=' && s[i + 1] == '>' {
        i
    } else {
        find_arrow(s, i + 1)
    }
}

/// The path after a rename or copy: `prefix{old => new}suffix` becomes
/// `prefix` `new` `suffix`, with the whitespace after the arrow dropped.
pub open spec fn renamed_path(d: Seq<char>) -> Option<Seq<char>> {
    let i = find_char(d, '{', 0);
    let k = find_char(d, '}', i + 1);
    let m = find_arrow(d, i + 1);
    if i >= d.len() || k >= d.len() || m + 2 > k {
        None
    } else {
        Some(d.take(i) + d.subrange(skip_ws(d, m + 2), k) + d.skip(k + 1))
    }
}

/// The path a file line names: its description, or for a rename or copy the
/// new path.
pub open spec fn display_path(status: FileDiffStatus, d: Seq<char>) -> Option<Seq<char>> {
    match status {
        FileDiffStatus::Renamed | FileDiffStatus::Copied => renamed_path(d),
        _ => Some(d),
    }
}

/// The file diff a line of the tool's summary describes, folded and with no
/// hunks loaded.
pub open spec fn file_view_of(change_id: Seq<char>, line: Seq<char>, graph_indent: Seq<char>) -> Option<
    FileView,
> {
    match file_line_fields(strip_spec(line)) {
        None => None,
        Some((status, d)) => match display_path(status, d) {
            None => None,
            Some(path) => Some(
                FileView {
                    change_id,
                    path,
                    description: d,
                    status,
                    graph_indent,
                    unfolded: false,
                    loaded: false,
                    hunks: Seq::empty(),
                },
            ),
        },
    }
}

fn find_arrow_exec(s: &Vec<char>, i: usize) -> (r: usize)
    requires
        i <= s@.len(),
    ensures
        r == find_arrow(s@, i as int),
{
    let mut k = i;
    while s.len() > 0 && k < s.len() - 1 && !(s[k] == '=' && s[k + 1] == '>')
        invariant
            i <= k <= s@.len(),
            find_arrow(s@, k as int) == find_arrow(s@, i as int),
        decreases s@.len() - k,
    {
        k += 1;
    }
    if s.len() == 0 || k >= s.len() - 1 {
        s.len()
    } else {
        k
    }
}

proof fn lemma_find_arrow_bounds(s: Seq<char>, i: int)
    requires
        0 <= i <= s.len(),
    ensures
        i <= find_arrow(s, i) <= s.len(),
    decreases s.len() - i,
{
    if i + 1 < s.len() && !(s[i] == '=' && s[i + 1] == '>') {
        lemma_find_arrow_bounds(s, i + 1);
    }
}

/// Turns `prefix{old => new}suffix` into `prefix` `new` `suffix`.
pub fn normalize_renamed_path(d: &Vec<char>) -> (r: Option<Vec<char>>)
    ensures
        r is Some <==> renamed_path(d@) is Some,
        r matches Some(p) ==> renamed_path(d@) == Some(p@),
{
    let i = find_char_exec(d, '{', 0);
    proof {
        lemma_find_char_bounds(d@, '{', 0);
    }
    if i >= d.len() {
        return None;
    }
    let k = find_char_exec(d, '}', i + 1);
    let m = find_arrow_exec(d, i + 1);
    proof {
        lemma_find_char_bounds(d@, '}', i + 1);
        lemma_find_arrow_bounds(d@, i + 1);
    }
    if k >= d.len() || m >= k || k - m < 2 {
        return None;
    }
    let n = skip_ws_exec(d, m + 2);
    proof {
        lemma_skip_ws_bounds(d@, m + 2);
        assert(n <= k) by {
            if n > k {
                assert(is_ws(d@[k as int]));
            }
        };
    }
    let mut p = slice_chars(d, 0, i);
    let mut new_part = slice_chars(d, n, k);
    let mut suffix = slice_chars(d, k + 1, d.len());
    p.append(&mut new_part);
    p.append(&mut suffix);
    assert(p@ =~= d@.take(i as int) + d@.subrange(n as int, k as int) + d@.skip(k + 1));
    Some(p)
}

impl FileDiff {
    /// Reads one line of the tool's file summary (colour codes allowed).
    pub fn new(change_id: String, pretty_string: String, graph_indent: String) -> (r: Result<
        Self,
        ParseError,
    >)
        ensures
            r is Ok <==> file_view_of(change_id@, pretty_string@, graph_indent@) is Some,
            r matches Ok(f) ==> Some(f@) == file_view_of(change_id@, pretty_string@, graph_indent@),
    {
        let raw = chars_of(pretty_string.as_str());
        let clean = strip_ansi_chars(&raw);
        if clean.len() < 2 {
            return Err(ParseError::FileDiffLine(pretty_string));
        }
        let status = match parse_status(clean[0]) {
            Some(s) => s,
            None => {
                return Err(ParseError::FileDiffLine(pretty_string));
            },
        };
        if !crate::text::is_whitespace(clean[1]) {
            return Err(ParseError::FileDiffLine(pretty_string));
        }
        let k = skip_ws_exec(&clean, 1);
        proof {
            lemma_skip_ws_bounds(clean@, 1);
        }
        if k >= clean.len() && k < 3 {
            return Err(ParseError::FileDiffLine(pretty_string));
        }
        let start = if k < clean.len() { k } else { clean.len() - 1 };
        let description = slice_chars(&clean, start, clean.len());
        assert(description@ =~= clean@.skip(start as int));
        let nl = find_char_exec(&description, '\n', 0);
        proof {
            lemma_find_char_bounds(description@, '\n', 0);
        }
        if nl < description.len() {
            return Err(ParseError::FileDiffLine(pretty_string));
        }
        let path = match status {
            FileDiffStatus::Renamed | FileDiffStatus::Copied => match normalize_renamed_path(
                &description,
            ) {
                Some(p) => p,
                None => {
                    return Err(ParseError::RenamedPath(pretty_string));
                },
            },
            _ => slice_chars(&description, 0, description.len()),
        };
        assert(description@.subrange(0, description@.len() as int) =~= description@);
        let f = FileDiff {
            change_id,
            path: string_from_chars(path.as_slice()),
            description: string_from_chars(description.as_slice()),
            status,
            graph_indent,
            unfolded: false,
            loaded: false,
            diff_hunks: Vec::new(),
            flat_log_idx: 0,
        };
        assert(f@.hunks =~= Seq::<HunkView>::empty());
        Ok(f)
    }

    /// Reads the tool's whole file summary of a change: one file per line.
    pub fn load_all(change_id: &str, output: &str, graph_indent: &str) -> (r: Result<
        Vec<Self>,
        ParseError,
    >)
        ensures
            r is Ok <==> (forall|i: int|
                0 <= i < lines_spec(trim_spec(output@)).len() ==> (#[trigger] file_view_of(
                    change_id@,
                    lines_spec(trim_spec(output@))[i],
                    graph_indent@,
                )) is Some),
            r matches Ok(v) ==> forall|i: int| 0 <= i < v@.len() ==> crate::log_tree::file_wf(#[trigger] v@[i]@),
            r matches Ok(v) ==> v@.len() == lines_spec(trim_spec(output@)).len() && forall|i: int|
                0 <= i < v@.len() ==> Some(#[trigger] v@[i]@) == file_view_of(
                    change_id@,
                    lines_spec(trim_spec(output@))[i],
                    graph_indent@,
                ),
    {
        let text = chars_of(output);
        let trimmed = trim_chars(&text);
        let lines = lines_of(&trimmed);
        let ghost ls = lines_spec(trim_spec(output@));
        assert(crate::text::views(lines@) == ls);
        let mut file_diffs: Vec<FileDiff> = Vec::new();
        let mut i: usize = 0;
        while i < lines.len()
            invariant
                i <= lines@.len() == ls.len(),
                crate::text::views(lines@) == ls,
                ls == lines_spec(trim_spec(output@)),
                file_diffs@.len() == i,
                forall|j: int|
                    0 <= j < i ==> Some(#[trigger] file_diffs@[j]@) == file_view_of(
                        change_id@,
                        ls[j],
                        graph_indent@,
                    ),
            decreases lines@.len() - i,
        {
            let line = string_from_chars(lines[i].as_slice());
            assert(line@ == ls[i as int]);
            let f = FileDiff::new(
                string_from_chars(chars_of(change_id).as_slice()),
                line,
                string_from_chars(chars_of(graph_indent).as_slice()),
            );
            match f {
                Ok(f) => file_diffs.push(f),
                Err(e) => {
                    assert(file_view_of(change_id@, ls[i as int], graph_indent@) is None);
                    return Err(e);
                },
            }
            i += 1;
        }
        assert forall|j: int| 0 <= j < ls.len() implies (#[trigger] file_view_of(
            change_id@,
            ls[j],
            graph_indent@,
        )) is Some by {
            assert(Some(file_diffs@[j]@) == file_view_of(change_id@, ls[j], graph_indent@));
        };
        Ok(file_diffs)
    }
}

// ---------------------------------------------------------------------------
// Hunk lines: `[before] [after]: text`, the numbers right-aligned.

/// The before- and after-numbers at the start of a hunk line with colour
/// codes removed: optional whitespace, an optional number, whitespace, an
/// optional number, then a colon.
pub open spec fn line_nums(l: Seq<char>) -> Option<(Option<Seq<char>>, Option<Seq<char>>)> {
    let i0 = skip_ws(l, 0);
    let i1 = skip_digits(l, i0);
    let i2 = skip_ws(l, i1);
    let i3 = skip_digits(l, i2);
    if i1 > i0 && i2 > i1 {
        if i3 < l.len() && l[i3] == ':' {
            Some((Some(l.subrange(i0, i1)), if i3 > i2 { Some(l.subrange(i2, i3)) } else { None }))
        } else {
            None
        }
    } else if i1 > i0 {
        if i0 > 0 && i1 < l.len() && l[i1] == ':' {
            Some((None, Some(l.subrange(i0, i1))))
        } else {
            None
        }
    } else if i0 > 0 && i0 < l.len() && l[i0] == ':' {
        Some((None, None))
    } else {
        None
    }
}

pub fn parse_line_nums(l: &Vec<char>) -> (r: Option<(Option<Vec<char>>, Option<Vec<char>>)>)
    ensures
        r is Some <==> line_nums(l@) is Some,
        r matches Some((a, b)) ==> line_nums(l@) == Some(
            (
                match a {
                    Some(v) => Some(v@),
                    None => None::<Seq<char>>,
                },
                match b {
                    Some(v) => Some(v@),
                    None => None::<Seq<char>>,
                },
            ),
        ),
{
    let i0 = skip_ws_exec(l, 0);
    proof {
        lemma_skip_ws_bounds(l@, 0);
    }
    let i1 = skip_digits_exec(l, i0);
    proof {
        lemma_skip_digits_bounds(l@, i0 as int);
    }
    let i2 = skip_ws_exec(l, i1);
    proof {
        lemma_skip_ws_bounds(l@, i1 as int);
    }
    let i3 = skip_digits_exec(l, i2);
    proof {
        lemma_skip_digits_bounds(l@, i2 as int);
    }
    if i1 > i0 && i2 > i1 {
        if i3 < l.len() && l[i3] == ':' {
            let green = if i3 > i2 { Some(slice_chars(l, i2, i3)) } else { None };
            Some((Some(slice_chars(l, i0, i1)), green))
        } else {
            None
        }
    } else if i1 > i0 {
        if i0 > 0 && i1 < l.len() && l[i1] == ':' {
            Some((None, Some(slice_chars(l, i0, i1))))
        } else {
            None
        }
    } else if i0 > 0 && i0 < l.len() && l[i0] == ':' {
        Some((None, None))
    } else {
        None
    }
}

/// The value of a run of decimal digits.
pub open spec fn digits_value(d: Seq<char>) -> nat
    decreases d.len(),
{
    if d.len() == 0 {
        0
    } else {
        digits_value(d.drop_last()) * 10 + (d.last() as nat - '0' as nat) as nat
    }
}

proof fn lemma_digits_value_grows(d: Seq<char>, k: int)
    requires
        0 <= k <= d.len(),
        forall|j: int| 0 <= j < d.len() ==> is_digit(#[trigger] d[j]),
    ensures
        digits_value(d.take(k)) <= digits_value(d),
    decreases d.len() - k,
{
    if k < d.len() {
        lemma_digits_value_grows(d, k + 1);
        assert(d.take(k + 1).drop_last() =~= d.take(k));
        assert(digits_value(d.take(k + 1)) >= digits_value(d.take(k)));
    } else {
        assert(d.take(k) =~= d);
    }
}

/// Reads a run of digits as a `u32`; `None` when the value does not fit.
pub fn parse_u32(d: &Vec<char>) -> (r: Option<u32>)
    requires
        digits_only(d@),
    ensures
        r is Some <==> digits_value(d@) <= u32::MAX,
        r matches Some(v) ==> v == digits_value(d@),
{
    let mut acc: u64 = 0;
    let mut k: usize = 0;
    while k < d.len()
        invariant
            k <= d@.len(),
            forall|j: int| 0 <= j < d@.len() ==> is_digit(#[trigger] d@[j]),
            acc == digits_value(d@.take(k as int)),
            acc <= u32::MAX,
        decreases d@.len() - k,
    {
        let digit = (d[k] as u32 - '0' as u32) as u64;
        assert(d@.take(k + 1).drop_last() =~= d@.take(k as int));
        let next = acc * 10 + digit;
        if next > u32::MAX as u64 {
            proof {
                lemma_digits_value_grows(d@, k + 1);
            }
            return None;
        }
        acc = next;
        k += 1;
    }
    assert(d@.take(k as int) =~= d@);
    Some(acc as u32)
}

/// Whether a hunk line is the divider that closes a file's last hunk.
pub open spec fn is_divider(l: Seq<char>) -> bool {
    l == seq!['~']
}

/// Scans hunk lines (colour codes removed) in order, keeping the first
/// before- and after-number seen, until both are known; a line that is not
/// a divider and has no line numbers fails the scan.
pub open spec fn scan_nums(
    ls: Seq<Seq<char>>,
    red: Option<Seq<char>>,
    green: Option<Seq<char>>,
) -> Option<(Option<Seq<char>>, Option<Seq<char>>)>
    decreases ls.len(),
{
    if ls.len() == 0 || (red is Some && green is Some) {
        Some((red, green))
    } else if is_divider(ls[0]) {
        scan_nums(ls.drop_first(), red, green)
    } else {
        match line_nums(ls[0]) {
            None => None,
            Some((r, g)) => scan_nums(
                ls.drop_first(),
                if red is Some { red } else { r },
                if green is Some { green } else { g },
            ),
        }
    }
}

/// The direction in which hunk lines are scanned for line numbers.
pub enum SearchDirection {
    Down,
    Up,
}

pub open spec fn num_value(d: Option<Seq<char>>) -> nat {
    match d {
        Some(d) => digits_value(d),
        None => 0,
    }
}

/// The first before- and after-numbers met scanning the lines, 0 for a side
/// with none; `None` when a line cannot be read or a number is too large.
pub open spec fn first_nums(ls: Seq<Seq<char>>) -> Option<(nat, nat)> {
    match scan_nums(ls, None, None) {
        None => None,
        Some((r, g)) => if num_value(r) <= u32::MAX && num_value(g) <= u32::MAX {
            Some((num_value(r), num_value(g)))
        } else {
            None
        },
    }
}

pub open spec fn clean_lines(ls: Seq<DiffHunkLine>) -> Seq<Seq<char>> {
    ls.map_values(|l: DiffHunkLine| strip_spec(l.pretty_string@))
}

fn opt_view(o: &Option<Vec<char>>) -> (r: bool)
    ensures
        r == o is Some,
{
    o.is_some()
}

fn parse_num(d: Option<Vec<char>>) -> (r: Result<u32, ParseError>)
    requires
        all_digits(opt_seq(d)),
    ensures
        r is Ok <==> num_value(opt_seq(d)) <= u32::MAX,
        r matches Ok(v) ==> v == num_value(opt_seq(d)),
{
    match d {
        None => Ok(0),
        Some(v) => match {
            assert(opt_seq(d) == Some(v@));
            parse_u32(&v)
        } {
            Some(n) => Ok(n),
            None => Err(ParseError::LineNumber(string_from_chars(v.as_slice()))),
        },
    }
}

pub open spec fn opt_seq(o: Option<Vec<char>>) -> Option<Seq<char>> {
    match o {
        Some(v) => Some(v@),
        None => None,
    }
}

pub open spec fn digits_only(v: Seq<char>) -> bool {
    forall|j: int| 0 <= j < v.len() ==> is_digit(#[trigger] v[j])
}

pub open spec fn all_digits(o: Option<Seq<char>>) -> bool {
    match o {
        Some(v) => digits_only(v),
        None => true,
    }
}

proof fn lemma_line_nums_digits(l: Seq<char>)
    requires
        line_nums(l) is Some,
    ensures
        ({
            let (r, g) = line_nums(l)->0;
            all_digits(r) && all_digits(g)
        }),
{
    lemma_skip_ws_bounds(l, 0);
    let i0 = skip_ws(l, 0);
    lemma_skip_digits_bounds(l, i0);
    let i1 = skip_digits(l, i0);
    lemma_skip_ws_bounds(l, i1);
    let i2 = skip_ws(l, i1);
    lemma_skip_digits_bounds(l, i2);
}

impl DiffHunk {
    /// The first before- and after-numbers met scanning the lines in the
    /// given direction, 0 for a side that has none.
    pub fn find_line_nums(diff_hunk_lines: &Vec<DiffHunkLine>, direction: SearchDirection) -> (r:
        Result<(u32, u32), ParseError>)
        ensures
            ({
                let ls = match direction {
                    SearchDirection::Down => clean_lines(diff_hunk_lines@),
                    SearchDirection::Up => clean_lines(diff_hunk_lines@).reverse(),
                };
                &&& r is Ok <==> first_nums(ls) is Some
                &&& r matches Ok((a, b)) ==> first_nums(ls) == Some((a as nat, b as nat))
            }),
    {
        let ghost ls = match direction {
            SearchDirection::Down => clean_lines(diff_hunk_lines@),
            SearchDirection::Up => clean_lines(diff_hunk_lines@).reverse(),
        };
        let up = match direction {
            SearchDirection::Down => false,
            SearchDirection::Up => true,
        };
        let n = diff_hunk_lines.len();
        let mut red: Option<Vec<char>> = None;
        let mut green: Option<Vec<char>> = None;
        let mut k: usize = 0;
        assert(ls.skip(0) =~= ls);
        while k < n && !(opt_view(&red) && opt_view(&green))
            invariant
                k <= n == diff_hunk_lines@.len() == ls.len(),
                ls == if up {
                    clean_lines(diff_hunk_lines@).reverse()
                } else {
                    clean_lines(diff_hunk_lines@)
                },
                ls == match direction {
                    SearchDirection::Down => clean_lines(diff_hunk_lines@),
                    SearchDirection::Up => clean_lines(diff_hunk_lines@).reverse(),
                },
                scan_nums(ls, None, None) == scan_nums(ls.skip(k as int), opt_seq(red), opt_seq(green)),
                all_digits(opt_seq(red)),
                all_digits(opt_seq(green)),
            decreases n - k,
        {
            let idx = if up { n - 1 - k } else { k };
            let raw = chars_of(diff_hunk_lines[idx].pretty_string.as_str());
            let line = strip_ansi_chars(&raw);
            assert(line@ == ls[k as int]);
            assert(ls.skip(k as int).drop_first() =~= ls.skip(k + 1));
            assert(ls.skip(k as int)[0] == ls[k as int]);
            if line.len() == 1 && line[0] == '~' {
                assert(line@ =~= seq!['~']);
            } else {
                assert(!is_divider(line@)) by {
                    if is_divider(line@) {
                        assert(line@.len() == 1);
                    }
                };
                match parse_line_nums(&line) {
                    None => {
                        assert(!(opt_seq(red) is Some && opt_seq(green) is Some));
                        assert(scan_nums(ls.skip(k as int), opt_seq(red), opt_seq(green)) is None);
                        return Err(ParseError::HunkLine(string_from_chars(line.as_slice())));
                    },
                    Some((r, g)) => {
                        proof {
                            lemma_line_nums_digits(line@);
                        }
                        if red.is_none() {
                            red = r;
                        }
                        if green.is_none() {
                            green = g;
                        }
                    },
                }
            }
            k += 1;
        }
        proof {
            if k == n {
                assert(ls.skip(k as int).len() == 0);
            }
            assert(scan_nums(ls, None, None) == Some((opt_seq(red), opt_seq(green))));
        }
        let a = parse_num(red);
        let b = parse_num(green);
        match (a, b) {
            (Ok(a), Ok(b)) => Ok((a, b)),
            (Err(e), _) => Err(e),
            (_, Err(e)) => Err(e),
        }
    }
}

// ---------------------------------------------------------------------------
// Building hunks.

/// `ilog10`, with 0 for 0.
pub open spec fn log10(x: nat) -> nat
    decreases x,
{
    if x < 10 { 0 } else { 1 + log10(x / 10) }
}

/// How many leading spaces a hunk's lines drop so that line numbers of up
/// to four digits line up in a three-character budget.
pub open spec fn pad_width(max_line_num: nat) -> nat {
    if log10(max_line_num) >= 3 { 0 } else { (3 - log10(max_line_num)) as nat }
}

pub open spec fn spaces_at(s: Seq<char>, k: int, n: nat) -> bool {
    k + n <= s.len() && forall|j: int| k <= j < k + n ==> s[j] == ' '
}

/// The first index at or after `k` where `n` spaces start, or -1.
pub open spec fn first_spaces(s: Seq<char>, n: nat, k: int) -> int
    decreases s.len() - k,
{
    if k < 0 || k + n > s.len() {
        -1
    } else if spaces_at(s, k, n) {
        k
    } else {
        first_spaces(s, n, k + 1)
    }
}

/// `s` without its first run of `n` spaces, as `replacen(" " * n, "", 1)`.
pub open spec fn remove_spaces(s: Seq<char>, n: nat) -> Seq<char> {
    let k = first_spaces(s, n, 0);
    if k < 0 { s } else { s.take(k) + s.skip(k + n) }
}

fn spaces_at_exec(s: &Vec<char>, k: usize, n: usize) -> (r: bool)
    requires
        k + n <= s@.len(),
    ensures
        r == spaces_at(s@, k as int, n as nat),
{
    let mut j: usize = 0;
    while j < n
        invariant
            j <= n,
            k + n <= s@.len(),
            forall|t: int| k <= t < k + j ==> s@[t] == ' ',
        decreases n - j,
    {
        assert(k + j < s.len());
        if s[k + j] != ' ' {
            return false;
        }
        j += 1;
    }
    true
}

/// `s` without its first run of `n` spaces.
pub fn remove_spaces_exec(s: &Vec<char>, n: usize) -> (r: Vec<char>)
    ensures
        r@ == remove_spaces(s@, n as nat),
{
    let mut k: usize = 0;
    while k <= s.len() && n <= s.len() - k
        invariant
            first_spaces(s@, n as nat, 0) == first_spaces(s@, n as nat, k as int),
        decreases s@.len() + 1 - k,
    {
        if spaces_at_exec(s, k, n) {
            let mut r = slice_chars(s, 0, k);
            let mut rest = slice_chars(s, k + n, s.len());
            r.append(&mut rest);
            assert(r@ =~= s@.take(k as int) + s@.skip(k + n));
            return r;
        }
        k += 1;
    }
    slice_chars(s, 0, s.len())
}

fn log10_exec(x: u32) -> (r: u32)
    ensures
        r == log10(x as nat),
{
    proof {
        lemma_log10_small(x as nat);
    }
    let mut v = x;
    let mut r: u32 = 0;
    while v >= 10
        invariant
            r + log10(v as nat) == log10(x as nat),
            log10(x as nat) <= 9,
        decreases v,
    {
        v = v / 10;
        r = r + 1;
    }
    r
}

pub open spec fn pow10(k: nat) -> nat
    decreases k,
{
    if k == 0 { 1 } else { 10 * pow10((k - 1) as nat) }
}

proof fn lemma_log10_below(x: nat, k: nat)
    requires
        x < pow10(k + 1),
    ensures
        log10(x) <= k,
    decreases x,
{
    if x >= 10 {
        if k == 0 {
            assert(pow10(1) == 10) by {
                reveal_with_fuel(pow10, 2);
            };
        } else {
            let p = pow10(k);
            assert(pow10(k + 1) == 10 * p);
            assert(x / 10 < p) by (nonlinear_arith)
                requires x < 10 * p,
            ;
            lemma_log10_below(x / 10, (k - 1) as nat);
        }
    }
}

proof fn lemma_log10_small(x: nat)
    requires
        x <= u32::MAX,
    ensures
        log10(x) <= 9,
{
    assert(pow10(10) == 10000000000) by {
        reveal_with_fuel(pow10, 11);
    };
    lemma_log10_below(x, 9);
}

pub open spec fn line_text(l: LineView) -> Seq<char> {
    strip_spec(l.pretty_string)
}

/// A hunk built from its lines: line numbers read from the first and last
/// numbered lines, text shifted to align the numbers, unfolded.
pub open spec fn hunk_view_of(graph_indent: Seq<char>, lines: Seq<LineView>) -> Option<HunkView> {
    let clean = lines.map_values(|l: LineView| line_text(l));
    if !lines_readable(clean) {
        None
    } else {
    match (first_nums(clean), first_nums(clean.reverse())) {
        (Some((rs, gs)), Some((re, ge))) => {
            let pad = pad_width(if re >= ge { re } else { ge });
            Some(
                HunkView {
                    graph_indent,
                    unfolded: true,
                    lines: lines.map_values(
                        |l: LineView|
                            LineView {
                                pretty_string: remove_spaces(l.pretty_string, pad),
                                graph_indent: l.graph_indent,
                            },
                    ),
                    red_start: rs as u32,
                    red_end: re as u32,
                    green_start: gs as u32,
                    green_end: ge as u32,
                },
            )
        },
        _ => None,
    }
    }
}

/// Every line of a hunk but the divider starts with its line numbers.
pub open spec fn lines_readable(clean: Seq<Seq<char>>) -> bool {
    forall|i: int| 0 <= i < clean.len() && !is_divider(clean[i]) ==> (#[trigger] line_nums(clean[i])) is Some
}

pub open spec fn line_views(ls: Seq<DiffHunkLine>) -> Seq<LineView> {
    ls.map_values(|l: DiffHunkLine| l@)
}

impl DiffHunkLine {
    pub fn new(pretty_string: String, graph_indent: String) -> (r: Self)
        ensures
            r.pretty_string@ == pretty_string@,
            r.graph_indent@ == graph_indent@,
            r.flat_log_idx == 0,
    {
        DiffHunkLine { pretty_string, graph_indent, flat_log_idx: 0 }
    }
}

impl DiffHunk {
    /// Builds a hunk from its lines, reading its line numbers and aligning
    /// the lines' text.
    pub fn new(graph_indent: String, diff_hunk_lines: Vec<DiffHunkLine>) -> (r: Result<
        Self,
        ParseError,
    >)
        ensures
            r is Ok <==> hunk_view_of(graph_indent@, line_views(diff_hunk_lines@)) is Some,
            r matches Ok(h) ==> Some(h@) == hunk_view_of(graph_indent@, line_views(diff_hunk_lines@)),
    {
        let ghost lv = line_views(diff_hunk_lines@);
        assert(lv.map_values(|l: LineView| line_text(l)) =~= clean_lines(diff_hunk_lines@));
        let ghost clean = clean_lines(diff_hunk_lines@);
        let mut j: usize = 0;
        while j < diff_hunk_lines.len()
            invariant
                j <= diff_hunk_lines@.len(),
                clean == clean_lines(diff_hunk_lines@),
                lv == line_views(diff_hunk_lines@),
                lv.map_values(|l: LineView| line_text(l)) == clean,
                forall|i: int| 0 <= i < j && !is_divider(clean[i]) ==> (#[trigger] line_nums(clean[i])) is Some,
            decreases diff_hunk_lines@.len() - j,
        {
            let line = strip_ansi_chars(&chars_of(diff_hunk_lines[j].pretty_string.as_str()));
            assert(line@ == clean[j as int]);
            let divider = line.len() == 1 && line[0] == '~';
            if divider {
                assert(line@ =~= seq!['~']);
            } else {
                assert(!is_divider(line@)) by {
                    if is_divider(line@) {
                        assert(line@.len() == 1);
                    }
                };
                if parse_line_nums(&line).is_none() {
                    assert(!lines_readable(clean));
                    return Err(ParseError::HunkLine(string_from_chars(line.as_slice())));
                }
            }
            j += 1;
        }
        let (red_start, green_start) = match DiffHunk::find_line_nums(
            &diff_hunk_lines,
            SearchDirection::Down,
        ) {
            Ok(p) => p,
            Err(e) => {
                return Err(e);
            },
        };
        let (red_end, green_end) = match DiffHunk::find_line_nums(
            &diff_hunk_lines,
            SearchDirection::Up,
        ) {
            Ok(p) => p,
            Err(e) => {
                return Err(e);
            },
        };
        let max_line_num = if red_end >= green_end { red_end } else { green_end };
        let digits = log10_exec(max_line_num);
        proof {
            lemma_log10_small(max_line_num as nat);
        }
        let pad: usize = if digits >= 3 { 0 } else { (3 - digits) as usize };
        let mut lines: Vec<DiffHunkLine> = Vec::new();
        let mut i: usize = 0;
        while i < diff_hunk_lines.len()
            invariant
                i <= diff_hunk_lines@.len(),
                lv == line_views(diff_hunk_lines@),
                pad == pad_width(max_line_num as nat),
                lines@.len() == i,
                forall|j: int|
                    0 <= j < i ==> (#[trigger] lines@[j])@ == (LineView {
                        pretty_string: remove_spaces(lv[j].pretty_string, pad as nat),
                        graph_indent: lv[j].graph_indent,
                    }),
            decreases diff_hunk_lines@.len() - i,
        {
            let text = chars_of(diff_hunk_lines[i].pretty_string.as_str());
            let aligned = remove_spaces_exec(&text, pad);
            let indent = string_from_chars(chars_of(diff_hunk_lines[i].graph_indent.as_str()).as_slice());
            lines.push(DiffHunkLine::new(string_from_chars(aligned.as_slice()), indent));
            i += 1;
        }
        let h = DiffHunk {
            graph_indent,
            unfolded: true,
            diff_hunk_lines: lines,
            red_start,
            red_end,
            green_start,
            green_end,
            flat_log_idx: 0,
        };
        assert(h@.lines =~= hunk_view_of(h.graph_indent@, lv)->0.lines);
        Ok(h)
    }
}

// ---------------------------------------------------------------------------
// Splitting a file's diff into hunks.

/// A line that is `...`, whitespace aside, separates two hunks.
pub open spec fn is_separator(l: Seq<char>) -> bool {
    trim_spec(l) == seq!['.', '.', '.']
}

pub fn is_separator_exec(l: &Vec<char>) -> (r: bool)
    ensures
        r == is_separator(l@),
{
    let t = trim_chars(l);
    let r = t.len() == 3 && t[0] == '.' && t[1] == '.' && t[2] == '.';
    if r {
        assert(t@ =~= seq!['.', '.', '.']);
    }
    r
}

/// The groups of lines closed so far, and the group being filled.
pub open spec fn split_groups(ls: Seq<Seq<char>>) -> (Seq<Seq<Seq<char>>>, Seq<Seq<char>>)
    decreases ls.len(),
{
    if ls.len() == 0 {
        (Seq::empty(), Seq::empty())
    } else {
        let (gs, cur) = split_groups(ls.drop_last());
        if is_separator(strip_spec(ls.last())) {
            (if cur.len() > 0 { gs.push(cur) } else { gs }, Seq::empty())
        } else {
            (gs, cur.push(ls.last()))
        }
    }
}

/// The lines between separators, empty groups left out.
pub open spec fn hunk_groups(ls: Seq<Seq<char>>) -> Seq<Seq<Seq<char>>> {
    let (gs, cur) = split_groups(ls);
    if cur.len() > 0 { gs.push(cur) } else { gs }
}

/// The lines of a file's diff after its header line.
pub open spec fn hunk_body_lines(output: Seq<char>) -> Seq<Seq<char>> {
    let ls = lines_spec(trim_spec(output));
    if ls.len() == 0 { ls } else { ls.skip(1) }
}

pub open spec fn group_line_views(g: Seq<Seq<char>>, graph_indent: Seq<char>) -> Seq<LineView> {
    g.map_values(|l: Seq<char>| LineView { pretty_string: l, graph_indent })
}

/// The magenta `~` that closes a file's last hunk.
pub open spec fn divider_text() -> Seq<char> {
    seq!['\x1b', '[', '3', '5', 'm', '~', '\x1b', '[', '0', 'm']
}

pub open spec fn with_divider(hs: Seq<HunkView>, graph_indent: Seq<char>) -> Seq<HunkView> {
    if hs.len() == 0 {
        hs
    } else {
        let last = hs.last();
        hs.update(
            hs.len() - 1,
            HunkView {
                lines: last.lines.push(LineView { pretty_string: divider_text(), graph_indent }),
                ..last
            },
        )
    }
}

/// The hunks of a file's diff as the tool prints it, or `None` when a hunk
/// cannot be read.
pub open spec fn hunks_of(output: Seq<char>, graph_indent: Seq<char>) -> Option<Seq<HunkView>> {
    let gs = hunk_groups(hunk_body_lines(output));
    if forall|i: int|
        0 <= i < gs.len() ==> (#[trigger] hunk_view_of(
            graph_indent,
            group_line_views(gs[i], graph_indent),
        )) is Some {
        Some(
            with_divider(
                gs.map_values(
                    |g: Seq<Seq<char>>| hunk_view_of(graph_indent, group_line_views(g, graph_indent))->0,
                ),
                graph_indent,
            ),
        )
    } else {
        None
    }
}

pub open spec fn groups_view(g: Seq<Vec<Vec<char>>>) -> Seq<Seq<Seq<char>>> {
    g.map_values(|x: Vec<Vec<char>>| views(x@))
}

pub open spec fn hunk_views(hs: Seq<DiffHunk>) -> Seq<HunkView> {
    hs.map_values(|h: DiffHunk| h@)
}

fn divider_string() -> (r: String)
    ensures
        r@ == divider_text(),
{
    let v = vec!['\x1b', '[', '3', '5', 'm', '~', '\x1b', '[', '0', 'm'];
    assert(v@ =~= divider_text());
    string_from_chars(v.as_slice())
}

/// Splits lines into groups at separator lines.
fn group_lines(ls: &Vec<Vec<char>>, start: usize) -> (r: Vec<Vec<Vec<char>>>)
    requires
        start <= ls@.len(),
    ensures
        groups_view(r@) == hunk_groups(views(ls@).skip(start as int)),
{
    let ghost body = views(ls@).skip(start as int);
    let mut groups: Vec<Vec<Vec<char>>> = Vec::new();
    let mut cur: Vec<Vec<char>> = Vec::new();
    let mut i: usize = start;
    assert(body.take(0) =~= Seq::<Seq<char>>::empty());
    while i < ls.len()
        invariant
            start <= i <= ls@.len(),
            body == views(ls@).skip(start as int),
            (groups_view(groups@), views(cur@)) == split_groups(body.take(i - start)),
        decreases ls@.len() - i,
    {
        let ghost k = i - start;
        assert(body.take(k + 1).drop_last() =~= body.take(k));
        assert(body.take(k + 1).last() == ls@[i as int]@);
        let clean = strip_ansi_chars(&ls[i]);
        let line = slice_chars(&ls[i], 0, ls[i].len());
        assert(ls@[i as int]@.subrange(0, ls@[i as int]@.len() as int) =~= ls@[i as int]@);
        if is_separator_exec(&clean) {
            if cur.len() > 0 {
                let ghost gv = groups@;
                groups.push(cur);
                assert(groups_view(groups@) =~= groups_view(gv).push(views(cur@)));
            }
            cur = Vec::new();
            assert(views(cur@) =~= Seq::<Seq<char>>::empty());
        } else {
            let ghost cv = cur@;
            cur.push(line);
            assert(views(cur@) =~= views(cv).push(line@));
        }
        i += 1;
    }
    assert(body.take(i - start) =~= body);
    if cur.len() > 0 {
        let ghost gv = groups@;
        groups.push(cur);
        assert(groups_view(groups@) =~= groups_view(gv).push(views(cur@)));
    }
    groups
}

impl DiffHunk {
    /// Reads the tool's diff of one file: hunks between separator lines,
    /// the divider appended to the last one.
    pub fn load_all(output: &str, graph_indent: &str) -> (r: Result<Vec<Self>, ParseError>)
        ensures
            r is Ok <==> hunks_of(output@, graph_indent@) is Some,
            r matches Ok(hs) ==> Some(hunk_views(hs@)) == hunks_of(output@, graph_indent@),
    {
        let text = chars_of(output);
        let trimmed = trim_chars(&text);
        let lines = lines_of(&trimmed);
        let start: usize = if lines.len() == 0 { 0 } else { 1 };
        assert(views(lines@).skip(0) =~= views(lines@));
        let groups = group_lines(&lines, start);
        let ghost gs = hunk_groups(hunk_body_lines(output@));
        assert(groups_view(groups@) == gs);
        let ghost indent = graph_indent@;
        let mut hunks: Vec<DiffHunk> = Vec::new();
        let mut j: usize = 0;
        while j < groups.len()
            invariant
                j <= groups@.len() == gs.len(),
                groups_view(groups@) == gs,
                gs == hunk_groups(hunk_body_lines(output@)),
                indent == graph_indent@,
                hunks@.len() == j,
                forall|t: int|
                    0 <= t < j ==> Some((#[trigger] hunks@[t])@) == hunk_view_of(
                        indent,
                        group_line_views(gs[t], indent),
                    ),
            decreases groups@.len() - j,
        {
            let mut hunk_lines: Vec<DiffHunkLine> = Vec::new();
            let group = &groups[j];
            let mut t: usize = 0;
            while t < group.len()
                invariant
                    t <= group@.len(),
                    *group == groups@[j as int],
                    indent == graph_indent@,
                    hunk_lines@.len() == t,
                    forall|u: int|
                        0 <= u < t ==> (#[trigger] hunk_lines@[u])@ == (LineView {
                            pretty_string: group@[u]@,
                            graph_indent: indent,
                        }),
                decreases group@.len() - t,
            {
                let l = DiffHunkLine::new(
                    string_from_chars(group[t].as_slice()),
                    string_from_chars(chars_of(graph_indent).as_slice()),
                );
                hunk_lines.push(l);
                t += 1;
            }
            assert(line_views(hunk_lines@) =~= group_line_views(gs[j as int], indent));
            match DiffHunk::new(string_from_chars(chars_of(graph_indent).as_slice()), hunk_lines) {
                Ok(h) => hunks.push(h),
                Err(e) => {
                    assert(hunk_view_of(indent, group_line_views(gs[j as int], indent)) is None);
                    assert(hunks_of(output@, graph_indent@) is None);
                    return Err(e);
                },
            }
            j += 1;
        }
        assert forall|t: int| 0 <= t < gs.len() implies (#[trigger] hunk_view_of(
            indent,
            group_line_views(gs[t], indent),
        )) is Some by {
            assert(Some(hunks@[t]@) == hunk_view_of(indent, group_line_views(gs[t], indent)));
        };
        let ghost hv = gs.map_values(
            |g: Seq<Seq<char>>| hunk_view_of(indent, group_line_views(g, indent))->0,
        );
        assert(hunk_views(hunks@) =~= hv);
        let n = hunks.len();
        if n > 0 {
            let ghost last = hunks@[n - 1];
            let d = DiffHunkLine::new(divider_string(), string_from_chars(chars_of(graph_indent).as_slice()));
            hunks[n - 1].diff_hunk_lines.push(d);
            assert(hunks@[n - 1]@.lines =~= last@.lines.push(
                LineView { pretty_string: divider_text(), graph_indent: indent },
            ));
            assert(hunk_views(hunks@) =~= with_divider(hv, indent));
        } else {
            assert(hunk_views(hunks@) =~= with_divider(hv, indent));
        }
        assert(hunks_of(output@, graph_indent@) == Some(with_divider(hv, indent)));
        Ok(hunks)
    }
}

// ---------------------------------------------------------------------------
// Change headers, read with the tool's own line grammar.

/// A line that starts a change: a change id, later a commit id.
pub const COMMIT_HEADER_PATTERN: &'static str = "^.+([k-z]{8})\\s+.*\\s+([a-f0-9]{8}).*$";

/// The fields of a change's two lines with colour codes removed: graph
/// characters, node symbol, graph characters, change id, commit id, conflict
/// marker, second-line graph characters, empty marker, description.
pub const COMMIT_FIELDS_PATTERN: &'static str = "^([ │]*)(.)([ │]*)  ([k-z]{8,})\\s+.*\\s+([a-f0-9]{8,})\\s*(\\S*)\\s*\\n([ │├─╯╮]*)(\\(empty\\))?\\s*(.*)";

/// The text of a change's two lines after their graph characters, colour
/// codes kept.
pub const COMMIT_LINES_PATTERN: &'static str = "^[ │]*\\S+[ │]*(.*)\\n[ │├─╯╮]*(.*)";

/// The capture groups (group 0 the whole match) of the first match of a
/// regular expression in a text; `None` when nothing matches or the
/// expression does not compile.
pub uninterp spec fn regex_captures(pattern: Seq<char>, text: Seq<char>) -> Option<
    Seq<Option<Seq<char>>>,
>;

pub open spec fn opt_strings(v: Seq<Option<String>>) -> Seq<Option<Seq<char>>> {
    v.map_values(
        |o: Option<String>|
            match o {
                Some(s) => Some(s@),
                None => None,
            },
    )
}

/// Relies on `regex::Regex::new` and `regex::Regex::captures`: the groups of
/// the leftmost-first match, in order, a group that did not take part being
/// `None`.
#[verifier::external_body]
fn captures(pattern: &str, text: &str) -> (r: Option<Vec<Option<String>>>)
    ensures
        r is Some <==> regex_captures(pattern@, text@) is Some,
        r matches Some(v) ==> regex_captures(pattern@, text@) == Some(opt_strings(v@)),
{
    let re = regex::Regex::new(pattern).ok()?;
    let caps = re.captures(text)?;
    Some(caps.iter().map(|m| m.map(|m| m.as_str().to_string())).collect())
}

/// Whether a log line (colour codes allowed) starts a change.
pub open spec fn is_header_line(l: Seq<char>) -> bool {
    regex_captures(COMMIT_HEADER_PATTERN@, strip_spec(l)) is Some
}

/// A second-line graph character as it continues below the change.
pub open spec fn indent_char(c: char) -> char {
    if c == '│' || c == ' ' {
        c
    } else if c == '├' {
        '│'
    } else {
        ' '
    }
}

/// The indentation of a change's children: its second-line graph characters
/// continued, one column shorter.
pub open spec fn graph_indent_of(g: Seq<char>) -> Seq<char> {
    let m = g.map_values(|c: char| indent_char(c));
    if m.len() == 0 { m } else { m.drop_last() }
}

pub open spec fn group_present(v: Seq<Option<Seq<char>>>, i: int) -> bool {
    0 <= i < v.len() && v[i] is Some
}

pub open spec fn group(v: Seq<Option<Seq<char>>>, i: int) -> Seq<char> {
    v[i]->0
}

/// Whether the groups of the two patterns hold every field a change needs.
pub open spec fn commit_fields_ok(f: Seq<Option<Seq<char>>>, l: Seq<Option<Seq<char>>>) -> bool {
    &&& forall|i: int| 1 <= i <= 7 ==> #[trigger] group_present(f, i)
    &&& group_present(f, 9)
    &&& group_present(l, 1)
    &&& group_present(l, 2)
}

/// The header read from the groups of the two patterns.
pub open spec fn header_matches(h: CommitHeader, f: Seq<Option<Seq<char>>>, l: Seq<Option<Seq<char>>>) -> bool {
    &&& h.line1_graph_chars@ == group(f, 1)
    &&& h.symbol@ == group(f, 2)
    &&& h.line1_graph_chars_part2@ == group(f, 3)
    &&& h.change_id@ == group(f, 4)
    &&& h.commit_id@ == group(f, 5)
    &&& h.has_conflict == (group(f, 6) == "conflict"@)
    &&& h.line2_graph_chars@ == group(f, 7)
    &&& h.graph_indent@ == graph_indent_of(group(f, 7))
    &&& h.empty == group_present(f, 8)
    &&& h.current_working_copy == (group(f, 2) == "@"@)
    &&& (group(f, 9) == "(no description set)"@ ==> h.description_first_line is None)
    &&& (group(f, 9) != "(no description set)"@ ==> (h.description_first_line matches Some(d)
        && d@ == group(f, 9)))
    &&& h.pretty_line1@ == group(l, 1)
    &&& h.pretty_line2@ == group(l, 2)
}

/// A change read from its two lines (colour codes allowed), folded and with
/// nothing loaded.
pub open spec fn commit_parsed(c: CommitView, pretty: Seq<char>) -> bool {
    &&& regex_captures(COMMIT_FIELDS_PATTERN@, strip_spec(pretty)) matches Some(f)
    &&& regex_captures(COMMIT_LINES_PATTERN@, pretty) matches Some(l)
    &&& header_matches(c.header, f, l)
    &&& !c.unfolded
    &&& !c.loaded
    &&& c.files.len() == 0
}

pub open spec fn commit_parses(pretty: Seq<char>) -> bool {
    &&& regex_captures(COMMIT_FIELDS_PATTERN@, strip_spec(pretty)) matches Some(f)
    &&& regex_captures(COMMIT_LINES_PATTERN@, pretty) matches Some(l)
    &&& commit_fields_ok(f, l)
}

fn chars_equal(a: &Vec<char>, b: &Vec<char>) -> (r: bool)
    ensures
        r == (a@ == b@),
{
    if a.len() != b.len() {
        return false;
    }
    let mut i: usize = 0;
    while i < a.len()
        invariant
            i <= a@.len() == b@.len(),
            forall|j: int| 0 <= j < i ==> a@[j] == b@[j],
        decreases a@.len() - i,
    {
        if a[i] != b[i] {
            return false;
        }
        i += 1;
    }
    assert(a@ =~= b@);
    true
}

fn take_group(v: &Vec<Option<String>>, i: usize) -> (r: Option<String>)
    ensures
        r is Some <==> group_present(opt_strings(v@), i as int),
        r matches Some(s) ==> s@ == group(opt_strings(v@), i as int),
{
    if i < v.len() {
        match &v[i] {
            Some(s) => Some(string_from_chars(chars_of(s.as_str()).as_slice())),
            None => None,
        }
    } else {
        None
    }
}

fn graph_indent_exec(g: &Vec<char>) -> (r: Vec<char>)
    ensures
        r@ == graph_indent_of(g@),
{
    let mut r: Vec<char> = Vec::new();
    let mut i: usize = 0;
    while i < g.len()
        invariant
            i <= g@.len(),
            r@ == g@.take(i as int).map_values(|c: char| indent_char(c)),
        decreases g@.len() - i,
    {
        let c = g[i];
        let d = if c == '│' || c == ' ' {
            c
        } else if c == '├' {
            '│'
        } else {
            ' '
        };
        r.push(d);
        assert(r@ =~= g@.take(i + 1).map_values(|c: char| indent_char(c)));
        i += 1;
    }
    assert(g@.take(i as int) =~= g@);
    r.pop();
    assert(r@ =~= graph_indent_of(g@));
    r
}

impl Commit {
    /// Builds a change from the groups the two patterns captured: `fields`
    /// from its lines without colour codes, `lines` from the lines as printed.
    pub fn from_captures(fields: Vec<Option<String>>, lines: Vec<Option<String>>) -> (r: Result<
        Commit,
        ParseError,
    >)
        ensures
            r is Ok <==> commit_fields_ok(opt_strings(fields@), opt_strings(lines@)),
            r matches Ok(c) ==> header_matches(c.header, opt_strings(fields@), opt_strings(lines@))
                && !c.unfolded && !c.loaded && c.file_diffs@.len() == 0 && c.flat_log_idx == 0,
    {
        let ghost f = opt_strings(fields@);
        let ok = {
            let mut all = true;
            let mut i: usize = 1;
            while i <= 7
                invariant
                    1 <= i <= 8,
                    all == (forall|j: int| 1 <= j < i ==> #[trigger] group_present(f, j)),
                    f == opt_strings(fields@),
                decreases 8 - i,
            {
                if take_group(&fields, i).is_none() {
                    all = false;
                }
                i += 1;
            }
            all
        };
        let (g1, g2, g3, g4, g5, g6, g7, g9, l1, l2) = match (
            take_group(&fields, 1),
            take_group(&fields, 2),
            take_group(&fields, 3),
            take_group(&fields, 4),
            take_group(&fields, 5),
            take_group(&fields, 6),
            take_group(&fields, 7),
            take_group(&fields, 9),
            take_group(&lines, 1),
            take_group(&lines, 2),
        ) {
            (
                Some(g1),
                Some(g2),
                Some(g3),
                Some(g4),
                Some(g5),
                Some(g6),
                Some(g7),
                Some(g9),
                Some(l1),
                Some(l2),
            ) => (g1, g2, g3, g4, g5, g6, g7, g9, l1, l2),
            _ => {
                return Err(ParseError::CommitHeader(string_from_chars(chars_of("missing change fields").as_slice())));
            },
        };
        assert(ok);
        let empty = take_group(&fields, 8).is_some();
        let symbol_chars = chars_of(g2.as_str());
        let current_working_copy = chars_equal(&symbol_chars, &chars_of("@"));
        let has_conflict = chars_equal(&chars_of(g6.as_str()), &chars_of("conflict"));
        let no_description = chars_equal(&chars_of(g9.as_str()), &chars_of("(no description set)"));
        let description_first_line = if no_description { None } else { Some(g9) };
        let graph_indent = string_from_chars(graph_indent_exec(&chars_of(g7.as_str())).as_slice());
        let c = Commit {
            header: CommitHeader {
                change_id: g4,
                commit_id: g5,
                current_working_copy,
                has_conflict,
                empty,
                description_first_line,
                symbol: g2,
                line1_graph_chars: g1,
                line1_graph_chars_part2: g3,
                line2_graph_chars: g7,
                pretty_line1: l1,
                pretty_line2: l2,
                graph_indent,
            },
            unfolded: false,
            loaded: false,
            file_diffs: Vec::new(),
            flat_log_idx: 0,
        };
        Ok(c)
    }

    /// Reads a change from its two lines joined by a newline.
    pub fn new(pretty_string: String) -> (r: Result<Commit, ParseError>)
        ensures
            r is Ok <==> commit_parses(pretty_string@),
            r matches Ok(c) ==> commit_parsed(c@, pretty_string@) && c.flat_log_idx == 0,
    {
        let clean = strip_ansi(pretty_string.as_str());
        let fields = match captures(COMMIT_FIELDS_PATTERN, clean.as_str()) {
            Some(f) => f,
            None => {
                return Err(ParseError::CommitHeader(clean));
            },
        };
        let lines = match captures(COMMIT_LINES_PATTERN, pretty_string.as_str()) {
            Some(l) => l,
            None => {
                return Err(ParseError::CommitHeader(clean));
            },
        };
        match Commit::from_captures(fields, lines) {
            Ok(c) => {
                assert(c@.files =~= Seq::<FileView>::empty());
                Ok(c)
            },
            Err(_) => Err(ParseError::CommitHeader(clean)),
        }
    }
}

// ---------------------------------------------------------------------------
// The whole log.

/// The log's lines grouped into entries: a line that starts a change takes
/// the next line along (an empty one at the end), any other line stands alone.
pub open spec fn log_units(ls: Seq<Seq<char>>) -> Seq<(Seq<char>, Option<Seq<char>>)>
    decreases ls.len(),
{
    if ls.len() == 0 {
        Seq::empty()
    } else if !is_header_line(ls[0]) {
        seq![(ls[0], None::<Seq<char>>)] + log_units(ls.drop_first())
    } else if ls.len() == 1 {
        seq![(ls[0], Some(Seq::<char>::empty()))]
    } else {
        seq![(ls[0], Some(ls[1]))] + log_units(ls.skip(2))
    }
}

/// A change's two lines joined as the change parser reads them.
pub open spec fn joined(l1: Seq<char>, l2: Seq<char>) -> Seq<char> {
    l1 + seq!['\n'] + l2
}

pub open spec fn unit_parses(u: (Seq<char>, Option<Seq<char>>)) -> bool {
    match u.1 {
        None => true,
        Some(l2) => commit_parses(joined(u.0, l2)),
    }
}

pub open spec fn entry_matches(e: EntryView, u: (Seq<char>, Option<Seq<char>>)) -> bool {
    match u.1 {
        None => e == EntryView::Info(u.0),
        Some(l2) => e matches EntryView::Commit(c) && commit_parsed(c, joined(u.0, l2)),
    }
}

pub open spec fn log_lines(output: Seq<char>) -> Seq<Seq<char>> {
    lines_spec(trim_spec(output))
}

fn is_header_exec(line: &Vec<char>) -> (r: bool)
    ensures
        r == is_header_line(line@),
{
    let clean = string_from_chars(strip_ansi_chars(line).as_slice());
    captures(COMMIT_HEADER_PATTERN, clean.as_str()).is_some()
}

impl InfoText {
    pub fn new(pretty_string: String) -> (r: Self)
        ensures
            r.pretty_string@ == pretty_string@,
            r.flat_log_idx == 0,
    {
        InfoText { pretty_string, flat_log_idx: 0 }
    }
}

impl CommitOrText {
    /// Reads the tool's log: each change from its two lines, each other line
    /// as informational text.
    pub fn load_all(output: &str) -> (r: Result<Vec<CommitOrText>, ParseError>)
        ensures
            ({
                let us = log_units(log_lines(output@));
                &&& r is Ok <==> forall|i: int| 0 <= i < us.len() ==> #[trigger] unit_parses(us[i])
                &&& r matches Ok(v) ==> v@.len() == us.len() && forall|i: int|
                    0 <= i < us.len() ==> entry_matches((#[trigger] v@[i])@, us[i])
            }),
    {
        let text = chars_of(output);
        let trimmed = trim_chars(&text);
        let lines = lines_of(&trimmed);
        let ghost ls = log_lines(output@);
        let ghost us = log_units(ls);
        let mut entries: Vec<CommitOrText> = Vec::new();
        let mut i: usize = 0;
        assert(ls.skip(0) =~= ls);
        while i < lines.len()
            invariant
                i <= lines@.len() == ls.len(),
                views(lines@) == ls,
                ls == log_lines(output@),
                us == log_units(ls),
                entries@.len() <= us.len(),
                us == us.take(entries@.len() as int) + log_units(ls.skip(i as int)),
                forall|j: int| 0 <= j < entries@.len() ==> #[trigger] unit_parses(us[j]),
                forall|j: int|
                    0 <= j < entries@.len() ==> entry_matches((#[trigger] entries@[j])@, us[j]),
            decreases lines@.len() - i,
        {
            let ghost rest = ls.skip(i as int);
            let ghost k = entries@.len() as int;
            assert(rest[0] == ls[i as int]);
            let line1 = string_from_chars(lines[i].as_slice());
            if !is_header_exec(&lines[i]) {
                assert(rest.drop_first() =~= ls.skip(i + 1));
                assert(log_units(rest) == seq![(ls[i as int], None::<Seq<char>>)] + log_units(
                    ls.skip(i + 1),
                ));
                entries.push(CommitOrText::InfoText(InfoText::new(line1)));
                assert(us.take(k + 1) =~= us.take(k).push(us[k]));
                i += 1;
            } else {
                let mut joined_chars = slice_chars(&lines[i], 0, lines[i].len());
                joined_chars.push('\n');
                let ghost l2 = if i + 1 < lines.len() { ls[i + 1] } else { Seq::<char>::empty() };
                if i + 1 < lines.len() {
                    let mut second = slice_chars(&lines[i + 1], 0, lines[i + 1].len());
                    joined_chars.append(&mut second);
                    assert(rest[1] == ls[i + 1]);
                    assert(rest.skip(2) =~= ls.skip(i + 2));
                }
                assert(joined_chars@ =~= joined(ls[i as int], l2));
                assert(log_units(rest)[0] == (ls[i as int], Some(l2)));
                assert(us[k] == (ls[i as int], Some(l2)));
                match Commit::new(string_from_chars(joined_chars.as_slice())) {
                    Ok(c) => entries.push(CommitOrText::Commit(c)),
                    Err(e) => {
                        assert(!unit_parses(us[k]));
                        return Err(e);
                    },
                }
                assert(us.take(k + 1) =~= us.take(k).push(us[k]));
                if i + 1 < lines.len() {
                    i += 2;
                } else {
                    assert(ls.skip(i + 1).len() == 0);
                    i += 1;
                }
            }
        }
        assert(log_units(ls.skip(i as int)) =~= Seq::<(Seq<char>, Option<Seq<char>>)>::empty()) by {
            assert(ls.skip(i as int).len() == 0);
        };
        assert(us.take(entries@.len() as int) =~= us);
        Ok(entries)
    }
}

impl JjLog {
    /// Replaces the log with the entries read from the tool's log output;
    /// on a parse error the log is left as it was.
    pub fn load_log_tree(&mut self, log_output: &str) -> (r: Result<(), ParseError>)
        ensures
            ({
                let us = log_units(log_lines(log_output@));
                &&& r is Ok <==> forall|i: int| 0 <= i < us.len() ==> #[trigger] unit_parses(us[i])
                &&& r is Err ==> final(self)@ == old(self)@
                &&& r is Ok ==> final(self)@.len() == us.len() && forall|i: int|
                    0 <= i < us.len() ==> entry_matches(#[trigger] final(self)@[i], us[i])
            }),
            r is Ok ==> crate::log_tree::log_wf(final(self)@),
    {
        match CommitOrText::load_all(log_output) {
            Ok(entries) => {
                let ghost ev = entries@;
                self.log_tree = entries;
                assert forall|i: int| 0 <= i < ev.len() implies self@[i] == (#[trigger] ev[i])@ by {}
                let ghost us = log_units(log_lines(log_output@));
                assert forall|i: int| 0 <= i < self@.len() implies (#[trigger] self@[i] matches EntryView::Commit(c)
                    ==> crate::log_tree::commit_wf(c)) by {
                    assert(entry_matches(self@[i], us[i]));
                };
                Ok(())
            },
            Err(e) => Err(e),
        }
    }
}

} // verus!
