use vstd::prelude::*;

verus! {

/// The characters of a string, in order.
pub fn chars_of(s: &str) -> (r: Vec<char>)
    ensures
        r@ == s@,
{
    let mut r: Vec<char> = Vec::new();
    for c in it: s.chars()
        invariant
            r@ == it.seq().take(it.index() as int),
    {
        r.push(c);
        assert(r@ =~= it.seq().take(it.index() + 1));
    }
    proof {
        vstd::string::axiom_spec_iter(s);
    }
    assert(r@ =~= s@);
    r
}

/// Relies on `String`'s `FromIterator<char>`: the string holds the
/// characters in order.
#[verifier::external_body]
pub fn string_from_chars(v: &[char]) -> (r: String)
    ensures
        r@ == v@,
{
    v.iter().collect()
}

/// Unicode's White_Space property, which `char::is_whitespace` and `\s` test.
pub open spec fn is_ws(c: char) -> bool {
    ('\t' <= c && c <= '\r') || c == ' ' || c == '\u{85}' || c == '\u{a0}' || c == '\u{1680}'
        || ('\u{2000}' <= c && c <= '\u{200a}') || c == '\u{2028}' || c == '\u{2029}'
        || c == '\u{202f}' || c == '\u{205f}' || c == '\u{3000}'
}

pub fn is_whitespace(c: char) -> (r: bool)
    ensures
        r == is_ws(c),
{
    ('\t' <= c && c <= '\r') || c == ' ' || c == '\u{85}' || c == '\u{a0}' || c == '\u{1680}'
        || ('\u{2000}' <= c && c <= '\u{200a}') || c == '\u{2028}' || c == '\u{2029}'
        || c == '\u{202f}' || c == '\u{205f}' || c == '\u{3000}'
}

pub open spec fn is_digit(c: char) -> bool {
    '0' <= c && c <= '9'
}

/// The index of the first character at or after `i` that is not whitespace.
pub open spec fn skip_ws(s: Seq<char>, i: int) -> int
    decreases s.len() - i,
{
    if i >= s.len() || !is_ws(s[i]) { i } else { skip_ws(s, i + 1) }
}

/// The index of the first character at or after `i` that is not a digit.
pub open spec fn skip_digits(s: Seq<char>, i: int) -> int
    decreases s.len() - i,
{
    if i >= s.len() || !is_digit(s[i]) { i } else { skip_digits(s, i + 1) }
}

/// The index just past the last character before `j` that is not whitespace.
pub open spec fn skip_ws_back(s: Seq<char>, j: int) -> int
    decreases j,
{
    if j <= 0 || !is_ws(s[j - 1]) { j } else { skip_ws_back(s, j - 1) }
}

/// The string without whitespace at either end.
pub open spec fn trim_spec(s: Seq<char>) -> Seq<char> {
    let i = skip_ws(s, 0);
    let j = skip_ws_back(s, s.len() as int);
    s.subrange(i, if j < i { i } else { j })
}

pub proof fn lemma_skip_ws_bounds(s: Seq<char>, i: int)
    requires
        0 <= i <= s.len(),
    ensures
        i <= skip_ws(s, i) <= s.len(),
        forall|k: int| i <= k < skip_ws(s, i) ==> is_ws(s[k]),
    decreases s.len() - i,
{
    if i < s.len() && is_ws(s[i]) {
        lemma_skip_ws_bounds(s, i + 1);
    }
}

pub proof fn lemma_skip_digits_bounds(s: Seq<char>, i: int)
    requires
        0 <= i <= s.len(),
    ensures
        i <= skip_digits(s, i) <= s.len(),
        forall|k: int| i <= k < skip_digits(s, i) ==> is_digit(s[k]),
    decreases s.len() - i,
{
    if i < s.len() && is_digit(s[i]) {
        lemma_skip_digits_bounds(s, i + 1);
    }
}

pub proof fn lemma_skip_ws_back_bounds(s: Seq<char>, j: int)
    requires
        0 <= j <= s.len(),
    ensures
        0 <= skip_ws_back(s, j) <= j,
    decreases j,
{
    if j > 0 && is_ws(s[j - 1]) {
        lemma_skip_ws_back_bounds(s, j - 1);
    }
}

pub fn skip_ws_exec(s: &Vec<char>, i: usize) -> (r: usize)
    requires
        i <= s@.len(),
    ensures
        r == skip_ws(s@, i as int),
{
    let mut k = i;
    while k < s.len() && is_whitespace(s[k])
        invariant
            i <= k <= s@.len(),
            skip_ws(s@, k as int) == skip_ws(s@, i as int),
        decreases s@.len() - k,
    {
        k += 1;
    }
    k
}

pub fn skip_digits_exec(s: &Vec<char>, i: usize) -> (r: usize)
    requires
        i <= s@.len(),
    ensures
        r == skip_digits(s@, i as int),
{
    let mut k = i;
    while k < s.len() && '0' <= s[k] && s[k] <= '9'
        invariant
            i <= k <= s@.len(),
            skip_digits(s@, k as int) == skip_digits(s@, i as int),
        decreases s@.len() - k,
    {
        k += 1;
    }
    k
}

pub fn skip_ws_back_exec(s: &Vec<char>, j: usize) -> (r: usize)
    requires
        j <= s@.len(),
    ensures
        r == skip_ws_back(s@, j as int),
{
    let mut k = j;
    while k > 0 && is_whitespace(s[k - 1])
        invariant
            0 <= k <= j <= s@.len(),
            skip_ws_back(s@, k as int) == skip_ws_back(s@, j as int),
        decreases k,
    {
        k -= 1;
    }
    k
}

/// The characters of `s` from `i` up to `j`.
pub fn slice_chars(s: &Vec<char>, i: usize, j: usize) -> (r: Vec<char>)
    requires
        i <= j <= s@.len(),
    ensures
        r@ == s@.subrange(i as int, j as int),
{
    let mut r: Vec<char> = Vec::new();
    let mut k = i;
    while k < j
        invariant
            i <= k <= j <= s@.len(),
            r@ == s@.subrange(i as int, k as int),
        decreases j - k,
    {
        r.push(s[k]);
        assert(r@ =~= s@.subrange(i as int, k + 1));
        k += 1;
    }
    r
}

/// `s` without whitespace at either end.
pub fn trim_chars(s: &Vec<char>) -> (r: Vec<char>)
    ensures
        r@ == trim_spec(s@),
{
    let i = skip_ws_exec(s, 0);
    let j = skip_ws_back_exec(s, s.len());
    proof {
        lemma_skip_ws_bounds(s@, 0);
        lemma_skip_ws_back_bounds(s@, s@.len() as int);
    }
    let j = if j < i { i } else { j };
    slice_chars(s, i, j)
}

// ---------------------------------------------------------------------------
// Splitting into lines, as `str::lines` does.

/// The index of the first `c` at or after `i`, or the length if none.
pub open spec fn find_char(s: Seq<char>, c: char, i: int) -> int
    decreases s.len() - i,
{
    if i >= s.len() || s[i] == c { i } else { find_char(s, c, i + 1) }
}

pub proof fn lemma_find_char_bounds(s: Seq<char>, c: char, i: int)
    requires
        0 <= i <= s.len(),
    ensures
        i <= find_char(s, c, i) <= s.len(),
        find_char(s, c, i) < s.len() ==> s[find_char(s, c, i)] == c,
        forall|k: int| i <= k < find_char(s, c, i) ==> s[k] != c,
    decreases s.len() - i,
{
    if i < s.len() && s[i] != c {
        lemma_find_char_bounds(s, c, i + 1);
    }
}

pub fn find_char_exec(s: &Vec<char>, c: char, i: usize) -> (r: usize)
    requires
        i <= s@.len(),
    ensures
        r == find_char(s@, c, i as int),
{
    let mut k = i;
    while k < s.len() && s[k] != c
        invariant
            i <= k <= s@.len(),
            find_char(s@, c, k as int) == find_char(s@, c, i as int),
        decreases s@.len() - k,
    {
        k += 1;
    }
    k
}

/// A line without the `\r` that ends it, if any.
pub open spec fn strip_cr(l: Seq<char>) -> Seq<char> {
    if l.len() > 0 && l.last() == '\r' { l.drop_last() } else { l }
}

/// The lines of `s`: split at each `\n`, without a last empty line, each
/// without a trailing `\r`.
pub open spec fn lines_spec(s: Seq<char>) -> Seq<Seq<char>>
    decreases s.len() via lines_spec_decreases
{
    if s.len() == 0 {
        Seq::empty()
    } else {
        let i = find_char(s, '\n', 0);
        if i < s.len() {
            seq![strip_cr(s.take(i))] + lines_spec(s.skip(i + 1))
        } else {
            seq![strip_cr(s)]
        }
    }
}

#[via_fn]
proof fn lines_spec_decreases(s: Seq<char>) {
    if s.len() > 0 {
        lemma_find_char_bounds(s, '\n', 0);
    }
}

/// The character sequences of a list of character vectors.
pub open spec fn views(v: Seq<Vec<char>>) -> Seq<Seq<char>> {
    v.map_values(|l: Vec<char>| l@)
}

pub fn lines_of(s: &Vec<char>) -> (r: Vec<Vec<char>>)
    ensures
        views(r@) == lines_spec(s@),
{
    let mut r: Vec<Vec<char>> = Vec::new();
    let mut i: usize = 0;
    let ghost all = s@;
    assert(all.skip(0) =~= all);
    assert(views(r@) + lines_spec(all) =~= lines_spec(all));
    while i < s.len()
        invariant
            i <= s@.len(),
            all == s@,
            lines_spec(all) == views(r@) + lines_spec(all.skip(i as int)),
        decreases s@.len() - i,
    {
        let j = find_char_exec(s, '\n', i);
        proof {
            lemma_find_char_bounds(s@, '\n', i as int);
            let t = all.skip(i as int);
            lemma_find_char_bounds(t, '\n', 0);
            lemma_find_char_shift(all, '\n', i as int, 0);
        }
        let mut end = j;
        if end > i && s[end - 1] == '\r' {
            end = end - 1;
        }
        let line = slice_chars(s, i, end);
        let ghost before = r@;
        r.push(line);
        proof {
            let t = all.skip(i as int);
            assert(views(r@) =~= views(before).push(line@));
            assert(t.take(j - i) =~= all.subrange(i as int, j as int));
            assert(line@ =~= strip_cr(t.take(j - i)));
            assert(t.len() > 0);
            if j < s@.len() {
                assert(t.skip(j - i + 1) =~= all.skip(j + 1));
                assert(lines_spec(t) == seq![line@] + lines_spec(all.skip(j + 1)));
                assert(views(r@) + lines_spec(all.skip(j + 1)) =~= views(before) + lines_spec(t));
            } else {
                assert(t.take(j - i) =~= t);
                assert(lines_spec(t) == seq![line@]);
            }
        }
        if j >= s.len() {
            assert(lines_spec(all.skip(s@.len() as int)) =~= Seq::<Seq<char>>::empty()) by {
                assert(all.skip(s@.len() as int).len() == 0);
            };
            return r;
        }
        i = j + 1;
    }
    assert(all.skip(i as int).len() == 0);
    assert(views(r@) + Seq::<Seq<char>>::empty() =~= views(r@));
    r
}

/// Searching from `i` in `s` is searching from `0` in what follows `i`.
pub proof fn lemma_find_char_shift(s: Seq<char>, c: char, i: int, k: int)
    requires
        0 <= i <= s.len(),
        0 <= k <= s.len() - i,
    ensures
        find_char(s.skip(i), c, k) == find_char(s, c, i + k) - i,
    decreases s.len() - i - k,
{
    if i + k < s.len() && s[i + k] != c {
        lemma_find_char_shift(s, c, i, k + 1);
    }
}

// ---------------------------------------------------------------------------
// Removing colour codes: each `ESC [ [0-9;]* m`, leftmost first.

pub open spec fn is_sgr_param(c: char) -> bool {
    is_digit(c) || c == ';'
}

/// The index of the first character at or after `i` that is not a digit or `;`.
pub open spec fn skip_params(s: Seq<char>, i: int) -> int
    decreases s.len() - i,
{
    if i >= s.len() || !is_sgr_param(s[i]) { i } else { skip_params(s, i + 1) }
}

pub proof fn lemma_skip_params_bounds(s: Seq<char>, i: int)
    requires
        0 <= i <= s.len(),
    ensures
        i <= skip_params(s, i) <= s.len(),
    decreases s.len() - i,
{
    if i < s.len() && is_sgr_param(s[i]) {
        lemma_skip_params_bounds(s, i + 1);
    }
}

/// The index just past the colour code that starts at `i`, or `i` if none does.
pub open spec fn sgr_end(s: Seq<char>, i: int) -> int {
    if i + 1 < s.len() && s[i] == '\x1b' && s[i + 1] == '[' {
        let k = skip_params(s, i + 2);
        if k < s.len() && s[k] == 'm' { k + 1 } else { i }
    } else {
        i
    }
}

/// What is left of `s` from `i` on once the colour codes are removed.
pub open spec fn strip_from(s: Seq<char>, i: int) -> Seq<char>
    decreases s.len() - i,
{
    if i >= s.len() || i < 0 {
        Seq::empty()
    } else if sgr_end(s, i) > i {
        strip_from(s, sgr_end(s, i))
    } else {
        seq![s[i]] + strip_from(s, i + 1)
    }
}

pub open spec fn strip_spec(s: Seq<char>) -> Seq<char> {
    strip_from(s, 0)
}

fn skip_params_exec(s: &Vec<char>, i: usize) -> (r: usize)
    requires
        i <= s@.len(),
    ensures
        r == skip_params(s@, i as int),
{
    let mut k = i;
    while k < s.len() && (('0' <= s[k] && s[k] <= '9') || s[k] == ';')
        invariant
            i <= k <= s@.len(),
            skip_params(s@, k as int) == skip_params(s@, i as int),
        decreases s@.len() - k,
    {
        k += 1;
    }
    k
}

fn sgr_end_exec(s: &Vec<char>, i: usize) -> (r: usize)
    requires
        i < s@.len(),
    ensures
        r == sgr_end(s@, i as int),
        i <= r <= s@.len(),
{
    if i < s.len() - 1 && s[i] == '\x1b' && s[i + 1] == '[' {
        let k = skip_params_exec(s, i + 2);
        proof {
            lemma_skip_params_bounds(s@, i + 2);
        }
        if k < s.len() && s[k] == 'm' {
            k + 1
        } else {
            i
        }
    } else {
        i
    }
}

/// The characters of `s` without its colour codes.
pub fn strip_ansi_chars(s: &Vec<char>) -> (r: Vec<char>)
    ensures
        r@ == strip_spec(s@),
{
    let mut r: Vec<char> = Vec::new();
    let mut i: usize = 0;
    while i < s.len()
        invariant
            i <= s@.len(),
            strip_spec(s@) == r@ + strip_from(s@, i as int),
        decreases s@.len() - i,
    {
        let e = sgr_end_exec(s, i);
        if e > i {
            i = e;
        } else {
            let ghost before = r@;
            r.push(s[i]);
            assert(before + strip_from(s@, i as int) =~= r@ + strip_from(s@, i + 1));
            i += 1;
        }
    }
    assert(r@ + strip_from(s@, i as int) =~= r@);
    r
}

/// A string without its colour codes.
pub fn strip_ansi(s: &str) -> (r: String)
    ensures
        r@ == strip_spec(s@),
{
    let cs = chars_of(s);
    let clean = strip_ansi_chars(&cs);
    string_from_chars(clean.as_slice())
}

} // verus!
