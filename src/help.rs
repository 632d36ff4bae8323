use vstd::prelude::*;
use indexmap::IndexMap;
use crate::text::{chars_of, string_from_chars};

verus! {

broadcast use {vstd::seq_lib::group_to_multiset_ensures, vstd::multiset::group_multiset_axioms};

#[verifier::external_type_specification]
#[verifier::external_body]
#[verifier::reject_recursive_types(K)]
#[verifier::reject_recursive_types(V)]
#[verifier::reject_recursive_types(S)]
pub struct ExIndexMap<K, V, S>(IndexMap<K, V, S>);

/// Help entries by group, groups in the order they were first added; each
/// entry a key label and what the key does.
pub type HelpEntries = IndexMap<String, Vec<(String, String)>>;

pub type GroupsView = Seq<(Seq<char>, Seq<(Seq<char>, Seq<char>)>)>;

/// The groups a help map holds, in order, each with its entries.
pub uninterp spec fn help_groups(m: HelpEntries) -> GroupsView;

pub open spec fn entries_view(v: Seq<(String, String)>) -> Seq<(Seq<char>, Seq<char>)> {
    v.map_values(|e: (String, String)| (e.0@, e.1@))
}

/// The position of the group named `k`, or -1.
pub open spec fn group_index(g: GroupsView, k: Seq<char>, i: int) -> int
    decreases g.len() - i,
{
    if i < 0 || i >= g.len() {
        -1
    } else if g[i].0 == k {
        i
    } else {
        group_index(g, k, i + 1)
    }
}

/// Relies on `IndexMap::new`: the map is empty.
#[verifier::external_body]
pub fn help_new() -> (r: HelpEntries)
    ensures
        help_groups(r) == Seq::<(Seq<char>, Seq<(Seq<char>, Seq<char>)>)>::empty(),
{
    IndexMap::new()
}

/// Relies on `IndexMap::len`: the number of groups.
#[verifier::external_body]
pub fn help_len(m: &HelpEntries) -> (r: usize)
    ensures
        r == help_groups(*m).len(),
{
    m.len()
}

/// Relies on `IndexMap::get_index_of`: the position of the group, keys
/// being unique.
#[verifier::external_body]
pub fn help_index_of(m: &HelpEntries, k: &str) -> (r: Option<usize>)
    ensures
        r matches Some(i) ==> group_index(help_groups(*m), k@, 0) == i,
        r is None <==> group_index(help_groups(*m), k@, 0) == -1,
{
    m.get_index_of(k)
}

/// Relies on `IndexMap::get_index`: the group at a position, whose name no
/// other group has.
#[verifier::external_body]
pub fn help_get(m: &HelpEntries, i: usize) -> (r: Option<(&String, &Vec<(String, String)>)>)
    ensures
        r is Some <==> i < help_groups(*m).len(),
        r matches Some((k, v)) ==> help_groups(*m)[i as int] == (k@, entries_view(v@)),
        r matches Some((k, v)) ==> forall|j: int|
            0 <= j < help_groups(*m).len() && j != i ==> (#[trigger] help_groups(*m)[j]).0 != k@,
{
    m.get_index(i)
}

/// Relies on `IndexMut<usize>` of `IndexMap`: the entries of the group at a
/// position, to change in place.
#[verifier::external_body]
pub fn help_group_mut(m: &mut HelpEntries, i: usize) -> (r: &mut Vec<(String, String)>)
    requires
        i < help_groups(*old(m)).len(),
    ensures
        entries_view(r@) == help_groups(*old(m))[i as int].1,
        help_groups(*final(m)) == help_groups(*old(m)).update(
            i as int,
            (help_groups(*old(m))[i as int].0, entries_view(final(r)@)),
        ),
{
    &mut m[i]
}

/// Relies on `IndexMap::insert`: an existing group keeps its place and
/// takes the new entries, a new one goes last.
#[verifier::external_body]
pub fn help_insert(m: &mut HelpEntries, k: String, v: Vec<(String, String)>)
    ensures
        ({
            let g = help_groups(*old(m));
            let i = group_index(g, k@, 0);
            help_groups(*final(m)) == if i >= 0 {
                g.update(i, (k@, entries_view(v@)))
            } else {
                g.push((k@, entries_view(v@)))
            }
        }),
{
    m.insert(k, v);
}

/// Adds an entry at the end of a group, making the group first if needed.
pub fn help_add(m: &mut HelpEntries, group: &str, key: String, help: String)
    ensures
        ({
            let g = help_groups(*old(m));
            let i = group_index(g, group@, 0);
            help_groups(*final(m)) == if i >= 0 {
                g.update(i, (group@, g[i].1.push((key@, help@))))
            } else {
                g.push((group@, seq![(key@, help@)]))
            }
        }),
{
    let ghost g = help_groups(*m);
    proof {
        lemma_group_index(g, group@, 0);
    }
    let ghost kv = key@;
    let ghost hv = help@;
    match help_index_of(m, group) {
        Some(i) => {
            let entries = help_group_mut(m, i);
            let ghost before = entries@;
            entries.push((key, help));
            assert(entries_view(entries@) =~= entries_view(before).push((kv, hv)));
        },
        None => {
            let v = vec![(key, help)];
            assert(entries_view(v@) =~= seq![(kv, hv)]);
            help_insert(m, string_from_chars(chars_of(group).as_slice()), v);
        },
    }
}

pub proof fn lemma_group_index(g: GroupsView, k: Seq<char>, i: int)
    requires
        0 <= i,
    ensures
        group_index(g, k, i) == -1 || (i <= group_index(g, k, i) < g.len() && g[group_index(g, k, i)].0
            == k),
    decreases g.len() - i,
{
    if i < g.len() && g[i].0 != k {
        lemma_group_index(g, k, i + 1);
    }
}

// ---------------------------------------------------------------------------
// Ordering entries: by key label, then by text, comparing characters.

/// `a` comes before `b`, or equals it.
pub open spec fn text_le(a: Seq<char>, b: Seq<char>) -> bool
    decreases a.len(),
{
    if a.len() == 0 {
        true
    } else if b.len() == 0 {
        false
    } else if a[0] != b[0] {
        (a[0] as int) < (b[0] as int)
    } else {
        text_le(a.drop_first(), b.drop_first())
    }
}

pub open spec fn entry_le(a: (Seq<char>, Seq<char>), b: (Seq<char>, Seq<char>)) -> bool {
    if a.0 == b.0 { text_le(a.1, b.1) } else { text_le(a.0, b.0) }
}

/// Each entry comes before or equals the next.
pub open spec fn sorted(v: Seq<(Seq<char>, Seq<char>)>) -> bool {
    forall|i: int| 0 <= i < v.len() - 1 ==> entry_le(#[trigger] v[i], v[i + 1])
}

proof fn lemma_text_total(a: Seq<char>, b: Seq<char>)
    ensures
        text_le(a, b) || text_le(b, a),
        text_le(a, b) && text_le(b, a) ==> a == b,
    decreases a.len(),
{
    if a.len() > 0 && b.len() > 0 && a[0] != b[0] {
        assert((a[0] as int) != (b[0] as int));
    }
    if a.len() > 0 && b.len() > 0 && a[0] == b[0] {
        lemma_text_total(a.drop_first(), b.drop_first());
        if text_le(a, b) && text_le(b, a) {
            assert(a =~= seq![a[0]] + a.drop_first());
            assert(b =~= seq![b[0]] + b.drop_first());
        }
    }
    if a.len() == 0 && b.len() == 0 {
        assert(a =~= b);
    }
}

fn text_le_exec(a: &String, b: &String) -> (r: bool)
    ensures
        r == text_le(a@, b@),
{
    let x = chars_of(a.as_str());
    let y = chars_of(b.as_str());
    let mut i: usize = 0;
    assert(x@.skip(0) =~= x@);
    assert(y@.skip(0) =~= y@);
    while i < x.len() && i < y.len() && x[i] == y[i]
        invariant
            i <= x@.len(),
            i <= y@.len(),
            x@ == a@,
            y@ == b@,
            text_le(x@, y@) == text_le(x@.skip(i as int), y@.skip(i as int)),
        decreases x@.len() - i,
    {
        assert(x@.skip(i as int).drop_first() =~= x@.skip(i + 1));
        assert(y@.skip(i as int).drop_first() =~= y@.skip(i + 1));
        i += 1;
    }
    if i == x.len() {
        true
    } else if i == y.len() {
        false
    } else {
        x[i] < y[i]
    }
}

fn text_eq_exec(a: &String, b: &String) -> (r: bool)
    ensures
        r == (a@ == b@),
{
    let x = chars_of(a.as_str());
    let y = chars_of(b.as_str());
    if x.len() != y.len() {
        assert(x@.len() != y@.len());
        return false;
    }
    let mut i: usize = 0;
    while i < x.len()
        invariant
            i <= x@.len() == y@.len(),
            x@ == a@,
            y@ == b@,
            forall|j: int| 0 <= j < i ==> x@[j] == y@[j],
        decreases x@.len() - i,
    {
        if x[i] != y[i] {
            assert(x@[i as int] != y@[i as int]);
            return false;
        }
        i += 1;
    }
    assert(x@ =~= y@);
    true
}

fn entry_le_exec(a: &(String, String), b: &(String, String)) -> (r: bool)
    ensures
        r == entry_le((a.0@, a.1@), (b.0@, b.1@)),
{
    if text_eq_exec(&a.0, &b.0) {
        text_le_exec(&a.1, &b.1)
    } else {
        text_le_exec(&a.0, &b.0)
    }
}

/// The entries in order, by key label and then by text.
pub fn sort_entries(v: Vec<(String, String)>) -> (r: Vec<(String, String)>)
    ensures
        sorted(entries_view(r@)),
        entries_view(r@).to_multiset() == entries_view(v@).to_multiset(),
{
    let mut out: Vec<(String, String)> = Vec::new();
    let mut rest = v;
    let ghost orig = entries_view(rest@);
    assert(entries_view(out@) =~= Seq::<(Seq<char>, Seq<char>)>::empty());
    assert(entries_view(rest@) =~= orig.skip(0));
    // Entries are taken from the back of `rest` and inserted in place.
    while rest.len() > 0
        invariant
            sorted(entries_view(out@)),
            entries_view(out@).to_multiset().add(entries_view(rest@).to_multiset())
                == orig.to_multiset(),
        decreases rest@.len(),
    {
        let ghost rv = entries_view(rest@);
        let e = rest.pop().unwrap();
        let ghost ev = (e.0@, e.1@);
        assert(rv =~= entries_view(rest@).push(ev));
        let mut p: usize = 0;
        while p < out.len() && entry_le_exec(&out[p], &e)
            invariant
                p <= out@.len(),
                ev == (e.0@, e.1@),
                forall|j: int| 0 <= j < p ==> entry_le(#[trigger] entries_view(out@)[j], ev),
            decreases out@.len() - p,
        {
            assert(entries_view(out@)[p as int] == (out@[p as int].0@, out@[p as int].1@));
            p += 1;
        }
        let ghost ov = entries_view(out@);
        proof {
            if p < out@.len() {
                let x = ov[p as int];
                lemma_text_total(x.0, ev.0);
                lemma_text_total(x.1, ev.1);
                lemma_text_total(ev.0, x.0);
            }
        }
        out.insert(p, e);
        assert(entries_view(out@) =~= ov.insert(p as int, ev));
        proof {
            vstd::seq_lib::to_multiset_insert(ov, p as int, ev);
            vstd::seq_lib::to_multiset_build(entries_view(rest@), ev);
            let nv = entries_view(out@);
            assert forall|j: int| 0 <= j < nv.len() - 1 implies entry_le(
                #[trigger] nv[j],
                nv[j + 1],
            ) by {
                if j + 1 < p {
                    assert(nv[j] == ov[j] && nv[j + 1] == ov[j + 1]);
                } else if j + 1 == p {
                    assert(nv[j] == ov[j]);
                } else if j == p {
                } else {
                    assert(nv[j] == ov[j - 1] && nv[j + 1] == ov[j]);
                }
            };
        }
    }
    assert(entries_view(rest@) =~= Seq::<(Seq<char>, Seq<char>)>::empty());
    out
}

} // verus!
