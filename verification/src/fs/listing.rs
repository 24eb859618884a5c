//! Listing directories.

use vstd::prelude::*;
use vstd::string::*;
use crate::fs::read::{cut_result, finish};
use crate::text::chars::to_chars;
use crate::tool::{SideEffect, ToolResult};

verus! {

/// One entry of a directory.
#[derive(Debug)]
pub struct ListedEntry {
    pub name: String,
    /// `dir`, `file` or `symlink`.
    pub kind: &'static str,
    pub size: u64,
}

/// An entry with its texts as sequences.
#[verifier::ext_equal]
pub struct ListedView {
    pub name: Seq<char>,
    pub kind: Seq<char>,
    pub size: u64,
}

impl View for ListedEntry {
    type V = ListedView;

    open spec fn view(&self) -> ListedView {
        ListedView { name: self.name@, kind: self.kind@, size: self.size }
    }
}

/// The entries of a list.
pub open spec fn listed_views(v: Seq<ListedEntry>) -> Seq<ListedView> {
    Seq::new(v.len(), |i: int| v[i]@)
}

/// What an entry is called by what the file system says of it.
pub open spec fn kind_name(is_dir: bool, is_file: bool) -> Seq<char> {
    if is_dir {
        "dir"@
    } else if is_file {
        "file"@
    } else {
        "symlink"@
    }
}

/// What an entry is called by what the file system says of it.
pub fn entry_type_of(is_dir: bool, is_file: bool) -> (r: &'static str)
    ensures
        r@ == kind_name(is_dir, is_file),
{
    if is_dir {
        "dir"
    } else if is_file {
        "file"
    } else {
        "symlink"
    }
}

/// `a` comes before `b` in the dictionary order of their code points, or is
/// equal to it.
pub open spec fn not_after(a: Seq<char>, b: Seq<char>) -> bool
    decreases a.len(),
{
    if a.len() == 0 {
        true
    } else if b.len() == 0 {
        false
    } else if a[0] != b[0] {
        a[0] < b[0]
    } else {
        not_after(a.drop_first(), b.drop_first())
    }
}

/// Two different texts are in order one way only, and the order carries over.
proof fn lemma_total(a: Seq<char>, b: Seq<char>)
    ensures
        not_after(a, b) || not_after(b, a),
    decreases a.len(),
{
    if a.len() > 0 && b.len() > 0 && a[0] == b[0] {
        lemma_total(a.drop_first(), b.drop_first());
    }
}

proof fn lemma_transitive(a: Seq<char>, b: Seq<char>, c: Seq<char>)
    requires
        not_after(a, b),
        not_after(b, c),
    ensures
        not_after(a, c),
    decreases a.len(),
{
    if a.len() > 0 && b.len() > 0 && c.len() > 0 && a[0] == b[0] && b[0] == c[0] {
        lemma_transitive(a.drop_first(), b.drop_first(), c.drop_first());
    }
}

/// Whether `a` does not come after `b`.
fn in_order(a: &[char], b: &[char]) -> (r: bool)
    ensures
        r == not_after(a@, b@),
{
    let mut i: usize = 0;
    assert(a@.skip(0) == a@);
    assert(b@.skip(0) == b@);
    loop
        invariant
            i <= a@.len(),
            i <= b@.len(),
            not_after(a@, b@) == not_after(a@.skip(i as int), b@.skip(i as int)),
        decreases a@.len() - i,
    {
        if i >= a.len() {
            return true;
        }
        if i >= b.len() {
            return false;
        }
        if a[i] != b[i] {
            return a[i] < b[i];
        }
        assert(a@.skip(i as int).drop_first() == a@.skip(i + 1));
        assert(b@.skip(i as int).drop_first() == b@.skip(i + 1));
        i = i + 1;
    }
}

/// The place for an entry in an ordered list: behind all that do not come
/// after it.
pub open spec fn place_for(v: Seq<ListedView>, name: Seq<char>) -> int
    decreases v.len(),
{
    if v.len() == 0 || not_after(v.last().name, name) {
        v.len() as int
    } else {
        place_for(v.drop_last(), name)
    }
}

/// The entries in the order of their names; entries of one name keep the
/// order they came in.
pub open spec fn by_name(v: Seq<ListedView>) -> Seq<ListedView>
    decreases v.len(),
{
    if v.len() == 0 {
        Seq::empty()
    } else {
        let init = by_name(v.drop_last());
        init.insert(place_for(init, v.last().name), v.last())
    }
}

/// The names are in order.
pub open spec fn is_ordered(v: Seq<ListedView>) -> bool {
    forall|i: int, j: int| 0 <= i <= j < v.len() ==> not_after(v[i].name, v[j].name)
}

proof fn lemma_place(v: Seq<ListedView>, name: Seq<char>)
    requires
        is_ordered(v),
    ensures
        0 <= place_for(v, name) <= v.len(),
        forall|i: int| 0 <= i < place_for(v, name) ==> not_after(#[trigger] v[i].name, name),
        forall|i: int| place_for(v, name) <= i < v.len() ==> not_after(name, #[trigger] v[i].name),
    decreases v.len(),
{
    if v.len() == 0 {
    } else if not_after(v.last().name, name) {
        assert forall|i: int| 0 <= i < v.len() implies not_after(#[trigger] v[i].name, name) by {
            lemma_transitive(v[i].name, v[v.len() - 1].name, name);
        }
    } else {
        let init = v.drop_last();
        assert forall|i: int, j: int| 0 <= i <= j < init.len() implies not_after(
            init[i].name,
            init[j].name,
        ) by {
            assert(not_after(v[i].name, v[j].name));
        }
        lemma_place(init, name);
        let p = place_for(init, name);
        lemma_total(v.last().name, name);
        assert forall|i: int| 0 <= i < p implies not_after(#[trigger] v[i].name, name) by {
            assert(init[i] == v[i]);
        }
        assert forall|i: int| p <= i < v.len() implies not_after(name, #[trigger] v[i].name) by {
            if i < init.len() {
                assert(init[i] == v[i]);
            }
        }
    }
}

/// Ordering by name puts the names in order and neither adds nor loses an
/// entry.
pub proof fn by_name_orders(v: Seq<ListedView>)
    ensures
        is_ordered(by_name(v)),
        by_name(v).to_multiset() == v.to_multiset(),
        by_name(v).len() == v.len(),
    decreases v.len(),
{
    broadcast use vstd::seq_lib::group_to_multiset_ensures;

    if v.len() > 0 {
        let init = by_name(v.drop_last());
        by_name_orders(v.drop_last());
        let e = v.last();
        let p = place_for(init, e.name);
        lemma_place(init, e.name);
        let out = init.insert(p, e);
        assert forall|i: int, j: int| 0 <= i <= j < out.len() implies not_after(
            out[i].name,
            out[j].name,
        ) by {
            let i0 = if i < p { i } else { i - 1 };
            let j0 = if j < p { j } else { j - 1 };
            if i == p && j == p {
                lemma_total(e.name, e.name);
            } else if i == p {
                assert(not_after(e.name, init[j0].name));
            } else if j == p {
                assert(not_after(init[i0].name, e.name));
            } else {
                assert(not_after(init[i0].name, init[j0].name));
            }
        }
        assert(v == v.drop_last().push(e));
    }
}

/// Puts entries in the order of their names.
pub fn sort_by_name(entries: Vec<ListedEntry>) -> (r: Vec<ListedEntry>)
    ensures
        listed_views(r@) == by_name(listed_views(entries@)),
{
    let ghost all = listed_views(entries@);
    let mut out: Vec<ListedEntry> = Vec::new();
    let mut i: usize = 0;
    assert(all.take(0) == Seq::<ListedView>::empty());
    assert(listed_views(out@) == Seq::<ListedView>::empty());
    while i < entries.len()
        invariant
            i <= entries@.len(),
            all == listed_views(entries@),
            listed_views(out@) == by_name(all.take(i as int)),
        decreases entries@.len() - i,
    {
        let ghost sorted = listed_views(out@);
        assert(all.take(i + 1).drop_last() == all.take(i as int));
        assert(all.take(i + 1).last() == entries@[i as int]@);
        let name = to_chars(entries[i].name.as_str());
        let mut at: usize = out.len();
        assert(sorted.take(sorted.len() as int) == sorted);
        loop
            invariant
                at <= out@.len(),
                sorted == listed_views(out@),
                place_for(sorted, name@) == place_for(sorted.take(at as int), name@),
            ensures
                at == place_for(sorted, name@),
                at <= out@.len(),
                sorted == listed_views(out@),
            decreases at,
        {
            if at == 0 {
                break ;
            }
            let other = to_chars(out[at - 1].name.as_str());
            assert(sorted.take(at as int).last().name == other@);
            assert(sorted.take(at as int).drop_last() == sorted.take(at - 1));
            if in_order(other.as_slice(), name.as_slice()) {
                break ;
            }
            at = at - 1;
        }
        let e = ListedEntry {
            name: entries[i].name.clone(),
            kind: entries[i].kind,
            size: entries[i].size,
        };
        let ghost ev = e@;
        out.insert(at, e);
        assert(listed_views(out@) == sorted.insert(at as int, ev));
        i = i + 1;
    }
    assert(all.take(all.len() as int) == all);
    out
}

/// The `fs.list` tool.
#[derive(Debug, Clone, Copy, Default)]
pub struct FsList {}

impl FsList {
    pub fn new() -> Self {
        FsList {  }
    }

    pub fn name(&self) -> (r: &'static str)
        ensures
            r@ == "fs.list"@,
    {
        "fs.list"
    }

    pub fn side_effect(&self) -> (r: SideEffect)
        ensures
            r == SideEffect::Nothing,
    {
        SideEffect::Nothing
    }

    /// The entries in the order they are listed: one directory by name, a
    /// whole tree in the order it was walked.
    pub fn arrange(&self, entries: Vec<ListedEntry>, recursive: bool) -> (r: Vec<ListedEntry>)
        ensures
            listed_views(r@) == (if recursive {
                listed_views(entries@)
            } else {
                by_name(listed_views(entries@))
            }),
    {
        if recursive {
            entries
        } else {
            sort_by_name(entries)
        }
    }

    /// The written-out list, cut to what a result shows.
    pub fn present(&self, written: String, max_output_bytes: usize) -> (r: ToolResult)
        ensures
            r@ == cut_result(written@, max_output_bytes as int),
    {
        finish(written, max_output_bytes)
    }
}

/// Where two names differ first, the one with the lower code point there comes
/// first; a name comes before every longer name that begins with it.
pub proof fn names_are_compared_at_their_first_difference(a: Seq<char>, b: Seq<char>, k: int)
    requires
        0 <= k <= a.len(),
        k <= b.len(),
        a.take(k) == b.take(k),
    ensures
        k < a.len() && k < b.len() && a[k] < b[k] ==> not_after(a, b) && !not_after(b, a),
        k == a.len() ==> not_after(a, b),
        k == b.len() && k < a.len() ==> !not_after(a, b),
    decreases k,
{
    if k > 0 {
        assert(a[0] == a.take(k)[0] && b[0] == b.take(k)[0]);
        assert(a.drop_first().take(k - 1) == a.take(k).drop_first());
        assert(b.drop_first().take(k - 1) == b.take(k).drop_first());
        names_are_compared_at_their_first_difference(a.drop_first(), b.drop_first(), k - 1);
    }
}

/// A directory is listed by name: every entry once, none added and none lost,
/// each with its kind and size. A tree is listed as it was walked.
pub proof fn listing_orders_every_entry(
    tool: &FsList,
    entries: Vec<ListedEntry>,
    recursive: bool,
    r: Vec<ListedEntry>,
)
    requires
        call_ensures(FsList::arrange, (tool, entries, recursive), r),
    ensures
        recursive ==> listed_views(r@) == listed_views(entries@),
        listed_views(r@).to_multiset() == listed_views(entries@).to_multiset(),
        r@.len() == entries@.len(),
        !recursive ==> forall|i: int, j: int|
            0 <= i < j < r@.len() ==> not_after((#[trigger] r@[i]).name@, (#[trigger] r@[j]).name@),
{
    by_name_orders(listed_views(entries@));
    assert(listed_views(r@).len() == r@.len());
    assert(listed_views(entries@).len() == entries@.len());
    if !recursive {
        assert forall|i: int, j: int| 0 <= i < j < r@.len() implies not_after(
            (#[trigger] r@[i]).name@,
            (#[trigger] r@[j]).name@,
        ) by {
            let v = listed_views(r@);
            assert(v[i] == r@[i]@ && v[j] == r@[j]@);
            assert(not_after(v[i].name, v[j].name));
        }
    }
}

/// A directory is a directory, whatever else is said of it; what is neither a
/// directory nor a file is a link.
pub proof fn kinds_of_entries(is_dir: bool, is_file: bool, r: &'static str)
    requires
        call_ensures(entry_type_of, (is_dir, is_file), r),
    ensures
        is_dir ==> r@ == "dir"@,
        !is_dir && is_file ==> r@ == "file"@,
        !is_dir && !is_file ==> r@ == "symlink"@,
{
}

} // verus!
