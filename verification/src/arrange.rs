//! Desktops with their button texts, and the orders the bar can show them in.

use vstd::prelude::*;
use vstd::multiset::Multiset;
use crate::text::{text_le, text_less_eq, lemma_text_le_total, lemma_text_le_transitive,
    lemma_text_le_reflexive};
use crate::vdesk::{VirtualDesktop, VirtualDesktopView};

verus! {

/// A desktop together with the label and tooltip its button shows.
#[derive(Debug)]
pub struct DesktopEntry {
    pub vdesk: VirtualDesktop,
    pub display_text: String,
    pub tooltip_text: String,
}

/// The mathematical value of a desktop entry.
pub struct DesktopEntryView {
    pub vdesk: VirtualDesktopView,
    pub display_text: Seq<char>,
    pub tooltip_text: Seq<char>,
}

impl View for DesktopEntry {
    type V = DesktopEntryView;

    open spec fn view(&self) -> DesktopEntryView {
        DesktopEntryView {
            vdesk: self.vdesk@,
            display_text: self.display_text@,
            tooltip_text: self.tooltip_text@,
        }
    }
}

/// The views of a list of entries.
pub open spec fn entries_view(s: Seq<DesktopEntry>) -> Seq<DesktopEntryView> {
    s.map_values(|e: DesktopEntry| e@)
}

/// The name of an entry's desktop.
pub open spec fn name_of(e: DesktopEntryView) -> Seq<char> {
    e.vdesk.name
}

/// `x` sorts strictly after `e` by name.
pub open spec fn sorts_after(e: DesktopEntryView, x: DesktopEntryView) -> bool {
    !text_le(name_of(e), name_of(x))
}

/// Inserts `x` into a list, before the first entry whose name comes strictly
/// after `x`'s name (so after all entries of equal name).
pub open spec fn insert_by_name(s: Seq<DesktopEntryView>, x: DesktopEntryView) -> Seq<
    DesktopEntryView,
>
    decreases s.len(),
{
    if s.len() == 0 {
        seq![x]
    } else if sorts_after(s[0], x) {
        seq![x] + s
    } else {
        seq![s[0]] + insert_by_name(s.drop_first(), x)
    }
}

/// The entries ordered by name, where entries of equal name keep their order
/// (the order of a stable sort by name).
pub open spec fn sort_by_name(s: Seq<DesktopEntryView>) -> Seq<DesktopEntryView>
    decreases s.len(),
{
    if s.len() == 0 {
        s
    } else {
        insert_by_name(sort_by_name(s.drop_last()), s.last())
    }
}

/// The entries are in order of name.
pub open spec fn sorted_by_name(s: Seq<DesktopEntryView>) -> bool {
    forall|i: int, j: int| 0 <= i < j < s.len() ==> text_le(name_of(s[i]), name_of(s[j]))
}

/// The index of the first entry whose name comes strictly after `x`'s, or the length.
spec fn insert_position(s: Seq<DesktopEntryView>, x: DesktopEntryView) -> int
    decreases s.len(),
{
    if s.len() == 0 {
        0
    } else if sorts_after(s[0], x) {
        0
    } else {
        1 + insert_position(s.drop_first(), x)
    }
}

proof fn lemma_insert_position(s: Seq<DesktopEntryView>, x: DesktopEntryView)
    ensures
        0 <= insert_position(s, x) <= s.len(),
        insert_by_name(s, x) == s.take(insert_position(s, x)).push(x) + s.skip(
            insert_position(s, x),
        ),
        forall|j: int| 0 <= j < insert_position(s, x) ==> !sorts_after(#[trigger] s[j], x),
        insert_position(s, x) < s.len() ==> sorts_after(s[insert_position(s, x)], x),
    decreases s.len(),
{
    if s.len() > 0 && !sorts_after(s[0], x) {
        let t = s.drop_first();
        lemma_insert_position(t, x);
        let p = insert_position(t, x);
        assert(insert_by_name(s, x) =~= s.take(p + 1).push(x) + s.skip(p + 1));
        assert forall|j: int| 0 <= j < p + 1 implies !sorts_after(#[trigger] s[j], x) by {
            if j > 0 {
                assert(s[j] == t[j - 1]);
            }
        }
    } else if s.len() > 0 {
        assert(insert_by_name(s, x) =~= s.take(0).push(x) + s.skip(0));
    } else {
        assert(insert_by_name(s, x) =~= s.take(0).push(x) + s.skip(0));
    }
}

/// The position where `x` goes, found by scanning the names.
fn find_insert_position(v: &Vec<DesktopEntry>, x: &DesktopEntry) -> (p: usize)
    ensures
        p == insert_position(entries_view(v@), x@),
{
    let ghost s = entries_view(v@);
    let n = v.len();
    let mut p: usize = 0;
    assert(s.skip(0) =~= s);
    while p < n
        invariant
            n == v@.len(),
            s == entries_view(v@),
            p <= n,
            insert_position(s, x@) == p + insert_position(s.skip(p as int), x@),
        decreases n - p,
    {
        if !text_less_eq(v[p].vdesk.name.as_str(), x.vdesk.name.as_str()) {
            assert(s.skip(p as int)[0] == v@[p as int]@);
            return p;
        }
        assert(s.skip(p as int)[0] == v@[p as int]@);
        assert(s.skip(p as int).drop_first() =~= s.skip(p + 1));
        p = p + 1;
    }
    p
}

/// Orders the entries by desktop name; entries of equal name keep their
/// relative order.
pub fn sort_entries_by_name(entries: Vec<DesktopEntry>) -> (r: Vec<DesktopEntry>)
    ensures
        entries_view(r@) == sort_by_name(entries_view(entries@)),
{
    let ghost s = entries_view(entries@);
    let mut r: Vec<DesktopEntry> = Vec::new();
    for e in it: entries
        invariant
            s == entries_view(it.seq()),
            entries_view(r@) == sort_by_name(s.take(it.index() as int)),
    {
        let p = find_insert_position(&r, &e);
        proof {
            lemma_insert_position(entries_view(r@), e@);
            assert(s.take(it.index() + 1).drop_last() =~= s.take(it.index() as int));
            assert(s.take(it.index() + 1).last() == e@);
        }
        let ghost before = entries_view(r@);
        r.insert(p, e);
        assert(entries_view(r@) =~= before.take(p as int).push(e@) + before.skip(p as int));
    }
    proof {
        assert(s.take(s.len() as int) =~= s);
    }
    r
}

/// The entries whose desktop has the name `k`.
pub open spec fn named(k: Seq<char>) -> spec_fn(DesktopEntryView) -> bool {
    |e: DesktopEntryView| name_of(e) == k
}

proof fn lemma_insert_keeps_sorted(r: Seq<DesktopEntryView>, x: DesktopEntryView)
    requires
        sorted_by_name(r),
    ensures
        sorted_by_name(insert_by_name(r, x)),
{
    lemma_insert_position(r, x);
    let p = insert_position(r, x);
    let t = insert_by_name(r, x);
    assert(t.len() == r.len() + 1);
    assert forall|i: int, j: int| 0 <= i < j < t.len() implies text_le(
        name_of(t[i]),
        name_of(t[j]),
    ) by {
        if j < p {
            assert(t[i] == r[i] && t[j] == r[j]);
        } else if j == p {
            assert(t[j] == x && t[i] == r[i]);
            assert(!sorts_after(r[i], x));
        } else if i < p {
            assert(t[i] == r[i] && t[j] == r[j - 1]);
        } else if i == p {
            assert(t[i] == x && t[j] == r[j - 1]);
            assert(sorts_after(r[p], x));
            lemma_text_le_total(name_of(r[p]), name_of(x));
            if j - 1 > p {
                lemma_text_le_transitive(name_of(x), name_of(r[p]), name_of(r[j - 1]));
            }
        } else {
            assert(t[i] == r[i - 1] && t[j] == r[j - 1]);
        }
    }
}

/// An ordering by name yields entries in order of name.
pub proof fn lemma_sort_by_name_sorted(s: Seq<DesktopEntryView>)
    ensures
        sorted_by_name(sort_by_name(s)),
    decreases s.len(),
{
    if s.len() > 0 {
        lemma_sort_by_name_sorted(s.drop_last());
        lemma_insert_keeps_sorted(sort_by_name(s.drop_last()), s.last());
    }
}

proof fn lemma_insert_multiset(r: Seq<DesktopEntryView>, x: DesktopEntryView)
    ensures
        insert_by_name(r, x).to_multiset() == r.to_multiset().insert(x),
    decreases r.len(),
{
    broadcast use vstd::seq_lib::group_to_multiset_ensures;
    broadcast use vstd::multiset::group_multiset_axioms;

    if r.len() == 0 {
        assert(insert_by_name(r, x) =~= r.push(x));
    } else if sorts_after(r[0], x) {
        vstd::seq_lib::lemma_multiset_commutative(seq![x], r);
        assert(seq![x] =~= Seq::<DesktopEntryView>::empty().push(x));
        assert(seq![x].to_multiset() =~= Multiset::<DesktopEntryView>::empty().insert(x));
        assert(insert_by_name(r, x).to_multiset() =~= r.to_multiset().insert(x));
    } else {
        let rest = r.drop_first();
        lemma_insert_multiset(rest, x);
        vstd::seq_lib::lemma_multiset_commutative(seq![r[0]], insert_by_name(rest, x));
        vstd::seq_lib::lemma_multiset_commutative(seq![r[0]], rest);
        assert(r =~= seq![r[0]] + rest);
        assert(insert_by_name(r, x).to_multiset() =~= r.to_multiset().insert(x));
    }
}

/// An ordering by name holds the same entries, each as often as before.
pub proof fn lemma_sort_by_name_permutes(s: Seq<DesktopEntryView>)
    ensures
        sort_by_name(s).to_multiset() == s.to_multiset(),
    decreases s.len(),
{
    broadcast use vstd::seq_lib::group_to_multiset_ensures;

    if s.len() > 0 {
        lemma_sort_by_name_permutes(s.drop_last());
        lemma_insert_multiset(sort_by_name(s.drop_last()), s.last());
        assert(s.drop_last().push(s.last()) =~= s);
    }
}

proof fn lemma_no_name_after(r: Seq<DesktopEntryView>, x: DesktopEntryView)
    requires
        sorted_by_name(r),
        r.len() > 0,
        sorts_after(r[0], x),
    ensures
        r.filter(named(name_of(x))).len() == 0,
{
    broadcast use vstd::seq_lib::group_filter_ensures;

    let k = name_of(x);
    assert forall|j: int| 0 <= j < r.len() implies !named(k)(r[j]) by {
        if name_of(r[j]) == k {
            if j > 0 {
                assert(text_le(name_of(r[0]), name_of(r[j])));
            } else {
                lemma_text_le_reflexive(k);
            }
        }
    }
    if r.filter(named(k)).len() > 0 {
        let e = r.filter(named(k))[0];
        assert(named(k)(e));
        assert(r.filter(named(k)).contains(e));
        r.lemma_filter_contains_rev(named(k), e);
        let j = choose|j: int| 0 <= j < r.len() && r[j] == e;
        assert(!named(k)(r[j]));
    }
}

proof fn lemma_insert_filter_front(r: Seq<DesktopEntryView>, x: DesktopEntryView, k: Seq<char>)
    requires
        sorted_by_name(r),
        r.len() > 0,
        sorts_after(r[0], x),
    ensures
        insert_by_name(r, x).filter(named(k)) == (if name_of(x) == k {
            r.filter(named(k)).push(x)
        } else {
            r.filter(named(k))
        }),
{
    assert(insert_by_name(r, x) == seq![x] + r);
    r.lemma_filter_prepend(x, named(k));
    if name_of(x) == k {
        lemma_no_name_after(r, x);
        assert(seq![x] + r.filter(named(k)) =~= r.filter(named(k)).push(x));
    } else {
        assert(Seq::<DesktopEntryView>::empty() + r.filter(named(k)) =~= r.filter(named(k)));
    }
}

proof fn lemma_insert_filter(r: Seq<DesktopEntryView>, x: DesktopEntryView, k: Seq<char>)
    requires
        sorted_by_name(r),
    ensures
        insert_by_name(r, x).filter(named(k)) == (if name_of(x) == k {
            r.filter(named(k)).push(x)
        } else {
            r.filter(named(k))
        }),
    decreases r.len(),
{
    if r.len() == 0 {
        assert(insert_by_name(r, x) =~= r.push(x));
        r.lemma_filter_push(x, named(k));
    } else if sorts_after(r[0], x) {
        lemma_insert_filter_front(r, x, k);
    } else {
        let rest = r.drop_first();
        assert forall|i: int, j: int| 0 <= i < j < rest.len() implies text_le(
            name_of(rest[i]),
            name_of(rest[j]),
        ) by {
            assert(rest[i] == r[i + 1] && rest[j] == r[j + 1]);
        }
        lemma_insert_filter(rest, x, k);
        let ins = insert_by_name(rest, x);
        assert(insert_by_name(r, x) == seq![r[0]] + ins);
        assert(r =~= seq![r[0]] + rest);
        rest.lemma_filter_prepend(r[0], named(k));
        ins.lemma_filter_prepend(r[0], named(k));
        let head: Seq<DesktopEntryView> = if named(k)(r[0]) {
            seq![r[0]]
        } else {
            Seq::empty()
        };
        if name_of(x) == k {
            assert(head + rest.filter(named(k)).push(x) =~= (head + rest.filter(named(k))).push(x));
        }
    }
}

/// An ordering by name is stable: the entries of any one name come out in
/// the order they came in.
pub proof fn lemma_sort_by_name_stable(s: Seq<DesktopEntryView>, k: Seq<char>)
    ensures
        sort_by_name(s).filter(named(k)) == s.filter(named(k)),
    decreases s.len(),
{
    if s.len() > 0 {
        lemma_sort_by_name_stable(s.drop_last(), k);
        lemma_sort_by_name_sorted(s.drop_last());
        lemma_insert_filter(sort_by_name(s.drop_last()), s.last(), k);
        s.drop_last().lemma_filter_push(s.last(), named(k));
        assert(s.drop_last().push(s.last()) =~= s);
    }
}

/// The index of the first focused desktop, if any.
pub open spec fn first_focused(s: Seq<DesktopEntryView>) -> Option<int> {
    if exists|i: int| 0 <= i < s.len() && s[i].vdesk.focused {
        Some(
            choose|i: int|
                0 <= i < s.len() && s[i].vdesk.focused && forall|j: int|
                    0 <= j < i ==> !(#[trigger] s[j]).vdesk.focused,
        )
    } else {
        None
    }
}

/// The entries with the first focused one moved to the front.
pub open spec fn focused_first(s: Seq<DesktopEntryView>) -> Seq<DesktopEntryView> {
    match first_focused(s) {
        Some(p) => seq![s[p]] + s.remove(p),
        None => s,
    }
}

proof fn lemma_first_focused(s: Seq<DesktopEntryView>, p: int)
    requires
        0 <= p < s.len(),
        s[p].vdesk.focused,
        forall|j: int| 0 <= j < p ==> !(#[trigger] s[j]).vdesk.focused,
    ensures
        first_focused(s) == Some(p),
{
    assert(exists|k: int| 0 <= k < s.len() && s[k].vdesk.focused);
    let q = first_focused(s)->0;
    assert(0 <= q < s.len() && s[q].vdesk.focused && forall|j: int|
        0 <= j < q ==> !(#[trigger] s[j]).vdesk.focused);
    if q < p {
        assert(!s[q].vdesk.focused);
    }
    if p < q {
        assert(!s[p].vdesk.focused);
    }
}

proof fn lemma_no_focused(s: Seq<DesktopEntryView>)
    requires
        forall|j: int| 0 <= j < s.len() ==> !(#[trigger] s[j]).vdesk.focused,
    ensures
        first_focused(s) is None,
{
}

/// Moves the first entry whose desktop is focused to the front; the others
/// keep their order.
pub fn move_focused_first(entries: &mut Vec<DesktopEntry>)
    ensures
        entries_view(final(entries)@) == focused_first(entries_view(old(entries)@)),
{
    let ghost s = entries_view(entries@);
    let n = entries.len();
    let mut i: usize = 0;
    while i < n
        invariant
            n == entries@.len(),
            s == entries_view(entries@),
            s == entries_view(old(entries)@),
            i <= n,
            forall|j: int| 0 <= j < i ==> !(#[trigger] s[j]).vdesk.focused,
        decreases n - i,
    {
        if entries[i].vdesk.focused {
            proof {
                lemma_first_focused(s, i as int);
            }
            let e = entries.remove(i);
            entries.insert(0, e);
            assert(entries_view(entries@) =~= seq![s[i as int]] + s.remove(i as int));
            return;
        }
        i = i + 1;
    }
    proof {
        lemma_no_focused(s);
    }
}


proof fn lemma_first_focused_exists(s: Seq<DesktopEntryView>)
    requires
        exists|i: int| 0 <= i < s.len() && s[i].vdesk.focused,
    ensures
        exists|p: int|
            0 <= p < s.len() && s[p].vdesk.focused && forall|j: int|
                0 <= j < p ==> !(#[trigger] s[j]).vdesk.focused,
    decreases s.len(),
{
    let t = s.drop_last();
    if exists|i: int| 0 <= i < t.len() && t[i].vdesk.focused {
        lemma_first_focused_exists(t);
        let p = choose|p: int|
            0 <= p < t.len() && t[p].vdesk.focused && forall|j: int|
                0 <= j < p ==> !(#[trigger] t[j]).vdesk.focused;
        assert(s[p] == t[p]);
        assert forall|j: int| 0 <= j < p implies !(#[trigger] s[j]).vdesk.focused by {
            assert(s[j] == t[j]);
        }
    } else {
        let p = s.len() - 1;
        let i = choose|i: int| 0 <= i < s.len() && s[i].vdesk.focused;
        if i < p {
            assert(t[i] == s[i]);
        }
        assert forall|j: int| 0 <= j < p implies !(#[trigger] s[j]).vdesk.focused by {
            assert(s[j] == t[j]);
        }
    }
}

/// Putting the focused entry first keeps every entry, each as often as
/// before, and, where an entry is focused, starts with the first focused one.
pub proof fn lemma_focused_first(s: Seq<DesktopEntryView>)
    ensures
        focused_first(s).to_multiset() == s.to_multiset(),
        (exists|i: int| 0 <= i < s.len() && s[i].vdesk.focused) ==> focused_first(s)[0].vdesk.focused
            && forall|j: int| 0 <= j < s.len() && (#[trigger] s[j]).vdesk.focused ==> focused_first(
            s,
        )[0] == s[first_focused(s)->0] && first_focused(s)->0 <= j,
{
    broadcast use vstd::seq_lib::group_to_multiset_ensures;
    broadcast use vstd::multiset::group_multiset_axioms;

    if exists|i: int| 0 <= i < s.len() && s[i].vdesk.focused {
        lemma_first_focused_exists(s);
    }
    match first_focused(s) {
        Some(p) => {
            assert(0 <= p < s.len() && s[p].vdesk.focused && forall|j: int|
                0 <= j < p ==> !(#[trigger] s[j]).vdesk.focused);
            vstd::seq_lib::lemma_multiset_commutative(seq![s[p]], s.remove(p));
            assert(seq![s[p]] =~= Seq::<DesktopEntryView>::empty().push(s[p]));
            assert(seq![s[p]].to_multiset() =~= Multiset::<DesktopEntryView>::empty().insert(s[p]));
            assert(focused_first(s).to_multiset() =~= s.to_multiset());
        },
        None => {},
    }
}


/// Putting the focused entry first moves only that entry: with `p` the first
/// focused position, the result starts with entry `p`, then holds the entries
/// before `p` and after `p` in their order; with no focused entry, nothing moves.
pub proof fn lemma_focused_first_moves_only_the_focused(s: Seq<DesktopEntryView>, p: int)
    requires
        0 <= p < s.len(),
        s[p].vdesk.focused,
        forall|j: int| 0 <= j < p ==> !(#[trigger] s[j]).vdesk.focused,
    ensures
        focused_first(s).len() == s.len(),
        focused_first(s)[0] == s[p],
        forall|j: int| 0 <= j < p ==> #[trigger] focused_first(s)[j + 1] == s[j],
        forall|j: int| p < j < s.len() ==> #[trigger] focused_first(s)[j] == s[j],
        focused_first(s).drop_first() == s.remove(p),
{
    lemma_first_focused(s, p);
    assert(focused_first(s) == seq![s[p]] + s.remove(p));
    assert(focused_first(s).drop_first() =~= s.remove(p));
}

/// With no focused entry, putting the focused entry first changes nothing.
pub proof fn lemma_focused_first_without_focus(s: Seq<DesktopEntryView>)
    requires
        forall|j: int| 0 <= j < s.len() ==> !(#[trigger] s[j]).vdesk.focused,
    ensures
        focused_first(s) == s,
{
    lemma_no_focused(s);
}

} // verus!
