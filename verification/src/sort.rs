//! A stable merge sort of entries by name, and what "stably sorted" means.

use vstd::prelude::*;
use crate::entry::{views, EntryView, TocEntry};
use crate::order::{compare_names, lemma_lex_le_antisym, lemma_lex_le_refl, lemma_lex_le_total,
    lemma_lex_le_trans, lex_le, lex_lt, NameOrder};

verus! {

/// The names do not decrease along `entries`.
pub open spec fn sorted_by_name(entries: Seq<EntryView>) -> bool {
    forall|i: int, j: int| 0 <= i <= j < entries.len() ==> lex_le(entries[i].name, entries[j].name)
}

/// The entries of `entries` that are named `name`, in their order.
pub open spec fn with_name(entries: Seq<EntryView>, name: Seq<u8>) -> Seq<EntryView>
    decreases entries.len(),
{
    if entries.len() == 0 {
        Seq::empty()
    } else {
        let rest = with_name(entries.drop_last(), name);
        if entries.last().name == name {
            rest.push(entries.last())
        } else {
            rest
        }
    }
}

/// `output` holds the entries of `input` in non-decreasing order of name, and
/// the entries of any one name stand in it as they stood in `input`.
pub open spec fn is_stable_sort_of(output: Seq<EntryView>, input: Seq<EntryView>) -> bool {
    &&& output.len() == input.len()
    &&& sorted_by_name(output)
    &&& forall|name: Seq<u8>| #[trigger] with_name(output, name) == with_name(input, name)
}

/// `output` is `left` and `right` merged: sorted, and among entries of one
/// name those of `left` come first.
pub open spec fn is_stable_merge_of(
    output: Seq<EntryView>,
    left: Seq<EntryView>,
    right: Seq<EntryView>,
) -> bool {
    &&& output.len() == left.len() + right.len()
    &&& sorted_by_name(output)
    &&& forall|name: Seq<u8>| #[trigger]
        with_name(output, name) == with_name(left, name) + with_name(right, name)
}

/// Pushing an entry adds it to the entries of its own name and to no others.
pub proof fn lemma_with_name_push(entries: Seq<EntryView>, entry: EntryView, name: Seq<u8>)
    ensures
        with_name(entries.push(entry), name) == if entry.name == name {
            with_name(entries, name).push(entry)
        } else {
            with_name(entries, name)
        },
{
    assert(entries.push(entry).drop_last() =~= entries);
}

/// The entries of one name in a concatenation are those of its parts, in order.
pub proof fn lemma_with_name_concat(a: Seq<EntryView>, b: Seq<EntryView>, name: Seq<u8>)
    ensures
        with_name(a + b, name) == with_name(a, name) + with_name(b, name),
    decreases b.len(),
{
    if b.len() == 0 {
        assert(a + b =~= a);
    } else {
        lemma_with_name_concat(a, b.drop_last(), name);
        assert((a + b).drop_last() =~= a + b.drop_last());
    }
}

/// A name that does not occur has no entries.
pub proof fn lemma_with_name_absent(entries: Seq<EntryView>, name: Seq<u8>)
    requires
        forall|i: int| 0 <= i < entries.len() ==> entries[i].name != name,
    ensures
        with_name(entries, name) == Seq::<EntryView>::empty(),
    decreases entries.len(),
{
    if entries.len() > 0 {
        lemma_with_name_absent(entries.drop_last(), name);
    }
}

/// A sorted sequence is the stable sort of itself.
pub proof fn lemma_stable_sort_refl(entries: Seq<EntryView>)
    requires
        sorted_by_name(entries),
    ensures
        is_stable_sort_of(entries, entries),
{
}

/// The flag that a table which began empty holds after the entries of
/// `entries` were pushed one by one: each push compares the new name with the
/// name before it, and a flag once cleared stays cleared.
pub open spec fn flag_after_pushes(entries: Seq<EntryView>) -> bool
    decreases entries.len(),
{
    if entries.len() == 0 {
        true
    } else {
        flag_after_pushes(entries.drop_last()) && (entries.len() == 1 || lex_le(
            entries[entries.len() - 2].name,
            entries.last().name,
        ))
    }
}

/// Sortedness tracking: comparing each pushed name with the one before it
/// is enough to know whether the whole sequence is sorted.
pub proof fn lemma_flag_after_pushes(entries: Seq<EntryView>)
    ensures
        flag_after_pushes(entries) == sorted_by_name(entries),
    decreases entries.len(),
{
    if entries.len() > 0 {
        let init = entries.drop_last();
        lemma_flag_after_pushes(init);
        lemma_lex_le_refl(entries.last().name);
        if flag_after_pushes(entries) {
            assert forall|i: int, j: int| 0 <= i <= j < entries.len() implies lex_le(
                entries[i].name,
                entries[j].name,
            ) by {
                if j < init.len() {
                    assert(lex_le(init[i].name, init[j].name));
                } else if i < init.len() {
                    assert(lex_le(init[i].name, init[init.len() - 1].name));
                    lemma_lex_le_trans(
                        entries[i].name,
                        entries[entries.len() - 2].name,
                        entries.last().name,
                    );
                }
            }
        } else if sorted_by_name(entries) {
            assert forall|i: int, j: int| 0 <= i <= j < init.len() implies lex_le(
                init[i].name,
                init[j].name,
            ) by {
                assert(lex_le(entries[i].name, entries[j].name));
            }
            if entries.len() > 1 {
                assert(lex_le(entries[entries.len() - 2].name, entries[entries.len() - 1].name));
            }
        }
    }
}

/// The entries named `name` are entries of that name, and there are some
/// exactly when the name occurs.
pub proof fn lemma_with_name_members(entries: Seq<EntryView>, name: Seq<u8>)
    ensures
        forall|i: int|
            0 <= i < with_name(entries, name).len() ==> (#[trigger] with_name(
                entries,
                name,
            )[i]).name == name,
        with_name(entries, name).len() > 0 <==> exists|i: int|
            0 <= i < entries.len() && (#[trigger] entries[i]).name == name,
    decreases entries.len(),
{
    if entries.len() > 0 {
        let init = entries.drop_last();
        lemma_with_name_members(init, name);
        if with_name(entries, name).len() > 0 {
            if entries.last().name == name {
                assert(entries[entries.len() - 1].name == name);
            } else {
                let i = choose|i: int| 0 <= i < init.len() && (#[trigger] init[i]).name == name;
            }
        }
        if exists|i: int| 0 <= i < entries.len() && (#[trigger] entries[i]).name == name {
            let i = choose|i: int| 0 <= i < entries.len() && (#[trigger] entries[i]).name == name;
            if i < init.len() {
                assert(init[i].name == name);
            }
        }
    }
}

/// How often `entry` occurs in `entries`.
pub open spec fn occurrences(entries: Seq<EntryView>, entry: EntryView) -> nat
    decreases entries.len(),
{
    if entries.len() == 0 {
        0
    } else {
        occurrences(entries.drop_last(), entry) + if entries.last() == entry {
            1nat
        } else {
            0nat
        }
    }
}

/// An entry occurs among all entries as often as among those of its name.
pub proof fn lemma_occurrences_by_name(entries: Seq<EntryView>, entry: EntryView)
    ensures
        occurrences(entries, entry) == occurrences(with_name(entries, entry.name), entry),
    decreases entries.len(),
{
    if entries.len() > 0 {
        lemma_occurrences_by_name(entries.drop_last(), entry);
        if entries.last().name == entry.name {
            assert(with_name(entries, entry.name).drop_last() =~= with_name(
                entries.drop_last(),
                entry.name,
            ));
        }
    }
}

/// Sorting loses no entry and adds none: every entry occurs in the stable
/// sort as often as in the input.
pub proof fn lemma_stable_sort_keeps_entries(
    output: Seq<EntryView>,
    input: Seq<EntryView>,
    entry: EntryView,
)
    requires
        is_stable_sort_of(output, input),
    ensures
        occurrences(output, entry) == occurrences(input, entry),
{
    lemma_occurrences_by_name(output, entry);
    lemma_occurrences_by_name(input, entry);
}

/// The stable sort is a function: two sequences that are both the stable
/// sort of one input are the same sequence.
pub proof fn lemma_stable_sort_unique(a: Seq<EntryView>, b: Seq<EntryView>, input: Seq<EntryView>)
    requires
        is_stable_sort_of(a, input),
        is_stable_sort_of(b, input),
    ensures
        a == b,
    decreases a.len(),
{
    if a.len() == 0 {
        assert(a =~= b);
    } else {
        let ka = a.last().name;
        let kb = b.last().name;
        assert(with_name(a, ka) == with_name(b, ka));
        assert(with_name(a, kb) == with_name(b, kb));
        lemma_with_name_members(b, ka);
        lemma_with_name_members(a, kb);
        let ia = choose|i: int| 0 <= i < b.len() && (#[trigger] b[i]).name == ka;
        let ib = choose|i: int| 0 <= i < a.len() && (#[trigger] a[i]).name == kb;
        assert(lex_le(b[ia].name, b.last().name));
        assert(lex_le(a[ib].name, a.last().name));
        lemma_lex_le_antisym(ka, kb);
        assert(a.last() == with_name(a, ka).last());
        assert forall|name: Seq<u8>| #[trigger]
            with_name(a.drop_last(), name) == with_name(b.drop_last(), name) by {
            assert(with_name(a, name) == with_name(b, name));
            if name == ka {
                assert(with_name(a.drop_last(), name) =~= with_name(a, name).drop_last());
            }
        }
        assert forall|i: int, j: int| 0 <= i <= j < a.drop_last().len() implies lex_le(
            a.drop_last()[i].name,
            a.drop_last()[j].name,
        ) by {
            assert(lex_le(a[i].name, a[j].name));
        }
        assert forall|i: int, j: int| 0 <= i <= j < b.drop_last().len() implies lex_le(
            b.drop_last()[i].name,
            b.drop_last()[j].name,
        ) by {
            assert(lex_le(b[i].name, b[j].name));
        }
        lemma_stable_sort_unique(a.drop_last(), b.drop_last(), a.drop_last());
        assert(a =~= a.drop_last().push(a.last()));
    }
}

/// The entries of `v` in the opposite order.
fn reversed(v: Vec<TocEntry>) -> (r: Vec<TocEntry>)
    ensures
        r@.len() == v@.len(),
        forall|t: int| 0 <= t < r@.len() ==> r@[t] == v@[v@.len() - 1 - t],
{
    let mut v = v;
    let ghost orig = v@;
    let mut r: Vec<TocEntry> = Vec::with_capacity(v.len());
    while v.len() > 0
        invariant
            v@.len() + r@.len() == orig.len(),
            v@ == orig.take(v@.len() as int),
            forall|t: int| 0 <= t < r@.len() ==> r@[t] == orig[orig.len() - 1 - t],
        decreases v@.len(),
    {
        let e = v.pop().unwrap();
        r.push(e);
    }
    r
}

/// Merges two sorted runs into one; among equal names `left` goes first.
fn merge(left: Vec<TocEntry>, right: Vec<TocEntry>) -> (out: Vec<TocEntry>)
    requires
        sorted_by_name(views(left@)),
        sorted_by_name(views(right@)),
    ensures
        is_stable_merge_of(views(out@), views(left@), views(right@)),
{
    let ghost l = views(left@);
    let ghost r = views(right@);
    let mut ls = reversed(left);
    let mut rs = reversed(right);
    let mut out: Vec<TocEntry> = Vec::new();
    proof {
        assert forall|name: Seq<u8>| #[trigger]
            with_name(views(out@), name) == with_name(l.take(0), name) + with_name(
                r.take(0),
                name,
            ) by {
            assert(with_name(l.take(0), name) + with_name(r.take(0), name) =~= Seq::<
                EntryView,
            >::empty());
        }
    }
    while ls.len() > 0 || rs.len() > 0
        invariant
            sorted_by_name(l),
            sorted_by_name(r),
            ls@.len() <= l.len(),
            rs@.len() <= r.len(),
            forall|t: int| 0 <= t < ls@.len() ==> (#[trigger] ls@[t])@ == l[l.len() - 1 - t],
            forall|t: int| 0 <= t < rs@.len() ==> (#[trigger] rs@[t])@ == r[r.len() - 1 - t],
            out@.len() == (l.len() - ls@.len()) + (r.len() - rs@.len()),
            sorted_by_name(views(out@)),
            forall|t: int, u: int|
                0 <= t < out@.len() && l.len() - ls@.len() <= u < l.len() ==> lex_le(
                    #[trigger] views(out@)[t].name,
                    #[trigger] l[u].name,
                ),
            forall|t: int, u: int|
                0 <= t < out@.len() && r.len() - rs@.len() <= u < r.len() ==> lex_le(
                    #[trigger] views(out@)[t].name,
                    #[trigger] r[u].name,
                ),
            forall|t: int, u: int|
                0 <= t < r.len() - rs@.len() && l.len() - ls@.len() <= u < l.len() ==> lex_lt(
                    #[trigger] r[t].name,
                    #[trigger] l[u].name,
                ),
            forall|name: Seq<u8>| #[trigger]
                with_name(views(out@), name) == with_name(
                    l.take(l.len() - ls@.len()),
                    name,
                ) + with_name(r.take(r.len() - rs@.len()), name),
        decreases ls@.len() + rs@.len(),
    {
        let ghost i = l.len() - ls@.len();
        let ghost j = r.len() - rs@.len();
        let ghost before = views(out@);
        let take_left: bool = if rs.len() == 0 {
            true
        } else if ls.len() == 0 {
            false
        } else {
            match compare_names(rs[rs.len() - 1].name(), ls[ls.len() - 1].name()) {
                NameOrder::Before => false,
                _ => true,
            }
        };
        if take_left {
            let e = ls.pop().unwrap();
            proof {
                if j < r.len() {
                    lemma_lex_le_total(r[j].name, l[i].name);
                    if lex_le(r[j].name, l[i].name) && r[j].name != l[i].name {
                        assert(false);
                    }
                    if r[j].name == l[i].name {
                        lemma_lex_le_refl(l[i].name);
                    }
                }
            }
            out.push(e);
            proof {
                let after = views(out@);
                assert(after =~= before.push(l[i]));
                assert(l.take(i + 1) =~= l.take(i).push(l[i]));
                assert forall|a: int, b: int| 0 <= a <= b < after.len() implies lex_le(
                    after[a].name,
                    after[b].name,
                ) by {
                    if b < before.len() {
                        assert(lex_le(before[a].name, before[b].name));
                    } else if a < before.len() {
                        assert(lex_le(before[a].name, l[i].name));
                    }
                }
                assert forall|t: int, u: int|
                    0 <= t < after.len() && i + 1 <= u < l.len() implies lex_le(
                    #[trigger] after[t].name,
                    #[trigger] l[u].name,
                ) by {
                    if t < before.len() {
                        assert(lex_le(before[t].name, l[u].name));
                    } else {
                        assert(lex_le(l[i].name, l[u].name));
                    }
                }
                assert forall|t: int, u: int|
                    0 <= t < after.len() && j <= u < r.len() implies lex_le(
                    #[trigger] after[t].name,
                    #[trigger] r[u].name,
                ) by {
                    if t < before.len() {
                        assert(lex_le(before[t].name, r[u].name));
                    } else {
                        lemma_lex_le_trans(l[i].name, r[j].name, r[u].name);
                    }
                }
                assert forall|t: int, u: int| 0 <= t < j && i + 1 <= u < l.len() implies lex_lt(
                    #[trigger] r[t].name,
                    #[trigger] l[u].name,
                ) by {
                    if r[t].name == l[u].name {
                        lemma_lex_le_antisym(l[i].name, l[u].name);
                    }
                }
                assert forall|name: Seq<u8>| #[trigger]
                    with_name(after, name) == with_name(l.take(i + 1), name) + with_name(
                        r.take(j),
                        name,
                    ) by {
                    lemma_with_name_push(before, l[i], name);
                    lemma_with_name_push(l.take(i), l[i], name);
                    if l[i].name == name {
                        assert forall|t: int| 0 <= t < r.take(j).len() implies r.take(
                            j,
                        )[t].name != name by {
                            assert(lex_lt(r[t].name, l[i].name));
                        }
                        lemma_with_name_absent(r.take(j), name);
                    }
                }
            }
        } else {
            let e = rs.pop().unwrap();
            proof {
                if i < l.len() {
                    assert(ls@[ls@.len() - 1]@ == l[i]);
                }
            }
            out.push(e);
            proof {
                let after = views(out@);
                assert(after =~= before.push(r[j]));
                assert(r.take(j + 1) =~= r.take(j).push(r[j]));
                assert forall|a: int, b: int| 0 <= a <= b < after.len() implies lex_le(
                    after[a].name,
                    after[b].name,
                ) by {
                    if b < before.len() {
                        assert(lex_le(before[a].name, before[b].name));
                    } else if a < before.len() {
                        assert(lex_le(before[a].name, r[j].name));
                    }
                }
                assert forall|t: int, u: int|
                    0 <= t < after.len() && i <= u < l.len() implies lex_le(
                    #[trigger] after[t].name,
                    #[trigger] l[u].name,
                ) by {
                    if t < before.len() {
                        assert(lex_le(before[t].name, l[u].name));
                    } else {
                        lemma_lex_le_trans(r[j].name, l[i].name, l[u].name);
                    }
                }
                assert forall|t: int, u: int|
                    0 <= t < after.len() && j + 1 <= u < r.len() implies lex_le(
                    #[trigger] after[t].name,
                    #[trigger] r[u].name,
                ) by {
                    if t < before.len() {
                        assert(lex_le(before[t].name, r[u].name));
                    } else {
                        assert(lex_le(r[j].name, r[u].name));
                    }
                }
                assert forall|t: int, u: int| 0 <= t < j + 1 && i <= u < l.len() implies lex_lt(
                    #[trigger] r[t].name,
                    #[trigger] l[u].name,
                ) by {
                    if t == j {
                        lemma_lex_le_trans(r[j].name, l[i].name, l[u].name);
                        if r[j].name == l[u].name {
                            lemma_lex_le_antisym(l[i].name, l[u].name);
                        }
                    }
                }
                assert forall|name: Seq<u8>| #[trigger]
                    with_name(after, name) == with_name(l.take(i), name) + with_name(
                        r.take(j + 1),
                        name,
                    ) by {
                    lemma_with_name_push(before, r[j], name);
                    lemma_with_name_push(r.take(j), r[j], name);
                    if r[j].name == name {
                        assert(with_name(l.take(i), name) + with_name(r.take(j), name).push(r[j])
                            =~= (with_name(l.take(i), name) + with_name(r.take(j), name)).push(
                            r[j],
                        ));
                    }
                }
            }
        }
    }
    proof {
        assert(l.take(l.len() as int) =~= l);
        assert(r.take(r.len() as int) =~= r);
    }
    out
}

/// Sorts `v` by name; entries of one name keep their order.
pub fn merge_sort(v: Vec<TocEntry>) -> (out: Vec<TocEntry>)
    ensures
        is_stable_sort_of(views(out@), views(v@)),
    decreases v@.len(),
{
    if v.len() <= 1 {
        proof {
            assert forall|i: int, j: int| 0 <= i <= j < views(v@).len() implies lex_le(
                views(v@)[i].name,
                views(v@)[j].name,
            ) by {
                lemma_lex_le_refl(views(v@)[i].name);
            }
        }
        return v;
    }
    let ghost whole = views(v@);
    let mut left = v;
    let mid: usize = left.len() / 2;
    let right = left.split_off(mid);
    let ghost l = views(left@);
    let ghost r = views(right@);
    proof {
        assert(whole =~= l + r);
    }
    let sorted_left = merge_sort(left);
    let sorted_right = merge_sort(right);
    let out = merge(sorted_left, sorted_right);
    proof {
        assert forall|name: Seq<u8>| #[trigger]
            with_name(views(out@), name) == with_name(whole, name) by {
            lemma_with_name_concat(l, r, name);
        }
    }
    out
}

} // verus!
