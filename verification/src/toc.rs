//! The table of contents: entries in stored order, with a flag that tracks
//! whether that order is sorted by name.

use vstd::prelude::*;
use crate::entry::{views, EntryView, TocEntry};
use crate::order::{compare_names, lemma_lex_le_antisym, lemma_lex_le_refl, lemma_lex_le_trans,
    lex_le, NameOrder};
use crate::sort::{is_stable_sort_of, lemma_stable_sort_refl, merge_sort, sorted_by_name};

verus! {

/// A table with more entries than this is searched by bisection when it is
/// sorted; a smaller one is always scanned.
pub const BINARY_SEARCH_THRESHOLD: usize = 64;

/// `i` is the index of an entry of `entries` named `name`.
pub open spec fn is_match(entries: Seq<EntryView>, name: Seq<u8>, i: int) -> bool {
    0 <= i < entries.len() && entries[i].name == name
}

/// `i` is the index of the first entry of `entries` named `name`.
pub open spec fn is_first_match(entries: Seq<EntryView>, name: Seq<u8>, i: int) -> bool {
    is_match(entries, name, i) && forall|j: int| 0 <= j < i ==> entries[j].name != name
}

/// No entry of `entries` is named `name`.
pub open spec fn no_match(entries: Seq<EntryView>, name: Seq<u8>) -> bool {
    forall|i: int| 0 <= i < entries.len() ==> entries[i].name != name
}

/// Table of contents
#[derive(Debug)]
pub struct Toc {
    entries: Vec<TocEntry>,
    is_sorted_by_name: bool,
}

impl View for Toc {
    type V = Seq<EntryView>;

    closed spec fn view(&self) -> Seq<EntryView> {
        views(self.entries@)
    }
}

impl Default for Toc {
    fn default() -> (toc: Toc)
        ensures
            toc.wf(),
            toc@ == Seq::<EntryView>::empty(),
            toc.sorted_flag(),
    {
        let toc = Toc { entries: Vec::new(), is_sorted_by_name: true };
        toc
    }
}

impl std::ops::Deref for Toc {
    type Target = [TocEntry];

    fn deref(&self) -> (entries: &[TocEntry])
        ensures
            views(entries@) == self@,
    {
        self.entries.as_slice()
    }
}

impl Toc {
    /// The flag that the table keeps on its own order.
    pub closed spec fn sorted_flag(&self) -> bool {
        self.is_sorted_by_name
    }

    /// The flag says the truth: it is set exactly when the stored order is
    /// non-decreasing by name.
    pub open spec fn wf(&self) -> bool {
        self.sorted_flag() == sorted_by_name(self@)
    }

    /// Whether a lookup bisects the table instead of scanning it.
    pub open spec fn bisects(&self) -> bool {
        self.sorted_flag() && self@.len() > BINARY_SEARCH_THRESHOLD
    }

    /// The table holds no more entries than memory can.
    pub proof fn lemma_len_fits(&self)
        ensures
            self@.len() <= usize::MAX,
    {
        assert(self.entries.len() == self.entries@.len());
    }

    /// Every name is no longer than memory allows.
    pub proof fn lemma_names_fit(&self, i: int)
        requires
            0 <= i < self@.len(),
        ensures
            self@[i].name.len() <= usize::MAX,
    {
        self.entries@[i].lemma_name_fits();
    }

    /// An empty table with room for `capacity` entries, as far as memory
    /// allows: a capacity that cannot be had is not an error, the table then
    /// grows as entries are pushed.
    pub fn with_capacity(capacity: usize) -> (toc: Toc)
        ensures
            toc.wf(),
            toc@ == Seq::<EntryView>::empty(),
            toc.sorted_flag(),
    {
        let mut entries: Vec<TocEntry> = Vec::new();
        let _ = entries.try_reserve(capacity);
        let toc = Toc { entries, is_sorted_by_name: true };
        toc
    }

    /// The number of entries.
    pub fn len(&self) -> (n: usize)
        ensures
            n == self@.len(),
    {
        self.entries.len()
    }

    /// Whether the table has no entry.
    pub fn is_empty(&self) -> (b: bool)
        ensures
            b == (self@.len() == 0),
    {
        self.entries.len() == 0
    }

    /// The entry at `index` in stored order, if there is one.
    pub fn get(&self, index: usize) -> (r: Option<&TocEntry>)
        ensures
            index < self@.len() ==> r.is_some() && r.unwrap()@ == self@[index as int],
            index >= self@.len() ==> r.is_none(),
    {
        if index < self.entries.len() {
            Some(&self.entries[index])
        } else {
            None
        }
    }

    /// The entries in stored order.
    pub fn as_slice(&self) -> (entries: &[TocEntry])
        ensures
            views(entries@) == self@,
    {
        self.entries.as_slice()
    }

    /// Whether the stored order is sorted by name.
    pub fn is_sorted_by_name(&self) -> (b: bool)
        ensures
            b == self.sorted_flag(),
    {
        self.is_sorted_by_name
    }

    /// Find a section by name.
    ///
    /// A sorted table with more than `BINARY_SEARCH_THRESHOLD` entries is
    /// bisected and yields some entry of that name; any other table is scanned
    /// and yields the first one.
    pub fn section(&self, name: &[u8]) -> (r: Option<&TocEntry>)
        requires
            self.wf(),
        ensures
            match r {
                Some(entry) => exists|i: int|
                    #[trigger] is_match(self@, name@, i) && entry@ == self@[i] && (!self.bisects()
                        ==> is_first_match(self@, name@, i)),
                None => no_match(self@, name@),
            },
    {
        if self.is_sorted_by_name && self.entries.len() > BINARY_SEARCH_THRESHOLD {
            self.bisect(name)
        } else {
            self.scan(name)
        }
    }

    /// The first entry named `name`, found by going through the table in order.
    fn scan(&self, name: &[u8]) -> (r: Option<&TocEntry>)
        ensures
            match r {
                Some(entry) => exists|i: int|
                    #[trigger] is_first_match(self@, name@, i) && entry@ == self@[i],
                None => no_match(self@, name@),
            },
    {
        let mut i: usize = 0;
        while i < self.entries.len()
            invariant
                i <= self.entries@.len(),
                forall|j: int| 0 <= j < i ==> self@[j].name != name@,
            decreases self.entries@.len() - i,
        {
            let entry = &self.entries[i];
            match compare_names(entry.name(), name) {
                NameOrder::Same => {
                    assert(is_first_match(self@, name@, i as int));
                    return Some(entry);
                },
                _ => {},
            }
            i = i + 1;
        }
        None
    }

    /// Some entry named `name`, found by bisecting a table that is sorted.
    fn bisect(&self, name: &[u8]) -> (r: Option<&TocEntry>)
        requires
            sorted_by_name(self@),
        ensures
            match r {
                Some(entry) => exists|i: int| #[trigger] is_match(self@, name@, i) && entry@ == self@[i],
                None => no_match(self@, name@),
            },
    {
        let mut lo: usize = 0;
        let mut hi: usize = self.entries.len();
        while lo < hi
            invariant
                lo <= hi <= self.entries@.len(),
                sorted_by_name(self@),
                forall|j: int| 0 <= j < lo ==> self@[j].name != name@,
                forall|j: int| hi <= j < self@.len() ==> self@[j].name != name@,
            decreases hi - lo,
        {
            let mid: usize = lo + (hi - lo) / 2;
            let entry = &self.entries[mid];
            match compare_names(entry.name(), name) {
                NameOrder::Same => {
                    assert(is_match(self@, name@, mid as int));
                    return Some(entry);
                },
                NameOrder::Before => {
                    assert forall|j: int| 0 <= j < mid + 1 implies self@[j].name != name@ by {
                        if self@[j].name == name@ {
                            lemma_lex_le_antisym(self@[mid as int].name, name@);
                        }
                    }
                    lo = mid + 1;
                },
                NameOrder::After => {
                    assert forall|j: int| mid <= j < self@.len() implies self@[j].name != name@ by {
                        assert(lex_le(self@[mid as int].name, self@[j].name));
                    }
                    hi = mid;
                },
            }
        }
        None
    }

    /// Add a new entry to the end of the table,
    /// tracking whether or not the table is/ remains sorted.
    pub fn push(&mut self, entry: TocEntry)
        requires
            old(self).wf(),
        ensures
            final(self).wf(),
            final(self)@ == old(self)@.push(entry@),
            final(self).sorted_flag() == (old(self).sorted_flag() && (old(self)@.len() == 0 || lex_le(
                old(self)@.last().name,
                entry@.name,
            ))),
    {
        let ghost before = self@;
        let n: usize = self.entries.len();
        if self.is_sorted_by_name && n > 0 {
            match compare_names(self.entries[n - 1].name(), entry.name()) {
                NameOrder::After => {
                    self.is_sorted_by_name = false;
                },
                _ => {},
            }
        }
        self.entries.push(entry);
        proof {
            let after = self@;
            assert(after =~= before.push(entry@));
            if n > 0 {
                lemma_lex_le_refl(entry@.name);
            }
            if sorted_by_name(before) && (n == 0 || lex_le(before.last().name, entry@.name)) {
                assert forall|i: int, j: int| 0 <= i <= j < after.len() implies lex_le(
                    after[i].name,
                    after[j].name,
                ) by {
                    if j < n {
                    } else if i == j {
                        lemma_lex_le_refl(after[i].name);
                    } else {
                        lemma_lex_le_trans(after[i].name, before.last().name, entry@.name);
                    }
                }
            } else if sorted_by_name(after) {
                assert forall|i: int, j: int| 0 <= i <= j < before.len() implies lex_le(
                    before[i].name,
                    before[j].name,
                ) by {
                    assert(lex_le(after[i].name, after[j].name));
                }
                assert(lex_le(after[n - 1].name, after[n as int].name));
            }
        }
    }

    /// Ensure that the table of contents is sorted by section name,
    /// returning whether the table was already sorted.
    ///
    /// Entries of one name keep their order. For larger tables, sorting may
    /// improve lookup performance.
    pub fn sort_by_name(&mut self) -> (was_sorted: bool)
        requires
            old(self).wf(),
        ensures
            final(self).wf(),
            final(self).sorted_flag(),
            was_sorted == old(self).sorted_flag(),
            is_stable_sort_of(final(self)@, old(self)@),
            was_sorted ==> final(self)@ == old(self)@,
    {
        if self.is_sorted_by_name {
            proof {
                lemma_stable_sort_refl(self@);
            }
            return true;
        }
        let mut entries: Vec<TocEntry> = Vec::new();
        core::mem::swap(&mut self.entries, &mut entries);
        self.entries = merge_sort(entries);
        self.is_sorted_by_name = true;
        false
    }
}

} // verus!
