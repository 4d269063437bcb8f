use vstd::prelude::*;

verus! {

/// A handle to an allocator slot: the slot number plus the generation at
/// which it was handed out, so that stale handles can be told apart.
#[derive(Copy, Clone, Debug)]
pub struct GenerationalIndex {
    pub index: usize,
    pub generation: u64,
}

impl GenerationalIndex {
    pub fn index(&self) -> (r: usize)
        ensures
            r == self.index,
    {
        self.index
    }
}

#[derive(Copy, Clone, Debug)]
pub struct AllocatorEntry {
    pub is_live: bool,
    pub generation: u64,
}

impl AllocatorEntry {
    /// Whether the slot currently backs a live handle.
    pub open spec fn live(self) -> bool {
        self.is_live
    }
}

#[derive(Clone, Debug)]
pub struct GenerationalIndexAllocator {
    entries: Vec<AllocatorEntry>,
    free: Vec<usize>,
}

impl GenerationalIndexAllocator {
    /// Every recorded free slot number is at most the entry count, so the
    /// allocator can always grow by one slot and index safely.
    pub closed spec fn wf(self) -> bool {
        forall|k: int| 0 <= k < self.free@.len()
            ==> (#[trigger] self.free@[k]) <= self.entries@.len()
    }

    pub closed spec fn spec_entries(self) -> Seq<AllocatorEntry> {
        self.entries@
    }

    pub closed spec fn spec_free(self) -> Seq<usize> {
        self.free@
    }

    /// An allocator with `size` dead slots, all of generation zero, and all
    /// slot numbers free in increasing order.
    pub fn new(size: usize) -> (r: GenerationalIndexAllocator)
        ensures
            r.wf(),
            r.spec_entries().len() == size,
            forall|k: int| 0 <= k < size ==> !(#[trigger] r.spec_entries()[k]).live()
                && r.spec_entries()[k].generation == 0,
            r.spec_free().len() == size,
            forall|k: int| 0 <= k < size ==> (#[trigger] r.spec_free()[k]) == k,
    {
        let mut free: Vec<usize> = Vec::new();
        let mut k: usize = 0;
        while k < size
            invariant
                k <= size,
                free@.len() == k,
                forall|i: int| 0 <= i < k ==> (#[trigger] free@[i]) == i,
            decreases size - k,
        {
            free.push(k);
            k = k + 1;
        }

        let mut entries: Vec<AllocatorEntry> = Vec::new();
        let mut j: usize = 0;
        while j < size
            invariant
                j <= size,
                entries@.len() == j,
                forall|i: int| 0 <= i < j ==> !(#[trigger] entries@[i]).live()
                    && entries@[i].generation == 0,
            decreases size - j,
        {
            entries.push(AllocatorEntry { is_live: false, generation: 0 });
            j = j + 1;
        }

        GenerationalIndexAllocator { entries, free }
    }

    pub fn expose_entries(&self) -> (r: &Vec<AllocatorEntry>)
        ensures
            r@ == self.spec_entries(),
    {
        &self.entries
    }

    /// The live handles, in strictly increasing slot order: one per entry
    /// that is currently live, carrying that entry's generation.
    pub fn get_vec(&self) -> (r: Vec<GenerationalIndex>)
        ensures
            forall|k: int| 0 <= k < r@.len() ==> {
                &&& (#[trigger] r@[k]).index < self.spec_entries().len()
                &&& self.spec_entries()[r@[k].index as int].live()
                &&& r@[k].generation == self.spec_entries()[r@[k].index as int].generation
            },
            forall|i: int| 0 <= i < self.spec_entries().len()
                && (#[trigger] self.spec_entries()[i]).live()
                ==> exists|k: int| 0 <= k < r@.len() && (#[trigger] r@[k]).index == i,
            forall|k1: int, k2: int| 0 <= k1 < k2 < r@.len()
                ==> (#[trigger] r@[k1]).index < (#[trigger] r@[k2]).index,
    {
        let mut result: Vec<GenerationalIndex> = Vec::new();

        let mut index: usize = 0;
        while index < self.entries.len()
            invariant
                index <= self.entries@.len(),
                forall|k: int| 0 <= k < result@.len() ==> {
                    &&& (#[trigger] result@[k]).index < self.entries@.len()
                    &&& self.entries@[result@[k].index as int].live()
                    &&& result@[k].generation
                        == self.entries@[result@[k].index as int].generation
                },
                forall|i: int| 0 <= i < index && (#[trigger] self.entries@[i]).live()
                    ==> exists|k: int| 0 <= k < result@.len()
                        && (#[trigger] result@[k]).index == i,
                forall|k: int| 0 <= k < result@.len()
                    ==> (#[trigger] result@[k]).index < index,
                forall|k1: int, k2: int| 0 <= k1 < k2 < result@.len()
                    ==> (#[trigger] result@[k1]).index < (#[trigger] result@[k2]).index,
            decreases self.entries@.len() - index,
        {
            let entry = self.entries[index];
            let gen_index = GenerationalIndex { index, generation: entry.generation };
            let ghost pre = result@;
            if entry.is_live {
                result.push(gen_index);
            }
            proof {
                assert forall|i: int| 0 <= i < index + 1
                    && (#[trigger] self.entries@[i]).live()
                    implies exists|k: int| 0 <= k < result@.len()
                        && (#[trigger] result@[k]).index == i by {
                    if i < index {
                        let k = choose|k: int| 0 <= k < pre.len()
                            && (#[trigger] pre[k]).index == i;
                        assert(result@[k].index == i);
                    } else {
                        assert(result@[result@.len() - 1].index == i);
                    }
                }
            }
            index = index + 1;
        }

        result
    }

    /// Hands out the first free slot, growing the store by one when none is
    /// free, bumps that slot's generation and marks it live.
    pub fn allocate(&mut self) -> (r: GenerationalIndex)
        requires
            old(self).wf(),
            old(self).spec_entries().len() < usize::MAX,
            forall|k: int| 0 <= k < old(self).spec_entries().len()
                ==> (#[trigger] old(self).spec_entries()[k]).generation < u64::MAX,
        ensures
            final(self).wf(),
            r.index == (if old(self).spec_free().len() == 0 {
                old(self).spec_entries().len() as usize
            } else {
                old(self).spec_free()[0]
            }),
            r.index <= old(self).spec_entries().len(),
            final(self).spec_entries().len() == (if r.index == old(self).spec_entries().len() {
                old(self).spec_entries().len() + 1
            } else {
                old(self).spec_entries().len()
            }),
            final(self).spec_entries()[r.index as int].live(),
            r.generation == final(self).spec_entries()[r.index as int].generation,
            r.generation == (if r.index < old(self).spec_entries().len() {
                old(self).spec_entries()[r.index as int].generation + 1
            } else {
                1int
            }),
            forall|k: int| 0 <= k < old(self).spec_entries().len() && k != r.index
                ==> final(self).spec_entries()[k] == old(self).spec_entries()[k],
            final(self).spec_free() == (if old(self).spec_free().len() == 0 {
                old(self).spec_free()
            } else {
                old(self).spec_free().drop_first()
            }),
    {
        if self.free.is_empty() {
            let next = self.entries.len();
            self.free.push(next);
        }

        let last_free = self.free[0];

        if last_free >= self.entries.len() {
            self.entries.push(AllocatorEntry { is_live: false, generation: 0 });
        }

        let mut entry = self.entries[last_free];
        entry.generation = entry.generation + 1;
        entry.is_live = true;
        self.entries.set(last_free, entry);

        self.free.remove(0);

        GenerationalIndex { index: last_free, generation: entry.generation }
    }

    /// Records the slot as reusable when the handle is current and returns
    /// whether it was; the entry record itself is left untouched, so the
    /// slot still reads as live until it is allocated again.
    pub fn deallocate(&mut self, index: GenerationalIndex) -> (r: bool)
        requires
            old(self).wf(),
            index.index < old(self).spec_entries().len(),
        ensures
            final(self).wf(),
            r == (old(self).spec_entries()[index.index as int].live()
                && old(self).spec_entries()[index.index as int].generation == index.generation),
            final(self).spec_entries() == old(self).spec_entries(),
            r ==> final(self).spec_free() == old(self).spec_free().push(index.index),
            !r ==> final(self).spec_free() == old(self).spec_free(),
    {
        let mut entry = self.entries[index.index];

        if entry.is_live && entry.generation == index.generation {
            self.free.push(index.index);
            entry.is_live = false;
            return true;
        }

        false
    }

    pub fn is_live(&self, index: GenerationalIndex) -> (r: bool)
        requires
            index.index < self.spec_entries().len(),
        ensures
            r == self.spec_entries()[index.index as int].live(),
    {
        let entry = self.entries[index.index];
        entry.is_live
    }
}

#[derive(Copy, Clone, Debug)]
struct ArrayEntry<T> {
    value: T,
    generation: u64,
}

/// A component store addressed by generational handles: a slot answers only
/// to the generation it was written with.
pub struct GenerationalIndexArray<T>(Vec<Option<ArrayEntry<T>>>);

impl<T> GenerationalIndexArray<T> {
    pub closed spec fn spec_len(self) -> nat {
        self.0@.len()
    }

    /// What the slot holds: the generation it was written with and the
    /// stored value, or nothing.
    pub closed spec fn slot(self, i: int) -> Option<(u64, T)> {
        match self.0@[i] {
            Some(e) => Some((e.generation, e.value)),
            None => None,
        }
    }

    pub fn new() -> (r: GenerationalIndexArray<T>)
        ensures
            r.spec_len() == 0,
    {
        GenerationalIndexArray::<T>(Vec::new())
    }

    pub fn get_len(&self) -> (r: usize)
        ensures
            r == self.spec_len(),
    {
        self.0.len()
    }

    /// Stores `value` at the handle's slot under the handle's generation,
    /// padding the store with empty slots when it is too short.
    pub fn set(&mut self, index: GenerationalIndex, value: T)
        requires
            index.index < usize::MAX,
        ensures
            final(self).spec_len() == (if index.index + 1 > old(self).spec_len() {
                (index.index + 1) as int
            } else {
                old(self).spec_len() as int
            }),
            final(self).slot(index.index as int) == Some((index.generation, value)),
            forall|i: int| 0 <= i < old(self).spec_len() && i != index.index
                ==> final(self).slot(i) == old(self).slot(i),
            forall|i: int| old(self).spec_len() <= i < final(self).spec_len()
                && i != index.index ==> final(self).slot(i) is None,
    {
        let entry = ArrayEntry::<T> { value, generation: index.generation };

        if index.index >= self.0.len() {
            let difference = index.index - self.0.len();
            let count: usize = difference + 1;
            let mut i: usize = 0;
            let ghost pre_len = self.0@.len();
            while i < count
                invariant
                    i <= count,
                    count == difference + 1,
                    self.0@.len() == pre_len + i,
                    forall|j: int| 0 <= j < pre_len
                        ==> #[trigger] self.0@[j] == old(self).0@[j],
                    forall|j: int| pre_len <= j < pre_len + i
                        ==> (#[trigger] self.0@[j]) is None,
                decreases difference + 1 - i,
            {
                self.0.push(None);
                i = i + 1;
            }
        }

        self.0.set(index.index, Some(entry));
    }

    /// Looks the handle up: the stored value exactly when the slot exists
    /// and was written with the handle's generation.
    pub fn get(&self, index: GenerationalIndex) -> (r: Option<&T>)
        ensures
            r matches Some(v) ==> {
                &&& index.index < self.spec_len()
                &&& self.slot(index.index as int) == Some((index.generation, *v))
            },
            r is None ==> (index.index >= self.spec_len()
                || self.slot(index.index as int) is None
                || (self.slot(index.index as int) matches Some(p)
                    && p.0 != index.generation)),
    {
        let generation = index.generation;

        if index.index >= self.0.len() {
            return None;
        }

        let entry = match &self.0[index.index] {
            Some(entry) => entry,
            None => {
                return None;
            },
        };

        if entry.generation == generation {
            return Some(&entry.value);
        }

        None
    }

    /// Looks the handle up for writing, under the same rule as `get`.
    pub fn get_mut(&mut self, index: GenerationalIndex) -> (r: Option<&mut T>)
        ensures
            r matches Some(v) ==> {
                &&& index.index < old(self).spec_len()
                &&& old(self).slot(index.index as int) == Some((index.generation, *v))
                &&& final(self).spec_len() == old(self).spec_len()
                &&& final(self).slot(index.index as int)
                    == Some((index.generation, *final(v)))
                &&& forall|i: int| 0 <= i < old(self).spec_len() && i != index.index
                    ==> final(self).slot(i) == old(self).slot(i)
            },
            r is None ==> {
                &&& *final(self) == *old(self)
                &&& (index.index >= old(self).spec_len()
                    || old(self).slot(index.index as int) is None
                    || (old(self).slot(index.index as int) matches Some(p)
                        && p.0 != index.generation))
            },
    {
        let generation = index.generation;

        if index.index >= self.0.len() {
            return None;
        }

        let generation_matches = match &self.0[index.index] {
            Some(entry) => entry.generation == generation,
            None => false,
        };
        if !generation_matches {
            return None;
        }

        match &mut self.0[index.index] {
            Some(entry) => Some(&mut entry.value),
            None => unreached(),
        }
    }
}

} // verus!
