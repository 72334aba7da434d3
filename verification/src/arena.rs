//! Generation-tagged entity arena.
//!
//! Every live record sits in a slot; a [`Handle`] pairs the slot index with
//! the generation the slot had when the record was inserted.  Removing a
//! record empties the slot; reusing the slot bumps its generation, so every
//! handle minted before the removal keeps failing lookups forever.  A slot
//! whose generation counter is exhausted is retired instead of reused.

use vstd::prelude::*;

verus! {

/// An opaque reference to an arena slot: index plus generation.
///
/// `Handle::null()` carries generation zero, which no live slot ever has, so
/// it fails every lookup.
#[derive(Clone, Copy, PartialEq, Eq, Structural, Debug, Hash)]
pub struct Handle {
    pub index: usize,
    pub generation: u64,
}

impl Handle {
    /// A handle that no arena ever resolves.
    pub fn null() -> (r: Handle)
        ensures
            r == Handle::spec_null(),
    {
        Handle { index: 0, generation: 0 }
    }

    /// The never-resolving handle.
    pub open spec fn spec_null() -> Handle {
        Handle { index: 0, generation: 0 }
    }
}

/// A generation-tagged slot arena.
pub struct Arena<T> {
    slots: Vec<Option<T>>,
    gens: Vec<u64>,
    free: Vec<usize>,
}

impl<T> Arena<T> {
    /// Structural well-formedness: the free list holds exactly the empty,
    /// non-retired slots, each once.
    pub closed spec fn wf(self) -> bool {
        &&& self.gens@.len() == self.slots@.len()
        &&& forall|j: int|
            0 <= j < self.free@.len() ==> #[trigger] self.free@[j] < self.slots@.len()
                && self.slots@[self.free@[j] as int] is None && self.gens@[self.free@[j] as int]
                < u64::MAX
        &&& forall|j: int, k: int|
            0 <= j < self.free@.len() && 0 <= k < self.free@.len() && j != k
                ==> self.free@[j] != self.free@[k]
        &&& forall|i: usize|
            i < self.slots@.len() && self.slots@[i as int] is None && #[trigger] self.gens@[i as int]
                < u64::MAX ==> self.free@.contains(i)
    }

    /// `h` resolves to a live record.
    pub closed spec fn valid(self, h: Handle) -> bool {
        &&& h.index < self.slots@.len()
        &&& self.slots@[h.index as int] is Some
        &&& self.gens@[h.index as int] == h.generation
    }

    /// Slot `i` currently holds a record.
    pub closed spec fn slot_occupied(self, i: int) -> bool {
        0 <= i < self.slots@.len() && self.slots@[i] is Some
    }

    /// The generation counter of slot `i`; zero for a slot never used.
    pub closed spec fn slot_gen(self, i: int) -> int {
        if 0 <= i < self.gens@.len() {
            self.gens@[i] as int
        } else {
            0
        }
    }

    /// A live handle carries its slot's current generation.
    pub proof fn lemma_valid_gen(self, h: Handle)
        requires
            self.wf(),
            self.valid(h),
        ensures
            h.generation == self.slot_gen(h.index as int),
    {
    }

    /// A handle whose generation disagrees with its slot's counter never
    /// resolves.  Since the counter only ever grows — removal keeps it,
    /// reuse bumps it — a handle invalidated by a removal keeps failing
    /// lookups forever, whatever is later inserted into its slot.
    pub proof fn lemma_generation_mismatch_fails(self, h: Handle)
        requires
            self.wf(),
            h.generation != self.slot_gen(h.index as int),
        ensures
            !self.valid(h),
    {
        if self.valid(h) {
            self.lemma_valid_gen(h);
        }
    }

    /// Two valid handles with the same slot index are the same handle.
    pub proof fn lemma_index_unique(self, h1: Handle, h2: Handle)
        requires
            self.valid(h1),
            self.valid(h2),
            h1.index == h2.index,
        ensures
            h1 == h2,
    {
    }

    /// The record `h` resolves to.
    pub closed spec fn at(self, h: Handle) -> T
        recommends
            self.valid(h),
    {
        self.slots@[h.index as int]->Some_0
    }

    /// The number of slots ever used.
    pub closed spec fn spec_slot_count(self) -> int {
        self.slots@.len() as int
    }

    /// An empty arena.
    pub fn new() -> (r: Arena<T>)
        ensures
            r.wf(),
            forall|h: Handle| !r.valid(h),
            r.spec_slot_count() == 0,
            r.live_handles() == Seq::<Handle>::empty(),
    {
        Arena { slots: Vec::new(), gens: Vec::new(), free: Vec::new() }
    }

    /// Inserts a record and mints a fresh handle for it.  Every other handle
    /// resolves exactly as it did before, so a handle invalidated earlier can
    /// never come back to life.
    pub fn insert(&mut self, value: T) -> (r: Handle)
        requires
            old(self).wf(),
        ensures
            final(self).wf(),
            final(self).valid(r),
            final(self).at(r) == value,
            !old(self).valid(r),
            r.generation >= 1,
            forall|h: Handle|
                h != r ==> (#[trigger] final(self).valid(h) <==> old(self).valid(h)),
            forall|h: Handle|
                h != r && old(self).valid(h) ==> #[trigger] final(self).at(h) == old(self).at(h),
            final(self).spec_slot_count() <= old(self).spec_slot_count() + 1,
            final(self).slot_gen(r.index as int) > old(self).slot_gen(r.index as int),
            r.generation == final(self).slot_gen(r.index as int),
            forall|i: int| i != r.index ==> #[trigger] final(self).slot_gen(i) == old(self).slot_gen(i),
            old(self).live_handles().len() == old(self).spec_slot_count() ==> final(self).live_handles() == old(self).live_handles().push(r) && final(self).spec_slot_count()
                == old(self).spec_slot_count() + 1,
    {
        match self.free.pop() {
            Some(index) => {
                proof {
                    if old(self).live_handles().len() == old(self).spec_slot_count() {
                        old(self).lemma_live_count();
                        assert(old(self).free@.len() > 0);
                        assert(old(self).free@[old(self).free@.len() - 1]
                            < old(self).slots@.len());
                        assert(false);
                    }
                }
                let g = self.gens[index];
                let gen = g + 1;
                self.gens[index] = gen;
                self.slots[index] = Some(value);
                let r = Handle { index, generation: gen };
                proof {
                    assert forall|h: Handle| h != r implies (final(self).valid(h) <==> old(
                        self,
                    ).valid(h)) by {
                        if h.index != r.index {
                        } else {
                            assert(!old(self).valid(h));
                            assert(h.generation != gen);
                        }
                    }
                    assert forall|i: usize|
                        i < self.slots@.len() && self.slots@[i as int] is None
                            && #[trigger] self.gens@[i as int] < u64::MAX implies self.free@.contains(
                        i,
                    ) by {
                        assert(old(self).free@.contains(i));
                        let j = choose|j: int|
                            0 <= j < old(self).free@.len() && old(self).free@[j] == i;
                        assert(i != index);
                        assert(old(self).free@[old(self).free@.len() - 1] == index);
                        assert(j < old(self).free@.len() - 1);
                        assert(self.free@[j] == i);
                    }
                }
                r
            },
            None => {
                let index = self.slots.len();
                self.slots.push(Some(value));
                self.gens.push(1);
                let r = Handle { index, generation: 1 };
                proof {
                    lemma_live_up_to_congruent::<T>(
                        *old(self),
                        *self,
                        old(self).spec_slot_count(),
                    );
                    assert(self.live_up_to(old(self).spec_slot_count() + 1)
                        == self.live_up_to(old(self).spec_slot_count()).push(r));
                    assert forall|i: usize|
                        i < self.slots@.len() && self.slots@[i as int] is None
                            && #[trigger] self.gens@[i as int] < u64::MAX implies self.free@.contains(
                        i,
                    ) by {
                        assert(i < old(self).slots@.len());
                        assert(old(self).free@.contains(i));
                    }
                }
                r
            },
        }
    }

    /// Looks a handle up; a stale or foreign handle yields `None`.
    pub fn get(&self, h: Handle) -> (r: Option<&T>)
        requires
            self.wf(),
        ensures
            match r {
                Some(v) => self.valid(h) && *v == self.at(h),
                None => !self.valid(h),
            },
    {
        if h.index < self.slots.len() {
            if self.gens[h.index] == h.generation {
                match &self.slots[h.index] {
                    Some(v) => Some(v),
                    None => None,
                }
            } else {
                None
            }
        } else {
            None
        }
    }

    /// Replaces the record behind a live handle; returns whether the handle
    /// was live.
    pub fn set(&mut self, h: Handle, value: T) -> (r: bool)
        requires
            old(self).wf(),
        ensures
            final(self).wf(),
            r == old(self).valid(h),
            forall|h2: Handle| #[trigger] final(self).valid(h2) <==> old(self).valid(h2),
            old(self).valid(h) ==> final(self).at(h) == value,
            forall|h2: Handle|
                h2.index != h.index && old(self).valid(h2) ==> #[trigger] final(self).at(h2) == old(
                    self,
                ).at(h2),
            !old(self).valid(h) ==> *final(self) == *old(self),
            final(self).spec_slot_count() == old(self).spec_slot_count(),
            forall|i: int| #[trigger] final(self).slot_gen(i) == old(self).slot_gen(i),
            final(self).live_handles() == old(self).live_handles(),
    {
        if h.index < self.slots.len() {
            if self.gens[h.index] == h.generation {
                let is_live = self.slots[h.index].is_some();
                if is_live {
                    self.slots[h.index] = Some(value);
                    proof {
                        lemma_live_up_to_congruent::<T>(
                            *old(self),
                            *self,
                            old(self).spec_slot_count(),
                        );
                        assert forall|i: usize|
                            i < self.slots@.len() && self.slots@[i as int] is None
                                && #[trigger] self.gens@[i as int] < u64::MAX implies self.free@.contains(
                            i,
                        ) by {
                            assert(old(self).free@.contains(i));
                        }
                    }
                    return true;
                }
            }
        }
        false
    }

    /// Removes the record behind a live handle.  Afterwards no handle with
    /// the same slot index resolves, and every other handle is untouched.
    pub fn remove(&mut self, h: Handle) -> (r: Option<T>)
        requires
            old(self).wf(),
        ensures
            final(self).wf(),
            match r {
                Some(v) => old(self).valid(h) && v == old(self).at(h),
                None => !old(self).valid(h),
            },
            !old(self).valid(h) ==> *final(self) == *old(self),
            old(self).valid(h) ==> forall|h2: Handle|
                h2.index == h.index ==> !(#[trigger] final(self).valid(h2)),
            forall|h2: Handle|
                h2.index != h.index ==> (#[trigger] final(self).valid(h2) <==> old(self).valid(
                    h2,
                )),
            forall|h2: Handle|
                h2.index != h.index && old(self).valid(h2) ==> #[trigger] final(self).at(h2) == old(
                    self,
                ).at(h2),
            final(self).spec_slot_count() == old(self).spec_slot_count(),
            forall|i: int| #[trigger] final(self).slot_gen(i) == old(self).slot_gen(i),
    {
        if h.index >= self.slots.len() {
            return None;
        }
        if self.gens[h.index] != h.generation {
            return None;
        }
        if self.slots[h.index].is_none() {
            return None;
        }
        let slot = &mut self.slots[h.index];
        let taken = slot.take();
        match taken {
            Some(v) => {
                if self.gens[h.index] < u64::MAX {
                    self.free.push(h.index);
                }
                proof {
                    assert forall|i: usize|
                        i < self.slots@.len() && self.slots@[i as int] is None
                            && #[trigger] self.gens@[i as int] < u64::MAX implies self.free@.contains(
                        i,
                    ) by {
                        if i == h.index {
                            assert(self.free@.last() == h.index);
                        } else {
                            assert(old(self).free@.contains(i));
                            let j = choose|j: int|
                                0 <= j < old(self).free@.len() && old(self).free@[j] == i;
                            assert(self.free@[j] == i);
                        }
                    }
                }
                Some(v)
            },
            None => {
                proof {
                    assert(false);
                }
                None
            },
        }
    }

    /// The live handles among the first `n` slots, in slot order.
    pub closed spec fn live_up_to(self, n: int) -> Seq<Handle>
        decreases n,
    {
        if n <= 0 {
            Seq::empty()
        } else {
            let rest = self.live_up_to(n - 1);
            if self.slots@[n - 1] is Some {
                rest.push(Handle { index: (n - 1) as usize, generation: self.gens@[n - 1] })
            } else {
                rest
            }
        }
    }

    /// All live handles, in slot order, as a spec value.
    pub closed spec fn live_handles(self) -> Seq<Handle> {
        self.live_up_to(self.slots@.len() as int)
    }

    /// Every entry of the live-handle sequence is valid, every valid handle
    /// occurs in it, and the slot indexes are strictly increasing.
    pub proof fn lemma_live_handles(self)
        requires
            self.wf(),
        ensures
            forall|j: int|
                0 <= j < self.live_handles().len() ==> self.valid(
                    #[trigger] self.live_handles()[j],
                ),
            forall|h: Handle| self.valid(h) ==> #[trigger] self.live_handles().contains(h),
            forall|j: int, k: int|
                0 <= j < k < self.live_handles().len() ==> self.live_handles()[j].index
                    < self.live_handles()[k].index,
    {
        self.lemma_live_up_to(self.slots@.len() as int);
    }

    /// The induction behind [`Arena::lemma_live_handles`].
    proof fn lemma_live_up_to(self, n: int)
        requires
            self.wf(),
            n <= self.slots@.len(),
        ensures
            forall|j: int|
                0 <= j < self.live_up_to(n).len() ==> self.valid(#[trigger] self.live_up_to(n)[j]),
            forall|j: int|
                0 <= j < self.live_up_to(n).len() ==> #[trigger] self.live_up_to(n)[j].index < n,
            forall|h: Handle|
                self.valid(h) && h.index < n ==> #[trigger] self.live_up_to(n).contains(h),
            forall|j: int, k: int|
                0 <= j < k < self.live_up_to(n).len() ==> self.live_up_to(n)[j].index
                    < self.live_up_to(n)[k].index,
        decreases n,
    {
        if n <= 0 {
        } else {
            vstd::std_specs::vec::axiom_spec_len(&self.slots);
            assert(self.slots@.len() <= usize::MAX);
            self.lemma_live_up_to(n - 1);
            let rest = self.live_up_to(n - 1);
            let cur = self.live_up_to(n);
            if self.slots@[n - 1] is Some {
                let h = Handle { index: (n - 1) as usize, generation: self.gens@[n - 1] };
                assert(cur == rest.push(h));
                assert(self.valid(h));
                assert forall|j: int| 0 <= j < cur.len() implies self.valid(#[trigger] cur[j])
                    && cur[j].index < n by {
                    if j < rest.len() {
                        assert(cur[j] == rest[j]);
                    } else {
                        assert(cur[j] == h);
                    }
                }
                assert forall|h2: Handle| self.valid(h2) && h2.index < n implies
                    #[trigger] cur.contains(h2) by {
                    if h2.index < n - 1 {
                        assert(rest.contains(h2));
                        let j = choose|j: int| 0 <= j < rest.len() && rest[j] == h2;
                        assert(cur[j] == h2);
                    } else {
                        assert(h2 == h);
                        assert(cur[cur.len() - 1] == h);
                    }
                }
                assert forall|j: int, k: int| 0 <= j < k < cur.len() implies cur[j].index
                    < cur[k].index by {
                    if k < rest.len() {
                        assert(cur[j] == rest[j] && cur[k] == rest[k]);
                    } else {
                        assert(cur[k] == h);
                        assert(cur[j] == rest[j]);
                        assert(rest[j].index < n - 1);
                    }
                }
            } else {
                assert(cur == rest);
                assert forall|h2: Handle| self.valid(h2) && h2.index < n implies
                    #[trigger] cur.contains(h2) by {
                    assert(h2.index != n - 1);
                }
            }
        }
    }

    /// Counting the live handles: never more than the slots, and only equal
    /// when every slot is occupied.
    proof fn lemma_live_count_up_to(self, n: int)
        requires
            0 <= n <= self.slots@.len(),
        ensures
            self.live_up_to(n).len() <= n,
            self.live_up_to(n).len() == n ==> forall|i: int|
                0 <= i < n ==> self.slots@[i] is Some,
        decreases n,
    {
        if n > 0 {
            self.lemma_live_count_up_to(n - 1);
            if self.live_up_to(n).len() == n {
                assert(self.live_up_to(n - 1).len() == n - 1);
                assert(self.slots@[n - 1] is Some);
            }
        }
    }

    /// A full arena (as many live handles as slots) has every slot occupied.
    proof fn lemma_live_count(self)
        ensures
            self.live_handles().len() == self.spec_slot_count() ==> forall|i: int|
                0 <= i < self.slots@.len() ==> self.slots@[i] is Some,
    {
        self.lemma_live_count_up_to(self.slots@.len() as int);
    }

    /// All live handles, in slot order.
    pub fn keys(&self) -> (r: Vec<Handle>)
        requires
            self.wf(),
        ensures
            r@ == self.live_handles(),
            forall|j: int| 0 <= j < r@.len() ==> self.valid(#[trigger] r@[j]),
            forall|h: Handle| self.valid(h) ==> #[trigger] r@.contains(h),
            forall|j: int, k: int| 0 <= j < k < r@.len() ==> r@[j].index < r@[k].index,
    {
        let mut r: Vec<Handle> = Vec::new();
        let n = self.slots.len();
        let mut i: usize = 0;
        while i < n
            invariant
                i <= n,
                n == self.slots@.len(),
                self.gens@.len() == self.slots@.len(),
                r@ == self.live_up_to(i as int),
                forall|j: int| 0 <= j < r@.len() ==> self.valid(#[trigger] r@[j]),
                forall|j: int| 0 <= j < r@.len() ==> #[trigger] r@[j].index < i,
                forall|h: Handle| self.valid(h) && h.index < i ==> #[trigger] r@.contains(h),
                forall|j: int, k: int| 0 <= j < k < r@.len() ==> r@[j].index < r@[k].index,
            decreases n - i,
        {
            if self.slots[i].is_some() {
                let h = Handle { index: i, generation: self.gens[i] };
                let ghost prev = r@;
                r.push(h);
                proof {
                    assert forall|h2: Handle| self.valid(h2) && h2.index < i + 1 implies
                        #[trigger] r@.contains(h2) by {
                        if h2.index < i {
                            assert(prev.contains(h2));
                            let j = choose|j: int| 0 <= j < prev.len() && prev[j] == h2;
                            assert(r@[j] == h2);
                        } else {
                            assert(h2 == h);
                            assert(r@[r@.len() - 1] == h);
                        }
                    }
                }
            } else {
                proof {
                    assert forall|h2: Handle| self.valid(h2) && h2.index < i + 1 implies
                        #[trigger] r@.contains(h2) by {
                        assert(h2.index != i);
                    }
                }
            }
            i = i + 1;
        }
        r
    }
}

/// Whether a handle list holds a given handle.
pub fn contains_handle(v: &Vec<Handle>, h: Handle) -> (r: bool)
    ensures
        r == v@.contains(h),
{
    let n = v.len();
    let mut i: usize = 0;
    while i < n
        invariant
            i <= n,
            n == v@.len(),
            forall|j: int| 0 <= j < i ==> v@[j] != h,
        decreases n - i,
    {
        if v[i].index == h.index && v[i].generation == h.generation {
            proof {
                assert(v@[i as int] == h);
            }
            return true;
        }
        i = i + 1;
    }
    false
}

/// Two arenas with the same occupancy and generations below `n` list the
/// same live handles below `n`.
proof fn lemma_live_up_to_congruent<T>(a: Arena<T>, b: Arena<T>, n: int)
    requires
        n <= a.spec_slot_count(),
        n <= b.spec_slot_count(),
        n <= a.gens@.len(),
        n <= b.gens@.len(),
        forall|i: int| 0 <= i < n ==> (#[trigger] a.slot_occupied(i) <==> b.slot_occupied(i)),
        forall|i: int| 0 <= i < n ==> #[trigger] a.slot_gen(i) == b.slot_gen(i),
    ensures
        a.live_up_to(n) == b.live_up_to(n),
    decreases n,
{
    if n > 0 {
        lemma_live_up_to_congruent(a, b, n - 1);
        assert(a.slot_occupied(n - 1) <==> b.slot_occupied(n - 1));
        assert(a.slot_gen(n - 1) == b.slot_gen(n - 1));
        if a.slots@[n - 1] is Some {
            assert(a.gens@[n - 1] == b.gens@[n - 1]);
            assert(a.live_up_to(n) == a.live_up_to(n - 1).push(
                Handle { index: (n - 1) as usize, generation: a.gens@[n - 1] },
            ));
            assert(b.live_up_to(n) == b.live_up_to(n - 1).push(
                Handle { index: (n - 1) as usize, generation: b.gens@[n - 1] },
            ));
        } else {
            assert(a.live_up_to(n) == a.live_up_to(n - 1));
            assert(b.live_up_to(n) == b.live_up_to(n - 1));
        }
    }
}

} // verus!
