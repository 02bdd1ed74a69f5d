use vstd::prelude::*;

verus! {

/// Fixed block of `N` element slots, each either empty or holding one live
/// value, together with the cursor pair that carves the occupied ring out of
/// the block: `first` is the physical index of the oldest live element and
/// `size` counts the live elements.
///
/// The occupied slots are exactly the physical indices
/// `first, first + 1, ..., first + size - 1`, wrapping around at `N`;
/// every other slot is empty.
#[derive(Debug)]
pub(crate) struct ItemStorage<T, const N: usize> {
    pub(crate) items: Vec<Option<T>>,
    pub(crate) first: usize,
    pub(crate) size: usize,
}

impl<T, const N: usize> ItemStorage<T, N> {
    /// Physical slot of the logical position `k`, counting `0` as oldest.
    /// Meaningful for `0 <= k <= N` when `N > 0`; position `N` wraps back
    /// onto `first`.
    pub(crate) open spec fn phys(self, k: int) -> int {
        if self.first + k < N {
            self.first + k
        } else {
            self.first + k - N
        }
    }

    /// Whether physical slot `j` lies on the ring of `count` slots that
    /// starts at `first` and wraps at `N`.
    pub(crate) open spec fn in_ring(first: int, count: int, j: int) -> bool {
        if first + count <= N {
            first <= j < first + count
        } else {
            j < first + count - N || first <= j < N
        }
    }

    /// Whether physical slot `j` lies inside the occupied ring.
    pub(crate) open spec fn slot_occupied(self, j: int) -> bool {
        Self::in_ring(self.first as int, self.size as int, j)
    }

    /// Well-formedness: the block has exactly `N` slots, the cursors stay in
    /// range, and a slot holds a value exactly when it lies in the occupied
    /// ring.
    pub(crate) open spec fn wf(self) -> bool {
        &&& self.items@.len() == N
        &&& self.size <= N
        &&& if N == 0 {
                self.first == 0
            } else {
                self.first < N
            }
        &&& forall|j: int|
                0 <= j < N ==> (self.items@[j] is Some <==> self.slot_occupied(j))
    }

    /// The logical contents: live elements oldest to newest.
    pub(crate) open spec fn view(self) -> Seq<T> {
        Seq::new(self.size as nat, |k: int| self.items@[self.phys(k)]->0)
    }

    /// Two distinct logical positions never share a physical slot.
    pub(crate) proof fn lemma_phys_injective(self, a: int, b: int)
        requires
            N > 0,
            self.first < N,
            0 <= a < N,
            0 <= b < N,
            self.phys(a) == self.phys(b),
        ensures
            a == b,
    {
    }

    /// An empty storage block: `N` empty slots, cursors at zero.
    pub(crate) fn empty() -> (r: Self)
        ensures
            r.wf(),
            r@ == Seq::<T>::empty(),
            r.first == 0,
            r.size == 0,
    {
        let mut items: Vec<Option<T>> = Vec::new();
        while items.len() < N
            invariant
                items@.len() <= N,
                forall|j: int| 0 <= j < items@.len() ==> items@[j] is None,
            decreases N - items@.len(),
        {
            items.push(None);
        }
        let r = ItemStorage { items, first: 0, size: 0 };
        proof {
            assert(r@ =~= Seq::<T>::empty());
        }
        r
    }

    /// Physical slot of logical position `k`, computed without overflow.
    pub(crate) fn phys_index(&self, k: usize) -> (j: usize)
        requires
            N > 0,
            self.first < N,
            k <= N,
        ensures
            j == self.phys(k as int),
            j < N,
    {
        let gap = N - self.first;
        if k >= gap {
            k - gap
        } else {
            self.first + k
        }
    }

    /// Place `value` into the empty slot `j`.
    pub(crate) fn write(&mut self, j: usize, value: T)
        requires
            j < old(self).items@.len(),
            old(self).items@[j as int] is None,
        ensures
            final(self).items@ == old(self).items@.update(j as int, Some(value)),
            final(self).first == old(self).first,
            final(self).size == old(self).size,
    {
        let slot = &mut self.items[j];
        *slot = Some(value);
    }

    /// Destroy the value in the occupied slot `j`, leaving it empty.
    pub(crate) fn destroy(&mut self, j: usize)
        requires
            j < old(self).items@.len(),
            old(self).items@[j as int] is Some,
        ensures
            final(self).items@ == old(self).items@.update(j as int, None),
            final(self).first == old(self).first,
            final(self).size == old(self).size,
    {
        let slot = &mut self.items[j];
        let _ = slot.take();
    }

    /// Borrow the value in the occupied slot `j`.
    pub(crate) fn read_ref(&self, j: usize) -> (r: &T)
        requires
            j < self.items@.len(),
            self.items@[j as int] is Some,
        ensures
            *r == self.items@[j as int]->0,
    {
        self.items[j].as_ref().unwrap()
    }

    /// Move the value out of the occupied slot `j`, leaving it empty.
    pub(crate) fn read_owned(&mut self, j: usize) -> (r: T)
        requires
            j < old(self).items@.len(),
            old(self).items@[j as int] is Some,
        ensures
            r == old(self).items@[j as int]->0,
            final(self).items@ == old(self).items@.update(j as int, None),
            final(self).first == old(self).first,
            final(self).size == old(self).size,
    {
        let slot = &mut self.items[j];
        slot.take().unwrap()
    }
}

impl<T: Clone, const N: usize> ItemStorage<T, N> {
    /// An independent storage block with the same cursors and a clone of the
    /// value in every occupied slot; the empty slots stay empty.
    pub(crate) fn duplicate(&self) -> (r: Self)
        requires
            self.wf(),
        ensures
            r.wf(),
            r.first == self.first,
            r.size == self.size,
            r@.len() == self@.len(),
            forall|k: int|
                0 <= k < self@.len() ==> vstd::pervasive::cloned::<T>(
                    self@[k],
                    #[trigger] r@[k],
                ),
    {
        let mut new_items: Vec<Option<T>> = Vec::new();
        while new_items.len() < N
            invariant
                new_items@.len() <= N,
                forall|j: int| 0 <= j < new_items@.len() ==> new_items@[j] is None,
            decreases N - new_items@.len(),
        {
            new_items.push(None);
        }
        let mut k: usize = 0;
        while k < self.size
            invariant
                self.wf(),
                k <= self.size,
                new_items@.len() == N,
                forall|j: int|
                    0 <= j < N ==> (new_items@[j] is Some <==> Self::in_ring(
                        self.first as int,
                        k as int,
                        j,
                    )),
                forall|m: int|
                    0 <= m < k ==> vstd::pervasive::cloned::<T>(
                        self@[m],
                        #[trigger] new_items@[self.phys(m)]->0,
                    ),
            decreases self.size - k,
        {
            let j = self.phys_index(k);
            proof {
                assert(self.slot_occupied(j as int));
            }
            let value = self.read_ref(j).clone();
            let ghost prev = new_items@;
            let slot = &mut new_items[j];
            *slot = Some(value);
            proof {
                assert forall|m: int| 0 <= m < k implies self.phys(m) != j as int by {
                    if self.phys(m) == j as int {
                        self.lemma_phys_injective(m, k as int);
                    }
                }
                assert forall|jj: int|
                    0 <= jj < N implies (new_items@[jj] is Some <==> Self::in_ring(
                    self.first as int,
                    k + 1,
                    jj,
                )) by {
                    assert(prev[jj] is Some <==> Self::in_ring(self.first as int, k as int, jj));
                }
            }
            k = k + 1;
        }
        let r = ItemStorage { items: new_items, first: self.first, size: self.size };
        proof {
            assert forall|m: int| 0 <= m < self@.len() implies vstd::pervasive::cloned::<T>(
                self@[m],
                #[trigger] r@[m],
            ) by {
                assert(r@[m] == new_items@[self.phys(m)]->0);
            }
        }
        r
    }
}

} // verus!
