use vstd::prelude::*;

use crate::storage::ItemStorage;

verus! {

/// The result of one push on a buffer of capacity `capacity` whose logical
/// contents are `s`: with no capacity the value is discarded, below capacity
/// it is appended, and at capacity the oldest element makes way for it.
pub open spec fn pushed<T>(s: Seq<T>, value: T, capacity: nat) -> Seq<T> {
    if capacity == 0 {
        s
    } else if s.len() < capacity {
        s.push(value)
    } else {
        s.skip(1).push(value)
    }
}

/// A circular buffer of fixed capacity `N`.
///
/// Its logical view (written `buffer@`) is the sequence of live elements,
/// oldest first. A push appends to that sequence, silently evicting the
/// oldest element once `N` elements are live; the view never grows past `N`.
#[derive(Debug)]
pub struct RingBuffer<T, const N: usize>(pub(crate) ItemStorage<T, N>);

impl<T, const N: usize> View for RingBuffer<T, N> {
    type V = Seq<T>;

    closed spec fn view(&self) -> Seq<T> {
        self.0@
    }
}

impl<T, const N: usize> RingBuffer<T, N> {
    /// Well-formedness of the internal cursors and slots; established by
    /// every constructor and preserved by every operation.
    pub closed spec fn wf(self) -> bool {
        self.0.wf()
    }

    /// A well-formed buffer never holds more than `N` elements.
    pub proof fn lemma_size_bounded(self)
        requires
            self.wf(),
        ensures
            self@.len() <= N,
    {
    }

    /// Creates a new empty buffer.
    pub fn new() -> (r: Self)
        ensures
            r.wf(),
            r@ == Seq::<T>::empty(),
    {
        RingBuffer(ItemStorage::empty())
    }

    /// The number of elements currently held.
    pub fn get_size(&self) -> (r: usize)
        ensures
            r == self@.len(),
    {
        self.0.size
    }

    /// Append one element.
    ///
    /// This never grows the buffer past its capacity: on a full buffer the
    /// oldest element is destroyed to make room, and with capacity zero the
    /// value is simply discarded.
    pub fn push(&mut self, new_item: T)
        requires
            old(self).wf(),
        ensures
            final(self).wf(),
            final(self)@ == pushed(old(self)@, new_item, N as nat),
    {
        if N > 0 {
            let last = self.0.phys_index(self.0.size);
            if self.0.size == N {
                // The buffer is full: the slot after the newest element is
                // the oldest one. Evict it, put the new element there, and
                // advance the oldest cursor.
                proof {
                    assert(self.0.slot_occupied(last as int));
                }
                self.0.destroy(last);
                self.0.write(last, new_item);
                self.0.first = if self.0.first + 1 == N {
                    0
                } else {
                    self.0.first + 1
                };
                proof {
                    let pre = old(self).0;
                    let post = self.0;
                    assert forall|j: int|
                        0 <= j < N implies post.slot_occupied(j) && post.items@[j] is Some by {
                        assert(pre.items@[j] is Some <==> pre.slot_occupied(j));
                        assert(pre.slot_occupied(j));
                    }
                    assert forall|k: int| 0 <= k < N implies post.items@[post.phys(k)]->0
                        == pre@.skip(1).push(new_item)[k] by {
                        if k < N - 1 {
                            assert(post.phys(k) == pre.phys(k + 1));
                            if pre.phys(k + 1) == last {
                                pre.lemma_phys_injective(k + 1, 0);
                            }
                            assert(post.items@[pre.phys(k + 1)] == pre.items@[pre.phys(k + 1)]);
                        } else {
                            assert(post.phys(k) == last);
                        }
                    }
                    assert(post@ =~= pushed(pre@, new_item, N as nat));
                }
            } else {
                // Below capacity: the slot after the newest element is free.
                proof {
                    assert(!self.0.slot_occupied(last as int));
                }
                self.0.write(last, new_item);
                self.0.size = self.0.size + 1;
                proof {
                    let pre = old(self).0;
                    let post = self.0;
                    assert forall|j: int|
                        0 <= j < N implies (post.items@[j] is Some <==> post.slot_occupied(j)) by {
                        assert(pre.items@[j] is Some <==> pre.slot_occupied(j));
                    }
                    assert forall|k: int| 0 <= k < post.size implies post.items@[post.phys(k)]->0
                        == pre@.push(new_item)[k] by {
                        if k < pre.size {
                            if pre.phys(k) == last {
                                pre.lemma_phys_injective(k, pre.size as int);
                            }
                            assert(post.items@[pre.phys(k)] == pre.items@[pre.phys(k)]);
                        }
                    }
                    assert(post@ =~= pushed(pre@, new_item, N as nat));
                }
            }
        }
    }
}

impl<T, const N: usize> RingBuffer<T, N> {
    /// Borrow the element at logical position `i`, counting `0` as oldest.
    ///
    /// An out-of-range position is a caller error and is ruled out by the
    /// precondition; [`RingBuffer::get`] is the checked variant.
    pub fn index(&self, i: usize) -> (r: &T)
        requires
            self.wf(),
            i < self@.len(),
        ensures
            *r == self@[i as int],
    {
        let j = self.0.phys_index(i);
        proof {
            assert(self.0.slot_occupied(j as int));
        }
        self.0.read_ref(j)
    }

    /// Borrow the element at logical position `i`, or `None` when fewer than
    /// `i + 1` elements are held.
    pub fn get(&self, i: usize) -> (r: Option<&T>)
        requires
            self.wf(),
        ensures
            i < self@.len() ==> r is Some && *r->0 == self@[i as int],
            i >= self@.len() ==> r is None,
    {
        if i < self.0.size {
            Some(self.index(i))
        } else {
            None
        }
    }

    /// Iterate over references to the elements, oldest first.
    pub fn iter<'a>(&'a self) -> (r: RingBufferIterRef<'a, T, N>)
        requires
            self.wf(),
        ensures
            r.wf(),
            r.remaining() == self@,
    {
        let r = RingBufferIterRef { storage: &self.0, pos: 0 };
        proof {
            assert(r.remaining() =~= self@);
        }
        r
    }

    /// Turn the buffer into a consuming iterator that drains the elements,
    /// oldest first.
    pub fn into_iter(self) -> (r: RingBufferIter<T, N>)
        requires
            self.wf(),
        ensures
            r.wf(),
            r@ == self@,
    {
        RingBufferIter(self.0)
    }
}

impl<T: Clone, const N: usize> RingBuffer<T, N> {
    /// An independent buffer holding a clone of every element, in the same
    /// order. Each pair of original and copy is related by the element
    /// type's own `clone` contract.
    pub fn clone(&self) -> (r: Self)
        requires
            self.wf(),
        ensures
            r.wf(),
            r@.len() == self@.len(),
            forall|k: int|
                0 <= k < self@.len() ==> vstd::pervasive::cloned::<T>(self@[k], #[trigger] r@[k]),
    {
        RingBuffer(self.0.duplicate())
    }
}

/// Consuming iterator over a [`RingBuffer`]: owns the buffer's storage and
/// moves one element out per step, oldest first.
pub struct RingBufferIter<T, const N: usize>(pub(crate) ItemStorage<T, N>);

impl<T, const N: usize> View for RingBufferIter<T, N> {
    type V = Seq<T>;

    closed spec fn view(&self) -> Seq<T> {
        self.0@
    }
}

impl<T, const N: usize> RingBufferIter<T, N> {
    /// Well-formedness of the drained storage; preserved by every step.
    pub closed spec fn wf(self) -> bool {
        self.0.wf()
    }

    /// Move the oldest remaining element out, or return `None` once the
    /// storage is drained.
    pub fn next(&mut self) -> (r: Option<T>)
        requires
            old(self).wf(),
        ensures
            final(self).wf(),
            old(self)@.len() == 0 ==> r is None && final(self)@ == old(self)@,
            old(self)@.len() > 0 ==> r == Some(old(self)@[0]) && final(self)@ == old(self)@.skip(
                1,
            ),
    {
        if self.0.size == 0 {
            return None;
        }
        let j = self.0.first;
        proof {
            assert(j == self.0.phys(0));
            assert(self.0.slot_occupied(j as int));
        }
        let value = self.0.read_owned(j);
        self.0.first = if self.0.first + 1 == N {
            0
        } else {
            self.0.first + 1
        };
        self.0.size = self.0.size - 1;
        proof {
            let pre = old(self).0;
            let post = self.0;
            assert forall|jj: int|
                0 <= jj < N implies (post.items@[jj] is Some <==> post.slot_occupied(jj)) by {
                assert(pre.items@[jj] is Some <==> pre.slot_occupied(jj));
            }
            assert forall|k: int| 0 <= k < post.size implies post.items@[post.phys(k)]->0
                == pre@.skip(1)[k] by {
                assert(post.phys(k) == pre.phys(k + 1));
                if pre.phys(k + 1) == pre.first {
                    pre.lemma_phys_injective(k + 1, 0);
                }
                assert(post.items@[pre.phys(k + 1)] == pre.items@[pre.phys(k + 1)]);
            }
            assert(post@ =~= pre@.skip(1));
        }
        Some(value)
    }
}

/// Borrowing iterator over a [`RingBuffer`]: walks the live elements oldest
/// first, yielding a reference per step, while the buffer stays intact.
pub struct RingBufferIterRef<'a, T, const N: usize> {
    pub(crate) storage: &'a ItemStorage<T, N>,
    pub(crate) pos: usize,
}

impl<'a, T, const N: usize> RingBufferIterRef<'a, T, N> {
    /// Well-formedness of the walk: the borrowed storage is well formed and
    /// the cursor has not run past its contents.
    pub closed spec fn wf(self) -> bool {
        &&& self.storage.wf()
        &&& self.pos <= self.storage.size
    }

    /// The elements not yet yielded, oldest first.
    pub closed spec fn remaining(self) -> Seq<T> {
        self.storage@.skip(self.pos as int)
    }

    /// Borrow the oldest element not yet yielded, or return `None` once all
    /// have been.
    pub fn next(&mut self) -> (r: Option<&'a T>)
        requires
            old(self).wf(),
        ensures
            final(self).wf(),
            old(self).remaining().len() == 0 ==> r is None && final(self).remaining() == old(
                self,
            ).remaining(),
            old(self).remaining().len() > 0 ==> r is Some && *r->0 == old(self).remaining()[0]
                && final(self).remaining() == old(self).remaining().skip(1),
    {
        if self.pos < self.storage.size {
            let j = self.storage.phys_index(self.pos);
            proof {
                assert(self.storage.slot_occupied(j as int));
            }
            let r = self.storage.read_ref(j);
            self.pos = self.pos + 1;
            proof {
                assert(self.remaining() =~= old(self).remaining().skip(1));
            }
            Some(r)
        } else {
            None
        }
    }
}

impl<T, const N: usize> Default for RingBuffer<T, N> {
    /// Creates a new empty buffer, as [`RingBuffer::new`] does.
    fn default() -> (r: Self)
        ensures
            r.wf(),
            r@ == Seq::<T>::empty(),
    {
        Self::new()
    }
}

} // verus!
