use vstd::prelude::*;

use crate::ring_buffer::RingBuffer;

verus! {

/// Rejection of a decode whose input holds more elements than the target
/// buffer has capacity for.
#[derive(Debug, PartialEq, Eq, Structural)]
pub struct CapacityError {
    /// The capacity of the buffer that was being built.
    pub capacity: usize,
    /// The number of elements the input held.
    pub provided: usize,
}

impl<T: Clone, const N: usize> RingBuffer<T, N> {
    /// Encode: collect the live elements, oldest first, into a vector.
    ///
    /// The result has exactly one entry per live element — a partially
    /// filled buffer encodes to a short vector, never one padded to
    /// capacity. Each entry is related to its element by the element type's
    /// own `clone` contract.
    pub fn to_vec(&self) -> (r: Vec<T>)
        requires
            self.wf(),
        ensures
            r@.len() == self@.len(),
            forall|k: int|
                0 <= k < self@.len() ==> vstd::pervasive::cloned::<T>(self@[k], #[trigger] r@[k]),
    {
        let mut out: Vec<T> = Vec::new();
        let size = self.get_size();
        let mut i: usize = 0;
        while i < size
            invariant
                self.wf(),
                size == self@.len(),
                i <= size,
                out@.len() == i,
                forall|k: int|
                    0 <= k < i ==> vstd::pervasive::cloned::<T>(self@[k], #[trigger] out@[k]),
            decreases size - i,
        {
            let v = self.index(i).clone();
            out.push(v);
            i = i + 1;
        }
        out
    }
}

impl<T, const N: usize> RingBuffer<T, N> {
    /// Decode: build a fresh buffer holding exactly the elements of
    /// `values`, in order.
    ///
    /// An input longer than the capacity `N` is rejected whole — never
    /// truncated to fit — with a [`CapacityError`] naming the capacity and
    /// the offending length.
    pub fn try_from_vec(values: Vec<T>) -> (r: Result<Self, CapacityError>)
        ensures
            values@.len() <= N ==> r is Ok && r->Ok_0.wf() && r->Ok_0@ == values@,
            values@.len() > N ==> r is Err && r->Err_0 == (CapacityError {
                capacity: N,
                provided: values@.len() as usize,
            }),
    {
        if values.len() > N {
            return Err(CapacityError { capacity: N, provided: values.len() });
        }
        let mut rest = values;
        let ghost all = rest@;
        let mut buffer = RingBuffer::new();
        let mut i: usize = 0;
        while rest.len() > 0
            invariant
                buffer.wf(),
                all.len() <= N,
                i + rest@.len() == all.len(),
                buffer@ == all.take(i as int),
                rest@ == all.skip(i as int),
            decreases rest@.len(),
        {
            let v = rest.remove(0);
            buffer.push(v);
            i = i + 1;
            proof {
                assert(buffer@ =~= all.take(i as int));
                assert(rest@ =~= all.skip(i as int));
            }
        }
        proof {
            assert(buffer@ =~= all);
        }
        Ok(buffer)
    }
}

} // verus!
