//! The laws of the buffer, proved over its logical view.
//!
//! Each exec operation's contract pins its effect on the view down exactly;
//! the lemmas here state what follows for whole sequences of operations:
//! the capacity bound, order preservation, the eviction rule, the
//! zero-capacity degenerate case, and that a full drain yields everything
//! exactly once.

use vstd::prelude::*;

use crate::ring_buffer::pushed;
use crate::ring_buffer::RingBuffer;

verus! {

/// The contents after pushing every element of `values`, in order, onto a
/// buffer of capacity `capacity` whose contents are `s`.
pub open spec fn pushed_all<T>(s: Seq<T>, values: Seq<T>, capacity: nat) -> Seq<T>
    decreases values.len(),
{
    if values.len() == 0 {
        s
    } else {
        pushed_all(pushed(s, values[0], capacity), values.skip(1), capacity)
    }
}

/// Pushing a batch and then one more value is the batch followed by a
/// single push.
pub proof fn lemma_pushed_all_snoc<T>(s: Seq<T>, values: Seq<T>, v: T, capacity: nat)
    ensures
        pushed_all(s, values.push(v), capacity) == pushed(
            pushed_all(s, values, capacity),
            v,
            capacity,
        ),
    decreases values.len(),
{
    if values.len() == 0 {
        assert(values.push(v)[0] == v);
        assert(values.push(v).skip(1) =~= Seq::<T>::empty());
        assert(pushed_all(s, values.push(v), capacity) == pushed_all(
            pushed(s, v, capacity),
            Seq::<T>::empty(),
            capacity,
        ));
        assert(pushed_all(s, values, capacity) == s);
    } else {
        assert(values.push(v)[0] == values[0]);
        assert(values.push(v).skip(1) =~= values.skip(1).push(v));
        assert(pushed_all(s, values.push(v), capacity) == pushed_all(
            pushed(s, values[0], capacity),
            values.skip(1).push(v),
            capacity,
        ));
        assert(pushed_all(s, values, capacity) == pushed_all(
            pushed(s, values[0], capacity),
            values.skip(1),
            capacity,
        ));
        lemma_pushed_all_snoc(pushed(s, values[0], capacity), values.skip(1), v, capacity);
    }
}

/// Law: however many values are pushed, the contents never grow past the
/// capacity; and on a buffer of positive capacity, once the pushes reach
/// the capacity the buffer is exactly full.
pub proof fn lemma_capacity_invariant<T>(s: Seq<T>, values: Seq<T>, capacity: nat)
    requires
        s.len() <= capacity,
    ensures
        pushed_all(s, values, capacity).len() <= capacity,
        capacity >= 1 && s.len() + values.len() >= capacity ==> pushed_all(
            s,
            values,
            capacity,
        ).len() == capacity,
    decreases values.len(),
{
    if values.len() > 0 {
        lemma_capacity_invariant(pushed(s, values[0], capacity), values.skip(1), capacity);
    }
}

/// Pushes that stay within the capacity preserve every element already held
/// and append the new ones in order.
pub proof fn lemma_order_preserved<T>(s: Seq<T>, values: Seq<T>, capacity: nat)
    requires
        s.len() + values.len() <= capacity,
    ensures
        pushed_all(s, values, capacity) == s + values,
    decreases values.len(),
{
    if values.len() == 0 {
        assert(s + values =~= s);
    } else {
        lemma_order_preserved(s.push(values[0]), values.skip(1), capacity);
        assert(pushed(s, values[0], capacity) == s.push(values[0]));
        assert(s.push(values[0]) + values.skip(1) =~= s + values);
    }
}

/// Law: pushing at most `capacity` values into an empty buffer yields
/// exactly those values, in push order — what the borrowing iterator then
/// reads back.
pub proof fn lemma_push_order<T>(values: Seq<T>, capacity: nat)
    requires
        values.len() <= capacity,
    ensures
        pushed_all(Seq::empty(), values, capacity) == values,
{
    lemma_order_preserved(Seq::empty(), values, capacity);
    assert(Seq::<T>::empty() + values =~= values);
}

/// Law: pushing `capacity + 1` values `v0 .. vc` into an empty buffer of
/// positive capacity leaves exactly `v1 .. vc` — the very first value is
/// the one evicted.
pub proof fn lemma_oldest_evicted<T>(values: Seq<T>, capacity: nat)
    requires
        capacity >= 1,
        values.len() == capacity + 1,
    ensures
        pushed_all(Seq::empty(), values, capacity) == values.skip(1),
{
    let front = values.take(values.len() - 1);
    let last = values[values.len() - 1];
    assert(values =~= front.push(last));
    lemma_pushed_all_snoc(Seq::<T>::empty(), front, last, capacity);
    lemma_push_order(front, capacity);
    assert(front.skip(1).push(last) =~= values.skip(1));
}

/// Law: with zero capacity every push is a no-op; no sequence of pushes
/// ever makes the contents non-empty.
pub proof fn lemma_zero_capacity_noop<T>(s: Seq<T>, values: Seq<T>)
    ensures
        pushed_all(s, values, 0) == s,
    decreases values.len(),
{
    if values.len() > 0 {
        lemma_zero_capacity_noop(pushed(s, values[0], 0), values.skip(1));
    }
}

/// The sequence a full drain yields when each step takes the oldest
/// remaining element, as the consuming iterator's `next` does.
pub open spec fn drained<T>(s: Seq<T>) -> Seq<T>
    decreases s.len(),
{
    if s.len() == 0 {
        Seq::empty()
    } else {
        seq![s[0]] + drained(s.skip(1))
    }
}

/// Law: a full drain yields every element exactly once, oldest first, and
/// ends with nothing left.
pub proof fn lemma_drain_yields_all<T>(s: Seq<T>)
    ensures
        drained(s) == s,
    decreases s.len(),
{
    if s.len() == 0 {
        assert(drained(s) =~= s);
    } else {
        lemma_drain_yields_all(s.skip(1));
        assert(seq![s[0]] + s.skip(1) =~= s);
    }
}

/// Law: a buffer's encoded form always fits back into a buffer of the same
/// capacity — decoding never rejects it — and pushing its elements in
/// order into a fresh buffer, as decode does, reproduces it exactly.
pub proof fn lemma_round_trip<T, const N: usize>(buffer: RingBuffer<T, N>)
    requires
        buffer.wf(),
    ensures
        buffer@.len() <= N,
        pushed_all(Seq::empty(), buffer@, N as nat) == buffer@,
{
    buffer.lemma_size_bounded();
    lemma_push_order(buffer@, N as nat);
}

} // verus!
