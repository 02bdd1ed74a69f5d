//! A fixed-capacity circular buffer.
//!
//! [`RingBuffer`] holds at most `N` elements in a fixed block of slots.
//! Pushing onto a full buffer silently evicts the oldest element; reading,
//! iterating and encoding always present the live elements oldest first.
//!
//! Every operation carries a contract over the buffer's logical view, a
//! sequence of the live elements in insertion order, and the laws relating
//! the operations are proved in [`laws`].

mod codec;
pub mod laws;
mod ring_buffer;
mod storage;

pub use codec::CapacityError;
pub use ring_buffer::{pushed, RingBuffer, RingBufferIter, RingBufferIterRef};
