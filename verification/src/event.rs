//! The events that flow along streams and keyed streams.
use crate::time::Time;
use vstd::prelude::*;

verus! {

/// An event of a stream of `T` values.
#[derive(Debug)]
pub enum Event<T> {
    /// A value that occurred at a time.
    Data(Time, T),
    /// No value earlier than this time is still to come.
    Watermark(Time),
    /// A request to take a snapshot with the given number.
    Snapshot(usize),
    /// The stream has ended.
    Sentinel,
}

/// An event of a stream of `T` values partitioned by keys of type `K`.
#[derive(Debug)]
pub enum KeyedEvent<K, T> {
    /// A value with its key that occurred at a time.
    Data(Time, K, T),
    /// No value earlier than this time is still to come.
    Watermark(Time),
    /// A request to take a snapshot with the given number.
    Snapshot(usize),
    /// The stream has ended.
    Sentinel,
}

} // verus!
