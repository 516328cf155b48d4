//! An address-keyed parking lot: the queueing and wake-up decisions behind
//! parking threads on opaque integer keys and unparking one, some or all of
//! them.
//!
//! A parking lot is a fixed table of buckets. A key selects a bucket through
//! a Fibonacci hash; each bucket is a FIFO queue of wait nodes. The functions
//! of this crate are the work done while a bucket is held under its lock:
//! queue a waiter, or take out the waiters to wake, in queue order. Blocking
//! and signalling threads is left to the caller, which holds each bucket
//! behind a mutex and signals the taken nodes after releasing it.
use vstd::prelude::*;

pub mod bucket;
pub mod hash;
pub mod laws;
pub mod parker;

pub use bucket::{park, unpark_all, unpark_one, unpark_some, Bucket, WaitNode};
pub use hash::{
    bucket_count, bucket_index, DEFAULT_BUCKET_BITS, MAX_BUCKET_BITS, MODEL_BUCKET_BITS,
    MORE_CONCURRENCY_BUCKET_BITS,
};
pub use parker::{Parker, ParkerOp};

verus! {

} // verus!
