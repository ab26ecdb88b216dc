//! Shared cancellation flags.

use std::sync::atomic::{AtomicBool, Ordering};
use std::sync::Arc;
use vstd::prelude::*;

verus! {

/// Raises a shared cancellation flag; whoever holds the flag sees the request.
pub fn raise(flag: &Arc<AtomicBool>) {
    let inner: &AtomicBool = flag;
    inner.store(true, Ordering::SeqCst);
}

/// A fresh, lowered cancellation flag.
pub fn new_flag() -> Arc<AtomicBool> {
    Arc::new(AtomicBool::new(false))
}

/// Whether a shared cancellation flag has been raised (a snapshot).
pub fn is_raised(flag: &Arc<AtomicBool>) -> bool {
    let inner: &AtomicBool = flag;
    inner.load(Ordering::SeqCst)
}

} // verus!
