//! A shared overflow flag: raised by any holder, taken down by its owner.
//!
//! The flag is shared across threads, so what a read returns is decided by the
//! other holders; no contract here speaks of the stored value.

use std::sync::atomic::AtomicBool;
use std::sync::Arc;
use vstd::prelude::*;

verus! {

/// Clone of the `Arc` handle (`Arc::clone`): another pointer to the same
/// allocation, so the same flag. Nothing is claimed of the flag's value.
#[verifier::external_body]
fn share_arc(flag: &Arc<AtomicBool>) -> (r: Arc<AtomicBool>)
    ensures
        r == *flag,
{
    Arc::clone(flag)
}

/// A boolean shared between a producer side and a consumer side.
#[derive(Debug)]
pub struct OverflowFlag {
    inner: Arc<AtomicBool>,
}

impl OverflowFlag {
    /// A new, lowered flag.
    pub fn new() -> (f: Self) {
        OverflowFlag { inner: Arc::new(AtomicBool::new(false)) }
    }

    /// Another handle to the same flag.
    pub fn share(&self) -> (f: Self)
        ensures
            f == *self,
    {
        OverflowFlag { inner: share_arc(&self.inner) }
    }

    /// Raise the flag (release ordering).
    pub fn raise(&self) {
        self.inner.store(true, std::sync::atomic::Ordering::Release);
    }

    /// Lower the flag (release ordering).
    pub fn lower(&self) {
        self.inner.store(false, std::sync::atomic::Ordering::Release);
    }

    /// Read the flag (acquire ordering).
    pub fn is_raised(&self) -> bool {
        self.inner.load(std::sync::atomic::Ordering::Acquire)
    }

    /// Lower the flag and report whether it was raised.
    pub fn take(&self) -> bool {
        self.inner.swap(false, std::sync::atomic::Ordering::AcqRel)
    }
}

} // verus!
