//! Cooperative cancellation.

use std::sync::atomic::AtomicBool;
use std::sync::Arc;
use vstd::prelude::*;

verus! {

/// A flag that its clones share and that any thread may raise.
///
/// What a read returns depends on the other holders. So the contracts say what is done to the
/// flag, and the functions that act on a read say what they do for the value that it gave.
#[derive(Debug)]
pub struct CancellationToken {
    inner: Arc<AtomicBool>,
}

impl Clone for CancellationToken {
    /// Another holder of the same flag.
    fn clone(&self) -> (r: CancellationToken)
        ensures
            r == *self,
    {
        CancellationToken { inner: self.inner.clone() }
    }
}

impl Default for CancellationToken {
    fn default() -> (r: CancellationToken)
        ensures
            r.starts_lowered(),
    {
        CancellationToken::new()
    }
}

impl CancellationToken {
    /// The flag was made lowered.
    pub closed spec fn starts_lowered(&self) -> bool {
        call_ensures(AtomicBool::new, (false,), *self.inner)
    }

    /// The flag was stored to as raised, for every thread to see.
    pub closed spec fn is_raised_by_store(&self) -> bool {
        call_ensures(
            AtomicBool::store,
            (&*self.inner, true, std::sync::atomic::Ordering::SeqCst),
            (),
        )
    }

    /// A read of the flag gave `raised`. Both values may be read in turn.
    pub closed spec fn reads(&self, raised: bool) -> bool {
        call_ensures(
            AtomicBool::load,
            (&*self.inner, std::sync::atomic::Ordering::SeqCst),
            raised,
        )
    }

    /// A token that nobody has cancelled.
    pub fn new() -> (r: CancellationToken)
        ensures
            r.starts_lowered(),
    {
        CancellationToken { inner: Arc::new(AtomicBool::new(false)) }
    }

    /// Raises the flag for every clone.
    pub fn cancel(&self)
        ensures
            self.is_raised_by_store(),
    {
        self.inner.store(true, std::sync::atomic::Ordering::SeqCst);
    }

    /// Whether the flag has been raised.
    pub fn is_cancelled(&self) -> (r: bool)
        ensures
            self.reads(r),
    {
        self.inner.load(std::sync::atomic::Ordering::SeqCst)
    }
}

} // verus!
