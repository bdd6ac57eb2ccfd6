//! A bounded pool of reusable transport handles, shared between sessions.
use vstd::prelude::*;
use vstd::rwlock::{RwLock, RwLockPredicate};
use std::sync::Arc;

verus! {

/// How many idle handles a pool keeps at most.
pub const MAX_HANDLES: usize = 20;

/// A transport handle that a pool can make and reuse. Implemented by the
/// transport.
pub trait TransportHandle: Sized {
    /// A handle with every option at its default.
    fn fresh() -> Self;

    /// Puts every option of the handle back to its default.
    fn reset(&mut self);
}

/// What the pool's lock guards: never more than `MAX_HANDLES` idle handles.
pub struct PoolBound;

impl<H> RwLockPredicate<Vec<H>> for PoolBound {
    open spec fn inv(self, v: Vec<H>) -> bool {
        v@.len() <= MAX_HANDLES
    }
}

/// Takes the most recently returned idle handle, if there is one.
pub fn take_idle<H>(handles: &mut Vec<H>) -> (r: Option<H>)
    ensures
        old(handles)@.len() == 0 ==> r is None && final(handles)@ == old(handles)@,
        old(handles)@.len() > 0 ==> r == Some(old(handles)@.last()) && final(handles)@ == old(
            handles,
        )@.drop_last(),
{
    handles.pop()
}

/// Keeps `handle` among the idle ones when there are fewer than
/// `MAX_HANDLES`, else drops it. Returns whether it was kept.
pub fn keep_or_drop<H>(handles: &mut Vec<H>, handle: H) -> (kept: bool)
    ensures
        kept == (old(handles)@.len() < MAX_HANDLES),
        kept ==> final(handles)@ == old(handles)@.push(handle),
        !kept ==> final(handles)@ == old(handles)@,
{
    if handles.len() < MAX_HANDLES {
        handles.push(handle);
        true
    } else {
        false
    }
}

/// A pool of idle transport handles behind one lock. Clones share the
/// pool.
pub struct ConnectionPool<H> {
    curl_handles: Arc<RwLock<Vec<H>, PoolBound>>,
}

impl<H> Clone for ConnectionPool<H> {
    fn clone(&self) -> (r: Self) {
        ConnectionPool { curl_handles: Arc::clone(&self.curl_handles) }
    }
}

impl<H: TransportHandle> ConnectionPool<H> {
    pub fn new() -> (r: Self)
    {
        ConnectionPool { curl_handles: Arc::new(RwLock::new(Vec::new(), Ghost(PoolBound))) }
    }

    /// Takes an idle handle, reset to its defaults, or makes a fresh one
    /// when none is idle; it never waits for a handle to come back. Returns
    /// the handle, how many idle handles the pool held when it looked, and
    /// whether the handle is one of them.
    pub fn get_curl_handle(&self) -> (r: (H, usize, bool))
        ensures
            r.1 <= MAX_HANDLES,
            r.2 == (r.1 > 0),
    {
        let (mut handles, guard) = self.curl_handles.acquire_write();
        let idle_count = handles.len();
        let idle = take_idle(&mut handles);
        guard.release_write(handles);
        match idle {
            Some(mut handle) => {
                handle.reset();
                (handle, idle_count, true)
            },
            None => (H::fresh(), idle_count, false),
        }
    }

    /// Returns a handle to the pool, or drops it when the pool already holds
    /// `MAX_HANDLES` idle handles. Returns whether the pool kept it, and how
    /// many idle handles it held when it looked.
    pub fn put_curl_handle(&self, curl_handle: H) -> (r: (bool, usize))
        ensures
            r.1 <= MAX_HANDLES,
            r.0 == (r.1 < MAX_HANDLES),
    {
        let (mut handles, guard) = self.curl_handles.acquire_write();
        let idle_count = handles.len();
        let kept = keep_or_drop(&mut handles, curl_handle);
        guard.release_write(handles);
        (kept, idle_count)
    }

    /// How many idle handles the pool holds now; never more than
    /// `MAX_HANDLES`.
    pub fn len(&self) -> (r: usize)
        ensures
            r <= MAX_HANDLES,
    {
        let reader = self.curl_handles.acquire_read();
        let n = reader.borrow().len();
        reader.release_read();
        n
    }
}

} // verus!
