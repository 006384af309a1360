//! A thread-safe handle on a [`RingBuffer`]: the buffer sits behind a
//! reader-writer lock in shared ownership, so every method takes `&self`
//! and clones of the handle operate on the same buffer.
use std::sync::Arc;

use vstd::prelude::*;
use vstd::rwlock::{RwLock, RwLockPredicate, WriteHandle};

use crate::ring_buffer::RingBuffer;

verus! {

/// What the lock guarantees of every buffer it ever holds: well-formed and
/// of the handle's fixed capacity.
pub struct OrbInvariant {
    pub capacity: usize,
}

impl<T> RwLockPredicate<RingBuffer<T>> for OrbInvariant {
    open spec fn inv(self, v: RingBuffer<T>) -> bool {
        &&& v.wf()
        &&& v.spec_capacity() == self.capacity
    }
}

/// A shared, lock-protected, overwriting ring buffer of fixed capacity.
///
/// Other handles to the same buffer may write between any two calls, so the
/// methods here promise only what holds whatever the others did; the exact
/// effect of each operation on the contents is that of the
/// [`RingBuffer`] method of the same name, which runs under the lock.
pub struct MagicOrb<T> {
    buf: Arc<RwLock<RingBuffer<T>, OrbInvariant>>,
    capacity: usize,
}

impl<T> MagicOrb<T> {
    #[verifier::type_invariant]
    spec fn lock_holds_buffers_of_capacity(self) -> bool {
        &&& self.capacity > 0
        &&& self.buf.pred() == OrbInvariant { capacity: self.capacity }
    }

    /// The fixed capacity of the buffer behind this handle.
    pub closed spec fn spec_capacity(&self) -> nat {
        self.capacity as nat
    }

    /// A handle on a new lock holding `ring`.
    fn from_ring(ring: RingBuffer<T>) -> (r: Self)
        requires
            ring.wf(),
        ensures
            r.spec_capacity() == ring.spec_capacity(),
    {
        proof {
            ring.lemma_len_within_capacity();
        }
        let capacity = ring.capacity();
        let lock = RwLock::new(ring, Ghost(OrbInvariant { capacity }));
        MagicOrb { buf: Arc::new(lock), capacity }
    }

    /// A full orb over the items of `value`, oldest first. `value` must not
    /// be empty.
    pub fn from(value: Vec<T>) -> (r: Self)
        requires
            value.len() > 0,
        ensures
            r.spec_capacity() == value.len(),
    {
        Self::from_ring(RingBuffer::from(value))
    }

    /// Waits for exclusive access and takes the buffer out of the lock.
    fn take_lock(&self) -> (ret: (RingBuffer<T>, WriteHandle<'_, RingBuffer<T>, OrbInvariant>))
        ensures
            ret.0.wf(),
            ret.0.spec_capacity() == self.spec_capacity(),
            ret.1.rwlock() == *self.buf,
    {
        proof {
            use_type_invariant(self);
        }
        self.buf.acquire_write()
    }

    /// Puts the buffer back and releases exclusive access.
    fn return_lock(&self, handle: WriteHandle<'_, RingBuffer<T>, OrbInvariant>, ring: RingBuffer<T>)
        requires
            handle.rwlock() == *self.buf,
            ring.wf(),
            ring.spec_capacity() == self.spec_capacity(),
    {
        proof {
            use_type_invariant(self);
        }
        handle.release_write(ring);
    }

    /// Forgets the newest item, if there is one.
    pub fn pop_back(&self) {
        let (mut ring, handle) = self.take_lock();
        ring.pop_back();
        self.return_lock(handle, ring);
    }

    /// The fixed capacity.
    pub fn capacity(&self) -> (r: usize)
        ensures
            r == self.spec_capacity(),
    {
        self.capacity
    }

    /// The number of items at the moment of the call; never above the capacity.
    pub fn len(&self) -> (r: usize)
        ensures
            r <= self.spec_capacity(),
    {
        proof {
            use_type_invariant(self);
        }
        let handle = self.buf.acquire_read();
        let ring = handle.borrow();
        proof {
            ring.lemma_len_within_capacity();
        }
        let r = ring.len();
        handle.release_read();
        r
    }

    /// Whether the orb held no item at the moment of the call.
    pub fn is_empty(&self) -> bool {
        proof {
            use_type_invariant(self);
        }
        let handle = self.buf.acquire_read();
        let r = handle.borrow().is_empty();
        handle.release_read();
        r
    }
}

/// `Arc::clone` from std: a new pointer to the same allocation, so it points
/// to the very value that `a` points to.
#[verifier::external_body]
fn share<V>(a: &Arc<V>) -> (r: Arc<V>)
    ensures
        r == *a,
{
    Arc::clone(a)
}

impl<T> Clone for MagicOrb<T> {
    /// Another handle on the same buffer.
    fn clone(&self) -> (r: Self)
        ensures
            r == *self,
            r.spec_capacity() == self.spec_capacity(),
    {
        proof {
            use_type_invariant(self);
        }
        MagicOrb { buf: share(&self.buf), capacity: self.capacity }
    }
}

impl<T: Clone> MagicOrb<T> {
    /// A full orb of `size` clones of `default_val`. `size` must not be 0.
    pub fn new(size: usize, default_val: T) -> (r: Self)
        requires
            size > 0,
        ensures
            r.spec_capacity() == size,
    {
        Self::from_ring(RingBuffer::new(size, default_val))
    }

    /// Writes `data` after the newest item, overwriting the oldest items once
    /// the orb is full.
    pub fn push_slice_overwrite(&self, data: &[T]) {
        let (mut ring, handle) = self.take_lock();
        ring.push_slice_overwrite(data);
        self.return_lock(handle, ring);
    }

    /// The items at the moment of the call, oldest first; never more than the
    /// capacity.
    pub fn get_contiguous(&self) -> (r: Vec<T>)
        ensures
            r@.len() <= self.spec_capacity(),
    {
        let (ring, handle) = self.take_lock();
        proof {
            ring.lemma_len_within_capacity();
        }
        let r = ring.get_contiguous();
        self.return_lock(handle, ring);
        r
    }
}

impl<T: Default + Clone> MagicOrb<T> {
    /// A full orb of `size` clones of one default value. `size` must not be 0.
    pub fn new_default(size: usize) -> (r: Self)
        requires
            size > 0,
        ensures
            r.spec_capacity() == size,
    {
        Self::from_ring(RingBuffer::new_default(size))
    }
}

} // verus!
