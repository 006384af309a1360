//! The ring buffer itself: a fixed number of slots, a write position and a
//! count of live items. Every operation is stated against the sequence model
//! in [`crate::model`].
use vstd::prelude::*;

use crate::model::{clones_of, min_nat, overwrite, pop_newest, slot};

verus! {

/// An overwriting ring buffer of fixed capacity.
///
/// `buf` holds one slot per unit of capacity, `write` is the slot the next
/// item goes to, and the `len` live items are the `len` slots just before
/// `write`, oldest first.
pub struct RingBuffer<T> {
    buf: Vec<T>,
    write: usize,
    len: usize,
}

impl<T> View for RingBuffer<T> {
    type V = Seq<T>;

    /// The live items, oldest first.
    closed spec fn view(&self) -> Seq<T> {
        let cap = self.buf@.len() as int;
        Seq::new(
            self.len as nat,
            |i: int| self.buf@[slot(self.write as int, cap - self.len + i, cap)],
        )
    }
}

impl<T> RingBuffer<T> {
    /// The number of slots, fixed when the buffer is made.
    pub closed spec fn spec_capacity(&self) -> nat {
        self.buf@.len()
    }

    /// Well-formedness: at least one slot, the write position is a slot, and
    /// no more live items than slots.
    pub closed spec fn wf(&self) -> bool {
        &&& self.buf@.len() > 0
        &&& self.write < self.buf@.len()
        &&& self.len <= self.buf@.len()
    }

    /// Every well-formed buffer holds no more items than it has slots.
    pub proof fn lemma_len_within_capacity(&self)
        requires
            self.wf(),
        ensures
            self@.len() <= self.spec_capacity(),
            self.spec_capacity() > 0,
    {
    }

    /// A full buffer over the items of `value`, oldest first.
    /// `value` must not be empty.
    pub fn from(value: Vec<T>) -> (r: Self)
        requires
            value.len() > 0,
        ensures
            r.wf(),
            r.spec_capacity() == value.len(),
            r@ == value@,
    {
        let len = value.len();
        let r = RingBuffer { buf: value, write: 0, len };
        assert(r@ =~= value@);
        r
    }

    /// The number of slots.
    pub fn capacity(&self) -> (r: usize)
        requires
            self.wf(),
        ensures
            r == self.spec_capacity(),
    {
        self.buf.len()
    }

    /// The number of live items.
    pub fn len(&self) -> (r: usize)
        requires
            self.wf(),
        ensures
            r == self@.len(),
    {
        self.len
    }

    /// Whether there are no live items.
    pub fn is_empty(&self) -> (r: bool)
        requires
            self.wf(),
        ensures
            r == (self@.len() == 0),
    {
        self.len == 0
    }

    /// Forgets the newest item; does nothing when there is none.
    pub fn pop_back(&mut self)
        requires
            old(self).wf(),
        ensures
            final(self).wf(),
            final(self).spec_capacity() == old(self).spec_capacity(),
            final(self)@ == pop_newest(old(self)@),
    {
        if self.len > 0 {
            let cap = self.buf.len();
            self.len = self.len - 1;
            self.write = if self.write == 0 {
                cap - 1
            } else {
                self.write - 1
            };
            assert(self@ =~= pop_newest(old(self)@));
        }
    }
}

impl<T: Clone> RingBuffer<T> {
    /// A full buffer of `size` clones of `default_val`. `size` must not be 0.
    pub fn new(size: usize, default_val: T) -> (r: Self)
        requires
            size > 0,
        ensures
            r.wf(),
            r.spec_capacity() == size,
            r@.len() == size,
            forall|i: int| 0 <= i < size ==> cloned::<T>(default_val, #[trigger] r@[i]),
    {
        let buf = vec![default_val; size];
        let r = RingBuffer { buf, write: 0, len: size };
        assert forall|i: int| 0 <= i < size implies cloned::<T>(default_val, #[trigger] r@[i]) by {
            assert(r@[i] == r.buf@[i]);
        }
        r
    }

    /// The live items, oldest first, each cloned into a new vector.
    pub fn get_contiguous(&self) -> (r: Vec<T>)
        requires
            self.wf(),
        ensures
            clones_of(self@, r@),
    {
        let cap = self.buf.len();
        let len = self.len;
        let write = self.write;
        let mut ret: Vec<T> = Vec::with_capacity(len);
        let mut i: usize = 0;
        // The oldest live item sits `cap - len` slots after `write`.
        let mut pos: usize = if write < len {
            write + (cap - len)
        } else {
            write - len
        };
        while i < len
            invariant
                self.wf(),
                cap == self.buf@.len(),
                len == self.len,
                write == self.write,
                i <= len,
                pos < cap,
                i < len ==> pos == slot(write as int, cap - len + i, cap as int),
                ret@.len() == i,
                forall|j: int| 0 <= j < i ==> cloned::<T>(#[trigger] self@[j], ret@[j]),
            decreases len - i,
        {
            let item = self.buf[pos].clone();
            proof {
                assert(self@[i as int] == self.buf@[pos as int]);
            }
            ret.push(item);
            i = i + 1;
            pos = if pos + 1 == cap {
                0
            } else {
                pos + 1
            };
        }
        ret
    }

    /// Writes the items of `data` after the newest item, overwriting the
    /// oldest items once the buffer is full. Only the last `capacity` items of
    /// `data` can survive, so only those are written.
    pub fn push_slice_overwrite(&mut self, data: &[T])
        requires
            old(self).wf(),
        ensures
            final(self).wf(),
            final(self).spec_capacity() == old(self).spec_capacity(),
            ({
                let r = overwrite(old(self)@, data@, old(self).spec_capacity());
                &&& clones_of(r, final(self)@)
                &&& forall|i: int|
                    0 <= i < r.len() - data@.len() ==> #[trigger] final(self)@[i] == r[i]
            }),
    {
        let cap = self.buf.len();
        let write = self.write;
        let old_len = self.len;
        let ghost old_buf = self.buf@;
        let ghost old_view = self@;
        // Items of `data` that are written: the last `count` of them.
        let count: usize = if data.len() > cap {
            cap
        } else {
            data.len()
        };
        let dlen: usize = data.len();
        let skip: usize = dlen - count;
        let mut k: usize = 0;
        let mut pos: usize = write;
        while k < count
            invariant
                cap == self.buf@.len(),
                cap > 0,
                write < cap,
                count <= cap,
                skip + count == dlen,
                dlen == data@.len(),
                old_buf.len() == cap,
                k <= count,
                pos < cap,
                pos == slot(write as int, k as int, cap as int),
                forall|o: int|
                    0 <= o < k ==> cloned::<T>(
                        data@[skip + o],
                        #[trigger] self.buf@[slot(write as int, o, cap as int)],
                    ),
                forall|o: int|
                    k <= o < cap ==> #[trigger] self.buf@[slot(write as int, o, cap as int)]
                        == old_buf[slot(write as int, o, cap as int)],
            decreases count - k,
        {
            let item = data[skip + k].clone();
            let ghost before = self.buf@;
            self.buf.set(pos, item);
            proof {
                assert forall|o: int| 0 <= o < k + 1 implies cloned::<T>(
                    data@[skip + o],
                    #[trigger] self.buf@[slot(write as int, o, cap as int)],
                ) by {
                    if o < k {
                        assert(slot(write as int, o, cap as int) != pos);
                    }
                }
                assert forall|o: int| k + 1 <= o < cap implies #[trigger] self.buf@[slot(
                    write as int,
                    o,
                    cap as int,
                )] == old_buf[slot(write as int, o, cap as int)] by {
                    assert(slot(write as int, o, cap as int) != pos);
                    assert(before[slot(write as int, o, cap as int)] == old_buf[slot(
                        write as int,
                        o,
                        cap as int,
                    )]);
                }
            }
            k = k + 1;
            pos = if pos + 1 == cap {
                0
            } else {
                pos + 1
            };
        }
        // New write position: `count` slots after the old one.
        self.write = if count < cap - write {
            write + count
        } else {
            count - (cap - write)
        };
        self.len = if count >= cap - old_len {
            cap
        } else {
            old_len + count
        };
        proof {
            let r = overwrite(old_view, data@, cap as nat);
            let new_len = self.len as int;
            assert(new_len == min_nat((old_len + data@.len()) as nat, cap as nat));
            assert(r.len() == new_len);
            assert(self@.len() == new_len);
            assert forall|i: int| 0 <= i < new_len implies cloned::<T>(
                #[trigger] r[i],
                self@[i],
            ) && (i < new_len - data@.len() ==> self@[i] == r[i]) by {
                let o = count + cap - new_len + i;
                assert(self@[i] == self.buf@[slot(self.write as int, cap - new_len + i, cap as int)]);
                if o >= cap {
                    // One of the items just written.
                    let j = o - cap;
                    assert(slot(self.write as int, cap - new_len + i, cap as int) == slot(
                        write as int,
                        j,
                        cap as int,
                    ));
                    assert(r[i] == data@[skip + j]);
                } else {
                    // An older item that was not overwritten.
                    assert(slot(self.write as int, cap - new_len + i, cap as int) == slot(
                        write as int,
                        o,
                        cap as int,
                    ));
                    let m = old_len + count - new_len + i;
                    assert(count == data@.len());
                    assert(r[i] == old_view[m]);
                    assert(old_view[m] == old_buf[slot(write as int, cap - old_len + m, cap as int)]);
                }
            }
        }
    }
}

impl<T: Default + Clone> RingBuffer<T> {
    /// A full buffer of `size` clones of one default value. `size` must not be 0.
    pub fn new_default(size: usize) -> (r: Self)
        requires
            size > 0,
        ensures
            r.wf(),
            r.spec_capacity() == size,
            r@.len() == size,
            exists|d: T|
                call_ensures(T::default, (), d) && forall|i: int|
                    0 <= i < size ==> cloned::<T>(d, #[trigger] r@[i]),
    {
        let d = T::default();
        Self::new(size, d)
    }
}

} // verus!
