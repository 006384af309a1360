//! The mathematical model of an overwriting ring buffer.
//!
//! The contents of a buffer are a sequence, oldest item first, never longer
//! than the fixed capacity. Writing appends and then forgets the oldest items
//! that no longer fit; `pop_back` forgets the newest item.
use vstd::prelude::*;

verus! {

/// The last `n` items of `s` (all of `s` when it is no longer than `n`).
pub open spec fn keep_last<T>(s: Seq<T>, n: nat) -> Seq<T> {
    if s.len() <= n {
        s
    } else {
        s.subrange(s.len() - n, s.len() as int)
    }
}

/// Contents after writing `data` into a buffer of capacity `cap` holding `contents`.
pub open spec fn overwrite<T>(contents: Seq<T>, data: Seq<T>, cap: nat) -> Seq<T> {
    keep_last(contents + data, cap)
}

/// Contents after removing the newest item (nothing happens when empty).
pub open spec fn pop_newest<T>(contents: Seq<T>) -> Seq<T> {
    if contents.len() == 0 {
        contents
    } else {
        contents.drop_last()
    }
}

/// The smaller of two naturals.
pub open spec fn min_nat(a: nat, b: nat) -> nat {
    if a <= b {
        a
    } else {
        b
    }
}

/// `b` holds, position by position, clones of the items of `a`.
pub open spec fn clones_of<T: Clone>(a: Seq<T>, b: Seq<T>) -> bool {
    &&& a.len() == b.len()
    &&& forall|i: int| 0 <= i < a.len() ==> cloned::<T>(#[trigger] a[i], b[i])
}

/// Physical slot reached by stepping `offset` places forward from `start`
/// in a buffer of `cap` slots (`start < cap`, `offset <= cap`).
pub open spec fn slot(start: int, offset: int, cap: int) -> int {
    if start + offset < cap {
        start + offset
    } else {
        start + offset - cap
    }
}

/// Writing `data` leaves `min(len + data.len(), capacity)` items.
pub proof fn lemma_overwrite_len<T>(contents: Seq<T>, data: Seq<T>, cap: nat)
    requires
        contents.len() <= cap,
    ensures
        overwrite(contents, data, cap).len() == min_nat(contents.len() + data.len(), cap),
{
}

/// The written data always ends the contents: when it fits, the newest
/// `data.len()` items are exactly `data`.
pub proof fn lemma_overwrite_ends_with_data<T>(contents: Seq<T>, data: Seq<T>, cap: nat)
    requires
        contents.len() <= cap,
        data.len() <= cap,
    ensures
        ({
            let r = overwrite(contents, data, cap);
            r.subrange(r.len() - data.len(), r.len() as int) == data
        }),
{
    let r = overwrite(contents, data, cap);
    assert(r.subrange(r.len() - data.len(), r.len() as int) =~= data);
}

/// Writing at least `cap` items forgets everything that was there before:
/// the contents become the last `cap` items of `data`.
pub proof fn lemma_overwrite_large<T>(contents: Seq<T>, data: Seq<T>, cap: nat)
    requires
        contents.len() <= cap,
        data.len() >= cap,
    ensures
        overwrite(contents, data, cap) == data.subrange(data.len() - cap, data.len() as int),
{
    let all = contents + data;
    if all.len() <= cap {
        assert(contents.len() == 0);
        assert(data.subrange(data.len() - cap, data.len() as int) =~= all);
    } else {
        assert(overwrite(contents, data, cap) =~= data.subrange(
            data.len() - cap,
            data.len() as int,
        ));
    }
}

/// Writing `a` and then `b` gives the same contents as writing `a + b` at once.
pub proof fn lemma_overwrite_compose<T>(contents: Seq<T>, a: Seq<T>, b: Seq<T>, cap: nat)
    requires
        contents.len() <= cap,
    ensures
        overwrite(overwrite(contents, a, cap), b, cap) == overwrite(contents, a + b, cap),
{
    let mid = overwrite(contents, a, cap);
    let lhs = overwrite(mid, b, cap);
    let rhs = overwrite(contents, a + b, cap);
    let all = contents + a + b;
    assert(contents + (a + b) =~= all);
    assert(lhs.len() == rhs.len());
    assert forall|i: int| 0 <= i < lhs.len() implies lhs[i] == rhs[i] by {
        // Both sides take the item at the same distance from the end of `all`.
        let from_end = lhs.len() - i;
        assert(rhs[i] == all[all.len() - from_end]);
        if from_end <= b.len() {
            assert(lhs[i] == b[b.len() - from_end]);
        } else {
            assert(lhs[i] == mid[mid.len() - (from_end - b.len())]);
            assert(mid[mid.len() - (from_end - b.len())] == (contents + a)[(contents + a).len() - (
            from_end - b.len())]);
        }
    }
    assert(lhs =~= rhs);
}

/// Removing the newest item undoes writing a single item, as long as that
/// write did not have to forget the oldest item.
pub proof fn lemma_pop_undoes_single_write<T>(contents: Seq<T>, x: T, cap: nat)
    requires
        contents.len() < cap,
    ensures
        pop_newest(overwrite(contents, seq![x], cap)) == contents,
{
    assert((contents + seq![x]).drop_last() =~= contents);
}

/// Writing nothing leaves the contents unchanged.
pub proof fn lemma_overwrite_empty<T>(contents: Seq<T>, cap: nat)
    requires
        contents.len() <= cap,
    ensures
        overwrite(contents, Seq::<T>::empty(), cap) == contents,
{
    assert(contents + Seq::<T>::empty() =~= contents);
}

/// Removing the newest item of a non-empty buffer shortens it by exactly one
/// and keeps every older item in its place; an empty buffer stays empty.
pub proof fn lemma_pop_newest_removes_one<T>(contents: Seq<T>)
    ensures
        contents.len() > 0 ==> pop_newest(contents).len() == contents.len() - 1,
        contents.len() == 0 ==> pop_newest(contents).len() == 0,
        forall|i: int|
            0 <= i < pop_newest(contents).len() ==> #[trigger] pop_newest(contents)[i]
                == contents[i],
{
}

/// Writing into an empty buffer keeps the last `cap` items of the data, so
/// writing a non-empty slice into an empty buffer never leaves it empty.
pub proof fn lemma_overwrite_into_empty<T>(data: Seq<T>, cap: nat)
    requires
        cap > 0,
    ensures
        overwrite(Seq::<T>::empty(), data, cap) == keep_last(data, cap),
        data.len() > 0 ==> overwrite(Seq::<T>::empty(), data, cap).len() > 0,
{
    assert(Seq::<T>::empty() + data =~= data);
}

} // verus!
