use magic_orb::MagicOrb;
use magic_orb::RingBuffer;

#[test]
fn ring_from_keeps_items_in_order() {
    let ring = RingBuffer::from(vec![1u64, 2, 3]);
    assert_eq!(ring.capacity(), 3);
    assert_eq!(ring.len(), 3);
    assert!(!ring.is_empty());
    assert_eq!(ring.get_contiguous(), vec![1, 2, 3]);
}

#[test]
fn ring_new_fills_with_value() {
    let ring = RingBuffer::new(3, 9u8);
    assert_eq!(ring.get_contiguous(), vec![9, 9, 9]);
}

#[test]
fn ring_new_default_fills_with_default() {
    let ring: RingBuffer<u16> = RingBuffer::new_default(2);
    assert_eq!(ring.get_contiguous(), vec![0, 0]);
}

#[test]
fn ring_push_len_is_min_of_sum_and_capacity() {
    let mut ring = RingBuffer::from(vec![1, 2, 3, 4]);
    ring.pop_back();
    ring.pop_back();
    ring.pop_back();
    assert_eq!(ring.len(), 1);
    ring.push_slice_overwrite(&[5, 6]);
    assert_eq!(ring.len(), 3);
    assert_eq!(ring.get_contiguous(), vec![1, 5, 6]);
    ring.push_slice_overwrite(&[7, 8]);
    assert_eq!(ring.len(), 4);
    assert_eq!(ring.get_contiguous(), vec![5, 6, 7, 8]);
}

#[test]
fn ring_push_ends_with_data() {
    let mut ring = RingBuffer::from(vec![1, 2, 3, 4, 5]);
    ring.push_slice_overwrite(&[10, 20, 30]);
    let contents = ring.get_contiguous();
    assert_eq!(&contents[contents.len() - 3..], &[10, 20, 30]);
}

#[test]
fn ring_push_large_keeps_last_capacity_items() {
    let mut ring = RingBuffer::from(vec![0, 0, 0]);
    ring.push_slice_overwrite(&[1, 2, 3, 4, 5, 6, 7]);
    assert_eq!(ring.get_contiguous(), vec![5, 6, 7]);
    assert_eq!(ring.len(), 3);
}

#[test]
fn ring_push_twice_equals_push_concatenation() {
    let mut a = RingBuffer::from(vec![1, 2, 3, 4]);
    a.pop_back();
    let mut b = RingBuffer::from(vec![1, 2, 3, 4]);
    b.pop_back();
    a.push_slice_overwrite(&[5, 6]);
    a.push_slice_overwrite(&[7]);
    b.push_slice_overwrite(&[5, 6, 7]);
    assert_eq!(a.get_contiguous(), b.get_contiguous());
    assert_eq!(a.get_contiguous(), vec![3, 5, 6, 7]);
}

#[test]
fn ring_pop_undoes_single_push_with_room() {
    let mut ring = RingBuffer::from(vec![1, 2, 3]);
    ring.pop_back();
    let before = ring.get_contiguous();
    ring.push_slice_overwrite(&[42]);
    assert_eq!(ring.get_contiguous(), vec![1, 2, 42]);
    ring.pop_back();
    assert_eq!(ring.get_contiguous(), before);
}

#[test]
fn ring_push_empty_changes_nothing() {
    let mut ring = RingBuffer::from(vec![1, 2, 3]);
    ring.pop_back();
    ring.push_slice_overwrite(&[]);
    assert_eq!(ring.get_contiguous(), vec![1, 2]);
    assert_eq!(ring.len(), 2);
}

#[test]
fn ring_pop_on_empty_is_noop() {
    let mut ring = RingBuffer::from(vec![1]);
    ring.pop_back();
    assert!(ring.is_empty());
    ring.pop_back();
    assert!(ring.is_empty());
    assert_eq!(ring.len(), 0);
    assert_eq!(ring.capacity(), 1);
    assert!(ring.get_contiguous().is_empty());
}

#[test]
fn ring_capacity_one_keeps_newest() {
    let mut ring = RingBuffer::from(vec![1]);
    ring.push_slice_overwrite(&[2]);
    assert_eq!(ring.get_contiguous(), vec![2]);
    ring.push_slice_overwrite(&[3, 4]);
    assert_eq!(ring.get_contiguous(), vec![4]);
}

#[test]
fn ring_push_exactly_fills_up_to_end() {
    // Write position lands exactly on the last slot's successor.
    let mut ring = RingBuffer::from(vec![1, 2, 3, 4]);
    ring.push_slice_overwrite(&[5, 6, 7, 8]);
    assert_eq!(ring.get_contiguous(), vec![5, 6, 7, 8]);
    ring.push_slice_overwrite(&[9]);
    assert_eq!(ring.get_contiguous(), vec![6, 7, 8, 9]);
}

#[test]
fn ring_pop_then_push_wraps_around() {
    let mut ring = RingBuffer::from(vec![1, 2, 3]);
    ring.pop_back();
    ring.pop_back();
    ring.pop_back();
    ring.push_slice_overwrite(&[4, 5, 6, 7]);
    assert_eq!(ring.get_contiguous(), vec![5, 6, 7]);
}

#[test]
fn ring_clones_strings() {
    let mut ring = RingBuffer::new(2, String::from("a"));
    ring.push_slice_overwrite(&[String::from("b")]);
    assert_eq!(ring.get_contiguous(), vec![String::from("a"), String::from("b")]);
}

#[test]
fn orb_clone_shares_buffer() {
    let orb = MagicOrb::from(vec![1, 2, 3]);
    let other = orb.clone();
    other.push_slice_overwrite(&[4]);
    assert_eq!(orb.get_contiguous(), vec![2, 3, 4]);
    assert_eq!(other.capacity(), 3);
    orb.pop_back();
    assert_eq!(other.len(), 2);
}

#[test]
fn orb_capacity_is_fixed() {
    let orb = MagicOrb::new(4, 1u32);
    orb.push_slice_overwrite(&[1, 2, 3, 4, 5, 6]);
    orb.pop_back();
    assert_eq!(orb.capacity(), 4);
    assert_eq!(orb.len(), 3);
    assert!(!orb.is_empty());
}
