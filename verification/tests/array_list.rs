use ministd::mem::heap::{Allocator, RegionFinder};
use ministd::mem::vec::Vec;
use ministd::mem::{Bound, Region};
use ministd::TryClone;
use std::cell::Cell;
use std::rc::Rc;

struct Supply {
    regions: std::vec::Vec<Region>,
}

impl RegionFinder for Supply {
    fn find_heap_region(&mut self) -> Result<Region, ()> {
        if self.regions.is_empty() {
            Err(())
        } else {
            Ok(self.regions.remove(0))
        }
    }
}

fn heap_of(size: usize) -> Allocator<Supply> {
    let mut heap = Allocator::new(Supply { regions: std::vec::Vec::new() });
    assert_eq!(heap.add_region(Region::new(4096, size)), Ok(()));
    heap
}

fn list_of(heap: &mut Allocator<Supply>, step: usize, items: &[u32]) -> Vec<u32> {
    let mut list = Vec::new(step);
    for item in items {
        assert_eq!(list.try_push(heap, *item), Ok(()));
    }
    list
}

#[derive(Debug)]
struct Counted {
    id: u32,
    fails: bool,
    drops: Rc<Cell<usize>>,
}

impl Drop for Counted {
    fn drop(&mut self) {
        self.drops.set(self.drops.get() + 1);
    }
}

impl TryClone for Counted {
    type Error = ();

    fn try_clone(&self) -> Result<Self, ()> {
        if self.fails {
            Err(())
        } else {
            Ok(Counted { id: self.id, fails: false, drops: self.drops.clone() })
        }
    }
}

#[test]
fn push_and_pop_with_step_four() {
    let mut heap = heap_of(4096);
    let mut list: Vec<u32> = Vec::new(4);
    assert_eq!(list.capacity(), 0);
    assert!(!list.has_data());
    assert_eq!(list.try_push(&mut heap, 69), Ok(()));
    assert!(list.capacity() >= 1);
    assert_eq!(list.len(), 1);
    assert_eq!(list.try_push(&mut heap, 420), Ok(()));
    assert_eq!(list.capacity(), 4);
    assert_eq!(list.len(), 2);
    assert_eq!(list.get(Bound::Included(0), Bound::Excluded(2)), Some(&[69u32, 420][..]));
    list.pop();
    assert_eq!(list.len(), 1);
    assert_eq!(list.capacity(), 4);
    list.release(&mut heap);
    assert_eq!(heap.allocated_bytes(), 0);
}

#[test]
fn geometric_growth_doubles_the_capacity() {
    let mut heap = heap_of(4096);
    let mut list: Vec<u32> = Vec::new(0);
    let mut seen = std::vec::Vec::new();
    for i in 0..9u32 {
        assert_eq!(list.try_push(&mut heap, i), Ok(()));
        seen.push(list.capacity());
    }
    assert_eq!(seen, vec![1, 2, 4, 4, 8, 8, 8, 8, 16]);
    assert_eq!(list.step(), 0);
    list.release(&mut heap);
}

#[test]
fn length_follows_pushes_and_pops() {
    let mut heap = heap_of(4096);
    let mut list: Vec<u32> = Vec::new(0);
    let mut pushes = 0usize;
    let mut pops = 0usize;
    for round in 0..40u32 {
        if round % 3 == 2 {
            list.pop();
            pops += 1;
        } else {
            assert_eq!(list.try_push(&mut heap, round), Ok(()));
            pushes += 1;
        }
        assert_eq!(list.len(), pushes - pops);
        assert!(list.capacity() >= list.len());
    }
    list.release(&mut heap);
}

#[test]
fn pop_of_an_empty_list_changes_nothing() {
    let mut heap = heap_of(4096);
    let mut list: Vec<u32> = Vec::new(0);
    list.pop();
    assert_eq!(list.pop_ret(), None);
    assert_eq!(list.len(), 0);
    assert_eq!(list.try_push(&mut heap, 7), Ok(()));
    assert_eq!(list.len(), 1);
    assert_eq!(list.pop_ret(), Some(7));
    assert!(list.is_empty());
    list.release(&mut heap);
}

#[test]
fn growth_keeps_values_in_order() {
    let mut heap = heap_of(8192);
    let mut list: Vec<u32> = Vec::new(0);
    let values: std::vec::Vec<u32> = (0..50u32).map(|i| 1000 - 7 * i).collect();
    for value in &values {
        assert_eq!(list.try_push(&mut heap, *value), Ok(()));
    }
    let before = list.capacity();
    assert_eq!(list.try_expand(&mut heap), Ok(()));
    assert!(list.capacity() > before);
    assert_eq!(list.as_slice(), Some(&values[..]));
    assert_eq!(list.try_reserve(&mut heap, 500), Ok(()));
    assert!(list.capacity() >= 550);
    assert_eq!(list.as_slice(), Some(&values[..]));
    list.release(&mut heap);
}

#[test]
fn get_returns_none_outside_the_length() {
    let mut heap = heap_of(4096);
    let list = list_of(&mut heap, 4, &[1, 2, 3]);
    assert_eq!(list.capacity(), 4);
    assert_eq!(list.get(Bound::Included(0), Bound::Excluded(4)), None);
    assert_eq!(list.get(Bound::Included(0), Bound::Included(3)), None);
    assert_eq!(list.get(Bound::Included(4), Bound::Unbounded), None);
    assert_eq!(list.get(Bound::Included(2), Bound::Excluded(1)), None);
    assert_eq!(list.get(Bound::Excluded(usize::MAX), Bound::Unbounded), None);
    assert_eq!(list.get(Bound::Unbounded, Bound::Included(usize::MAX)), None);
    assert_eq!(list.get(Bound::Unbounded, Bound::Unbounded), Some(&[1u32, 2, 3][..]));
    assert_eq!(list.get(Bound::Excluded(0), Bound::Included(2)), Some(&[2u32, 3][..]));
    assert_eq!(list.get(Bound::Included(3), Bound::Excluded(3)), Some(&[][..]));
    assert_eq!(list.get_unchecked(Bound::Included(1), Bound::Excluded(2)), &[2u32][..]);
    assert_eq!(list.handle_bounds(Bound::Excluded(1), Bound::Included(1)), (2, 2));
    list.release(&mut heap);
}

#[test]
fn a_list_without_a_block_has_no_slice() {
    let list: Vec<u32> = Vec::new(0);
    assert_eq!(list.as_slice(), None);
    assert_eq!(list.as_slice_unchecked(), &[][..]);
    assert_eq!(list.last(), None);
    assert_eq!(list.get(Bound::Unbounded, Bound::Unbounded), Some(&[][..]));
}

#[test]
fn insert_and_remove_shift_the_tail() {
    let mut heap = heap_of(4096);
    let mut list = list_of(&mut heap, 4, &[10, 20, 30, 40]);
    assert_eq!(list.try_insert(&mut heap, 1, 15), Ok(()));
    assert_eq!(list.as_slice(), Some(&[10u32, 15, 20, 30, 40][..]));
    assert_eq!(list.capacity(), 8);
    assert_eq!(list.try_insert(&mut heap, 5, 50), Ok(()));
    assert_eq!(list.as_slice(), Some(&[10u32, 15, 20, 30, 40, 50][..]));
    assert_eq!(list.try_insert(&mut heap, 7, 70), Err(70));
    assert_eq!(list.len(), 6);
    list.remove(0);
    assert_eq!(list.as_slice(), Some(&[15u32, 20, 30, 40, 50][..]));
    assert_eq!(list.remove_ret(3), 40);
    assert_eq!(list.as_slice(), Some(&[15u32, 20, 30, 50][..]));
    assert_eq!(*list.index(2), 30);
    assert_eq!(list.last(), Some(&50));
    list.release(&mut heap);
}

#[test]
fn remove_leaves_a_list_without_a_block() {
    let mut list: Vec<u32> = Vec::new(0);
    list.remove(3);
    assert_eq!(list.len(), 0);
}

#[test]
fn swap_remove_puts_the_default_in_place() {
    let mut heap = heap_of(4096);
    let mut list = list_of(&mut heap, 0, &[5, 6, 7]);
    list.swap_remove(1);
    assert_eq!(list.as_slice(), Some(&[5u32, 0, 7][..]));
    assert_eq!(list.swap_remove_ret(2), 7);
    assert_eq!(list.as_slice(), Some(&[5u32, 0, 0][..]));
    assert_eq!(list.len(), 3);
    list.release(&mut heap);
}

#[test]
fn push_fails_and_returns_the_value_when_the_heap_is_full() {
    let mut heap = heap_of(16);
    let mut list: Vec<u32> = Vec::new(4);
    for i in 0..4u32 {
        assert_eq!(list.try_push(&mut heap, i), Ok(()));
    }
    assert_eq!(list.try_push(&mut heap, 99), Err(99));
    assert_eq!(list.try_insert(&mut heap, 0, 98), Err(98));
    assert_eq!(list.try_expand(&mut heap), Err(()));
    assert_eq!(list.try_reserve(&mut heap, 1), Err(()));
    assert_eq!(list.try_reserve_exact(&mut heap, 1), Err(()));
    assert_eq!(list.as_slice(), Some(&[0u32, 1, 2, 3][..]));
    assert_eq!(list.capacity(), 4);
    assert_eq!(heap.allocated_bytes(), 16);
    list.release(&mut heap);
    assert_eq!(heap.allocated_bytes(), 0);
}

#[test]
fn push_within_capacity_never_allocates() {
    let mut heap = heap_of(4096);
    let mut list: Vec<u32> = Vec::try_with_capacity(&mut heap, 0, 2).unwrap();
    let held = heap.allocated_bytes();
    assert_eq!(list.push_within_capacity(1), Ok(()));
    assert_eq!(list.push_within_capacity(2), Ok(()));
    assert_eq!(list.push_within_capacity(3), Err(3));
    assert_eq!(heap.allocated_bytes(), held);
    assert_eq!(list.as_slice(), Some(&[1u32, 2][..]));
    list.release(&mut heap);
}

#[test]
fn with_capacity_rounds_by_the_policy() {
    let mut heap = heap_of(4096);
    let a: Vec<u32> = Vec::try_with_capacity(&mut heap, 0, 5).unwrap();
    assert_eq!(a.capacity(), 8);
    let b: Vec<u32> = Vec::try_with_capacity(&mut heap, 6, 7).unwrap();
    assert_eq!(b.capacity(), 12);
    let c: Vec<u32> = Vec::try_with_capacity(&mut heap, 6, 0).unwrap();
    assert_eq!(c.capacity(), 0);
    assert!(!c.has_data());
    let d: Vec<u32> = Vec::try_with_capacity(&mut heap, 0, 0).unwrap();
    assert_eq!(d.capacity(), 1);
    assert_eq!(heap.allocated_bytes(), 32 + 64 + 4);
    assert!(Vec::<u32>::try_with_capacity(&mut heap, 0, 1 << 20).is_err());
    assert!(Vec::<u32>::try_with_capacity(&mut heap, 0, usize::MAX).is_err());
    a.release(&mut heap);
    b.release(&mut heap);
    c.release(&mut heap);
    d.release(&mut heap);
    assert_eq!(heap.allocated_bytes(), 0);
}

#[test]
fn reserve_exact_and_shrink() {
    let mut heap = heap_of(4096);
    let mut list = list_of(&mut heap, 0, &[1, 2, 3]);
    assert_eq!(list.capacity(), 4);
    assert_eq!(list.try_reserve_exact(&mut heap, 1), Ok(()));
    assert_eq!(list.capacity(), 4);
    assert_eq!(list.try_reserve_exact(&mut heap, 4), Ok(()));
    assert_eq!(list.capacity(), 7);
    assert_eq!(list.try_shrink_to_fit(&mut heap), Ok(()));
    assert_eq!(list.capacity(), 3);
    assert_eq!(list.as_slice(), Some(&[1u32, 2, 3][..]));
    assert_eq!(list.try_shrink_to(&mut heap, 5), Ok(()));
    assert_eq!(list.capacity(), 3);
    assert_eq!(list.try_shrink_to(&mut heap, 2), Ok(()));
    assert_eq!(list.capacity(), 2);
    assert_eq!(list.as_slice(), Some(&[1u32, 2][..]));
    assert_eq!(list.try_shrink_to(&mut heap, 0), Ok(()));
    assert_eq!(list.capacity(), 0);
    assert_eq!(list.len(), 0);
    assert_eq!(heap.allocated_bytes(), 0);
    list.release(&mut heap);
}

#[test]
fn clear_truncate_and_pop_n_keep_the_capacity() {
    let mut heap = heap_of(4096);
    let mut list = list_of(&mut heap, 0, &[1, 2, 3, 4, 5]);
    assert_eq!(list.capacity(), 8);
    list.pop_n(2);
    assert_eq!(list.as_slice(), Some(&[1u32, 2, 3][..]));
    list.truncate(7);
    assert_eq!(list.len(), 3);
    list.truncate(1);
    assert_eq!(list.as_slice(), Some(&[1u32][..]));
    list.pop_n(9);
    assert_eq!(list.len(), 0);
    assert_eq!(list.try_push(&mut heap, 8), Ok(()));
    list.clear();
    assert!(list.is_empty());
    assert_eq!(list.capacity(), 8);
    list.release(&mut heap);
}

#[test]
fn pop_if_asks_about_the_last_element() {
    let mut heap = heap_of(4096);
    let mut list = list_of(&mut heap, 0, &[1, 2, 3]);
    list.pop_if(|last: &u32| *last == 2);
    assert_eq!(list.len(), 3);
    list.pop_if(|last: &u32| *last == 3);
    assert_eq!(list.as_slice(), Some(&[1u32, 2][..]));
    let mut empty: Vec<u32> = Vec::new(0);
    empty.pop_if(|_: &u32| true);
    assert_eq!(empty.len(), 0);
    list.release(&mut heap);
}

#[test]
fn append_moves_the_elements_and_empties_the_other() {
    let mut heap = heap_of(4096);
    let mut first = list_of(&mut heap, 4, &[1, 2, 3]);
    let mut second = list_of(&mut heap, 4, &[4, 5]);
    assert_eq!(first.try_append(&mut heap, &mut second), Ok(()));
    assert_eq!(first.as_slice(), Some(&[1u32, 2, 3, 4, 5][..]));
    assert_eq!(first.capacity(), 8);
    assert_eq!(second.len(), 0);
    assert_eq!(second.capacity(), 4);
    assert_eq!(first.try_append(&mut heap, &mut second), Ok(()));
    assert_eq!(first.len(), 5);
    first.release(&mut heap);
    second.release(&mut heap);
    assert_eq!(heap.allocated_bytes(), 0);
}

#[test]
fn append_fails_with_both_lists_unchanged() {
    let mut heap = heap_of(32);
    let mut first = list_of(&mut heap, 4, &[1, 2, 3]);
    let mut second = list_of(&mut heap, 4, &[4, 5]);
    assert_eq!(first.try_append(&mut heap, &mut second), Err(()));
    assert_eq!(first.as_slice(), Some(&[1u32, 2, 3][..]));
    assert_eq!(second.as_slice(), Some(&[4u32, 5][..]));
    first.release(&mut heap);
    second.release(&mut heap);
}

#[test]
fn deep_clone_has_a_block_and_elements_of_its_own() {
    let mut heap = heap_of(4096);
    let drops = Rc::new(Cell::new(0));
    let mut list: Vec<Counted> = Vec::new(0);
    for id in 0..3u32 {
        let item = Counted { id, fails: false, drops: drops.clone() };
        assert!(list.try_push(&mut heap, item).is_ok());
    }
    let copy = list.try_clone(&mut heap).unwrap();
    assert_eq!(copy.len(), 3);
    assert_eq!(copy.capacity(), list.capacity());
    for i in 0..3usize {
        assert_eq!(copy.index(i).id, list.index(i).id);
    }
    assert_eq!(drops.get(), 0);
    copy.release(&mut heap);
    assert_eq!(drops.get(), 3);
    list.release(&mut heap);
    assert_eq!(drops.get(), 6);
    assert_eq!(heap.allocated_bytes(), 0);
}

#[test]
fn failed_deep_clone_drops_only_what_it_cloned() {
    let mut heap = heap_of(4096);
    let drops = Rc::new(Cell::new(0));
    let mut list: Vec<Counted> = Vec::new(0);
    for id in 0..4u32 {
        let item = Counted { id, fails: id == 2, drops: drops.clone() };
        assert!(list.try_push(&mut heap, item).is_ok());
    }
    let held = heap.allocated_bytes();
    assert!(list.try_clone(&mut heap).is_err());
    assert_eq!(drops.get(), 2);
    assert_eq!(heap.allocated_bytes(), held);
    assert_eq!(list.len(), 4);
    list.release(&mut heap);
    assert_eq!(drops.get(), 6);
}

#[test]
fn removal_and_release_drop_each_element_once() {
    let mut heap = heap_of(4096);
    let drops = Rc::new(Cell::new(0));
    let mut list: Vec<Counted> = Vec::new(0);
    for id in 0..6u32 {
        let item = Counted { id, fails: false, drops: drops.clone() };
        assert!(list.try_push(&mut heap, item).is_ok());
    }
    list.pop();
    assert_eq!(drops.get(), 1);
    list.remove(0);
    assert_eq!(drops.get(), 2);
    assert_eq!(list.try_shrink_to(&mut heap, 3), Ok(()));
    assert_eq!(drops.get(), 3);
    let taken = list.remove_ret(0);
    assert_eq!(taken.id, 1);
    assert_eq!(drops.get(), 3);
    drop(taken);
    assert_eq!(drops.get(), 4);
    list.clear();
    assert_eq!(drops.get(), 6);
    list.release(&mut heap);
    assert_eq!(drops.get(), 6);
}

#[test]
fn leak_keeps_the_block_live() {
    let mut heap = heap_of(4096);
    let list = list_of(&mut heap, 0, &[1, 2]);
    let held = heap.allocated_bytes();
    assert_eq!(list.leak(), vec![1, 2]);
    assert_eq!(heap.allocated_bytes(), held);
}

#[test]
fn the_default_list_grows_geometrically() {
    let mut heap = heap_of(4096);
    let mut list: Vec<u32> = Vec::default();
    assert_eq!(list.step(), 0);
    assert_eq!(list.capacity(), 0);
    assert_eq!(list.try_push(&mut heap, 1), Ok(()));
    assert_eq!(list.capacity(), 1);
    *list.index_mut(0) = 9;
    assert_eq!(list.last(), Some(&9));
    if let Some(last) = list.last_mut() {
        *last = 11;
    }
    assert_eq!(list.as_slice(), Some(&[11u32][..]));
    let seen: std::vec::Vec<u32> = list.iter().copied().collect();
    assert_eq!(seen, vec![11]);
    list.clear();
    assert!(list.last_mut().is_none());
    list.release(&mut heap);
}

#[test]
fn clone_duplicates_every_element() {
    let mut heap = heap_of(64);
    let list = list_of(&mut heap, 4, &[3, 1, 4]);
    let copy = list.clone(&mut heap).unwrap();
    assert_eq!(copy.as_slice(), Some(&[3u32, 1, 4][..]));
    assert_eq!(copy.capacity(), 4);
    assert_eq!(copy.step(), 4);
    assert_eq!(heap.allocated_bytes(), 32);
    let third = list.clone(&mut heap).unwrap();
    let fourth = list.clone(&mut heap).unwrap();
    assert!(list.clone(&mut heap).is_err());
    assert_eq!(heap.allocated_bytes(), 64);
    assert_eq!(Vec::<u32>::new(2).clone(&mut heap).map(|v| v.capacity()), Ok(0));
    copy.release(&mut heap);
    third.release(&mut heap);
    fourth.release(&mut heap);
    list.release(&mut heap);
    assert_eq!(heap.allocated_bytes(), 0);
}

#[test]
fn mutable_accessors_write_in_place() {
    let mut heap = heap_of(4096);
    let mut list = list_of(&mut heap, 4, &[1, 2, 3, 4, 5]);
    assert_eq!(list.get_mut(Bound::Included(0), Bound::Excluded(6)), None);
    assert_eq!(list.get_mut(Bound::Included(3), Bound::Excluded(2)), None);
    if let Some(middle) = list.get_mut(Bound::Included(1), Bound::Excluded(4)) {
        assert_eq!(middle.len(), 3);
        middle[0] = 20;
        middle[2] = 40;
    }
    assert_eq!(list.as_slice(), Some(&[1u32, 20, 3, 40, 5][..]));
    list.get_unchecked_mut(Bound::Excluded(3), Bound::Unbounded)[0] = 50;
    for item in list.iter_mut() {
        *item += 1;
    }
    assert_eq!(list.as_slice(), Some(&[2u32, 21, 4, 41, 51][..]));
    list.as_mut_slice().unwrap().reverse();
    list.as_mut_slice_unchecked()[0] = 0;
    assert_eq!(list.as_slice(), Some(&[0u32, 41, 4, 21, 2][..]));
    assert_eq!(list.len(), 5);
    assert_eq!(list.capacity(), 8);
    let mut none: Vec<u32> = Vec::new(0);
    assert!(none.as_mut_slice().is_none());
    assert!(none.as_mut_slice_unchecked().is_empty());
    assert_eq!(none.get_mut(Bound::Unbounded, Bound::Unbounded).map(|s| s.len()), Some(0));
    list.release(&mut heap);
}
