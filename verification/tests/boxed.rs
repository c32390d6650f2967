use ministd::mem::boxed::Box;
use ministd::mem::heap::{Allocator, Layout, RegionFinder};
use ministd::mem::Region;
use ministd::{Nothing, TryClone};
use std::cell::Cell;
use std::rc::Rc;

struct Nowhere;

impl RegionFinder for Nowhere {
    fn find_heap_region(&mut self) -> Result<Region, ()> {
        Err(())
    }
}

fn box_heap(size: usize) -> Allocator<Nowhere> {
    let mut heap = Allocator::new(Nowhere);
    assert_eq!(heap.add_region(Region::new(1 << 12, size)), Ok(()));
    heap
}

struct Teardown {
    tag: u64,
    count: Rc<Cell<usize>>,
}

impl Clone for Teardown {
    fn clone(&self) -> Self {
        Teardown { tag: self.tag, count: Rc::new(Cell::new(0)) }
    }
}

impl Drop for Teardown {
    fn drop(&mut self) {
        self.count.set(self.count.get() + 1);
    }
}

#[derive(Debug, PartialEq)]
struct Fussy {
    value: u32,
}

#[derive(Debug, Default, PartialEq)]
struct Refused {
    reason: u32,
}

impl TryClone for Fussy {
    type Error = Refused;

    fn try_clone(&self) -> Result<Self, Refused> {
        if self.value % 2 == 0 {
            Ok(Fussy { value: self.value })
        } else {
            Err(Refused { reason: self.value })
        }
    }
}

#[test]
fn teardown_runs_once_per_box() {
    let mut heap = box_heap(4096);
    let count = Rc::new(Cell::new(0));
    let boxed = Box::try_new(&mut heap, Teardown { tag: 7, count: count.clone() }).unwrap();
    assert_eq!(count.get(), 0);
    assert_eq!(boxed.as_ref().tag, 7);
    let copy = boxed.clone(&mut heap).unwrap();
    let copy_count = copy.deref().count.clone();
    assert_eq!(copy.deref().tag, 7);
    assert!(copy.as_ptr() != boxed.as_ptr());
    boxed.release(&mut heap);
    assert_eq!(count.get(), 1);
    assert_eq!(copy_count.get(), 0);
    copy.release(&mut heap);
    assert_eq!(count.get(), 1);
    assert_eq!(copy_count.get(), 1);
    assert_eq!(heap.allocated_bytes(), 0);
}

#[test]
fn a_box_takes_the_block_of_one_value() {
    let mut heap = box_heap(4096);
    let mut boxed = Box::try_new(&mut heap, 0x1122_3344_5566_7788u64).unwrap();
    assert_eq!(heap.allocated_bytes(), 8);
    assert_eq!(boxed.as_ptr() % 8, 0);
    assert_eq!(boxed.as_mut_ptr(), boxed.as_ptr());
    assert_eq!(*boxed.deref(), 0x1122_3344_5566_7788);
    *boxed.deref_mut() = 5;
    assert_eq!(boxed.replace(6), 5);
    assert_eq!(*boxed.as_ref(), 6);
    assert_eq!(Box::<u64>::layout(), Layout::new::<u64>());
    assert_eq!(Box::<[u8; 24]>::layout().block(), 32);
    boxed.release(&mut heap);
    assert_eq!(heap.allocated_bytes(), 0);
}

#[test]
fn allocation_failure_is_reported() {
    let mut heap = box_heap(8);
    let first = Box::try_new(&mut heap, 1u64).unwrap();
    assert!(Box::try_new(&mut heap, 2u64).is_err());
    assert!(Box::<u64>::try_new_uninit(&mut heap).is_err());
    assert!(Box::<u64>::try_new_zeroed(&mut heap).is_err());
    assert!(first.clone(&mut heap).is_err());
    assert!(heap.allocate(3u8).is_err());
    assert!(heap.allocate_uninit::<u8>().is_err());
    assert_eq!(heap.allocated_bytes(), 8);
    heap.delete(first);
    assert_eq!(heap.allocated_bytes(), 0);
    assert!(heap.allocate(3u8).is_ok());
}

#[test]
fn an_uninitialised_block_becomes_a_box_by_the_callers_word() {
    let mut heap = box_heap(4096);
    let raw = Box::<u32>::try_new_uninit(&mut heap).unwrap();
    assert!(!raw.is_zeroed());
    let addr = raw.as_ptr();
    let boxed = raw.assume_init(41);
    assert_eq!(boxed.as_ptr(), addr);
    assert_eq!(*boxed.deref(), 41);
    let zeroed = Box::<u32>::try_new_zeroed(&mut heap).unwrap();
    assert!(zeroed.is_zeroed());
    let second = zeroed.assume_init(0);
    assert_eq!(*second.deref(), 0);
    assert_eq!(heap.allocated_bytes(), 8);
    boxed.release(&mut heap);
    second.release(&mut heap);
    assert_eq!(heap.allocated_bytes(), 0);
}

#[test]
fn raw_parts_round_trip() {
    let mut heap = box_heap(4096);
    let boxed = Box::try_new(&mut heap, 9u32).unwrap();
    let (addr, value) = boxed.into_non_null();
    assert_eq!(value, 9);
    assert_eq!(heap.allocated_bytes(), 4);
    let again = Box::from_non_null(addr, value + 1).unwrap();
    assert_eq!(*again.deref(), 10);
    assert_eq!(again.as_ptr(), addr);
    again.release(&mut heap);
    assert_eq!(heap.allocated_bytes(), 0);
}

#[test]
fn misaligned_raw_parts_are_refused() {
    assert!(Box::from_non_null(4098, 1u32).is_err());
    assert!(Box::from_non_null(4097, 1u16).is_err());
    assert!(Box::from_non_null(4097, 1u8).is_ok());
    assert!(Box::from_non_null(4104, 1u64).is_ok());
}

#[test]
fn leak_forfeits_the_block() {
    let mut heap = box_heap(4096);
    let boxed = Box::try_new(&mut heap, 77u16).unwrap();
    assert_eq!(boxed.leak(), 77);
    assert_eq!(heap.allocated_bytes(), 2);
}

#[test]
fn try_clone_reports_the_values_error_or_the_default() {
    let mut heap = box_heap(8);
    let even = Box::try_new(&mut heap, Fussy { value: 4 }).unwrap();
    let copy = even.try_clone(&mut heap).unwrap();
    assert_eq!(*copy.deref(), Fussy { value: 4 });
    assert_eq!(even.try_clone(&mut heap).err(), Some(Refused { reason: 0 }));
    copy.release(&mut heap);
    let odd = Box::try_new(&mut heap, Fussy { value: 5 }).unwrap();
    assert_eq!(odd.try_clone(&mut heap).err(), Some(Refused { reason: 5 }));
    assert_eq!(heap.allocated_bytes(), 8);
    even.release(&mut heap);
    odd.release(&mut heap);
}

#[test]
fn nothing_and_immutable() {
    let nothing = Nothing::default();
    assert_eq!(nothing.try_clone(), Ok(Nothing()));
    let fixed = ministd::Immutable::new(31u8);
    assert_eq!(*fixed.deref(), 31);
}

#[test]
fn a_box_taken_apart_goes_together_again() {
    let mut heap = box_heap(4096);
    for round in 0..8u64 {
        let boxed = Box::try_new(&mut heap, round).unwrap();
        let addr = boxed.as_ptr();
        let (raw, value) = boxed.into_non_null();
        assert_eq!(raw, addr);
        let again = Box::from_non_null(raw, value).expect("the address of a box is aligned");
        assert_eq!(again.as_ptr(), addr);
        assert_eq!(*again.deref(), round);
        if round % 2 == 0 {
            again.release(&mut heap);
        } else {
            assert_eq!(again.leak(), round);
        }
    }
    assert_eq!(heap.allocated_bytes(), 4 * 8);
}
