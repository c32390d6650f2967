use ministd::mem::heap::{Allocator, Layout, RegionFinder};
use ministd::mem::Region;

struct Finder {
    spare: std::vec::Vec<Region>,
    asked: usize,
}

impl Finder {
    fn with(spare: &[Region]) -> Finder {
        Finder { spare: spare.to_vec(), asked: 0 }
    }
}

impl RegionFinder for Finder {
    fn find_heap_region(&mut self) -> Result<Region, ()> {
        self.asked += 1;
        if self.spare.is_empty() {
            Err(())
        } else {
            Ok(self.spare.remove(0))
        }
    }
}

struct Tally {
    asked: std::rc::Rc<std::cell::Cell<usize>>,
    spare: std::vec::Vec<Region>,
}

impl RegionFinder for Tally {
    fn find_heap_region(&mut self) -> Result<Region, ()> {
        self.asked.set(self.asked.get() + 1);
        if self.spare.is_empty() {
            Err(())
        } else {
            Ok(self.spare.remove(0))
        }
    }
}

fn layout(size: usize, align: usize) -> Layout {
    Layout::from_size_align(size, align).unwrap()
}

#[test]
fn a_new_allocator_has_no_memory() {
    let mut heap = Allocator::new(Finder::with(&[]));
    assert_eq!(heap.total_bytes(), 0);
    assert_eq!(heap.allocated_bytes(), 0);
    assert!(heap.get_regions().is_empty());
    assert_eq!(heap.try_alloc(layout(8, 8)), None);
    assert_eq!(heap.alloc_block(layout(8, 8)), None);
}

#[test]
fn out_of_memory_recovery_extends_once_and_retries_once() {
    let asked = std::rc::Rc::new(std::cell::Cell::new(0));
    let finder = Tally { asked: asked.clone(), spare: vec![Region::new(8192, 4096)] };
    let mut heap = Allocator::new(finder);
    assert_eq!(heap.add_region(Region::new(4096, 64)), Ok(()));
    assert_eq!(heap.total_bytes(), 64);

    let first = heap.alloc_block(layout(1024, 8));
    assert_eq!(asked.get(), 1);
    let addr = first.expect("the request fits once the heap was extended");
    assert!(addr >= 8192 && addr + 1024 <= 8192 + 4096);
    assert_eq!(heap.total_bytes(), 64 + 4096);
    assert_eq!(heap.allocated_bytes(), 1024);
    assert_eq!(heap.get_regions(), &[Region::new(4096, 64), Region::new(8192, 4096)][..]);

    let second = heap.alloc_block(layout(8192, 8));
    assert_eq!(second, None);
    assert_eq!(asked.get(), 2);
    assert_eq!(heap.total_bytes(), 64 + 4096);
    assert_eq!(heap.allocated_bytes(), 1024);
}

#[test]
fn a_request_that_fits_does_not_ask_the_finder() {
    let asked = std::rc::Rc::new(std::cell::Cell::new(0));
    let finder = Tally { asked: asked.clone(), spare: vec![Region::new(8192, 4096)] };
    let mut heap = Allocator::new(finder);
    assert_eq!(heap.add_region(Region::new(4096, 64)), Ok(()));
    assert!(heap.alloc_block(layout(32, 8)).is_some());
    assert_eq!(asked.get(), 0);
    assert_eq!(heap.total_bytes(), 64);
}

#[test]
fn a_failed_retry_keeps_the_new_region() {
    let mut heap = Allocator::new(Finder::with(&[Region::new(8192, 64)]));
    assert_eq!(heap.add_region(Region::new(4096, 64)), Ok(()));
    assert_eq!(heap.alloc_block(layout(1024, 8)), None);
    assert_eq!(heap.total_bytes(), 128);
    assert_eq!(heap.allocated_bytes(), 0);
    assert_eq!(heap.get_regions().len(), 2);
}

#[test]
fn retry_after_follows_the_recovery() {
    let mut heap = Allocator::new(Finder::with(&[]));
    assert_eq!(heap.add_region(Region::new(4096, 64)), Ok(()));
    assert_eq!(heap.retry_after(layout(16, 8), Err(())), None);
    assert_eq!(heap.allocated_bytes(), 0);
    assert!(heap.retry_after(layout(16, 8), Ok(())).is_some());
    assert_eq!(heap.allocated_bytes(), 16);
}

#[test]
fn extend_with_registers_what_was_found() {
    let mut heap = Allocator::new(Finder::with(&[]));
    assert_eq!(heap.extend_with(Err(())), Err(()));
    assert_eq!(heap.total_bytes(), 0);
    assert_eq!(heap.extend_with(Ok(Region::new(4096, 128))), Ok(()));
    assert_eq!(heap.total_bytes(), 128);
    assert_eq!(heap.extend_with(Ok(Region::new(4100, 8))), Err(()));
    assert_eq!(heap.extend_with(Ok(Region::empty())), Err(()));
    assert_eq!(heap.total_bytes(), 128);
}

#[test]
fn init_registers_the_first_region() {
    let mut heap = Allocator::new(Finder::with(&[Region::new(1 << 20, 1 << 16)]));
    assert_eq!(heap.init(), Ok(()));
    assert_eq!(heap.total_bytes(), 1 << 16);
    assert_eq!(heap.init(), Err(()));
    assert_eq!(heap.total_bytes(), 1 << 16);
    let mut other = Allocator::new(Finder::with(&[Region::new(1 << 20, 1 << 16)]));
    assert_eq!(ministd::init::allocator(&mut other), Ok(()));
    assert_eq!(other.get_regions(), &[Region::new(1 << 20, 1 << 16)][..]);
}

#[test]
fn regions_must_be_valid_and_disjoint() {
    let mut heap = Allocator::new(Finder::with(&[]));
    assert_eq!(heap.add_region(Region::new(0, 64)), Err(()));
    assert_eq!(heap.add_region(Region::new(64, 0)), Err(()));
    assert_eq!(heap.add_region(Region::new(usize::MAX - 8, 64)), Err(()));
    assert_eq!(heap.add_region(Region::new(4096, 4096)), Ok(()));
    assert_eq!(heap.add_region(Region::new(4096, 4096)), Err(()));
    assert_eq!(heap.add_region(Region::new(8191, 16)), Err(()));
    assert_eq!(heap.add_region(Region::new(2048, 2049)), Err(()));
    assert_eq!(heap.add_region(Region::new(2048, 2048)), Ok(()));
    assert_eq!(heap.add_region(Region::new(8192, 1)), Ok(()));
    assert_eq!(heap.total_bytes(), 4096 + 2048 + 1);
    assert_eq!(heap.get_regions().len(), 3);
}

#[test]
fn add_to_heap_takes_a_range_of_addresses() {
    let mut heap = Allocator::new(Finder::with(&[]));
    assert_eq!(heap.add_to_heap(8192, 4096), Err(()));
    assert_eq!(heap.add_to_heap(4096, 4096), Err(()));
    assert_eq!(heap.add_to_heap(4096, 8192), Ok(()));
    assert_eq!(heap.total_bytes(), 4096);
    assert_eq!(heap.get_regions(), &[Region::new(4096, 4096)][..]);
}

#[test]
fn blocks_are_powers_of_two_and_aligned_to_their_size() {
    let mut heap = Allocator::new(Finder::with(&[]));
    assert_eq!(heap.add_region(Region::new(4096, 4096)), Ok(()));
    let a = heap.alloc_block(layout(24, 8)).unwrap();
    assert_eq!(heap.allocated_bytes(), 32);
    assert_eq!(a % 32, 0);
    let b = heap.alloc_block(layout(1, 256)).unwrap();
    assert_eq!(heap.allocated_bytes(), 32 + 256);
    assert_eq!(b % 256, 0);
    let c = heap.alloc_zeroed(layout(0, 1)).unwrap();
    assert_eq!(heap.allocated_bytes(), 32 + 256 + 1);
    assert!(a != b && b != c && a != c);
    assert_eq!(layout(24, 8).block(), 32);
    assert_eq!(layout(1, 256).block(), 256);
    assert_eq!(layout(0, 1).block(), 1);
    assert_eq!(layout(4096, 2).block(), 4096);
    heap.dealloc(b, layout(1, 256));
    assert_eq!(heap.allocated_bytes(), 33);
    heap.dealloc(a, layout(24, 8));
    heap.dealloc(c, layout(0, 1));
    assert_eq!(heap.allocated_bytes(), 0);
    assert_eq!(heap.total_bytes(), 4096);
}

#[test]
fn freed_memory_can_be_allocated_again() {
    let mut heap = Allocator::new(Finder::with(&[]));
    assert_eq!(heap.add_region(Region::new(4096, 64)), Ok(()));
    let whole = heap.alloc_block(layout(64, 8)).unwrap();
    assert_eq!(whole, 4096);
    assert_eq!(heap.alloc_block(layout(1, 1)), None);
    heap.dealloc(whole, layout(64, 8));
    let a = heap.alloc_block(layout(32, 8)).unwrap();
    let b = heap.alloc_block(layout(32, 8)).unwrap();
    assert!(a != b);
    assert_eq!(heap.alloc_block(layout(32, 8)), None);
    heap.dealloc(a, layout(32, 8));
    heap.dealloc(b, layout(32, 8));
    assert_eq!(heap.alloc_block(layout(64, 8)), Some(4096));
}

#[test]
fn realloc_allocates_first_and_frees_then() {
    let mut heap = Allocator::new(Finder::with(&[Region::new(1 << 16, 1 << 12)]));
    assert_eq!(heap.add_region(Region::new(4096, 64)), Ok(()));
    let old = heap.alloc_block(layout(32, 8)).unwrap();
    let moved = heap.realloc(old, layout(32, 8), 16).unwrap();
    assert!(moved != old);
    assert_eq!(heap.allocated_bytes(), 16);
    assert_eq!(heap.realloc(moved, layout(16, 8), 64), None);
    assert_eq!(heap.allocated_bytes(), 16);
    assert_eq!(heap.total_bytes(), 64);
    assert_eq!(heap.realloc(moved, layout(16, 8), usize::MAX), None);
    let grown = heap.realloc_layout(moved, layout(16, 8), layout(64, 16)).unwrap();
    assert_eq!(grown % 64, 0);
    assert_eq!(heap.total_bytes(), 64 + 4096);
    assert_eq!(heap.allocated_bytes(), 64);
    heap.dealloc(grown, layout(64, 16));
    assert_eq!(heap.allocated_bytes(), 0);
}

#[test]
fn layouts_are_checked() {
    assert_eq!(Layout::from_size_align(8, 0), None);
    assert_eq!(Layout::from_size_align(8, 3), None);
    assert_eq!(Layout::from_size_align(8, 24), None);
    assert_eq!(Layout::from_size_align(isize::MAX as usize, 1).map(|l| l.size()), Some(isize::MAX as usize));
    assert_eq!(Layout::from_size_align(isize::MAX as usize, 2), None);
    assert_eq!(Layout::from_size_align(isize::MAX as usize + 1, 1), None);
    let l = Layout::from_size_align(10, 4).unwrap();
    assert_eq!((l.size(), l.align()), (10, 4));
    let of_u64 = Layout::new::<u64>();
    assert_eq!((of_u64.size(), of_u64.align()), (8, 8));
    let of_unit = Layout::new::<()>();
    assert_eq!((of_unit.size(), of_unit.align()), (0, 1));
}

#[test]
fn regions_know_their_bounds() {
    let r = Region::new(4096, 64);
    assert_eq!((r.start(), r.size()), (4096, 64));
    assert_eq!(r.end(), Some(4160));
    assert!(r.is_valid());
    assert!(!Region::empty().is_valid());
    assert_eq!(Region::new(usize::MAX, 2).end(), None);
    assert!(!Region::new(usize::MAX, 2).is_valid());
    assert!(Region::new(usize::MAX - 1, 1).is_valid());
    assert!(r.overlaps(&Region::new(4159, 1)));
    assert!(!r.overlaps(&Region::new(4160, 1)));
    assert!(!r.overlaps(&Region::new(4000, 96)));
    assert!(r.overlaps(&Region::new(4000, 97)));
    assert!(Region::new(usize::MAX, 2).overlaps(&Region::new(usize::MAX, 1)));
    assert!(r.overlaps(&Region::new(1, usize::MAX)));
    assert!(!r.overlaps(&Region::new(usize::MAX, usize::MAX)));
}
