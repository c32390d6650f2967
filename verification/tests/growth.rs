use ministd::mem::dynamic_buffer::{min_3, DynamicBuffer};
use ministd::mem::growth::{
    checked_cap_next, checked_new_capacity, checked_next_multiple_of, checked_next_power_of_two,
};

#[test]
fn next_power_of_two_values() {
    let expected = [1usize, 1, 2, 4, 4, 8, 8, 8, 8, 16];
    for (n, want) in expected.iter().enumerate() {
        assert_eq!(checked_next_power_of_two(n), Some(*want));
        assert_eq!(checked_next_power_of_two(n), n.checked_next_power_of_two());
    }
    let top = 1usize << (usize::BITS - 1);
    assert_eq!(checked_next_power_of_two(top), Some(top));
    assert_eq!(checked_next_power_of_two(top - 1), Some(top));
    assert_eq!(checked_next_power_of_two(top + 1), None);
    assert_eq!(checked_next_power_of_two(usize::MAX), None);
}

#[test]
fn next_multiple_of_values() {
    assert_eq!(checked_next_multiple_of(0, 4), Some(0));
    assert_eq!(checked_next_multiple_of(1, 4), Some(4));
    assert_eq!(checked_next_multiple_of(4, 4), Some(4));
    assert_eq!(checked_next_multiple_of(5, 4), Some(8));
    assert_eq!(checked_next_multiple_of(9, 8), Some(16));
    assert_eq!(checked_next_multiple_of(17, 1), Some(17));
    assert_eq!(checked_next_multiple_of(usize::MAX, 1), Some(usize::MAX));
    assert_eq!(checked_next_multiple_of(usize::MAX, 2), None);
    assert_eq!(checked_next_multiple_of(usize::MAX - 1, 2), Some(usize::MAX - 1));
}

#[test]
fn new_capacity_may_equal_the_request() {
    assert_eq!(checked_new_capacity(0, 8), Some(8));
    assert_eq!(checked_new_capacity(0, 9), Some(16));
    assert_eq!(checked_new_capacity(0, 0), Some(1));
    assert_eq!(checked_new_capacity(4, 8), Some(8));
    assert_eq!(checked_new_capacity(4, 9), Some(12));
    assert_eq!(checked_new_capacity(4, 0), Some(0));
    assert_eq!(DynamicBuffer::<u8>::new_capacity(8, 3), 8);
    assert_eq!(DynamicBuffer::<u8>::new_capacity(0, 3), 4);
}

#[test]
fn cap_next_is_strictly_greater() {
    assert_eq!(checked_cap_next(0, 0), Some(1));
    assert_eq!(checked_cap_next(0, 1), Some(2));
    assert_eq!(checked_cap_next(0, 8), Some(16));
    assert_eq!(checked_cap_next(4, 0), Some(4));
    assert_eq!(checked_cap_next(4, 4), Some(8));
    assert_eq!(checked_cap_next(4, 5), Some(8));
    assert_eq!(checked_cap_next(1, usize::MAX), None);
    assert_eq!(checked_cap_next(0, usize::MAX / 2 + 1), None);
    assert_eq!(DynamicBuffer::<u32>::cap_next(4, 7), 8);
    assert_eq!(DynamicBuffer::<u32>::cap_next(0, 7), 8);
    for step in 0..6usize {
        for cap in 0..40usize {
            let next = checked_cap_next(step, cap).unwrap();
            assert!(next > cap);
            assert!(checked_new_capacity(step, cap).unwrap() >= cap);
        }
    }
}

#[test]
fn min_3_is_the_least() {
    assert_eq!(min_3(3, 2, 1), 1);
    assert_eq!(min_3(1, 2, 3), 1);
    assert_eq!(min_3(2, 1, 3), 1);
    assert_eq!(min_3(5, 5, 5), 5);
    assert_eq!(min_3(usize::MAX, 0, 7), 0);
}
