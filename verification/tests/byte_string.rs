use ministd::mem::heap::{Allocator, RegionFinder};
use ministd::mem::string::{bytes_eq, String};
use ministd::mem::{Bound, Region};

struct NoMore;

impl RegionFinder for NoMore {
    fn find_heap_region(&mut self) -> Result<Region, ()> {
        Err(())
    }
}

fn text_heap(size: usize) -> Allocator<NoMore> {
    let mut heap = Allocator::new(NoMore);
    assert_eq!(heap.add_region(Region::new(1 << 16, size)), Ok(()));
    heap
}

fn text_of(heap: &mut Allocator<NoMore>, step: usize, value: &str) -> String {
    String::try_from_str(heap, step, value).unwrap()
}

#[test]
fn word_aligned_string_grows_once() {
    let mut heap = text_heap(4096);
    let mut text = String::try_with_capacity(&mut heap, 8, 3).unwrap();
    assert_eq!(text.capacity(), 8);
    assert_eq!(text.try_push_str(&mut heap, "hi"), Ok(()));
    assert_eq!(text.len(), 2);
    assert_eq!(text.capacity(), 8);
    let first_block = heap.allocated_bytes();
    assert_eq!(first_block, 8);
    assert_eq!(text.try_push_str(&mut heap, "1234567"), Ok(()));
    assert_eq!(text.len(), 9);
    assert!(text.capacity() >= 9);
    assert_eq!(text.capacity(), 16);
    assert_eq!(heap.allocated_bytes(), 16);
    assert_eq!(text.as_bytes(), b"hi1234567");
    assert_eq!(text.as_str_checked(), Some("hi1234567"));
    text.release(&mut heap);
    assert_eq!(heap.allocated_bytes(), 0);
}

#[test]
fn a_new_string_owns_nothing() {
    let text = String::new(0);
    assert_eq!(text.len(), 0);
    assert_eq!(text.capacity(), 0);
    assert_eq!(text.step(), 0);
    assert!(text.is_empty());
    assert!(!text.has_data());
    assert_eq!(text.as_bytes_checked(), None);
    assert_eq!(text.as_str_checked(), None);
    assert_eq!(text.as_bytes_unchecked(), b"");
    assert!(!text.eq_str(""));
    assert!(text.eq(&String::new(4)));
}

#[test]
fn push_grows_geometrically() {
    let mut heap = text_heap(4096);
    let mut text = String::new(0);
    let mut seen = std::vec::Vec::new();
    for c in b"abcde" {
        assert_eq!(text.try_push(&mut heap, *c), Ok(()));
        seen.push(text.capacity());
    }
    assert_eq!(seen, vec![1, 2, 4, 4, 8]);
    assert_eq!(text.as_str(), "abcde");
    assert_eq!(text.try_expand(&mut heap), Ok(()));
    assert_eq!(text.capacity(), 16);
    assert_eq!(text.as_str(), "abcde");
    text.push_unchecked(b'f');
    text.push_str_unchecked("gh");
    assert_eq!(text.as_str(), "abcdefgh");
    assert_eq!(text.capacity(), 16);
    text.release(&mut heap);
}

#[test]
fn push_fails_with_the_string_unchanged() {
    let mut heap = text_heap(4);
    let mut text = text_of(&mut heap, 0, "abcd");
    assert_eq!(text.capacity(), 4);
    assert_eq!(text.try_push(&mut heap, b'e'), Err(()));
    assert_eq!(text.try_push_str(&mut heap, "ef"), Err(()));
    assert_eq!(text.try_insert(&mut heap, 1, b'x'), Err(()));
    assert_eq!(text.try_insert_str(&mut heap, 1, "xy"), Err(()));
    assert_eq!(text.try_reserve(&mut heap, 1), Err(()));
    assert_eq!(text.try_expand(&mut heap), Err(()));
    assert_eq!(text.try_push_str(&mut heap, ""), Ok(()));
    assert_eq!(text.as_str(), "abcd");
    assert_eq!(text.capacity(), 4);
    assert!(String::try_from_str(&mut heap, 0, "x").is_err());
    text.release(&mut heap);
}

#[test]
fn pop_and_truncate_keep_the_capacity() {
    let mut heap = text_heap(4096);
    let mut text = text_of(&mut heap, 0, "hello world");
    assert_eq!(text.capacity(), 16);
    text.pop();
    assert_eq!(text.as_str(), "hello worl");
    assert_eq!(text.pop_ret(), Some(b'l'));
    text.pop_n(3);
    assert_eq!(text.as_str(), "hello ");
    text.truncate(9);
    assert_eq!(text.len(), 6);
    text.truncate(2);
    assert_eq!(text.as_str(), "he");
    text.pop_n(5);
    assert_eq!(text.len(), 0);
    text.pop();
    assert_eq!(text.pop_ret(), None);
    assert_eq!(text.try_push(&mut heap, b'x'), Ok(()));
    text.clear();
    assert!(text.is_empty());
    assert_eq!(text.capacity(), 16);
    text.release(&mut heap);
}

#[test]
fn insert_and_remove_shift_the_bytes() {
    let mut heap = text_heap(4096);
    let mut text = text_of(&mut heap, 0, "held");
    assert_eq!(text.try_insert(&mut heap, 3, b'l'), Ok(()));
    assert_eq!(text.as_str(), "helld");
    assert_eq!(text.try_insert(&mut heap, 99, b'!'), Ok(()));
    assert_eq!(text.as_str(), "helld!");
    assert_eq!(text.try_insert_str(&mut heap, 4, "o worl"), Ok(()));
    assert_eq!(text.as_str(), "hello world!");
    assert_eq!(text.try_insert_str(&mut heap, 50, "?"), Ok(()));
    assert_eq!(text.try_insert_str(&mut heap, 0, ">> "), Ok(()));
    assert_eq!(text.as_str(), ">> hello world!?");
    text.remove(15);
    text.remove(0);
    assert_eq!(text.as_str(), "> hello world!");
    text.remove_str(Bound::Included(0), Bound::Excluded(2));
    assert_eq!(text.as_str(), "hello world!");
    text.remove_str(Bound::Excluded(4), Bound::Included(10));
    assert_eq!(text.as_str(), "hello!");
    text.remove_str(Bound::Included(5), Bound::Unbounded);
    assert_eq!(text.as_str(), "hello");
    text.remove_str(Bound::Included(2), Bound::Excluded(2));
    assert_eq!(text.as_str(), "hello");
    text.remove_str(Bound::Unbounded, Bound::Unbounded);
    assert_eq!(text.len(), 0);
    let mut empty = String::new(0);
    empty.remove(4);
    assert!(empty.is_empty());
    text.release(&mut heap);
}

#[test]
fn ranged_accessors_return_none_outside_the_length() {
    let mut heap = text_heap(4096);
    let text = text_of(&mut heap, 8, "hello");
    assert_eq!(text.capacity(), 8);
    assert_eq!(text.get(Bound::Included(0), Bound::Excluded(6)), None);
    assert_eq!(text.get(Bound::Included(0), Bound::Included(5)), None);
    assert_eq!(text.get(Bound::Included(6), Bound::Unbounded), None);
    assert_eq!(text.get(Bound::Included(3), Bound::Excluded(2)), None);
    assert_eq!(text.get_str(Bound::Included(0), Bound::Excluded(8)), None);
    assert_eq!(text.get_str(Bound::Excluded(usize::MAX), Bound::Unbounded), None);
    assert_eq!(text.get(Bound::Included(1), Bound::Excluded(4)), Some(&b"ell"[..]));
    assert_eq!(text.get(Bound::Excluded(1), Bound::Included(4)), Some(&b"llo"[..]));
    assert_eq!(text.get(Bound::Unbounded, Bound::Unbounded), Some(&b"hello"[..]));
    assert_eq!(text.get(Bound::Included(5), Bound::Excluded(5)), Some(&b""[..]));
    assert_eq!(text.get_str(Bound::Included(1), Bound::Excluded(4)), Some("ell"));
    assert_eq!(text.get_str(Bound::Unbounded, Bound::Included(0)), Some("h"));
    assert_eq!(text.handle_bounds(Bound::Excluded(1), Bound::Unbounded), (2, 5));
    assert_eq!(text.index(4), b'o');
    text.release(&mut heap);
}

#[test]
fn conversion_to_str_checks_the_bytes() {
    let mut heap = text_heap(4096);
    let mut text = text_of(&mut heap, 0, "gr\u{fc}n");
    assert_eq!(text.len(), 5);
    assert_eq!(text.as_str_checked(), Some("gr\u{fc}n"));
    assert_eq!(text.get_str(Bound::Included(2), Bound::Excluded(4)), Some("\u{fc}"));
    assert_eq!(text.get_str(Bound::Included(2), Bound::Excluded(3)), None);
    assert_eq!(text.get(Bound::Included(2), Bound::Excluded(3)), Some(&[0xc3u8][..]));
    assert_eq!(text.try_push(&mut heap, 0xff), Ok(()));
    assert_eq!(text.as_str_checked(), None);
    assert_eq!(text.as_bytes_checked(), Some(&[b'g', b'r', 0xc3, 0xbc, b'n', 0xff][..]));
    text.pop();
    assert_eq!(text.as_str_checked(), Some("gr\u{fc}n"));
    *text.index_mut(0) = b'G';
    assert_eq!(text.as_str(), "Gr\u{fc}n");
    text.release(&mut heap);
}

#[test]
fn equality_compares_bytes() {
    let mut heap = text_heap(4096);
    let a = text_of(&mut heap, 0, "same");
    let b = text_of(&mut heap, 8, "same");
    let c = text_of(&mut heap, 0, "sane");
    let d = text_of(&mut heap, 0, "sam");
    assert!(a.eq(&b));
    assert!(!a.eq(&c));
    assert!(!a.eq(&d));
    assert!(a.eq_str("same"));
    assert!(!a.ne_str("same"));
    assert!(a.ne_str("sane"));
    assert!(a.ne(&c));
    assert!(!a.ne(&b));
    assert_eq!(a.as_str_unchecked(), "same");
    assert_eq!(String::new(0).as_str_unchecked(), "");
    assert!(!a.eq_str("same!"));
    assert!(!a.eq_str(""));
    let empty = String::new(0);
    assert!(!a.eq(&empty));
    assert!(!empty.eq(&a));
    let mut cleared = text_of(&mut heap, 0, "x");
    cleared.clear();
    assert!(empty.eq(&cleared));
    assert!(!cleared.eq(&empty));
    assert!(cleared.eq_str(""));
    assert!(bytes_eq(b"ab", b"ab"));
    assert!(!bytes_eq(b"ab", b"ac"));
    assert!(!bytes_eq(b"ab", b"abc"));
    assert!(bytes_eq(b"", b""));
    a.release(&mut heap);
    b.release(&mut heap);
    c.release(&mut heap);
    d.release(&mut heap);
    cleared.release(&mut heap);
    assert_eq!(heap.allocated_bytes(), 0);
}

#[test]
fn clone_copies_the_bytes_into_a_block_of_its_own() {
    let mut heap = text_heap(4096);
    let mut text = text_of(&mut heap, 0, "copy me");
    let copy = text.try_clone(&mut heap).unwrap();
    assert_eq!(copy.as_str(), "copy me");
    assert_eq!(copy.capacity(), text.capacity());
    assert_eq!(heap.allocated_bytes(), 16);
    text.clear();
    assert_eq!(copy.as_str(), "copy me");
    assert_eq!(String::new(3).try_clone(&mut heap).map(|s| s.capacity()), Ok(0));
    copy.release(&mut heap);
    text.release(&mut heap);
}

#[test]
fn shrinking_moves_to_an_exact_block() {
    let mut heap = text_heap(4096);
    let mut text = text_of(&mut heap, 0, "hello");
    assert_eq!(text.capacity(), 8);
    assert_eq!(text.try_reserve(&mut heap, 3), Ok(()));
    assert_eq!(text.capacity(), 8);
    assert_eq!(text.try_reserve(&mut heap, 4), Ok(()));
    assert_eq!(text.capacity(), 16);
    assert_eq!(text.try_shrink_to_fit(&mut heap), Ok(()));
    assert_eq!(text.capacity(), 5);
    assert_eq!(text.try_shrink_to(&mut heap, 9), Ok(()));
    assert_eq!(text.capacity(), 5);
    assert_eq!(text.try_shrink_to(&mut heap, 3), Ok(()));
    assert_eq!(text.capacity(), 3);
    assert_eq!(text.as_str(), "hel");
    assert_eq!(text.try_shrink_to(&mut heap, 0), Ok(()));
    assert!(!text.has_data());
    assert_eq!(heap.allocated_bytes(), 0);
    text.release(&mut heap);
}

#[test]
fn iteration_and_leak() {
    let mut heap = text_heap(4096);
    let text = text_of(&mut heap, 0, "abc");
    let seen: std::vec::Vec<u8> = text.iter().copied().collect();
    assert_eq!(seen, b"abc");
    let held = heap.allocated_bytes();
    assert_eq!(text.leak(), b"abc".to_vec());
    assert_eq!(heap.allocated_bytes(), held);
}

#[test]
fn order_is_that_of_the_dictionary() {
    let mut heap = text_heap(4096);
    let text = text_of(&mut heap, 0, "kernel");
    for other in ["kernel", "kernels", "kern", "lernel", "jernel", "", "kernem", "kernek", "z", "K"] {
        assert_eq!(text.lt(other), "kernel" < other, "lt {other}");
        assert_eq!(text.gt(other), "kernel" > other, "gt {other}");
        assert_eq!(text.le(other), "kernel" <= other, "le {other}");
        assert_eq!(text.ge(other), "kernel" >= other, "ge {other}");
        assert_eq!(text.partial_cmp(other), "kernel".partial_cmp(other), "cmp {other}");
    }
    assert!(ministd::mem::string::bytes_less(b"", b"a"));
    assert!(!ministd::mem::string::bytes_less(b"", b""));
    assert!(!ministd::mem::string::bytes_less(b"b", b"a"));
    assert!(ministd::mem::string::bytes_less(b"ab", b"b"));
    text.release(&mut heap);
}

#[test]
fn a_string_without_a_block_is_behind_every_text() {
    let none = String::new(0);
    assert!(!none.lt("a"));
    assert!(none.gt("a"));
    assert!(none.ge("a"));
    assert!(!none.le("a"));
    assert!(none.le(""));
    assert!(none.ge(""));
    assert!(!none.gt(""));
    assert_eq!(none.partial_cmp("a"), Some(std::cmp::Ordering::Greater));
    assert_eq!(none.partial_cmp(""), Some(std::cmp::Ordering::Equal));
}

#[test]
fn strify_checks_utf8() {
    assert_eq!(ministd::convert::strify(b"plain"), Some("plain"));
    assert_eq!(ministd::convert::strify(&[0xe2, 0x82, 0xac]), Some("\u{20ac}"));
    assert_eq!(ministd::convert::strify(&[0xe2, 0x82]), None);
    assert_eq!(ministd::convert::strify(&[0x80]), None);
    assert_eq!(ministd::convert::strify(b""), Some(""));
}

#[test]
fn writing_appends_text_and_low_bytes() {
    let mut heap = text_heap(4096);
    let mut text = String::default();
    assert_eq!(text.step(), 0);
    assert_eq!(text.capacity(), 0);
    assert_eq!(text.write_str(&mut heap, "ab"), Ok(()));
    assert_eq!(text.write_char(&mut heap, 'c'), Ok(()));
    assert_eq!(text.write_char(&mut heap, '\u{141}'), Ok(()));
    assert_eq!(text.as_bytes(), &[b'a', b'b', b'c', 0xc5, 0x81][..]);
    assert_eq!(text.write_char(&mut heap, '\u{20ac}'), Ok(()));
    assert_eq!(text.write_char(&mut heap, '\u{1f600}'), Ok(()));
    assert_eq!(text.as_str_checked(), Some("abc\u{141}\u{20ac}\u{1f600}"));
    assert_eq!(text.len(), 12);
    text.release(&mut heap);
    let mut full = text_heap(2);
    let mut short = text_of(&mut full, 0, "ab");
    assert_eq!(short.write_char(&mut full, 'c'), Err(()));
    assert_eq!(short.write_str(&mut full, "c"), Err(()));
    assert_eq!(short.as_str(), "ab");
    short.release(&mut full);
}

#[test]
fn chars_are_encoded_as_utf8() {
    for c in ['\0', 'a', '\u{7f}', '\u{80}', '\u{7ff}', '\u{800}', '\u{d7ff}', '\u{e000}',
        '\u{ffff}', '\u{10000}', '\u{10ffff}']
    {
        let mut buffer = [0u8; 4];
        let expected = c.encode_utf8(&mut buffer).as_bytes().to_vec();
        assert_eq!(ministd::mem::string::encode_char(c), expected);
    }
}

#[test]
fn mutable_byte_accessors_write_in_place() {
    let mut heap = text_heap(4096);
    let mut text = text_of(&mut heap, 0, "hello");
    assert!(text.get_mut(Bound::Included(2), Bound::Excluded(9)).is_none());
    if let Some(part) = text.get_mut(Bound::Included(1), Bound::Included(2)) {
        part.copy_from_slice(b"EL");
    }
    assert_eq!(text.as_str(), "hELlo");
    text.as_bytes_mut()[0] = b'H';
    text.get_unchecked_mut(Bound::Included(4), Bound::Unbounded)[0] = b'O';
    for byte in text.iter_mut() {
        byte.make_ascii_lowercase();
    }
    assert_eq!(text.as_str(), "hello");
    text.as_bytes_mut_checked().unwrap().reverse();
    text.as_bytes_mut_unchecked()[0] = b'0';
    assert_eq!(text.as_str(), "0lleh");
    assert_eq!(text.len(), 5);
    let mut none = String::new(0);
    assert!(none.as_bytes_mut_checked().is_none());
    text.release(&mut heap);
}
