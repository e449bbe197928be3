use tezweb::memory::cache_line::{CacheAligned, CachePadded};

fn address_of<T>(r: &T) -> usize {
    let text = format!("{:p}", r);
    usize::from_str_radix(text.trim_start_matches("0x"), 16).unwrap()
}

#[test]
fn cache_aligned_is_64_bytes_for_u32() {
    assert_eq!(std::mem::size_of::<CacheAligned<u32>>(), 64);
}

#[test]
fn cache_aligned_pointer_is_64_byte_aligned() {
    let a = CacheAligned::new(42u32);
    let ptr = address_of(&a);
    assert_eq!(ptr % 64, 0, "CacheAligned must be 64-byte aligned");
}

#[test]
fn cache_aligned_deref_returns_inner() {
    let a = CacheAligned::new(99u64);
    assert_eq!(*a, 99u64);
}

#[test]
fn cache_aligned_deref_mut_works() {
    let mut a = CacheAligned::new(1u32);
    *a.get_mut() = 42;
    assert_eq!(*a, 42);
}

#[test]
fn cache_padded_size_is_multiple_of_64() {
    assert_eq!(std::mem::size_of::<CachePadded<u8>>() % 64, 0);
    assert_eq!(std::mem::size_of::<CachePadded<u64>>() % 64, 0);
    assert_eq!(std::mem::size_of::<CachePadded<[u8; 64]>>() % 64, 0);
    assert_eq!(std::mem::size_of::<CachePadded<[u8; 65]>>() % 64, 0);
}

#[test]
fn cache_padded_no_extra_waste_for_exact_multiples() {
    assert_eq!(std::mem::size_of::<CachePadded<[u8; 64]>>(), 64);
}

#[test]
fn cache_padded_pointer_is_64_byte_aligned() {
    let p = CachePadded::new(7u8);
    let ptr = address_of(&p);
    assert_eq!(ptr % 64, 0, "CachePadded must be 64-byte aligned");
}

#[test]
fn cache_padded_adjacent_elements_no_false_sharing() {
    let arr = [CachePadded::new(0u64), CachePadded::new(1u64)];
    let p0 = address_of(&arr[0]);
    let p1 = address_of(&arr[1]);
    assert_eq!((p1 - p0) % 64, 0);
    assert!(p1 - p0 >= 64);
}

#[test]
fn cache_padded_deref_returns_inner() {
    let p = CachePadded::new(123u32);
    assert_eq!(*p, 123u32);
}

#[test]
fn cache_aligned_into_inner_and_clone() {
    let a = CacheAligned::new(String::from("x"));
    let b = a.clone();
    assert_eq!(a.into_inner(), "x");
    assert_eq!(*b, "x");
    let p: CachePadded<u32> = CachePadded::default();
    assert_eq!(p.into_inner(), 0);
}
