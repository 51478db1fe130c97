use rselib::sort::{aprox_bsearch, bsearch, AproxBinarySearchResult, ByteStrategy};

#[test]
fn bsearch_finds_every_element() {
    let data: Vec<u8> = vec![1, 3, 5, 7, 9, 11, 13];
    let not_found_value: usize = 0xFFFF_FFFF;
    for (i, key) in data.iter().enumerate() {
        let r = bsearch(*key, &data, data.len(), not_found_value, &ByteStrategy);
        assert_eq!(i, r);
    }
}

#[test]
fn bsearch_misses_absent_keys() {
    let data: Vec<u8> = vec![1, 3, 5, 7, 9, 11, 13];
    let not_found_value: usize = 0xFFFF_FFFF;
    for key in [0u8, 2, 4, 6, 8, 10, 12, 14, 0xFF] {
        let r = bsearch(key, &data, data.len(), not_found_value, &ByteStrategy);
        assert_eq!(not_found_value, r);
    }
}

#[test]
fn bsearch_on_empty_length_returns_sentinel() {
    let data: Vec<u8> = vec![0x10, 0x20];
    let not_found_value: usize = 0xFFFF_FFFF;
    // Only the logical length counts: searching zero elements finds nothing.
    let r = bsearch(0x10, &data, 0, not_found_value, &ByteStrategy);
    assert_eq!(not_found_value, r);
}

#[test]
fn aprox_bsearch_between_two_values() {
    // Given a sorted buffer [0x10, 0x20], the value 0x15 belongs
    // after 0x10, at index 1.
    let test_array: Vec<u8> = vec![0x10, 0x20];
    let (res, possible_index) = aprox_bsearch(0x15, &test_array, test_array.len(), &ByteStrategy);
    assert!(matches!(res, AproxBinarySearchResult::AproxMatch));
    assert_eq!(1, possible_index);
}

#[test]
fn aprox_bsearch_before_the_beginning() {
    let test_array: Vec<u8> = vec![0x10, 0x20];
    let (res, possible_index) = aprox_bsearch(0x05, &test_array, test_array.len(), &ByteStrategy);
    assert!(matches!(res, AproxBinarySearchResult::AproxMatch));
    assert_eq!(0, possible_index);
}

#[test]
fn aprox_bsearch_past_the_end() {
    let test_array: Vec<u8> = vec![0x10, 0x20];
    let (res, possible_index) = aprox_bsearch(0x25, &test_array, test_array.len(), &ByteStrategy);
    assert!(matches!(res, AproxBinarySearchResult::AproxMatch));
    assert_eq!(2, possible_index);
}

#[test]
fn aprox_bsearch_exact_match() {
    let test_array: Vec<u8> = vec![0x10, 0x20, 0x30];
    for (i, key) in test_array.iter().enumerate() {
        let (res, possible_index) =
            aprox_bsearch(*key, &test_array, test_array.len(), &ByteStrategy);
        assert!(matches!(res, AproxBinarySearchResult::ExactMatchIndex));
        assert_eq!(i, possible_index);
    }
}

#[test]
fn aprox_bsearch_on_empty_buffer() {
    let test_array: Vec<u8> = Vec::new();
    let (res, possible_index) = aprox_bsearch(0x10, &test_array, 0, &ByteStrategy);
    assert!(matches!(res, AproxBinarySearchResult::OutsideIndex));
    assert_eq!(0, possible_index);
}
