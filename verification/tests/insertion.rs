use rselib::sort::{sorted_array_insert, ByteStrategy, SortedArrayAllocResult};

#[test]
fn insert_at_the_end() {
    let mut test_array: Vec<u8> = vec![0x10, 0x20, 0x00]; // pre allocated buffer
    let new_value: u8 = 0x25;
    let not_allocated_value: usize = 0xFFFF_FFFF;

    let capacity = test_array.len();
    let mut length = 2; // Used elements in the buffer
    let (res, possible_index, added_count) = sorted_array_insert(
        new_value,
        &mut test_array,
        length,
        capacity,
        not_allocated_value,
        &ByteStrategy,
    );

    assert!(matches!(res, SortedArrayAllocResult::Success));
    assert_eq!(possible_index, 2);
    assert_eq!(1, added_count);

    // Write to the pointed slot
    test_array[possible_index] = new_value;
    // !!Dont forget to update the used length
    length += added_count;

    assert_eq!(0x10, test_array[0]);
    assert_eq!(0x20, test_array[1]);
    assert_eq!(0x25, test_array[2]);
    assert_eq!(3, length);
}

#[test]
fn insert_at_the_beginning() {
    let mut test_array: Vec<u8> = vec![0x10, 0x20, 0x00]; // pre allocated buffer
    let new_value: u8 = 0x05;
    let not_allocated_value: usize = 0xFFFF_FFFF;

    let capacity = test_array.len();
    let mut length = 2; // Used elements in the buffer
    let (res, possible_index, added_count) = sorted_array_insert(
        new_value,
        &mut test_array,
        length,
        capacity,
        not_allocated_value,
        &ByteStrategy,
    );

    assert!(matches!(res, SortedArrayAllocResult::Success));
    assert_eq!(possible_index, 0);
    assert_eq!(1, added_count);

    // Write to the pointed slot
    test_array[possible_index] = new_value;
    // !!Dont forget to update the used length
    length += added_count;

    assert_eq!(0x05, test_array[0]);
    assert_eq!(0x10, test_array[1]);
    assert_eq!(0x20, test_array[2]);
    assert_eq!(3, length);
}

#[test]
fn point_to_the_existing_value() {
    let mut test_array: Vec<u8> = vec![0x10, 0x20, 0x00]; // pre allocated buffer
    let new_value: u8 = 0x10;
    let not_allocated_value: usize = 0xFFFF_FFFF;

    let capacity = test_array.len();
    let length = 2; // Used elements in the buffer
    let (res, possible_index, added_count) = sorted_array_insert(
        new_value,
        &mut test_array,
        length,
        capacity,
        not_allocated_value,
        &ByteStrategy,
    );

    assert!(matches!(res, SortedArrayAllocResult::Success));
    assert_eq!(possible_index, 0);

    assert_eq!(0x10, test_array[0]);
    assert_eq!(0x20, test_array[1]);
    assert_eq!(0x00, test_array[2]);
    assert_eq!(0, added_count);
}

#[test]
fn max_capacity_exceeded() {
    let mut test_array: Vec<u8> = vec![0x10, 0x20]; // pre allocated buffer
    let new_value: u8 = 0x15;
    let not_allocated_value: usize = 0xFFFF_FFFF;

    let capacity = test_array.len();
    let length = 2; // Used elements in the buffer
    let (res, possible_index, added_count) = sorted_array_insert(
        new_value,
        &mut test_array,
        length,
        capacity,
        not_allocated_value,
        &ByteStrategy,
    );

    assert!(matches!(res, SortedArrayAllocResult::ArrayCapacityExceeded));
    assert_eq!(possible_index, not_allocated_value);

    assert_eq!(0x10, test_array[0]);
    assert_eq!(0x20, test_array[1]);
    assert_eq!(0, added_count);
}

#[test]
fn insert_in_the_middle() {
    let mut test_array: Vec<u8> = vec![0x10, 0x20, 0x00];
    let new_value: u8 = 0x15;
    let not_allocated_value: usize = 0xFFFF_FFFF;

    let capacity = test_array.len();
    let mut length = 2;
    let (res, possible_index, added_count) = sorted_array_insert(
        new_value,
        &mut test_array,
        length,
        capacity,
        not_allocated_value,
        &ByteStrategy,
    );

    assert!(matches!(res, SortedArrayAllocResult::Success));
    assert_eq!(possible_index, 1);
    assert_eq!(1, added_count);

    test_array[possible_index] = new_value;
    length += added_count;

    assert_eq!(0x10, test_array[0]);
    assert_eq!(0x15, test_array[1]);
    assert_eq!(0x20, test_array[2]);
    assert_eq!(3, length);
}

#[test]
fn insert_existing_value_twice() {
    let mut test_array: Vec<u8> = vec![0x10, 0x20, 0x00];
    let not_allocated_value: usize = 0xFFFF_FFFF;
    let capacity = test_array.len();
    let length = 2;

    for _round in 0..2 {
        let (res, possible_index, added_count) = sorted_array_insert(
            0x10,
            &mut test_array,
            length,
            capacity,
            not_allocated_value,
            &ByteStrategy,
        );
        assert!(matches!(res, SortedArrayAllocResult::Success));
        assert_eq!(possible_index, 0);
        assert_eq!(0, added_count);
        assert_eq!(vec![0x10, 0x20, 0x00], test_array);
    }
}

#[test]
fn insert_into_empty_buffer() {
    let mut test_array: Vec<u8> = vec![0x00];
    let not_allocated_value: usize = 0xFFFF_FFFF;

    let (res, possible_index, added_count) = sorted_array_insert(
        0x42,
        &mut test_array,
        0,
        1,
        not_allocated_value,
        &ByteStrategy,
    );

    assert!(matches!(res, SortedArrayAllocResult::Success));
    assert_eq!(possible_index, 0);
    assert_eq!(1, added_count);

    test_array[possible_index] = 0x42;
    assert_eq!(0x42, test_array[0]);
}

#[test]
fn append_when_full_is_rejected() {
    let mut test_array: Vec<u8> = vec![0x10, 0x20];
    let not_allocated_value: usize = 0xFFFF_FFFF;

    let (res, possible_index, added_count) = sorted_array_insert(
        0x25,
        &mut test_array,
        2,
        2,
        not_allocated_value,
        &ByteStrategy,
    );

    assert!(matches!(res, SortedArrayAllocResult::ArrayCapacityExceeded));
    assert_eq!(possible_index, not_allocated_value);
    assert_eq!(0, added_count);
    assert_eq!(vec![0x10, 0x20], test_array);
}
