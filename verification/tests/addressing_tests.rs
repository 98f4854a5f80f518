use bloom_filter::addressing::{bit_array_indices, bit_index, num_u64s, u64_index};

#[test]
fn test_num_u64s() {
    for m in 1..=64 {
        assert_eq!(num_u64s(m), 1);
    }
    for m in 65..=128 {
        assert_eq!(num_u64s(m), 2);
    }
    for m in 129..=192 {
        assert_eq!(num_u64s(m), 3);
    }
}

#[test]
fn test_u64_index() {
    /* 0-63 64-127 128-191... */
    let nines = 9999;
    for i in 0..64 {
        assert_eq!(u64_index(i, nines), 0);
    }
    for i in 64..128 {
        assert_eq!(u64_index(i, nines), 1);
    }
    for i in 128..192 {
        assert_eq!(u64_index(i, nines), 2);
    }
    for i in 192..256 {
        assert_eq!(u64_index(i, nines), 3);
    }

    /* 10 bits fit in one u64 */
    for i in 0..9999 {
        assert_eq!(u64_index(i, 10), 0);
    }

    /* 70 bits fit in two u64's only using 6 bits of the second one */
    let seventy = 70;
    for i in 0..64 {
        assert_eq!(u64_index(i, seventy), 0);
    }
    for i in 64..70 {
        assert_eq!(u64_index(i, seventy), 1);
    }
    for i in 70..(70 + 64) {
        assert_eq!(u64_index(i, seventy), 0);
    }
    for i in (70 + 64)..(70 + 64 + 6) {
        assert_eq!(u64_index(i, seventy), 1);
    }

    /* 129 bits fit in three u64's only using 1 bit of the third one */
    let one29 = 129;
    for i in 0..64 {
        assert_eq!(u64_index(i, one29), 0);
    }
    for i in 64..128 {
        assert_eq!(u64_index(i, one29), 1);
    }
    assert_eq!(u64_index(128, one29), 2);
    for i in 129..(129 + 64) {
        assert_eq!(u64_index(i, one29), 0);
    }
    for i in (129 + 64)..(129 + 2 * 64) {
        assert_eq!(u64_index(i, one29), 1);
    }
    assert_eq!(u64_index(129 + 2 * 64, one29), 2);
    assert_eq!(u64_index(129 + 2 * 64 + 1, one29), 0);
}

#[test]
fn test_bit_index() {
    let nines = 9999;
    for i in 0..64 {
        assert_eq!(bit_index(i, nines), i as u8);
    }
    for i in 64..128 {
        assert_eq!(bit_index(i, nines), (i - 64) as u8);
    }
    for i in 128..192 {
        assert_eq!(bit_index(i, nines), (i - 128) as u8);
    }

    let ten = 10;
    for i in 0..9999 {
        assert_eq!(bit_index(i, ten), (i % 10) as u8);
    }
}

#[test]
fn test_bit_array_indices() {
    let nines = 9999;
    for i in 0..64 {
        assert_eq!(bit_array_indices(i, nines), (0, i as u8));
    }
    for i in 64..128 {
        assert_eq!(bit_array_indices(i, nines), (1, (i - 64) as u8));
    }
    for i in 128..192 {
        assert_eq!(bit_array_indices(i, nines), (2, (i - 128) as u8));
    }
    for i in 0..300 {
        assert_eq!(bit_array_indices(i, 10), (0, (i % 10) as u8));
    }
}

#[test]
fn test_locate_is_deterministic() {
    for i in [0u64, 1, 63, 64, 9998, 9999, u64::MAX] {
        let first = bit_array_indices(i, 9999);
        let second = bit_array_indices(i, 9999);
        assert_eq!(first, second);
    }
}
