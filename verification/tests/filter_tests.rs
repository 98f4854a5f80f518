use bloom_filter::addressing::{bit_array_indices, num_u64s};
use bloom_filter::bits::bit_set;
use bloom_filter::filter::{BIT_CAPACITY, FILTER_NUM_U64S, fresh_filter, filter_insert, is_in_filter};

#[test]
fn test_filter() {
    /* The bytes of the word "known" */
    let known = "known".bytes().collect::<Vec<u8>>();

    /* The 8 different hashes of the word "known" */
    let known_hashes = vec![
        1183587150u32,
        2402186983,
        4132244288,
        3394324783,
        1291789908,
        1182111577,
        867046547,
        3528127662,
    ];
    for hash_num in 0..8 {
        let hash = xxhash_rust::xxh32::xxh32(&known, hash_num);
        assert_eq!(hash, known_hashes[hash_num as usize]);
    }

    assert_eq!(num_u64s(BIT_CAPACITY), FILTER_NUM_U64S);
    let mut filter = fresh_filter();

    assert!(!is_in_filter(&known, &filter, BIT_CAPACITY).unwrap());
    assert!(filter_insert(&known, &mut filter, BIT_CAPACITY).is_ok());
    assert!(is_in_filter(&known, &filter, BIT_CAPACITY).unwrap());

    for i in 0..10000 {
        let as_string = i.to_string();
        let as_bytes = as_string.as_bytes();
        assert!(!is_in_filter(&as_bytes, &filter, BIT_CAPACITY).unwrap());
        assert!(filter_insert(&as_bytes, &mut filter, BIT_CAPACITY).is_ok());
        assert!(is_in_filter(&as_bytes, &filter, BIT_CAPACITY).unwrap());
    }
}

#[test]
fn test_fresh_filter_is_all_zero() {
    let filter = fresh_filter();
    assert_eq!(filter.len(), FILTER_NUM_U64S);
    assert!(filter.iter().all(|w| *w == 0));
}

#[test]
fn test_insert_is_idempotent() {
    let input = "repeated".as_bytes();
    let mut once = fresh_filter();
    filter_insert(input, &mut once, BIT_CAPACITY).unwrap();
    let mut twice = once.clone();
    filter_insert(input, &mut twice, BIT_CAPACITY).unwrap();
    assert_eq!(once, twice);
}

#[test]
fn test_no_false_negatives_across_inserts() {
    let inputs = ["alpha", "beta", "gamma", "delta", ""];
    let mut filter = fresh_filter();
    for input in inputs {
        filter_insert(input.as_bytes(), &mut filter, BIT_CAPACITY).unwrap();
    }
    for input in inputs {
        assert!(is_in_filter(input.as_bytes(), &filter, BIT_CAPACITY).unwrap());
    }
}

/* Inserting "known" must set exactly the bits that the eight fixture hashes
 * address; a hash that depended on anything besides the bytes and the seed
 * would land elsewhere. */
#[test]
fn test_hash_fixture_drives_addressing() {
    let known = "known".as_bytes();
    let known_hashes = [
        1183587150u32,
        2402186983,
        4132244288,
        3394324783,
        1291789908,
        1182111577,
        867046547,
        3528127662,
    ];

    let mut filter = fresh_filter();
    filter_insert(known, &mut filter, BIT_CAPACITY).unwrap();

    let mut expected = fresh_filter();
    for hash in known_hashes {
        let (whichint, whichbit) = bit_array_indices(hash as u64, BIT_CAPACITY);
        assert_eq!(bit_set(filter[whichint], whichbit), Ok(true));
        expected[whichint] |= 0x8000_0000_0000_0000u64 >> whichbit;
    }
    assert_eq!(filter, expected);
}
