use rubber_band::band::{segment_len, survey, RubberBand, OUT_OF_RANGE, TOO_SHORT, TORN};
use rubber_band::error::Error;
use rubber_band::frames::{past_frame, prefix_of, read_frame};
use rubber_band::layout::{
    copy_in, copy_out, load_counter, read_at, store_counter, wrap, HEADER_SIZE, PREFIX_WIDTH,
    WORD_SIZE,
};
use rubber_band::name::{fresh_name, hex_digit, name_from, push_hex};
use rubber_band::shm::{
    after_attempt, Attempt, NextStep, SharedMemory, Shm, ShmMap, MAX_NAME_ATTEMPTS, MAX_OBJECT_LEN,
    NOTHING_TO_MAP,
};

#[test]
fn layout_constants() {
    assert_eq!(WORD_SIZE, 8);
    assert_eq!(HEADER_SIZE, 16);
    assert_eq!(PREFIX_WIDTH, 8);
    assert_eq!(MAX_OBJECT_LEN, i64::MAX as u64);
}

#[test]
fn wrap_reduces_modulo_capacity() {
    assert_eq!(wrap(16, 0), 0);
    assert_eq!(wrap(16, 15), 15);
    assert_eq!(wrap(16, 16), 0);
    assert_eq!(wrap(16, 35), 3);
    assert_eq!(wrap(1, u64::MAX), 0);
    assert_eq!(wrap(10, u64::MAX), 5);
}

#[test]
fn copy_in_wraps_and_spares_the_header() {
    let mut seg = vec![0xaau8; 16 + 10];
    copy_in(&mut seg, 8, &[1, 2, 3, 4, 5]);
    assert_eq!(&seg[..16], &[0xaa; 16]);
    assert_eq!(&seg[16..], &[3, 4, 5, 0xaa, 0xaa, 0xaa, 0xaa, 0xaa, 1, 2]);
    assert_eq!(copy_out(&seg, 8, 5), vec![1, 2, 3, 4, 5]);
    assert_eq!(copy_out(&seg, 28, 5), vec![1, 2, 3, 4, 5]);
    assert_eq!(copy_out(&seg, 9, 3), vec![2, 3, 4]);
    assert_eq!(read_at(&seg, 10), 3);
    assert_eq!(read_at(&seg, 9), 2);
}

#[test]
fn copy_in_of_a_whole_lap() {
    let mut seg = vec![0u8; 16 + 4];
    copy_in(&mut seg, 6, &[1, 2, 3, 4]);
    assert_eq!(&seg[16..], &[3, 4, 1, 2]);
    assert_eq!(copy_out(&seg, 6, 4), vec![1, 2, 3, 4]);
    copy_in(&mut seg, 3, &[]);
    assert_eq!(&seg[16..], &[3, 4, 1, 2]);
    assert_eq!(copy_out(&seg, 3, 0), Vec::<u8>::new());
}

#[test]
fn counters_are_little_endian() {
    let mut seg = vec![0u8; 24];
    store_counter(&mut seg, 0, 0x0102030405060708);
    store_counter(&mut seg, 8, 258);
    assert_eq!(&seg[..8], &[8, 7, 6, 5, 4, 3, 2, 1]);
    assert_eq!(&seg[8..16], &[2, 1, 0, 0, 0, 0, 0, 0]);
    assert_eq!(&seg[16..], &[0; 8]);
    assert_eq!(load_counter(&seg, 0), 0x0102030405060708);
    assert_eq!(load_counter(&seg, 8), 258);
}

#[test]
fn prefix_is_eight_little_endian_bytes() {
    assert_eq!(prefix_of(0), vec![0; 8]);
    assert_eq!(prefix_of(0x1234), vec![0x34, 0x12, 0, 0, 0, 0, 0, 0]);
}

#[test]
fn read_frame_stops_at_tail() {
    let mut seg = vec![0u8; 16 + 16];
    copy_in(&mut seg, 12, &prefix_of(3));
    copy_in(&mut seg, 20, &[7, 8, 9]);
    assert_eq!(read_frame(&seg, 12, 23), Some(vec![7, 8, 9]));
    assert_eq!(read_frame(&seg, 12, 28), Some(vec![7, 8, 9]));
    assert_eq!(read_frame(&seg, 12, 22), None);
    assert_eq!(read_frame(&seg, 12, 19), None);
    assert_eq!(read_frame(&seg, 0, 16), None);
    assert_eq!(read_frame(&[0u8; 32], 0, 8), Some(vec![]));
}

#[test]
fn names_are_a_slash_and_two_hex_numbers() {
    assert_eq!(name_from(0, 0), "/00");
    assert_eq!(name_from(255, 16), "/ff10");
    assert_eq!(name_from(0xdeadbeef, 0x1), "/deadbeef1");
    assert_eq!(name_from(u64::MAX, 0xabc), "/ffffffffffffffffabc");
    assert_eq!(name_from(0x1234_5678_9abc_def0, 10), format!("/{:x}{:x}", 0x1234_5678_9abc_def0u64, 10));
}

#[test]
fn hex_digits() {
    let all: String = (0u8..16).map(hex_digit).collect();
    assert_eq!(all, "0123456789abcdef");
    let mut text = String::from("x");
    push_hex(&mut text, 0);
    push_hex(&mut text, 0x10f);
    assert_eq!(text, "x010f");
}

#[test]
fn fresh_names_are_well_formed_and_differ() {
    let one = fresh_name();
    let two = fresh_name();
    for name in [&one, &two] {
        assert!(name.starts_with('/'));
        assert!(name.len() >= 3 && name.len() <= 33);
        assert!(name[1..].chars().all(|c| c.is_ascii_digit() || ('a'..='f').contains(&c)));
    }
    assert_ne!(one, two);
}

#[test]
fn retry_only_on_collision_and_not_for_ever() {
    assert_eq!(after_attempt(1, Attempt::Opened), NextStep::Proceed);
    assert_eq!(after_attempt(MAX_NAME_ATTEMPTS, Attempt::Opened), NextStep::Proceed);
    assert_eq!(after_attempt(1, Attempt::Collision), NextStep::Retry);
    assert_eq!(after_attempt(MAX_NAME_ATTEMPTS - 1, Attempt::Collision), NextStep::Retry);
    assert_eq!(after_attempt(MAX_NAME_ATTEMPTS, Attempt::Collision), NextStep::GiveUp);
    assert_eq!(after_attempt(1, Attempt::Failed), NextStep::GiveUp);
    assert_eq!(MAX_NAME_ATTEMPTS, 8);
}

#[test]
fn object_starts_empty_and_takes_a_size() {
    let mut shm = Shm::create().unwrap();
    assert_eq!(shm.len(), 0);
    assert!(shm.name().starts_with('/'));
    assert_eq!(
        ShmMap::create(&shm).err(),
        Some(Error::System("cannot map an object of no bytes".to_string()))
    );
    shm.resize(24).unwrap();
    assert_eq!(shm.len(), 24);
    let map = ShmMap::create(&shm).unwrap();
    assert_eq!(map.len(), 24);
    assert_eq!(map.as_ptr(), &[0u8; 24]);
}

#[test]
fn mapping_is_written_in_place() {
    let mut shm = Shm::create().unwrap();
    shm.resize(4).unwrap();
    let mut map = ShmMap::create(&shm).unwrap();
    map.as_mut_ptr()[2] = 9;
    map.as_mut_ptr()[0] = 1;
    assert_eq!(map.as_ptr(), &[1, 0, 9, 0]);
    assert_eq!(map.len(), 4);
}

#[test]
fn segment_is_zero_filled() {
    let mut segment = SharedMemory::create(20).unwrap();
    assert_eq!(segment.len(), 20 + 16);
    assert_eq!(segment.as_ptr(), &[0u8; 36]);
    segment.as_mut_ptr()[35] = 3;
    assert_eq!(segment.as_ptr()[35], 3);
    let header_only = SharedMemory::create(0).unwrap();
    assert_eq!(header_only.len(), 16);
}

#[test]
fn segment_is_attached_by_its_bytes() {
    let mut segment = SharedMemory::open(vec![1, 2, 3]).unwrap();
    assert_eq!(segment.len(), 3);
    assert_eq!(segment.as_ptr(), &[1, 2, 3]);
    segment.as_mut_ptr()[1] = 9;
    assert_eq!(segment.as_ptr(), &[1, 9, 3]);
    assert_eq!(
        SharedMemory::open(Vec::new()).err(),
        Some(Error::System("cannot map an object of no bytes".to_string()))
    );
    assert_eq!(NOTHING_TO_MAP, "cannot map an object of no bytes");
}

#[test]
fn survey_of_size_and_counters() {
    assert_eq!(survey(16, 0, 0), Ok(0));
    assert_eq!(survey(48, 5, 37), Ok(32));
    assert_eq!(survey(48, u64::MAX, u64::MAX), Ok(32));
    assert_eq!(survey(15, 0, 0), Err(Error::System(TOO_SHORT.to_string())));
    assert_eq!(survey(0, 3, 2), Err(Error::System(TOO_SHORT.to_string())));
    assert_eq!(survey(48, 6, 5), Err(Error::System(OUT_OF_RANGE.to_string())));
    assert_eq!(survey(48, 5, 38), Err(Error::System(OUT_OF_RANGE.to_string())));
    assert_eq!(TOO_SHORT, "segment is shorter than its header");
    assert_eq!(OUT_OF_RANGE, "segment counters are out of range");
    assert_eq!(TORN, "segment ends inside a frame");
}

#[test]
fn segment_len_adds_the_header() {
    assert_eq!(segment_len(0), Ok(16));
    assert_eq!(segment_len(100), Ok(116));
    assert_eq!(segment_len(isize::MAX as usize - 16), Ok(isize::MAX as usize));
    assert_eq!(segment_len(isize::MAX as usize - 15), Err(Error::TooBig));
    assert_eq!(segment_len(usize::MAX), Err(Error::TooBig));
}

#[test]
fn past_frame_is_not_reduced() {
    assert_eq!(past_frame(0, 0), 8);
    assert_eq!(past_frame(12, 4), 24);
    assert_eq!(past_frame(1_000_000, 7), 1_000_015);
    assert_eq!(past_frame(u64::MAX - 9, 1), u64::MAX);
}

#[test]
fn ring_primitives() {
    let mut band = RubberBand::create(24).unwrap();
    assert_eq!((band.capacity(), band.head(), band.tail()), (24, 0, 0));
    band.write(0, &prefix_of(2));
    band.write(8, &[0xab, 0xcd]);
    assert_eq!((band.head(), band.tail()), (0, 0));
    band.publish(2);
    assert_eq!((band.head(), band.tail()), (0, 10));
    assert_eq!(band.read(8, 2), vec![0xab, 0xcd]);
    assert_eq!(band.consume(), vec![0xab, 0xcd]);
    assert_eq!((band.head(), band.tail()), (10, 10));
    let shm = band.into_shared_memory();
    assert_eq!(shm.len(), 40);
    assert_eq!(&shm.as_ptr()[..16], &[10, 0, 0, 0, 0, 0, 0, 0, 10, 0, 0, 0, 0, 0, 0, 0]);
    let band = RubberBand::open(shm).unwrap();
    assert_eq!((band.head(), band.tail()), (10, 10));
}

#[test]
fn ring_refuses_an_oversized_segment() {
    assert_eq!(RubberBand::create(usize::MAX - 16).err(), Some(Error::TooBig));
}

#[test]
fn error_texts() {
    assert_eq!(Error::TooBig.description(), "requested reservation is too big to fit");
    assert_eq!(Error::Full.description(), "not enough room available");
    assert_eq!(Error::System("mapping failed".to_string()).description(), "mapping failed");
    assert_eq!(Error::TooBig.cause(), None);
    assert_eq!(Error::Full.cause(), None);
    assert_eq!(
        Error::System("mapping failed".to_string()).cause(),
        Some("mapping failed".to_string())
    );
    assert!(Error::Full.is_transient());
    assert!(!Error::TooBig.is_transient());
    assert!(!Error::System(String::new()).is_transient());
}

#[test]
fn ring_reads_nothing_from_an_empty_region() {
    let band = RubberBand::create(0).unwrap();
    assert_eq!(band.read(5, 0), Vec::<u8>::new());
    assert_eq!(band.capacity(), 0);
}
