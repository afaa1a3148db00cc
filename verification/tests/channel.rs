use rubber_band::error::Error;
use rubber_band::receiver::{Poll, Receiver};
use rubber_band::sender::{grant, Reservation, Sender};
use rubber_band::shm::SharedMemory;

fn send(sender: &mut Sender, payload: &[u8]) -> Result<(), Error> {
    let reservation = sender.reserve(payload.len())?;
    reservation.write(sender, 0, payload);
    reservation.commit(sender);
    Ok(())
}

fn pattern(len: usize, seed: u8) -> Vec<u8> {
    let mut bytes = Vec::new();
    for i in 0..len {
        bytes.push(seed.wrapping_add((i as u8).wrapping_mul(7)));
    }
    bytes
}

fn segment_with_counters(capacity: usize, head: u64, tail: u64) -> SharedMemory {
    let mut shm = SharedMemory::create(capacity).unwrap();
    let bytes = shm.as_mut_ptr();
    bytes[0..8].copy_from_slice(&head.to_le_bytes());
    bytes[8..16].copy_from_slice(&tail.to_le_bytes());
    shm
}

#[test]
fn four_bytes_through_sixteen() {
    let mut sender = Sender::create(16).unwrap();
    let reservation = sender.reserve(4).unwrap();
    assert_eq!(reservation.len(), 4);
    assert_eq!(reservation.start(), 8);
    reservation.write(&mut sender, 0, &[1, 2, 3, 4]);
    reservation.commit(&mut sender);
    assert_eq!(sender.tail(), 12);
    let mut receiver = sender.into_receiver();
    assert_eq!(receiver.try_recv(), Some(vec![1, 2, 3, 4]));
    assert_eq!(receiver.try_recv(), None);
    assert_eq!(receiver.head(), receiver.tail());
    assert_eq!(receiver.head(), 12);
}

#[test]
fn round_trip_for_every_size_that_fits() {
    for capacity in [8usize, 9, 16, 31, 64] {
        for size in 0..=(capacity - 8) {
            let mut sender = Sender::create(capacity).unwrap();
            let payload = pattern(size, 3);
            send(&mut sender, &payload).unwrap();
            let mut receiver = sender.into_receiver();
            assert_eq!(receiver.try_recv(), Some(payload));
            assert_eq!(receiver.try_recv(), None);
        }
    }
}

#[test]
fn too_big_in_any_state() {
    let mut sender = Sender::create(16).unwrap();
    assert_eq!(sender.reserve(9).unwrap_err(), Error::TooBig);
    assert_eq!(sender.reserve(usize::MAX).unwrap_err(), Error::TooBig);
    send(&mut sender, &[1, 2, 3]).unwrap();
    assert_eq!(sender.reserve(9).unwrap_err(), Error::TooBig);
    let mut receiver = sender.into_receiver();
    receiver.try_recv().unwrap();
    let mut sender = receiver.into_sender();
    assert_eq!(sender.reserve(9).unwrap_err(), Error::TooBig);
    assert!(sender.reserve(8).is_ok());
}

#[test]
fn too_small_for_any_frame() {
    let mut sender = Sender::create(7).unwrap();
    assert_eq!(sender.reserve(0).unwrap_err(), Error::TooBig);
    let mut empty = Sender::create(0).unwrap();
    assert_eq!(empty.reserve(0).unwrap_err(), Error::TooBig);
    let mut receiver = empty.into_receiver();
    assert_eq!(receiver.try_recv(), None);
}

#[test]
fn full_until_consumed() {
    let mut sender = Sender::create(18).unwrap();
    send(&mut sender, &[5]).unwrap();
    send(&mut sender, &[6]).unwrap();
    assert_eq!(sender.tail() - sender.head(), 18);
    assert_eq!(sender.reserve(1).unwrap_err(), Error::Full);
    assert_eq!(sender.reserve(0).unwrap_err(), Error::Full);
    let mut receiver = sender.into_receiver();
    assert_eq!(receiver.try_recv(), Some(vec![5]));
    let mut sender = receiver.into_sender();
    let reservation = sender.reserve(1).unwrap();
    assert_eq!(reservation.start(), 26);
    assert_eq!(sender.reserve(2).unwrap_err(), Error::Full);
}

#[test]
fn wraps_like_a_linear_buffer() {
    let mut sender = Sender::create(29).unwrap();
    let mut expected: Vec<Vec<u8>> = Vec::new();
    let mut received: Vec<Vec<u8>> = Vec::new();
    let mut pending: Vec<Vec<u8>> = Vec::new();
    for round in 0..200usize {
        let payload = pattern(round % 11, round as u8);
        let mut sent = false;
        while !sent {
            match send(&mut sender, &payload) {
                Ok(()) => {
                    expected.push(payload.clone());
                    pending.push(payload.clone());
                    sent = true;
                }
                Err(Error::Full) => {
                    let mut receiver = sender.into_receiver();
                    let got = receiver.try_recv().unwrap();
                    assert_eq!(got, pending.remove(0));
                    received.push(got);
                    sender = receiver.into_sender();
                }
                Err(other) => panic!("{:?}", other),
            }
        }
    }
    let mut receiver = sender.into_receiver();
    while let Some(got) = receiver.try_recv() {
        received.push(got);
    }
    assert_eq!(received, expected);
    assert!(receiver.tail() > 29 * 10);
    assert_eq!(receiver.head(), receiver.tail());
}

#[test]
fn payload_straddles_the_end() {
    let mut sender = Sender::create(20).unwrap();
    send(&mut sender, &[1, 2, 3, 4, 5, 6]).unwrap();
    let mut receiver = sender.into_receiver();
    assert_eq!(receiver.try_recv(), Some(vec![1, 2, 3, 4, 5, 6]));
    let mut sender = receiver.into_sender();
    // The next frame starts at offset 14: its prefix runs to 22, past the end.
    send(&mut sender, &[9, 8, 7, 6, 5, 4, 3]).unwrap();
    assert_eq!(sender.tail(), 29);
    let shm = sender.into_band().into_shared_memory();
    let bytes = shm.as_ptr().to_vec();
    assert_eq!(&bytes[16 + 14..16 + 20], &[7, 0, 0, 0, 0, 0]);
    assert_eq!(&bytes[16..16 + 9], &[0, 0, 9, 8, 7, 6, 5, 4, 3]);
    let mut receiver = Receiver::open(shm).unwrap();
    assert_eq!(receiver.try_recv(), Some(vec![9, 8, 7, 6, 5, 4, 3]));
    assert_eq!(receiver.try_recv(), None);
}

#[test]
fn first_in_first_out() {
    let mut sender = Sender::create(64).unwrap();
    send(&mut sender, b"first").unwrap();
    send(&mut sender, b"second one").unwrap();
    let mut receiver = sender.into_receiver();
    assert_eq!(receiver.try_recv(), Some(b"first".to_vec()));
    assert_eq!(receiver.try_recv(), Some(b"second one".to_vec()));
    assert_eq!(receiver.try_recv(), None);
}

#[test]
fn abandoned_reservation_leaves_no_trace() {
    let mut sender = Sender::create(32).unwrap();
    send(&mut sender, &[1]).unwrap();
    let tail = sender.tail();
    let head = sender.head();
    {
        let abandoned = sender.reserve(10).unwrap();
        abandoned.write(&mut sender, 0, &[0xee; 10]);
        assert_eq!(abandoned.start(), tail + 8);
    }
    assert_eq!(sender.tail(), tail);
    assert_eq!(sender.head(), head);
    let again = sender.reserve(10).unwrap();
    assert_eq!(again.start(), tail + 8);
    assert_eq!(again.len(), 10);
    again.write(&mut sender, 0, &[0x11; 10]);
    again.commit(&mut sender);
    let mut receiver = sender.into_receiver();
    assert_eq!(receiver.try_recv(), Some(vec![1]));
    assert_eq!(receiver.try_recv(), Some(vec![0x11; 10]));
}

#[test]
fn shrink_publishes_the_shorter_length() {
    let mut sender = Sender::create(32).unwrap();
    let mut reservation = sender.reserve(10).unwrap();
    reservation.write(&mut sender, 0, &[1, 2, 3, 4, 5, 6, 7, 8, 9, 10]);
    reservation.shrink(3);
    assert_eq!(reservation.len(), 3);
    assert!(sender.holds(&reservation));
    reservation.commit(&mut sender);
    assert_eq!(sender.tail(), 11);
    let mut receiver = sender.into_receiver();
    assert_eq!(receiver.try_recv(), Some(vec![1, 2, 3]));
    assert_eq!(receiver.try_recv(), None);
}

#[test]
fn shrink_to_nothing() {
    let mut sender = Sender::create(32).unwrap();
    let mut reservation = sender.reserve(4).unwrap();
    reservation.shrink(4);
    reservation.shrink(0);
    reservation.commit(&mut sender);
    let mut receiver = sender.into_receiver();
    assert_eq!(receiver.try_recv(), Some(vec![]));
    assert_eq!(receiver.head(), 8);
}

#[test]
fn write_in_pieces_and_read_back() {
    let mut sender = Sender::create(32).unwrap();
    let reservation = sender.reserve(6).unwrap();
    reservation.write(&mut sender, 3, &[4, 5, 6]);
    reservation.write(&mut sender, 0, &[1, 2, 3]);
    assert_eq!(reservation.get(&sender, 0), 1);
    assert_eq!(reservation.get(&sender, 4), 5);
    reservation.commit(&mut sender);
    let mut receiver = sender.into_receiver();
    assert_eq!(receiver.try_recv(), Some(vec![1, 2, 3, 4, 5, 6]));
}

#[test]
fn stale_reservation_is_not_held() {
    let mut sender = Sender::create(32).unwrap();
    let stale = sender.reserve(4).unwrap();
    let live = sender.reserve(4).unwrap();
    assert!(sender.holds(&stale));
    live.commit(&mut sender);
    assert!(!sender.holds(&stale));
}

#[test]
fn create_refuses_a_segment_beyond_the_signed_range() {
    assert_eq!(Sender::create(usize::MAX).err(), Some(Error::TooBig));
    assert_eq!(Sender::create(isize::MAX as usize - 15).err(), Some(Error::TooBig));
}

#[test]
fn grant_by_the_numbers() {
    assert_eq!(grant(16, 0, 0, 9).unwrap_err(), Error::TooBig);
    assert_eq!(grant(16, 0, 8, 1).unwrap_err(), Error::Full);
    let granted = grant(16, 4, 8, 1).unwrap();
    assert_eq!((granted.start(), granted.len()), (16, 1));
    let granted = grant(16, 100, 100, 8).unwrap();
    assert_eq!((granted.start(), granted.len()), (108, 8));
    assert!(matches!(grant(16, u64::MAX - 7, u64::MAX - 7, 0), Err(Error::System(_))));
}

#[test]
fn counter_at_its_limit() {
    let shm = segment_with_counters(32, u64::MAX - 3, u64::MAX - 3);
    let mut sender = Sender::open(shm).unwrap();
    assert!(matches!(sender.reserve(0), Err(Error::System(_))));
    assert_eq!(sender.reserve(100).unwrap_err(), Error::TooBig);

    let shm = segment_with_counters(32, u64::MAX - 9, u64::MAX - 9);
    let mut sender = Sender::open(shm).unwrap();
    assert!(matches!(sender.reserve(2), Err(Error::System(_))));
    let reservation = sender.reserve(1).unwrap();
    reservation.write(&mut sender, 0, &[0x5a]);
    reservation.commit(&mut sender);
    assert_eq!(sender.tail(), u64::MAX);
    let mut receiver = sender.into_receiver();
    assert_eq!(receiver.try_recv(), Some(vec![0x5a]));
    assert_eq!(receiver.head(), u64::MAX);
}

#[test]
fn open_refuses_what_is_not_a_channel() {
    let short = SharedMemory::open(vec![0u8; 15]).unwrap();
    assert!(matches!(Sender::open(short), Err(Error::System(_))));
    let backwards = segment_with_counters(32, 9, 8);
    assert!(matches!(Receiver::open(backwards), Err(Error::System(_))));
    let too_far = segment_with_counters(32, 0, 33);
    assert!(matches!(Receiver::open(too_far), Err(Error::System(_))));
    // Zeros from 0 to 12: one empty frame, then half a prefix.
    let torn = segment_with_counters(32, 0, 12);
    assert!(matches!(Receiver::open(torn), Err(Error::System(_))));
    // A prefix that announces more than is published.
    let mut overlong = segment_with_counters(32, 0, 16);
    overlong.as_mut_ptr()[16] = 9;
    assert!(matches!(Receiver::open(overlong), Err(Error::System(_))));
}

#[test]
fn open_takes_a_well_framed_segment() {
    let empty_header_only = SharedMemory::create(0).unwrap();
    let mut receiver = Receiver::open(empty_header_only).unwrap();
    assert_eq!(receiver.capacity(), 0);
    assert_eq!(receiver.try_recv(), None);
    // Zeros from 0 to 16 are two empty frames.
    let two_empty = segment_with_counters(32, 0, 16);
    let mut receiver = Receiver::open(two_empty).unwrap();
    assert_eq!(receiver.try_recv(), Some(vec![]));
    assert_eq!(receiver.try_recv(), Some(vec![]));
    assert_eq!(receiver.try_recv(), None);
}

#[test]
fn poll_says_when_to_stop_waiting() {
    let mut sender = Sender::create(32).unwrap();
    send(&mut sender, &[7, 7]).unwrap();
    let mut receiver = sender.into_receiver();
    assert!(matches!(receiver.poll(50, 10), Poll::Ready(ref payload) if payload == &vec![7, 7]));
    assert!(matches!(receiver.poll(0, 10), Poll::Wait));
    assert!(matches!(receiver.poll(9, 10), Poll::Wait));
    assert!(matches!(receiver.poll(10, 10), Poll::TimedOut));
    assert!(matches!(receiver.poll(0, 0), Poll::TimedOut));
    assert_eq!(receiver.head(), 10);
}

#[test]
fn handles_report_the_channel() {
    let mut sender = Sender::create(40).unwrap();
    assert_eq!(sender.capacity(), 40);
    assert_eq!((sender.head(), sender.tail()), (0, 0));
    send(&mut sender, &[1, 2, 3, 4, 5]).unwrap();
    assert_eq!((sender.head(), sender.tail()), (0, 13));
    let band = sender.into_band();
    assert_eq!(band.capacity(), 40);
    assert_eq!(band.read(8, 5), vec![1, 2, 3, 4, 5]);
    assert_eq!(band.read(40 + 8, 5), vec![1, 2, 3, 4, 5]);
    let receiver = Receiver::new(band);
    assert_eq!((receiver.head(), receiver.tail()), (0, 13));
    assert_eq!(receiver.capacity(), 40);
}

#[test]
fn refusals_say_why() {
    let short = SharedMemory::open(vec![0u8; 15]).unwrap();
    assert_eq!(
        Sender::open(short).err(),
        Some(Error::System("segment is shorter than its header".to_string()))
    );
    let backwards = segment_with_counters(32, 9, 8);
    assert_eq!(
        Receiver::open(backwards).err(),
        Some(Error::System("segment counters are out of range".to_string()))
    );
    let torn = segment_with_counters(32, 0, 12);
    assert_eq!(
        Receiver::open(torn).err(),
        Some(Error::System("segment ends inside a frame".to_string()))
    );
    assert_eq!(
        grant(16, u64::MAX - 7, u64::MAX - 7, 0).err(),
        Some(Error::System("byte counter is exhausted".to_string()))
    );
}

#[test]
fn full_until_enough_frames_are_consumed() {
    // Three empty frames of 8 bytes fill a region of 24 bytes.
    let mut sender = Sender::create(24).unwrap();
    for _ in 0..3 {
        send(&mut sender, &[]).unwrap();
    }
    assert_eq!(sender.tail() - sender.head(), 24);
    assert_eq!(sender.reserve(1).unwrap_err(), Error::Full);
    // One frame consumed frees 8 bytes: one byte and its prefix need 9.
    let mut receiver = sender.into_receiver();
    assert_eq!(receiver.try_recv(), Some(vec![]));
    let mut sender = receiver.into_sender();
    assert_eq!(sender.reserve(1).unwrap_err(), Error::Full);
    // A second frame consumed frees 16.
    let mut receiver = sender.into_receiver();
    assert_eq!(receiver.try_recv(), Some(vec![]));
    let mut sender = receiver.into_sender();
    let reservation = sender.reserve(1).unwrap();
    assert_eq!((reservation.start(), reservation.len()), (24 + 8, 1));
    assert_eq!((sender.head(), sender.tail()), (16, 24));
}

#[test]
fn interleaved_run_matches_a_plain_queue() {
    let mut sender = Sender::create(37).unwrap();
    let mut queue: std::collections::VecDeque<Vec<u8>> = std::collections::VecDeque::new();
    let mut sent_bytes: u64 = 0;
    let mut received_bytes: u64 = 0;
    for round in 0..300usize {
        if round % 3 != 2 {
            let payload = pattern((round * 5) % 13, round as u8);
            match send(&mut sender, &payload) {
                Ok(()) => {
                    sent_bytes += 8 + payload.len() as u64;
                    queue.push_back(payload);
                }
                Err(e) => assert_eq!(e, Error::Full),
            }
        } else {
            let mut receiver = sender.into_receiver();
            let got = receiver.try_recv();
            if let Some(payload) = &got {
                received_bytes += 8 + payload.len() as u64;
            }
            assert_eq!(got, queue.pop_front());
            sender = receiver.into_sender();
        }
        assert_eq!(sender.tail(), sent_bytes);
        assert_eq!(sender.head(), received_bytes);
        assert_eq!(sender.capacity(), 37);
    }
    assert!(sender.tail() > 37 * 20);
    let shm = sender.into_band().into_shared_memory();
    assert_eq!(shm.len(), 37 + 16);
}

#[test]
fn granted_by_the_numbers() {
    let granted: Reservation = grant(32, 0, 10, 4).unwrap();
    assert!(granted.granted_by(32, 0, 10));
    assert!(granted.granted_by(32, 10, 10));
    assert!(!granted.granted_by(32, 0, 11));
    assert!(!granted.granted_by(32, 0, 9));
    assert!(!granted.granted_by(11, 0, 10));
    assert!(granted.granted_by(22, 0, 10));
    assert!(!granted.granted_by(21, 0, 10));
    let last = grant(32, u64::MAX - 12, u64::MAX - 12, 4).unwrap();
    assert!(last.granted_by(32, u64::MAX - 12, u64::MAX - 12));
    let mut sender = Sender::create(32).unwrap();
    assert!(!sender.holds(&last));
    let mine = sender.reserve(4).unwrap();
    assert!(mine.granted_by(32, 0, 0));
}
