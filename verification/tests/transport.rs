use xhandshake::sock::{
    drain_step, AwaitStep, DescriptorRegistry, ReadStep, ReleaseOutcome, SockError, Socket,
};

fn fresh_socket() -> (DescriptorRegistry, Socket) {
    let mut reg = DescriptorRegistry::new();
    let sock = Socket::attach(&mut reg, 42);
    (reg, sock)
}

#[test]
fn new_handle_starts_empty() {
    let (_reg, sock) = fresh_socket();
    assert_eq!(sock.len_read_buf(), 0);
    assert_eq!(sock.len_write_buf(), 0);
    assert_eq!(sock.len_incoming(), 0);
    assert_eq!(sock.len_outgoing(), 0);
    assert!(sock.is_open());
    assert_eq!(sock.raw_descriptor(), 42);
}

#[test]
fn validate_path_len_enforces_capacity() {
    assert!(Socket::validate_path_len(0).is_ok());
    assert!(Socket::validate_path_len(107).is_ok());
    assert!(matches!(
        Socket::validate_path_len(108),
        Err(SockError::PathTooLong)
    ));
    assert!(matches!(
        Socket::validate_path_len(500),
        Err(SockError::PathTooLong)
    ));
}

#[test]
fn write_all_accumulates() {
    let (_reg, mut sock) = fresh_socket();
    sock.write_all(vec![1, 2, 3]).unwrap();
    sock.write_all(vec![4]).unwrap();
    assert_eq!(sock.len_write_buf(), 4);
    sock.flush_all().unwrap();
    assert_eq!(sock.len_write_buf(), 0);
    assert_eq!(sock.take_outgoing(), vec![1, 2, 3, 4]);
}

#[test]
fn write_discard_bytes_queues_zeroes() {
    let (_reg, mut sock) = fresh_socket();
    sock.write_discard_bytes(3).unwrap();
    sock.flush_all().unwrap();
    assert_eq!(sock.take_outgoing(), vec![0, 0, 0]);
}

#[test]
fn write_serializable_encodes_little_endian() {
    let (_reg, mut sock) = fresh_socket();
    sock.write_serializable(0x1234u16).unwrap();
    sock.flush_all().unwrap();
    assert_eq!(sock.take_outgoing(), vec![0x34, 0x12]);
}

#[test]
fn write_pad_returns_the_padding_formula() {
    let (_reg, mut sock) = fresh_socket();
    // Empty buffer is already aligned: no padding for any modulus.
    assert_eq!(sock.write_pad(4).unwrap(), 0);
    sock.write_all(vec![9]).unwrap();
    // One byte: (4 - 1 % 4) % 4 == 3.
    assert_eq!(sock.write_pad(4).unwrap(), 3);
    assert_eq!(sock.len_write_buf(), 4);
    sock.write_all(vec![8, 7]).unwrap();
    // Six bytes: (4 - 6 % 4) % 4 == 2.
    assert_eq!(sock.write_pad(4).unwrap(), 2);
    assert_eq!(sock.len_write_buf(), 8);
    // Modulus one never pads.
    assert_eq!(sock.write_pad(1).unwrap(), 0);
}

#[test]
fn pad_then_flush_transmits_a_multiple() {
    for prior in 0..9usize {
        for m in 1..6usize {
            let (_reg, mut sock) = fresh_socket();
            sock.write_discard_bytes(prior).unwrap();
            let added = sock.write_pad(m).unwrap();
            assert_eq!(added, (m - prior % m) % m);
            sock.flush_all().unwrap();
            let sent = sock.take_outgoing();
            assert_eq!(sent.len() % m, 0);
            assert_eq!(sent.len(), prior + added);
        }
    }
}

#[test]
fn read_bytes_consumes_delivered_bytes() {
    let (_reg, mut sock) = fresh_socket();
    sock.deliver(&[10, 20, 30, 40]);
    let got = sock.read_bytes(3).unwrap();
    assert_eq!(got, vec![10, 20, 30]);
    assert_eq!(sock.len_incoming(), 1);
    assert_eq!(sock.len_read_buf(), 3);
    assert_eq!(sock.read_bytes(1).unwrap(), vec![40]);
    assert_eq!(sock.len_read_buf(), 4);
}

#[test]
fn read_bytes_short_delivery_times_out_when_retrying() {
    // With retrying enabled (the default) a shortfall means the wait for
    // the rest ran out: the timeout condition, and the delivered bytes
    // stay queued.
    let (_reg, mut sock) = fresh_socket();
    sock.deliver(&[1, 2]);
    assert!(matches!(sock.read_bytes(3), Err(SockError::TimedOutRead)));
    assert_eq!(sock.len_incoming(), 2);
    assert_eq!(sock.len_read_buf(), 0);
}

#[test]
fn read_bytes_short_delivery_without_retry_is_incomplete() {
    // With retrying disabled the short read is legitimate: whatever
    // arrived is surrendered into the read accumulation buffer, and the
    // logical read reports it was incomplete.
    let (_reg, mut sock) = fresh_socket();
    sock.set_retry(false);
    sock.deliver(&[1, 2]);
    assert!(matches!(sock.read_bytes(3), Err(SockError::IncompleteRead)));
    assert_eq!(sock.len_incoming(), 0);
    assert_eq!(sock.len_read_buf(), 2);
}

#[test]
fn read_serializable_decodes() {
    let (_reg, mut sock) = fresh_socket();
    sock.deliver(&[0x34, 0x12, 0xff]);
    let v: u16 = sock.read_serializable(2).unwrap();
    assert_eq!(v, 0x1234);
    let b: u8 = sock.read_serializable(1).unwrap();
    assert_eq!(b, 0xff);
}

#[test]
fn read_serializable_string_widens_bytes() {
    let (_reg, mut sock) = fresh_socket();
    sock.deliver(&[104, 105, 33, 0xff]);
    let s: String = sock.read_serializable(3).unwrap();
    assert_eq!(s, "hi!");
}

#[test]
fn deliver_keeps_chunk_order() {
    let (_reg, mut sock) = fresh_socket();
    sock.deliver(&[1]);
    sock.deliver(&[2, 3]);
    sock.deliver(&[]);
    sock.deliver(&[4]);
    assert_eq!(sock.read_bytes(4).unwrap(), vec![1, 2, 3, 4]);
}

#[test]
fn read_bytes_raw_returns_an_array() {
    let (_reg, mut sock) = fresh_socket();
    sock.deliver(&[5, 6, 7, 8]);
    let arr: [u8; 3] = sock.read_bytes_raw().unwrap();
    assert_eq!(arr, [5, 6, 7]);
    let missing: Result<[u8; 3], SockError> = sock.read_bytes_raw();
    assert!(matches!(missing, Err(SockError::TimedOutRead)));
}

#[test]
fn read_pad_discards_to_alignment() {
    let (_reg, mut sock) = fresh_socket();
    sock.deliver(&[1, 2, 3, 4, 5, 6, 7, 8]);
    sock.read_bytes(5).unwrap();
    assert_eq!(sock.len_read_buf(), 5);
    // Five bytes accumulated: three more bytes reach the next multiple of
    // four; the accumulation buffer is cleared first.
    assert_eq!(sock.read_pad(4).unwrap(), 3);
    assert_eq!(sock.len_read_buf(), 3);
    assert_eq!(sock.len_incoming(), 0);
}

#[test]
fn released_handle_refuses_io() {
    let (mut reg, mut sock) = fresh_socket();
    sock.deliver(&[1, 2, 3]);
    assert!(matches!(sock.release(&mut reg), ReleaseOutcome::CloseNow(42)));
    assert!(!sock.is_open());
    assert!(matches!(
        sock.read_bytes(1),
        Err(SockError::DescriptorReleased)
    ));
    assert!(matches!(sock.flush_all(), Err(SockError::DescriptorReleased)));
    assert!(matches!(sock.read_step(1, 0), ReadStep::Closed));
}

#[test]
fn read_step_completes_from_small_chunks() {
    // A peer delivering one byte at a time, retrying enabled, sleep zero,
    // timeout large enough: the read eventually returns exactly n bytes,
    // in order.
    let (_reg, mut sock) = fresh_socket();
    sock.set_retry(true);
    sock.set_retry_frequency(0);
    sock.set_retry_timeout(u32::MAX);
    let wanted = 5usize;
    let mut next = 1u8;
    loop {
        match sock.read_step(wanted, 0) {
            ReadStep::Complete(bytes) => {
                assert_eq!(bytes, vec![1, 2, 3, 4, 5]);
                break;
            }
            ReadStep::Wait(sleep_nanos) => {
                assert_eq!(sleep_nanos, 0);
                sock.deliver(&[next]);
                next += 1;
            }
            other => panic!("unexpected read step: {:?}", other),
        }
        assert!(next < 10, "read did not complete");
    }
    assert_eq!(sock.len_incoming(), 0);
    assert_eq!(sock.len_read_buf(), 5);
}

#[test]
fn read_step_times_out_but_not_immediately() {
    // A peer delivering strictly fewer than n bytes and then stopping,
    // with a short timeout: the read waits while the clock is inside the
    // window and fails with the timeout once it is past.
    let (_reg, mut sock) = fresh_socket();
    sock.set_retry(true);
    sock.set_retry_timeout(1000);
    sock.deliver(&[1, 2]);
    assert!(matches!(sock.read_step(5, 0), ReadStep::Wait(_)));
    assert!(matches!(sock.read_step(5, 1000), ReadStep::Wait(_)));
    assert!(matches!(sock.read_step(5, 1001), ReadStep::TimedOut));
    // The delivered bytes were not dropped by waiting or timing out.
    assert_eq!(sock.len_incoming(), 2);
}

#[test]
fn read_step_without_retry_returns_short() {
    let (_reg, mut sock) = fresh_socket();
    sock.set_retry(false);
    sock.deliver(&[9, 8]);
    match sock.read_step(5, 0) {
        ReadStep::Short(bytes) => assert_eq!(bytes, vec![9, 8]),
        other => panic!("unexpected read step: {:?}", other),
    }
    assert_eq!(sock.len_incoming(), 0);
}

#[test]
fn await_step_follows_the_retry_policy_without_consuming() {
    let (mut reg, mut sock) = fresh_socket();
    sock.set_retry_timeout(1000);
    sock.deliver(&[1, 2]);
    assert!(matches!(sock.await_step(2, 0), AwaitStep::Proceed));
    assert!(matches!(sock.await_step(5, 0), AwaitStep::Wait(0)));
    assert!(matches!(sock.await_step(5, 1001), AwaitStep::TimedOut));
    // Waiting consumed nothing.
    assert_eq!(sock.len_incoming(), 2);
    // Without retrying the parse proceeds on what is there.
    sock.set_retry(false);
    assert!(matches!(sock.await_step(5, 0), AwaitStep::Proceed));
    let _ = sock.release(&mut reg);
    assert!(matches!(sock.await_step(1, 0), AwaitStep::Closed));
}

#[test]
fn drain_step_ends_on_a_short_probe() {
    assert!(drain_step(16384, 100));
    assert!(drain_step(1, 0));
    assert!(!drain_step(16384, 16384));
}

#[test]
fn clone_shares_descriptor_but_not_buffers() {
    let (mut reg, mut sock) = fresh_socket();
    sock.write_all(vec![1]).unwrap();
    sock.deliver(&[2]);
    let clone = sock.clone_handle(&mut reg);
    assert_eq!(clone.raw_descriptor(), 42);
    assert_eq!(clone.len_write_buf(), 0);
    assert_eq!(clone.len_incoming(), 0);
    assert_eq!(sock.len_write_buf(), 1);
}

#[test]
fn destroying_all_handles_closes_exactly_once() {
    // N clones plus the original: all N+1 destructions together perform
    // exactly one close, whatever the order.
    let n = 3usize;
    let (mut reg, sock) = fresh_socket();
    let mut handles = vec![sock];
    for _ in 0..n {
        let c = handles[0].clone_handle(&mut reg);
        handles.push(c);
    }
    // Mixed destruction order: 2, 0, 3, 1.
    let order = [2usize, 0, 3, 1];
    let mut closes = 0;
    for (step, &i) in order.iter().enumerate() {
        match handles[i].release(&mut reg) {
            ReleaseOutcome::CloseNow(fd) => {
                assert_eq!(fd, 42);
                closes += 1;
                assert_eq!(step, n, "close must come from the last destruction");
            }
            ReleaseOutcome::StillShared => assert!(step < n),
            ReleaseOutcome::AlreadyReleased => panic!("handle released twice"),
        }
    }
    assert_eq!(closes, 1);
    // A handle released again reports it and performs no second close.
    assert!(matches!(
        handles[0].release(&mut reg),
        ReleaseOutcome::AlreadyReleased
    ));
}

#[test]
fn destroying_fewer_than_all_handles_never_closes() {
    let n = 3usize;
    let (mut reg, sock) = fresh_socket();
    let mut handles = vec![sock];
    for _ in 0..n {
        let c = handles[0].clone_handle(&mut reg);
        handles.push(c);
    }
    for i in 1..=n {
        assert!(matches!(
            handles[i].release(&mut reg),
            ReleaseOutcome::StillShared
        ));
    }
}
