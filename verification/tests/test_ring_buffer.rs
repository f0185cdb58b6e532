//! Tests of the sample ring buffer.
use dap_sampler::pipeline::ring_buffer::RingBuffer;
use dap_sampler::pipeline::sample::Sample;

fn make_sample(seq: u64, val: u32) -> Sample {
    Sample { seq, timestamp_ns: seq * 1_000_000, values: vec![val] }
}

#[test]
fn new_buffer_is_empty() {
    let rb = RingBuffer::new(1024);
    assert_eq!(rb.available(), 0);
    assert_eq!(rb.total_written(), 0);
}

#[test]
fn new_buffer_large_capacity() {
    let rb = RingBuffer::new(200_000);
    assert_eq!(rb.available(), 0);
    assert_eq!(rb.total_written(), 0);
}

#[test]
fn push_then_pop_single() {
    let mut rb = RingBuffer::new(8);
    rb.push(make_sample(0, 0xAA));

    let mut buf = vec![make_sample(0, 0); 4];
    let n = rb.pop_batch(&mut buf);

    assert_eq!(n, 1);
    assert_eq!(buf[0].seq, 0);
    assert_eq!(buf[0].values[0], 0xAA);
}

#[test]
fn push_multiple_pop_all() {
    let mut rb = RingBuffer::new(8);
    for i in 0..5 {
        rb.push(make_sample(i, i as u32 * 10));
    }

    let mut buf = vec![make_sample(0, 0); 8];
    let n = rb.pop_batch(&mut buf);

    assert_eq!(n, 5);
    for i in 0..5 {
        assert_eq!(buf[i].seq, i as u64);
        assert_eq!(buf[i].values[0], i as u32 * 10);
    }
}

#[test]
fn pop_empty_returns_zero() {
    let mut rb = RingBuffer::new(8);
    let mut buf = vec![make_sample(0, 0); 4];
    let n = rb.pop_batch(&mut buf);
    assert_eq!(n, 0);
}

#[test]
fn pop_batch_with_small_buf() {
    let mut rb = RingBuffer::new(8);
    for i in 0..10 {
        rb.push(make_sample(i, i as u32));
    }

    let mut buf = vec![make_sample(0, 0); 3];
    let n = rb.pop_batch(&mut buf);
    assert_eq!(n, 3);
    assert_eq!(rb.available(), 5);
}

#[test]
fn wrap_around_discards_new_when_full() {
    let mut rb = RingBuffer::new(4);

    for i in 0..4 {
        rb.push(make_sample(i, i as u32));
    }

    rb.push(make_sample(4, 100));
    rb.push(make_sample(5, 200));

    assert_eq!(rb.available(), 4);

    let mut buf = vec![make_sample(0, 0); 8];
    let n = rb.pop_batch(&mut buf);

    assert_eq!(n, 4);
    let mut seqs: Vec<u64> = buf[..n].iter().map(|s| s.seq).collect();
    seqs.sort();
    assert_eq!(seqs, vec![0, 1, 2, 3]);
}

#[test]
fn available_after_wrap() {
    let mut rb = RingBuffer::new(4);
    for i in 0..6 {
        rb.push(make_sample(i, i as u32));
    }
    assert_eq!(rb.available(), 4);
}

#[test]
fn total_written_tracks_successful_pushes() {
    let mut rb = RingBuffer::new(16);
    for i in 0..42 {
        rb.push(make_sample(i, i as u32));
    }
    assert_eq!(rb.total_written(), 16);
}

#[test]
fn available_decreases_after_pop() {
    let mut rb = RingBuffer::new(16);
    for i in 0..8 {
        rb.push(make_sample(i, i as u32));
    }
    assert_eq!(rb.available(), 8);

    let mut buf = vec![make_sample(0, 0); 4];
    let n = rb.pop_batch(&mut buf);
    assert_eq!(n, 4);
    assert_eq!(rb.available(), 4);

    let n = rb.pop_batch(&mut buf);
    assert_eq!(n, 4);
    assert_eq!(rb.available(), 0);
}

#[test]
fn alternating_push_pop() {
    let mut rb = RingBuffer::new(32);

    for i in 0..5 {
        rb.push(make_sample(i, i as u32));
    }
    let mut small_buf = vec![make_sample(0, 0); 3];
    let n = rb.pop_batch(&mut small_buf);
    assert_eq!(n, 3);
    assert_eq!(small_buf[0].seq, 0);
    assert_eq!(small_buf[1].seq, 1);
    assert_eq!(small_buf[2].seq, 2);
    assert_eq!(rb.available(), 2);

    for i in 5..10 {
        rb.push(make_sample(i, i as u32));
    }
    let mut buf = vec![make_sample(0, 0); 8];
    let n = rb.pop_batch(&mut buf);
    assert_eq!(n, 7);
    assert_eq!(rb.available(), 0);
    let seqs: Vec<u64> = buf[..n].iter().map(|s| s.seq).collect();
    assert_eq!(seqs, vec![3, 4, 5, 6, 7, 8, 9]);
}

#[test]
fn stress_large_volume() {
    let mut rb = RingBuffer::new(1024);
    for i in 0..10_000u64 {
        rb.push(make_sample(i, i as u32));
    }
    assert_eq!(rb.available(), 1024);
    assert_eq!(rb.total_written(), 1024);

    let mut buf = vec![make_sample(0, 0); 1024];
    let n = rb.pop_batch(&mut buf);
    assert_eq!(n, 1024);

    let mut found: Vec<u32> = buf[..n].iter().map(|s| s.values[0]).collect();
    found.sort();
    let expected: Vec<u32> = (0u32..1024).collect();
    assert_eq!(found, expected);
}

#[test]
fn multi_value_sample_roundtrip() {
    let mut rb = RingBuffer::new(8);
    let sample = Sample { seq: 42, timestamp_ns: 42_000_000, values: vec![0x11111111, 0x22222222, 0x33333333, 0x44444444] };
    rb.push(sample);

    let mut buf = vec![make_sample(0, 0); 4];
    let n = rb.pop_batch(&mut buf);
    assert_eq!(n, 1);
    assert_eq!(buf[0].seq, 42);
    assert_eq!(buf[0].values.len(), 4);
    assert_eq!(buf[0].values, vec![0x11111111, 0x22222222, 0x33333333, 0x44444444]);
}

#[test]
fn capacity_zero_discards_everything() {
    let mut rb = RingBuffer::new(0);
    rb.push(make_sample(0, 1));
    assert_eq!(rb.available(), 0);
    assert_eq!(rb.total_written(), 0);
    let mut buf = vec![make_sample(9, 9); 2];
    assert_eq!(rb.pop_batch(&mut buf), 0);
    assert_eq!(buf[0].seq, 9);
}

#[test]
fn wrap_around_keeps_order_after_slots_reused() {
    let mut rb = RingBuffer::new(4);
    let mut buf = vec![make_sample(0, 0); 3];
    for i in 0..3 {
        rb.push(make_sample(i, i as u32));
    }
    assert_eq!(rb.pop_batch(&mut buf), 3);
    for i in 3..7 {
        rb.push(make_sample(i, i as u32));
    }
    let mut all = vec![make_sample(0, 0); 8];
    assert_eq!(rb.pop_batch(&mut all), 4);
    let seqs: Vec<u64> = all[..4].iter().map(|s| s.seq).collect();
    assert_eq!(seqs, vec![3, 4, 5, 6]);
}

#[test]
fn available_is_accepted_less_handed_out() {
    let mut rb = RingBuffer::new(16);
    for i in 0..8 {
        rb.push(make_sample(i, i as u32));
    }
    let mut buf: Vec<Sample> = (0..4).map(|_| make_sample(0, 0)).collect();
    assert_eq!(rb.pop_batch(&mut buf), 4);
    assert_eq!(rb.available(), 4);
    assert_eq!(rb.pop_batch(&mut buf), 4);
    assert_eq!(rb.available(), 0);
    for i in 0..20 {
        rb.push(make_sample(i, i as u32));
    }
    assert_eq!(rb.available(), 16);
}
