//! Tests of the display buffer, the cursors and the type names.
use dap_sampler::pipeline::sample::{Sample, ValueType};
use dap_sampler::ui::cursor::CursorState;
use dap_sampler::ui::display_buffer::DisplayBuffer;

fn make_sample(seq: u64, val: u32) -> Sample {
    Sample { seq, timestamp_ns: seq * 1_000_000, values: vec![val] }
}

#[test]
fn display_buffer_push_and_slice() {
    let mut buf = DisplayBuffer::new(1000);
    let samples: Vec<Sample> = (0..100).map(|i| make_sample(i, i as u32)).collect();
    buf.push_batch(&samples);

    assert_eq!(buf.len(), 100);
    assert!(!buf.is_empty());

    let slice = buf.slice(50, 60);
    assert_eq!(slice.len(), 10);
    assert_eq!(slice[0].seq, 50);
    assert_eq!(slice[9].seq, 59);
}

#[test]
fn display_buffer_overflow_drops_oldest() {
    let mut buf = DisplayBuffer::new(50);
    let samples: Vec<Sample> = (0..100).map(|i| make_sample(i, i as u32)).collect();
    buf.push_batch(&samples);

    assert_eq!(buf.len(), 50);
    assert_eq!(buf.oldest_seq(), 50);
    assert_eq!(buf.next_seq(), 100);
}

#[test]
fn display_buffer_empty() {
    let buf = DisplayBuffer::new(100);
    assert!(buf.is_empty());
    assert_eq!(buf.len(), 0);
    assert_eq!(buf.slice(0, 10).len(), 0);
}

#[test]
fn display_buffer_slice_out_of_range() {
    let mut buf = DisplayBuffer::new(100);
    let samples: Vec<Sample> = (0..10).map(|i| make_sample(i, i as u32)).collect();
    buf.push_batch(&samples);

    assert_eq!(buf.slice(100, 110).len(), 0);
    assert_eq!(buf.slice(5, 5).len(), 0);
}

#[test]
fn display_buffer_all() {
    let mut buf = DisplayBuffer::new(100);
    let samples: Vec<Sample> = (0..10).map(|i| make_sample(i, i as u32)).collect();
    buf.push_batch(&samples);

    let all = buf.all();
    assert_eq!(all.len(), 10);
    assert_eq!(all[0].seq, 0);
    assert_eq!(all[9].seq, 9);
}

#[test]
fn display_buffer_push_batch_exact_overflow() {
    let mut buf = DisplayBuffer::new(10);
    let s1: Vec<Sample> = (0..8).map(|i| make_sample(i, i as u32)).collect();
    buf.push_batch(&s1);
    assert_eq!(buf.len(), 8);

    let s2: Vec<Sample> = (8..13).map(|i| make_sample(i, i as u32)).collect();
    buf.push_batch(&s2);
    assert_eq!(buf.len(), 10);
    assert_eq!(buf.oldest_seq(), 3);
    assert_eq!(buf.next_seq(), 13);
}

#[test]
fn display_buffer_slice_clips_to_held_range() {
    let mut buf = DisplayBuffer::new(10);
    let samples: Vec<Sample> = (0..30).map(|i| make_sample(i, i as u32)).collect();
    buf.push_batch(&samples);
    let s = buf.slice(15, 25);
    assert_eq!(s.len(), 5);
    assert_eq!(s[0].seq, 20);
    assert_eq!(s[4].seq, 24);
    assert_eq!(buf.slice(0, 20).len(), 0);
    assert_eq!(buf.slice(28, 100).len(), 2);
}

#[test]
fn cursor_click_cycle() {
    let mut c = CursorState::new();
    assert!(c.cursor1.is_none());
    assert!(c.cursor2.is_none());

    c.click(100);
    assert_eq!(c.cursor1, Some(100));
    assert!(c.cursor2.is_none());

    c.click(200);
    assert_eq!(c.cursor1, Some(100));
    assert_eq!(c.cursor2, Some(200));

    c.click(300);
    assert_eq!(c.cursor1, Some(300));
    assert!(c.cursor2.is_none());

    c.clear();
    assert!(c.cursor1.is_none());
    assert!(c.cursor2.is_none());
}

#[test]
fn cursor_indexes_follow_buffer_offset() {
    let c = CursorState { cursor1: Some(55), cursor2: Some(100) };
    assert_eq!(c.cursor1_index(10, 50), Some(5));
    assert_eq!(c.cursor2_index(10, 50), None);
    assert_eq!(c.cursor1_index(10, 60), None);
    let none = CursorState::new();
    assert_eq!(none.cursor1_index(10, 0), None);
}

#[test]
fn value_type_parse() {
    assert_eq!(ValueType::parse("float").unwrap(), ValueType::Float);
    assert_eq!(ValueType::parse("FLOAT").unwrap(), ValueType::Float);
    assert_eq!(ValueType::parse("f32").unwrap(), ValueType::Float);
    assert_eq!(ValueType::parse("int32").unwrap(), ValueType::Int32);
    assert_eq!(ValueType::parse("uint32").unwrap(), ValueType::Uint32);
    assert_eq!(ValueType::parse("i16").unwrap(), ValueType::Int16);
    assert_eq!(ValueType::parse("u8").unwrap(), ValueType::Uint8);
    assert!(ValueType::parse("unknown").is_err());
}

#[test]
fn value_type_parse_error_message_and_labels() {
    let e = ValueType::parse("double").unwrap_err();
    assert_eq!(e, "未知类型: double（支持: float, int32, uint32, int16, uint16, int8, uint8）");
    assert_eq!(ValueType::parse("Uint16").unwrap().label(), "uint16");
    assert_eq!(ValueType::parse("I8").unwrap().label(), "int8");
    assert_eq!(ValueType::Float.label(), "float");
}
