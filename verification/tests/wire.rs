use shellkit::wire::{
    encode_message, encode_string, host_is_little_endian, is_well_framed, parse_messages, push_word,
    read_array, read_string, read_u32, ObjectId,
};

#[test]
fn host_order_matches_native_bytes() {
    let little = host_is_little_endian();
    let native = 0x0102_0304u32.to_ne_bytes();
    assert_eq!(little, native[0] == 4);
}

#[test]
fn push_word_both_orders() {
    let mut le = Vec::new();
    push_word(&mut le, 0x0102_0304, true);
    assert_eq!(le, vec![4, 3, 2, 1]);
    let mut be = Vec::new();
    push_word(&mut be, 0x0102_0304, false);
    assert_eq!(be, vec![1, 2, 3, 4]);
}

#[test]
fn encode_message_header_layout() {
    let mut buf = Vec::new();
    encode_message(&mut buf, 7, 3, &[0xaa, 0xbb, 0xcc, 0xdd], true);
    assert_eq!(buf, vec![7, 0, 0, 0, 3, 0, 12, 0, 0xaa, 0xbb, 0xcc, 0xdd]);
}

#[test]
fn message_roundtrip_native_order() {
    let little = host_is_little_endian();
    let mut buf = Vec::new();
    encode_message(&mut buf, 42, 1, &[1, 2, 3, 4, 5, 6, 7, 8], little);
    encode_message(&mut buf, 9, 0, &[], little);
    assert!(is_well_framed(&buf, little));
    let events = parse_messages(buf, little);
    assert_eq!(events.len(), 2);
    assert_eq!(events[0].object_id, ObjectId(42));
    assert_eq!(events[0].opcode, 1);
    assert_eq!(events[0].data, vec![1, 2, 3, 4, 5, 6, 7, 8]);
    assert_eq!(events[1].object_id, ObjectId(9));
    assert_eq!(events[1].opcode, 0);
    assert!(events[1].data.is_empty());
}

#[test]
fn partial_message_is_not_well_framed() {
    let mut buf = Vec::new();
    encode_message(&mut buf, 1, 0, &[0, 0, 0, 0], true);
    buf.pop();
    assert!(!is_well_framed(&buf, true));
    let short_header = vec![1u8, 0, 0, 0, 0, 0, 4, 0];
    assert!(!is_well_framed(&short_header, true));
    assert!(is_well_framed(&[], true));
}

#[test]
fn encode_string_pads_to_four() {
    let mut buf = Vec::new();
    encode_string(&mut buf, "abc", true);
    assert_eq!(buf, vec![4, 0, 0, 0, b'a', b'b', b'c', 0]);
    let mut buf2 = Vec::new();
    encode_string(&mut buf2, "wl_seat", true);
    assert_eq!(buf2.len(), 4 + 8);
    assert_eq!(&buf2[0..4], &[8, 0, 0, 0]);
    let mut buf3 = Vec::new();
    encode_string(&mut buf3, "abcd", true);
    assert_eq!(buf3, vec![5, 0, 0, 0, b'a', b'b', b'c', b'd', 0, 0, 0, 0]);
}

#[test]
fn string_roundtrip_and_offset() {
    let mut buf = Vec::new();
    encode_string(&mut buf, "wl_compositor", false);
    push_word(&mut buf, 6, false);
    let mut o = 0usize;
    let s = read_string(&buf, &mut o, false);
    assert_eq!(s.as_deref(), Some("wl_compositor"));
    assert_eq!(o, 4 + 16);
    assert_eq!(read_u32(&buf, &mut o, false), Some(6));
    assert_eq!(o, buf.len());
    assert_eq!(read_u32(&buf, &mut o, false), None);
    assert_eq!(o, buf.len());
}

#[test]
fn read_string_rejects_bad_input() {
    // zero length
    let mut o = 0usize;
    assert_eq!(read_string(&[0, 0, 0, 0], &mut o, true), None);
    assert_eq!(o, 0);
    // missing terminator
    let mut o = 0usize;
    assert_eq!(read_string(&[2, 0, 0, 0, b'a', b'b', 0, 0], &mut o, true), None);
    // runs past the end
    let mut o = 0usize;
    assert_eq!(read_string(&[9, 0, 0, 0, b'a', 0], &mut o, true), None);
    // not UTF-8
    let mut o = 0usize;
    assert_eq!(read_string(&[2, 0, 0, 0, 0xff, 0, 0, 0], &mut o, true), None);
    assert_eq!(o, 0);
}

#[test]
fn read_array_with_padding() {
    let data = vec![3u8, 0, 0, 0, 1, 2, 3, 0, 9, 0, 0, 0];
    let mut o = 0usize;
    assert_eq!(read_array(&data, &mut o, true), Some(vec![1, 2, 3]));
    assert_eq!(o, 8);
    let mut o2 = 0usize;
    assert_eq!(read_array(&[8, 0, 0, 0, 1, 2], &mut o2, true), None);
    assert_eq!(o2, 0);
}

use shellkit::conn::{IoCompletion, WriteQueue};

#[test]
fn write_queue_batches_one_write_at_a_time() {
    let mut q = WriteQueue::new(true);
    assert!(!q.submit_write());
    assert!(q.write_raw(3, 1, &[9, 0, 0, 0], &[]));
    assert_eq!(q.in_flight_bytes(), &[3, 0, 0, 0, 1, 0, 12, 0, 9, 0, 0, 0]);
    q.write_submitted(500);
    assert!(!q.write_raw(4, 0, &[], &[]));
    assert!(!q.write_raw(5, 2, &[], &[]));
    let (c, start) = q.on_completion(Some(400), 500, 12, Vec::new());
    assert!(matches!(c, IoCompletion::Write));
    assert!(start);
    assert_eq!(q.in_flight_bytes(), &[4, 0, 0, 0, 0, 0, 8, 0, 5, 0, 0, 0, 2, 0, 8, 0]);
    q.write_submitted(501);
    let (c, start) = q.on_completion(Some(400), 999, 1, Vec::new());
    assert!(matches!(c, IoCompletion::Unrelated));
    assert!(!start);
    let (c, start) = q.on_completion(Some(400), 501, 16, Vec::new());
    assert!(matches!(c, IoCompletion::Write));
    assert!(!start);
    assert!(q.in_flight_bytes().is_empty());
}

#[test]
fn descriptors_travel_with_their_batch() {
    let mut q = WriteQueue::new(true);
    assert!(q.write_raw(3, 1, &[], &[40]));
    assert_eq!(q.in_flight_fds_slice(), &[40]);
    q.write_submitted(500);
    assert!(!q.write_raw(4, 0, &[], &[41, 42]));
    assert!(!q.write_raw(5, 0, &[], &[]));
    assert_eq!(q.in_flight_fds_slice(), &[40]);
    let (_, start) = q.on_completion(None, 500, 8, Vec::new());
    assert!(start);
    assert_eq!(q.in_flight_fds_slice(), &[41, 42]);
    assert_eq!(q.in_flight_bytes().len(), 16);
    q.write_submitted(501);
    let (_, start) = q.on_completion(None, 501, 16, Vec::new());
    assert!(!start);
    assert!(q.in_flight_fds_slice().is_empty());
}

#[test]
fn read_completions() {
    let mut q = WriteQueue::new(true);
    let (c, _) = q.on_completion(Some(7), 7, 0, Vec::new());
    assert!(matches!(c, IoCompletion::Disconnect));
    let mut bytes = Vec::new();
    encode_message(&mut bytes, 1, 1, &[33, 0, 0, 0], true);
    let (c, start) = q.on_completion(Some(7), 7, 12, bytes);
    assert!(!start);
    match c {
        IoCompletion::Read(evs) => {
            assert_eq!(evs.len(), 1);
            assert_eq!(evs[0].object_id, ObjectId(1));
            assert_eq!(evs[0].data, vec![33, 0, 0, 0]);
        }
        _ => panic!("read expected"),
    }
}

#[test]
fn concatenated_streams_parse_as_both() {
    let mut a = Vec::new();
    encode_message(&mut a, 1, 2, &[1, 1, 1, 1], true);
    let mut b = Vec::new();
    encode_message(&mut b, 3, 4, &[], true);
    let mut ab = a.clone();
    ab.extend_from_slice(&b);
    let ea = parse_messages(a, true);
    let eb = parse_messages(b, true);
    let eab = parse_messages(ab, true);
    assert_eq!(eab.len(), ea.len() + eb.len());
    assert_eq!(eab[0].data, ea[0].data);
    assert_eq!(eab[1].object_id, eb[0].object_id);
    assert_eq!(eab[1].opcode, 4);
}
