use xp::packet::{frame_packet, packet_header, packet_length, unframe_packet};

#[test]
fn header_is_big_endian_length() {
    assert_eq!(packet_header(0), [0, 0, 0, 0]);
    assert_eq!(packet_header(258), [0, 0, 1, 2]);
    assert_eq!(packet_header(0x0102_0304), [1, 2, 3, 4]);
    assert_eq!(packet_length(&[0, 0, 1, 2]), 258);
    assert_eq!(packet_length(&[0xff, 0, 0, 1]), 0xff00_0001);
}

#[test]
fn frame_puts_length_before_payload() {
    assert_eq!(frame_packet(&[9, 8, 7]), vec![0, 0, 0, 3, 9, 8, 7]);
    assert_eq!(frame_packet(&[]), vec![0, 0, 0, 0]);
}

#[test]
fn unframe_reads_back_what_frame_wrote() {
    let payload: Vec<u8> = (0..300u32).map(|i| (i % 251) as u8).collect();
    let mut bytes = frame_packet(&payload);
    bytes.extend_from_slice(&[42, 43]);
    let (read, used) = unframe_packet(&bytes).unwrap();
    assert_eq!(read, payload);
    assert_eq!(used, 304);
    assert_eq!(unframe_packet(&bytes[used..]), None);
}

#[test]
fn unframe_waits_for_complete_packets() {
    assert_eq!(unframe_packet(&[0, 0, 0]), None);
    assert_eq!(unframe_packet(&[0, 0, 0, 2, 5]), None);
    assert_eq!(unframe_packet(&[0, 0, 0, 2, 5, 6]), Some((vec![5, 6], 6)));
    assert_eq!(unframe_packet(&[0, 0, 0, 0]), Some((vec![], 4)));
}
