use quadcontrol::mjpeg::{
    check_frame_length, content_length, content_type_boundary, finish_scanned_frame, header_value,
    is_boundary_line, FrameSlot, MAX_FRAME_BYTES,
};

#[test]
fn a_new_writer_gets_the_current_frame_at_once() {
    let mut slot = FrameSlot::new();
    assert_eq!(slot.take(0), None);
    slot.publish(true);
    assert_eq!(slot.take(0), Some(1));
    assert_eq!(slot.take(1), None);
}

#[test]
fn drops_count_only_unread_frames_with_a_reader_connected() {
    let mut slot = FrameSlot::new();
    slot.publish(false);
    slot.publish(false);
    assert_eq!(slot.drops, 0);
    slot.publish(true);
    assert_eq!(slot.drops, 1);
    assert_eq!(slot.take(0), Some(3));
    slot.publish(true);
    assert_eq!(slot.drops, 1);
    assert_eq!(slot.seq, 4);
}

#[test]
fn multipart_headers_are_read() {
    assert_eq!(
        header_value("Content-Type: multipart/x-mixed-replace; boundary=--BoundaryString\r\n", "content-type"),
        Some("multipart/x-mixed-replace; boundary=--BoundaryString".to_owned())
    );
    assert_eq!(header_value("content-length:  42 ", "Content-Length"), Some("42".to_owned()));
    assert_eq!(header_value("no colon here", "content-length"), None);
    assert_eq!(
        content_type_boundary("multipart/x-mixed-replace; boundary=--BoundaryString").unwrap(),
        "BoundaryString"
    );
    assert_eq!(
        content_type_boundary("multipart/x-mixed-replace;boundary=\"abc\"").unwrap(),
        "abc"
    );
    assert_eq!(
        content_type_boundary("image/jpeg").unwrap_err(),
        "MJPEG upstream Content-Type has no boundary: image/jpeg"
    );
}

#[test]
fn boundary_lines_and_frame_limits() {
    assert!(is_boundary_line("--BoundaryString\r\n", "BoundaryString"));
    assert!(is_boundary_line("--BoundaryString--\r\n", "BoundaryString"));
    assert!(!is_boundary_line("BoundaryString\r\n", "BoundaryString"));
    assert!(check_frame_length(MAX_FRAME_BYTES).is_ok());
    assert_eq!(
        check_frame_length(MAX_FRAME_BYTES + 1).unwrap_err(),
        "MJPEG frame of 4194305 bytes exceeds the 4194304 byte limit"
    );
    let mut frame = b"JPEGDATA\r\n--b".to_vec();
    finish_scanned_frame(&mut frame, 3);
    assert_eq!(frame, b"JPEGDATA");
}

#[test]
fn content_length_reads_an_unsigned_number() {
    assert_eq!(content_length("1234"), Some(1234));
    assert_eq!(content_length("  42 "), Some(42));
    assert_eq!(content_length("+7"), Some(7));
    assert_eq!(content_length("-1"), None);
    assert_eq!(content_length("12a"), None);
    assert_eq!(content_length(""), None);
    assert_eq!(content_length("99999999999999999999999"), None);
}

#[test]
fn one_writer_keeping_up_prevents_drops_and_drops_stay_below_frames() {
    let mut slot = FrameSlot::new();
    for _ in 0..5 {
        slot.publish(true);
        assert!(slot.drops < slot.seq);
    }
    assert_eq!(slot.drops, 4);
    let got = slot.take(2);
    assert_eq!(got, Some(5));
    assert_eq!(slot.take(5), None);
    slot.publish(true);
    assert_eq!(slot.drops, 4);
    assert_eq!(slot.seq, 6);
}
