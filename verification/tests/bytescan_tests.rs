use h264_parser::bytescan::{NalSpan, StartCodeScanner};

#[test]
fn test_find_start_codes() {
    let mut scanner = StartCodeScanner::new();
    scanner.push(&[0x00, 0x00, 0x01, 0x42, 0x00, 0x00, 0x00, 0x01, 0x43]);

    let nal1 = scanner.next_nal_unit().unwrap().unwrap();
    assert_eq!(nal1.start_code_len, 3);
    assert_eq!(scanner.get_nal_data(&nal1), &[0x42]);

    let nal2 = scanner.next_nal_unit().unwrap().unwrap();
    assert_eq!(nal2.start_code_len, 4);
    assert_eq!(scanner.get_nal_data(&nal2), &[0x43]);
}

#[test]
fn test_streaming() {
    let mut scanner = StartCodeScanner::new();

    scanner.push(&[0x00, 0x00]);
    assert!(scanner.next_nal_unit().unwrap().is_none());

    scanner.push(&[0x01, 0x42, 0x00]);
    let nal = scanner.next_nal_unit().unwrap();
    assert!(nal.is_some());

    scanner.push(&[0x00, 0x01, 0x43]);
    let nal = scanner.next_nal_unit().unwrap().unwrap();
    assert_eq!(scanner.get_nal_data(&nal), &[0x43]);
}

#[test]
fn find_next_start_code_reports_place_and_length() {
    let mut scanner = StartCodeScanner::new();
    scanner.push(&[0xaa, 0x00, 0x00, 0x01, 0xbb, 0x00, 0x00, 0x00, 0x01, 0xcc, 0x00, 0x00]);
    assert_eq!(scanner.find_next_start_code(), Some((1, 3)));
    assert_eq!(scanner.find_next_start_code(), Some((5, 4)));
    assert_eq!(scanner.find_next_start_code(), None);
    assert_eq!(scanner.find_next_start_code(), None);
    // The two zeros at the end can still begin a start code.
    scanner.push(&[0x01, 0xdd]);
    assert_eq!(scanner.find_next_start_code(), Some((10, 3)));
}

#[test]
fn a_four_byte_start_code_split_over_pushes_is_found_whole() {
    let mut scanner = StartCodeScanner::new();
    scanner.push(&[0x00, 0x00, 0x00]);
    assert_eq!(scanner.find_next_start_code(), None);
    scanner.push(&[0x01, 0x43]);
    assert_eq!(scanner.find_next_start_code(), Some((0, 4)));
    assert_eq!(scanner.find_next_start_code(), None);

    // The same behind other bytes, and with a scan after every byte.
    let stream = [0xaa, 0xbb, 0x00, 0x00, 0x00, 0x01, 0x43];
    let mut scanner = StartCodeScanner::new();
    for byte in &stream[..5] {
        scanner.push(&[*byte]);
        assert_eq!(scanner.find_next_start_code(), None);
    }
    scanner.push(&stream[5..6]);
    assert_eq!(scanner.find_next_start_code(), Some((2, 4)));

    // Pulls of units in between scans.
    let mut scanner = StartCodeScanner::new();
    scanner.push(&[0x00, 0x00, 0x00]);
    assert!(scanner.next_nal_unit().unwrap().is_none());
    scanner.push(&[0x01, 0x43]);
    let unit = scanner.next_nal_unit().unwrap().unwrap();
    assert_eq!((unit.start_pos, unit.start_code_len), (0, 4));
    assert_eq!(scanner.get_nal_data(&unit), &[0x43]);
}

#[test]
fn scans_between_pushes_change_no_start_code() {
    let stream: Vec<u8> = vec![
        0x11, 0x00, 0x00, 0x00, 0x01, 0x67, 0x00, 0x00, 0x00, 0x00, 0x01, 0x68, 0x00, 0x00, 0x01,
        0x65, 0x00, 0x00, 0x00, 0x00, 0x00, 0x01, 0x41, 0x00, 0x00,
    ];
    let mut whole = StartCodeScanner::new();
    whole.push(&stream);
    let mut expected = Vec::new();
    while let Some(found) = whole.find_next_start_code() {
        expected.push(found);
    }
    assert_eq!(expected, vec![(1, 4), (7, 4), (12, 3), (18, 4)]);
    for size in 1..=stream.len() {
        let mut pieces = StartCodeScanner::new();
        let mut found = Vec::new();
        for chunk in stream.chunks(size) {
            pieces.push(chunk);
            while let Some(code) = pieces.find_next_start_code() {
                found.push(code);
            }
        }
        assert_eq!(found, expected, "chunks of {}", size);
    }
}

#[test]
fn a_three_byte_start_code_at_the_end_is_found() {
    let mut scanner = StartCodeScanner::new();
    scanner.push(&[0x42, 0x00, 0x00, 0x01]);
    assert_eq!(scanner.find_next_start_code(), Some((1, 3)));
    let mut scanner = StartCodeScanner::new();
    scanner.push(&[0x00, 0x00, 0x01]);
    assert_eq!(scanner.find_next_start_code(), Some((0, 3)));
    // Four zeros and a one: the first zero is not part of the start code.
    let mut scanner = StartCodeScanner::new();
    scanner.push(&[0x00, 0x00, 0x00, 0x00]);
    assert_eq!(scanner.find_next_start_code(), None);
    scanner.push(&[0x01]);
    assert_eq!(scanner.find_next_start_code(), Some((1, 4)));
}

#[test]
fn find_next_start_code_in_short_buffers() {
    let mut scanner = StartCodeScanner::new();
    assert_eq!(scanner.find_next_start_code(), None);
    scanner.push(&[0x00]);
    assert_eq!(scanner.find_next_start_code(), None);
    scanner.push(&[0x00]);
    assert_eq!(scanner.find_next_start_code(), None);
    scanner.push(&[0x01]);
    assert_eq!(scanner.find_next_start_code(), Some((0, 3)));
    assert_eq!(scanner.find_next_start_code(), None);
}

#[test]
fn four_byte_start_code_is_preferred() {
    // The zero after AA belongs to the start code, not to the payload.
    let mut scanner = StartCodeScanner::new();
    scanner.push(&[0x00, 0x00, 0x01, 0xaa, 0x00, 0x00, 0x00, 0x01, 0xbb]);
    let first = scanner.next_nal_unit().unwrap().unwrap();
    assert_eq!((first.start_pos, first.start_code_len), (0, 3));
    assert_eq!((first.data_start, first.data_end), (3, 4));
    assert_eq!(scanner.get_nal_data(&first), &[0xaa]);
    let second = scanner.next_nal_unit().unwrap().unwrap();
    assert_eq!((second.start_pos, second.start_code_len), (4, 4));
    assert_eq!(scanner.get_nal_data(&second), &[0xbb]);

    // A scan that starts at the four-byte code finds it whole.
    let mut scanner = StartCodeScanner::new();
    scanner.push(&[0x00, 0x00, 0x00, 0x01, 0x09]);
    assert_eq!(scanner.find_next_start_code(), Some((0, 4)));

    // With one more zero in front the payload keeps it.
    let mut scanner = StartCodeScanner::new();
    scanner.push(&[0x00, 0x00, 0x01, 0xaa, 0x00, 0x00, 0x00, 0x00, 0x01, 0xbb]);
    let first = scanner.next_nal_unit().unwrap().unwrap();
    assert_eq!(scanner.get_nal_data(&first), &[0xaa, 0x00]);
    let second = scanner.next_nal_unit().unwrap().unwrap();
    assert_eq!((second.start_pos, second.start_code_len), (5, 4));
}

#[test]
fn the_last_unit_ends_where_the_bytes_end() {
    let mut scanner = StartCodeScanner::new();
    scanner.push(&[0x00, 0x00, 0x01, 0x41, 0x9a, 0x00, 0x00]);
    let unit = scanner.next_nal_unit().unwrap().unwrap();
    assert_eq!(scanner.get_nal_data(&unit), &[0x41, 0x9a, 0x00, 0x00]);
    assert_eq!(unit.len(), 4);
    // It is handed out once.
    assert!(scanner.next_nal_unit().unwrap().is_none());
    assert!(scanner.next_nal_unit().unwrap().is_none());
}

#[test]
fn bytes_before_the_first_start_code_are_skipped() {
    let mut scanner = StartCodeScanner::new();
    scanner.push(&[0xde, 0xad, 0x00, 0x00, 0x01, 0x67]);
    let unit = scanner.next_nal_unit().unwrap().unwrap();
    assert_eq!(unit.start_pos, 2);
    assert_eq!(scanner.get_nal_data(&unit), &[0x67]);
}

#[test]
fn an_empty_unit_is_passed_over() {
    let mut scanner = StartCodeScanner::new();
    scanner.push(&[0x00, 0x00, 0x01, 0x00, 0x00, 0x01, 0x09]);
    let unit = scanner.next_nal_unit().unwrap().unwrap();
    assert_eq!(unit.start_pos, 3);
    assert_eq!(scanner.get_nal_data(&unit), &[0x09]);
    assert!(scanner.next_nal_unit().unwrap().is_none());

    // Several in a row, and one at the very end.
    let mut scanner = StartCodeScanner::new();
    scanner.push(&[0, 0, 1, 0, 0, 0, 1, 0, 0, 1, 0x41, 0, 0, 1, 0, 0, 1]);
    let unit = scanner.next_nal_unit().unwrap().unwrap();
    assert_eq!((unit.start_pos, unit.start_code_len), (7, 3));
    assert_eq!(scanner.get_nal_data(&unit), &[0x41]);
    assert!(scanner.next_nal_unit().unwrap().is_none());
    assert!(scanner.next_nal_unit().unwrap().is_none());
    // The start code at the end still waits for its unit.
    scanner.push(&[0x42]);
    let unit = scanner.next_nal_unit().unwrap().unwrap();
    assert_eq!(unit.start_pos, 14);
    assert_eq!(scanner.get_nal_data(&unit), &[0x42]);
}

#[test]
fn a_start_code_at_the_end_waits_for_its_unit() {
    let mut scanner = StartCodeScanner::new();
    scanner.push(&[0x00, 0x00, 0x00, 0x01]);
    assert!(scanner.next_nal_unit().unwrap().is_none());
    assert!(scanner.next_nal_unit().unwrap().is_none());
    scanner.push(&[0x67, 0x42]);
    let unit = scanner.next_nal_unit().unwrap().unwrap();
    assert_eq!((unit.start_pos, unit.start_code_len), (0, 4));
    assert_eq!(scanner.get_nal_data(&unit), &[0x67, 0x42]);
}

#[test]
fn push_of_nothing_changes_nothing() {
    let mut scanner = StartCodeScanner::new();
    scanner.push(&[]);
    assert!(scanner.next_nal_unit().unwrap().is_none());
    scanner.push(&[0x00, 0x00, 0x01, 0x09]);
    scanner.push(&[]);
    let unit = scanner.next_nal_unit().unwrap().unwrap();
    assert_eq!(scanner.get_nal_data(&unit), &[0x09]);
}

#[test]
fn consume_processed_drops_bytes_and_moves_the_cursor() {
    let mut scanner = StartCodeScanner::new();
    scanner.push(&[0x00, 0x00, 0x01, 0x41, 0x00, 0x00, 0x01, 0x42, 0x43]);
    let first = scanner.next_nal_unit().unwrap().unwrap();
    assert_eq!(scanner.get_nal_data(&first), &[0x41]);
    // The cursor stands at 4, the start of the second start code.
    scanner.consume_processed(4);
    let second = scanner.next_nal_unit().unwrap().unwrap();
    assert_eq!((second.start_pos, second.data_start, second.data_end), (0, 3, 5));
    assert_eq!(scanner.get_nal_data(&second), &[0x42, 0x43]);

    // Consuming past the cursor puts it at zero.
    let mut scanner = StartCodeScanner::new();
    scanner.push(&[0xff, 0xff, 0x00, 0x00, 0x01, 0x44]);
    scanner.consume_processed(2);
    assert_eq!(scanner.find_next_start_code(), Some((0, 3)));
    scanner.consume_processed(0);
    scanner.consume_processed(4);
    assert_eq!(scanner.find_next_start_code(), None);
    scanner.push(&[0x00, 0x00, 0x01]);
    assert_eq!(scanner.find_next_start_code(), Some((0, 3)));
}

#[test]
fn reset_forgets_everything() {
    let mut scanner = StartCodeScanner::new();
    scanner.push(&[0x00, 0x00, 0x01, 0x41, 0x00]);
    scanner.next_nal_unit().unwrap().unwrap();
    scanner.reset();
    assert!(scanner.next_nal_unit().unwrap().is_none());
    scanner.push(&[0x00, 0x00, 0x01, 0x42]);
    let unit = scanner.next_nal_unit().unwrap().unwrap();
    assert_eq!(unit.start_pos, 0);
    assert_eq!(scanner.get_nal_data(&unit), &[0x42]);
}

#[test]
fn span_len_is_the_payload_length() {
    let span = NalSpan { start_pos: 10, start_code_len: 4, data_start: 14, data_end: 20 };
    assert_eq!(span.len(), 6);
    let span = NalSpan { start_pos: 0, start_code_len: 3, data_start: 3, data_end: 3 };
    assert_eq!(span.len(), 0);
}

#[test]
fn pushing_in_pieces_gives_the_same_units() {
    let stream: Vec<u8> = vec![
        0x00, 0x00, 0x00, 0x01, 0x67, 0x42, 0x00, 0x00, 0x00, 0x01, 0x68, 0xce, 0x00, 0x00, 0x01,
        0x65, 0x88, 0x00, 0x00, 0x03, 0x00, 0x00, 0x00, 0x01, 0x41, 0x9a,
    ];
    let mut whole = StartCodeScanner::new();
    whole.push(&stream);
    let mut expected = Vec::new();
    while let Some(span) = whole.next_nal_unit().unwrap() {
        expected.push((span.start_code_len, whole.get_nal_data(&span).to_vec()));
    }
    assert_eq!(expected.len(), 4);
    for size in 1..stream.len() {
        let mut pieces = StartCodeScanner::new();
        for chunk in stream.chunks(size) {
            pieces.push(chunk);
        }
        let mut units = Vec::new();
        while let Some(span) = pieces.next_nal_unit().unwrap() {
            units.push((span.start_code_len, pieces.get_nal_data(&span).to_vec()));
        }
        assert_eq!(units, expected);
    }
}
