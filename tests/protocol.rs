use usbhid::{
    beep_command, chunk_payload, decode_response, device_line, firmware_info_command,
    pid_vid_to_hexstr, text_command, trigger_on_command, DeviceDescriptor, ReadStep,
    ResponseReader, ScannerError,
};

fn chunk(aim: &[u8; 3], payload: &[u8], terminator: u8) -> Vec<u8> {
    let mut c = vec![0x02, payload.len() as u8];
    c.extend_from_slice(aim);
    c.extend_from_slice(payload);
    c.push(terminator);
    c
}

#[test]
fn trigger_on_frame_bytes() {
    assert_eq!(trigger_on_command(), vec![0xFD, 0x03, 0x16, 0x54, 0x0D]);
}

#[test]
fn beep_frame_bytes() {
    assert_eq!(beep_command(), vec![0xFD, 0x03, 0x16, 0x07, 0x0D]);
}

#[test]
fn firmware_info_frame_bytes() {
    assert_eq!(
        firmware_info_command(),
        vec![0xFD, 0x0F, 0x16, 0x4D, 0x0D, 0x52, 0x45, 0x56, 0x49, 0x4E, 0x46, 0x2E]
    );
    assert_eq!(text_command("REVINF."), Ok(firmware_info_command()));
}

#[test]
fn text_command_frame_bytes() {
    let mut expected = vec![0xFD, 0x0F, 0x16, 0x4D, 0x0D];
    expected.extend_from_slice(b"DEFOVR.");
    assert_eq!(text_command("DEFOVR."), Ok(expected));
    assert_eq!(text_command(""), Ok(vec![0xFD, 0x0F, 0x16, 0x4D, 0x0D]));
}

#[test]
fn text_command_refuses_non_ascii() {
    assert_eq!(text_command("DEF\u{e9}"), Err(ScannerError::NonAsciiCommand));
    assert_eq!(text_command("\u{2603}"), Err(ScannerError::NonAsciiCommand));
}

#[test]
fn single_chunk_response() {
    let reads = vec![chunk(b"]A0", b"ABC", 0x0D), vec![]];
    assert_eq!(decode_response(&reads, 16), Ok("ABC".to_string()));
}

#[test]
fn chunks_concatenate_in_arrival_order() {
    let reads = vec![chunk(b"]A0", b"Rev 1.2", 0x0D), chunk(b"]A0", b" build 7", 0x00), vec![]];
    assert_eq!(decode_response(&reads, 16), Ok("Rev 1.2 build 7".to_string()));
}

#[test]
fn reading_stops_at_first_empty_read() {
    let reads = vec![chunk(b"]A0", b"X", 0), vec![], chunk(b"]A0", b"Y", 0)];
    assert_eq!(decode_response(&reads, 16), Ok("X".to_string()));
    assert_eq!(decode_response(&vec![vec![]], 16), Ok(String::new()));
    assert_eq!(decode_response(&vec![], 16), Ok(String::new()));
}

#[test]
fn declared_length_beyond_chunk_is_a_framing_error() {
    let mut c = chunk(b"]A0", b"ABC", 0x0D);
    c[1] = 4;
    assert_eq!(chunk_payload(&c), Err(ScannerError::FramingError));
    c[1] = 200;
    assert_eq!(chunk_payload(&c), Err(ScannerError::FramingError));
    assert_eq!(decode_response(&vec![c, vec![]], 16), Err(ScannerError::FramingError));
}

#[test]
fn chunk_without_terminator_is_a_framing_error() {
    let c = vec![0x02, 3, b']', b'A', b'0', b'A', b'B', b'C'];
    assert_eq!(chunk_payload(&c), Err(ScannerError::FramingError));
}

#[test]
fn truncated_header_is_a_framing_error() {
    assert_eq!(chunk_payload(&vec![0x02]), Err(ScannerError::FramingError));
    assert_eq!(chunk_payload(&vec![0x02, 0x00, b']']), Err(ScannerError::FramingError));
}

#[test]
fn full_size_chunk_is_read() {
    let payload = [b'7'; 58];
    let c = chunk(b"]E0", &payload, 0);
    assert_eq!(c.len(), 64);
    assert_eq!(chunk_payload(&c), Ok("7".repeat(58)));
}

#[test]
fn payload_bytes_widen_as_latin1() {
    let c = chunk(b"]A0", &[0x41, 0xE9, 0xFF], 0);
    assert_eq!(chunk_payload(&c), Ok("A\u{e9}\u{ff}".to_string()));
}

#[test]
fn too_many_chunks_are_refused() {
    let reads = vec![chunk(b"]A0", b"a", 0), chunk(b"]A0", b"b", 0), vec![]];
    assert_eq!(decode_response(&reads, 2), Ok("ab".to_string()));
    assert_eq!(decode_response(&reads, 1), Err(ScannerError::TooManyChunks));
}

#[test]
fn reader_steps() {
    let mut reader = ResponseReader::new(4);
    assert!(matches!(reader.on_read(&chunk(b"]A0", b"AB", 0x0D)), Ok(ReadStep::More)));
    assert!(matches!(reader.on_read(&vec![0x02, 9, 0, 0, 0]), Err(ScannerError::FramingError)));
    assert_eq!(reader.text_so_far(), "AB".to_string());
    assert!(matches!(reader.on_read(&chunk(b"]A0", b"C", 0x0D)), Ok(ReadStep::More)));
    match reader.on_read(&vec![]) {
        Ok(ReadStep::Done(s)) => assert_eq!(s, "ABC"),
        _ => panic!("expected the end of the response"),
    }
}

#[test]
fn hex_label_of_identifiers() {
    assert_eq!(pid_vid_to_hexstr(0x0c2e, 0x0db3), "0xc2e:0xdb3");
    assert_eq!(pid_vid_to_hexstr(0, 0xffff), "0x0:0xffff");
    assert_eq!(pid_vid_to_hexstr(0x10, 0xa), "0x10:0xa");
}

#[test]
fn listing_line_layout() {
    let d = DeviceDescriptor {
        vendor_id: 0x0c2e,
        product_id: 0x0db3,
        manufacturer_string: "Honeywell".to_string(),
        product_string: "Scanner A".to_string(),
    };
    let expected = format!(
        "{}: {:20} {:40} ({:04x}:{:04x})",
        12, "Scanner A", "Honeywell", 0x0c2eu16, 0x0db3u16
    );
    assert_eq!(device_line(12, &d), expected);
    assert_eq!(
        device_line(0, &d),
        "0: Scanner A            Honeywell                                (0c2e:0db3)"
    );
}

#[test]
fn listing_line_keeps_long_names_whole() {
    let long = "A product name longer than twenty characters";
    let d = DeviceDescriptor {
        vendor_id: 1,
        product_id: 0xabcd,
        manufacturer_string: "M".to_string(),
        product_string: long.to_string(),
    };
    let expected = format!("{}: {:20} {:40} ({:04x}:{:04x})", 3, long, "M", 1u16, 0xabcdu16);
    assert_eq!(device_line(3, &d), expected);
}
