use neo_re::protocol::{
    add_applet_begin_command, clear_applet_area_command, command, derive_add_applet_start_fields,
    finalize_applet_update_command, list_applets_command, parse_file_entry, parse_neo_os_segments, parse_response,
    parse_smartapplet_header, program_applet_command, retrieve_applet_command, OsFlashSegment, ProtocolError,
    SmartAppletHeader, SMARTAPPLET_HEADER_SIZE,
};

#[test]
fn parses_smartapplet_header_metadata() {
    let mut header = [0_u8; SMARTAPPLET_HEADER_SIZE];
    header[0x00..0x04].copy_from_slice(&0xC0FF_EEAD_u32.to_be_bytes());
    header[0x04..0x08].copy_from_slice(&0x1234_u32.to_be_bytes());
    header[0x08..0x0C].copy_from_slice(&0x0100_u32.to_be_bytes());
    header[0x0C..0x10].copy_from_slice(&0x0094_u32.to_be_bytes());
    header[0x10..0x14].copy_from_slice(&0xFF00_00CE_u32.to_be_bytes());
    header[0x14..0x16].copy_from_slice(&0xA130_u16.to_be_bytes());
    header[0x16] = 1;
    header[0x17] = 1;
    header[0x18..0x18 + b"Alpha USB".len()].copy_from_slice(b"Alpha USB");
    header[0x3C] = 0x01;
    header[0x3D] = 0x20;
    header[0x3F] = 0x01;
    header[0x40..0x40 + b"neo-re".len()].copy_from_slice(b"neo-re");
    header[0x80..0x84].copy_from_slice(&0x2000_u32.to_be_bytes());

    let parsed = parse_smartapplet_header(&header).unwrap();

    assert_eq!(parsed.applet_id, 0xA130);
    assert_eq!(parsed.name, "Alpha USB");
    assert_eq!(parsed.version_major, 1);
    assert_eq!(parsed.version_minor, 20);
    assert_eq!(parsed.extra_memory_size, 0x2000);
}

#[test]
fn derives_add_applet_start_fields() {
    let header = SmartAppletHeader {
        magic: 0,
        file_size: 0x1234,
        base_memory_size: 0x0100,
        payload_or_code_size: 0,
        flags_and_version: 0,
        applet_id: 0,
        header_version: 1,
        file_count: 1,
        name: String::new(),
        version_major: 0,
        version_minor: 0,
        applet_class: 1,
        copyright: String::new(),
        extra_memory_size: 0x2000,
    };

    assert_eq!(derive_add_applet_start_fields(&header), (0x1234, 0x2100));
}

#[test]
fn builds_smartapplet_commands() {
    assert_eq!(list_applets_command(3, 7), command(0x04, 3, 7));
    assert_eq!(retrieve_applet_command(0xA130), command(0x0F, 0, 0xA130));
    assert_eq!(add_applet_begin_command(0x1234, 0x2100), command(0x06, 0x1234, 0x2100));
    assert_eq!(program_applet_command(), command(0x0B, 0, 0));
    assert_eq!(finalize_applet_update_command(), command(0x07, 0, 0));
    assert_eq!(clear_applet_area_command(), command(0x11, 0, 0));
}

#[test]
fn parses_neo_os_segments() {
    let mut image = vec![0_u8; 0x70];
    image[6..24].copy_from_slice(b"System 3 Neo      ");
    image[0x50..0x54].copy_from_slice(&0x0041_0000_u32.to_be_bytes());
    image[0x54..0x58].copy_from_slice(&0x0006_0000_u32.to_be_bytes());
    image[0x58..0x5C].copy_from_slice(&0x005F_FC00_u32.to_be_bytes());
    image[0x5C..0x60].copy_from_slice(&0x0000_0400_u32.to_be_bytes());

    let segments = parse_neo_os_segments(&image).unwrap();

    assert_eq!(
        segments,
        vec![
            OsFlashSegment { address: 0x0041_0000, length: 0x0006_0000 },
            OsFlashSegment { address: 0x005F_FC00, length: 0x0000_0400 },
        ]
    );
}

#[test]
fn rejects_truncated_neo_os_segment_table() {
    let mut image = vec![0_u8; 0x75];
    image[6..24].copy_from_slice(b"System 3 Neo      ");
    image[0x50..0x54].copy_from_slice(&0x0041_0000_u32.to_be_bytes());
    image[0x54..0x58].copy_from_slice(&0x0006_0000_u32.to_be_bytes());
    image[0x58..0x5C].copy_from_slice(&0x005F_FC00_u32.to_be_bytes());
    image[0x5C..0x60].copy_from_slice(&0x0000_0400_u32.to_be_bytes());

    let error = parse_neo_os_segments(&image).unwrap_err().message();

    assert!(error.contains("truncated OS segment table"));
}

#[test]
fn response_round_trips_through_command() {
    let packet = command(0x44, 0x0000_0108, 0xBEEF);
    let response = parse_response(&packet).unwrap();
    assert_eq!(response.status, 0x44);
    assert_eq!(response.argument, 0x108);
    assert_eq!(response.trailing, 0xBEEF);
    let mut bad = packet;
    bad[7] ^= 1;
    assert!(matches!(parse_response(&bad), Err(ProtocolError::ResponseChecksum { .. })));
    assert_eq!(parse_response(&packet[..7]), Err(ProtocolError::ResponseLength { response_got: 7 }));
}

#[test]
fn file_entries_need_a_full_attribute_record() {
    let mut record = vec![0_u8; 0x28];
    record[..6].copy_from_slice(b"File 1");
    record[0x1c..0x20].copy_from_slice(&512_u32.to_be_bytes());
    let entry = parse_file_entry(1, &record).unwrap();
    assert_eq!(entry.name, "File 1");
    assert_eq!(entry.attribute_bytes, 512);
    assert_eq!(parse_file_entry(1, &record[..10]), Err(ProtocolError::AttributeRecordLength { record_got: 10 }));
}
