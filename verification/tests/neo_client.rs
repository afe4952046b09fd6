use std::collections::VecDeque;
use std::time::Duration;

use neo_re::neo_client::{ClientError, DirectTransport, NeoClientProgress, SharedNeoClient, TransportError};
use neo_re::protocol::{self, command};

struct FakeTransport {
    reads: VecDeque<Vec<u8>>,
    writes: Vec<Vec<u8>>,
}

impl FakeTransport {
    fn new(reads: impl IntoIterator<Item = Vec<u8>>) -> Self {
        Self { reads: reads.into_iter().collect(), writes: Vec::new() }
    }
}

impl DirectTransport for FakeTransport {
    fn write(&mut self, payload: &[u8]) -> Result<(), TransportError> {
        self.writes.push(payload.to_vec());
        Ok(())
    }

    fn read_exact(&mut self, len: usize, _timeout: Duration) -> Result<Vec<u8>, TransportError> {
        let read = self.reads.pop_front().expect("queued fake read");
        assert_eq!(read.len(), len);
        Ok(read)
    }
}

fn smartapplet_image(len: usize) -> Vec<u8> {
    let mut image = vec![0_u8; len];
    image[0x00..0x04].copy_from_slice(&0xC0FF_EEAD_u32.to_be_bytes());
    image[0x04..0x08].copy_from_slice(&(len as u32).to_be_bytes());
    image[0x08..0x0C].copy_from_slice(&0x0100_u32.to_be_bytes());
    image[0x14..0x16].copy_from_slice(&0xA130_u16.to_be_bytes());
    image[0x16] = 1;
    image[0x17] = 1;
    image[0x18..0x21].copy_from_slice(b"Alpha USB");
    image[0x3C] = 0x01;
    image[0x3D] = 0x00;
    image[0x3F] = 1;
    image[0x80..0x84].copy_from_slice(&0x2000_u32.to_be_bytes());
    image
}

fn neo_os_image_with_payload(payload_len: usize) -> Vec<u8> {
    let mut image = vec![0_u8; 0x60 + payload_len];
    image[6..24].copy_from_slice(b"System 3 Neo      ");
    image[0x50..0x54].copy_from_slice(&0x0041_0000_u32.to_be_bytes());
    image[0x54..0x58].copy_from_slice(&(payload_len as u32).to_be_bytes());
    image
}

fn smartapplet_record(applet_id: u16, name: &str, file_size: u32) -> Vec<u8> {
    let mut record = vec![0_u8; protocol::SMARTAPPLET_HEADER_SIZE];
    record[0x00..0x04].copy_from_slice(&0xC0FF_EEAD_u32.to_be_bytes());
    record[0x04..0x08].copy_from_slice(&file_size.to_be_bytes());
    record[0x14..0x16].copy_from_slice(&applet_id.to_be_bytes());
    record[0x16] = 1;
    record[0x17] = 1;
    record[0x18..0x18 + name.len()].copy_from_slice(name.as_bytes());
    record[0x3C] = 0x03;
    record[0x3D] = 0x04;
    record[0x3F] = 1;
    record
}

fn alpha_word_attributes_record(name: &str, attribute_bytes: u32) -> Vec<u8> {
    let mut record = vec![0_u8; 0x28];
    record[0x00..0x00 + name.len()].copy_from_slice(name.as_bytes());
    record[0x1c..0x20].copy_from_slice(&attribute_bytes.to_be_bytes());
    record
}

fn empty_attribute_reads_for_slots(slots: impl IntoIterator<Item = u8>) -> Vec<Vec<u8>> {
    slots.into_iter().map(|_| command(0x90, 0, 0).to_vec()).collect()
}

fn checksum(payload: &[u8]) -> u16 {
    payload.iter().fold(0_u16, |sum, byte| sum.wrapping_add(u16::from(*byte)))
}

#[test]
fn downloads_file_through_shared_protocol_flow() {
    let payload = b"abc".to_vec();
    let sum = checksum(&payload);
    let transport = FakeTransport::new([
        b"Switched".to_vec(),
        command(0x53, payload.len() as u32, 0).to_vec(),
        command(0x4D, payload.len() as u32, sum).to_vec(),
        payload.clone(),
    ]);
    let mut client = SharedNeoClient::new(transport).unwrap();

    let downloaded = client.download_file(2).unwrap();

    assert_eq!(downloaded, payload);
    let writes = &client.transport().writes;
    assert_eq!(writes[0], protocol::reset_packet());
    assert_eq!(writes[1], protocol::switch_packet());
    assert_eq!(writes[2], command(0x12, (0x80000_u32 << 8) | 2, protocol::ALPHAWORD_APPLET_ID));
    assert_eq!(writes[3], protocol::retrieve_chunk_command());
}

#[test]
fn install_applet_reports_chunk_progress() {
    let image = smartapplet_image(0x500);
    let transport = FakeTransport::new([
        b"Switched".to_vec(),
        command(0x46, 0, 0).to_vec(),
        command(0x42, 0, 0).to_vec(),
        command(0x43, 0, 0).to_vec(),
        command(0x47, 0, 0).to_vec(),
        command(0x42, 0, 0).to_vec(),
        command(0x43, 0, 0).to_vec(),
        command(0x47, 0, 0).to_vec(),
        command(0x48, 0, 0).to_vec(),
    ]);
    let mut client = SharedNeoClient::new(transport).unwrap();
    let mut events = Vec::new();

    client.install_smart_applet_with_progress(&image, |event| events.push(event)).unwrap();

    assert_eq!(
        events,
        vec![
            NeoClientProgress::ChunkProgrammed { label: "add-applet", completed: 1, total: 2 },
            NeoClientProgress::ChunkProgrammed { label: "add-applet", completed: 2, total: 2 },
        ]
    );
}

#[test]
fn install_os_reports_erase_and_chunk_progress() {
    let image = neo_os_image_with_payload(0x500);
    let transport = FakeTransport::new([
        b"Switched".to_vec(),
        command(0x56, 0, 0).to_vec(),
        command(0x54, 0, 0).to_vec(),
        command(0x55, 0, 0).to_vec(),
        command(0x42, 0, 0).to_vec(),
        command(0x43, 0, 0).to_vec(),
        command(0x47, 0, 0).to_vec(),
        command(0x42, 0, 0).to_vec(),
        command(0x43, 0, 0).to_vec(),
        command(0x47, 0, 0).to_vec(),
        command(0x48, 0, 0).to_vec(),
    ]);
    let mut client = SharedNeoClient::new(transport).unwrap();
    let mut events = Vec::new();

    client.install_neo_os_image_with_progress(&image, false, |event| events.push(event)).unwrap();

    assert!(events.contains(&NeoClientProgress::OsSegmentErased { completed: 1, total: 1, address: 0x0041_0000 }));
    assert!(events.contains(&NeoClientProgress::ChunkProgrammed { label: "OS image", completed: 2, total: 2 }));
}

#[test]
fn recovery_diagnostics_include_raw_applet_records() {
    let record = smartapplet_record(0xa000, "AlphaWord Plus", 0x200);
    let transport = FakeTransport::new(
        [
            vec![b"Switched".to_vec()],
            vec![
                command(0x44, record.len() as u32, checksum(&record)).to_vec(),
                record,
                command(0x90, 0, 0).to_vec(),
            ],
            empty_attribute_reads_for_slots(1..=8),
        ]
        .concat(),
    );
    let mut client = SharedNeoClient::new(transport).unwrap();

    let report = client.read_recovery_diagnostics().unwrap();

    assert!(report.contains("SmartApplet records"));
    assert!(report.contains("page_offset=0 status=0x44"));
    assert!(report.contains("applet_id=0xa000"));
    assert!(report.contains("AlphaWord Plus"));
    assert!(report.contains("AlphaWord file attributes"));
}

#[test]
fn recovery_diagnostics_include_file_attribute_statuses() {
    let attributes = alpha_word_attributes_record("File 1", 512);
    let transport = FakeTransport::new(
        [
            vec![b"Switched".to_vec()],
            vec![command(0x90, 0, 0).to_vec()],
            vec![command(0x5a, attributes.len() as u32, checksum(&attributes)).to_vec(), attributes],
            empty_attribute_reads_for_slots(2..=8),
        ]
        .concat(),
    );
    let mut client = SharedNeoClient::new(transport).unwrap();

    let report = client.read_recovery_diagnostics().unwrap();

    assert!(report.contains("slot 1 status=0x5a"));
    assert!(report.contains("name=File 1"));
    assert!(report.contains("attribute_bytes=512"));
}

#[test]
fn client_refuses_a_device_that_does_not_switch() {
    let transport = FakeTransport::new([b"Nothing!".to_vec()]);
    assert!(SharedNeoClient::new(transport).is_err());
}

#[test]
fn recovery_report_text_for_empty_device() {
    let attributes = alpha_word_attributes_record("Notes", 7);
    let transport = FakeTransport::new(
        [
            vec![b"Switched".to_vec()],
            vec![command(0x90, 0, 0).to_vec()],
            vec![command(0x5a, attributes.len() as u32, checksum(&attributes).wrapping_add(1)).to_vec(), attributes],
            empty_attribute_reads_for_slots(2..=8),
        ]
        .concat(),
    );
    let mut client = SharedNeoClient::new(transport).unwrap();

    let report = client.read_recovery_diagnostics().unwrap();

    let mut expected = String::from("SmartApplet records\npage_offset=0 status=0x90 argument=0 trailing=0x0000");
    expected.push_str("\nAlphaWord file attributes");
    expected.push_str("\nslot 1 status=0x5a argument=40 trailing=0x");
    let lines: Vec<&str> = report.lines().collect();
    assert_eq!(lines[0], "SmartApplet records");
    assert_eq!(lines[1], "page_offset=0 status=0x90 argument=0 trailing=0x0000");
    assert_eq!(lines[2], "AlphaWord file attributes");
    assert!(report.starts_with(&expected));
    assert!(lines[4].starts_with("slot 1 payload_sum16=0x"));
    assert_eq!(lines[5], "slot 1 checksum_mismatch");
    assert_eq!(lines[6], "slot 2 status=0x90 argument=0 trailing=0x0000");
    assert_eq!(lines.len(), 13);
}

#[test]
fn list_files_stops_at_an_unexpected_attribute_status() {
    let transport = FakeTransport::new([b"Switched".to_vec(), command(0x33, 0, 0).to_vec()]);
    let mut client = SharedNeoClient::new(transport).unwrap();

    let err = client.list_files().unwrap_err();

    assert!(matches!(err, ClientError::AttributeStatus { slot: 1, status: 0x33 }));
    let writes = &client.transport().writes;
    assert_eq!(writes.len(), 3);
    assert_eq!(writes[2], command(0x13, 1, 0xA000).to_vec());
}

#[test]
fn a_reply_with_a_bad_checksum_is_a_protocol_error() {
    let mut reply = command(0x90, 0, 0);
    reply[7] = reply[7].wrapping_add(1);
    let transport = FakeTransport::new([b"Switched".to_vec(), reply.to_vec()]);
    let mut client = SharedNeoClient::new(transport).unwrap();

    let err = client.list_files().unwrap_err();

    assert!(matches!(err, ClientError::Protocol(_)));
}

#[test]
fn download_stops_when_the_retrieval_does_not_start() {
    let transport = FakeTransport::new([b"Switched".to_vec(), command(0x8F, 0, 0).to_vec()]);
    let mut client = SharedNeoClient::new(transport).unwrap();

    let err = client.download_file(3).unwrap_err();

    assert!(matches!(err, ClientError::RetrieveStartStatus { status: 0x8F }));
    assert_eq!(client.transport().writes[2], command(0x12, 0x0800_0003, 0xA000).to_vec());
}

#[test]
fn the_switch_reply_is_reported_when_the_device_does_not_switch() {
    let transport = FakeTransport::new([b"Nothing!".to_vec()]);
    match SharedNeoClient::new(transport) {
        Err(ClientError::UnexpectedSwitchResponse { response }) => assert_eq!(response, b"Nothing!".to_vec()),
        _ => panic!("expected the switch reply to be refused"),
    }
}

#[test]
fn lists_every_record_of_every_applet_page() {
    let names = ["A0", "A1", "A2", "A3", "A4", "A5", "A6"];
    let mut page: Vec<u8> = Vec::new();
    for (i, name) in names.iter().enumerate() {
        page.extend(smartapplet_record(0xA100 + i as u16, name, 0x200));
    }
    let last = smartapplet_record(0xA200, "Last", 0x300);
    let transport = FakeTransport::new([
        b"Switched".to_vec(),
        command(0x44, page.len() as u32, checksum(&page)).to_vec(),
        page,
        command(0x44, last.len() as u32, checksum(&last)).to_vec(),
        last,
    ]);
    let mut client = SharedNeoClient::new(transport).unwrap();

    let records = client.list_smart_applets().unwrap();

    assert_eq!(records.len(), 8);
    assert_eq!(records[0].applet_id, 0xA100);
    assert_eq!(records[6].name, "A6");
    assert_eq!(records[7].name, "Last");
    assert_eq!(records[7].file_size, 0x300);
    let writes = &client.transport().writes;
    assert_eq!(writes.len(), 4);
    assert_eq!(writes[2], command(0x04, 0, 7).to_vec());
    assert_eq!(writes[3], command(0x04, 7, 7).to_vec());
}

#[test]
fn list_files_returns_each_slot_that_holds_a_file() {
    let record = alpha_word_attributes_record("Notes", 40);
    let transport = FakeTransport::new(
        [
            vec![b"Switched".to_vec()],
            vec![command(0x5A, record.len() as u32, checksum(&record)).to_vec(), record],
            empty_attribute_reads_for_slots(2..=8),
        ]
        .concat(),
    );
    let mut client = SharedNeoClient::new(transport).unwrap();

    let files = client.list_files().unwrap();

    assert_eq!(files.len(), 1);
    assert_eq!(files[0].slot, 1);
    assert_eq!(files[0].name, "Notes");
    assert_eq!(files[0].attribute_bytes, 40);
    let writes = &client.transport().writes;
    assert_eq!(writes.len(), 10);
    for slot in 1..=8u32 {
        assert_eq!(writes[1 + slot as usize], command(0x13, slot, 0xA000).to_vec());
    }
}

#[test]
fn an_applet_with_nothing_announced_downloads_empty() {
    let transport = FakeTransport::new([b"Switched".to_vec(), command(0x53, 0, 0).to_vec()]);
    let mut client = SharedNeoClient::new(transport).unwrap();

    assert_eq!(client.download_smart_applet(0xA130).unwrap(), Vec::<u8>::new());
    assert_eq!(client.transport().writes.len(), 3);
    assert_eq!(client.transport().writes[2], command(0x0F, 0, 0xA130).to_vec());
}

#[test]
fn an_applet_whose_size_field_disagrees_is_refused_before_writing() {
    let mut image = smartapplet_image(0x500);
    image[0x04..0x08].copy_from_slice(&0x400_u32.to_be_bytes());
    let transport = FakeTransport::new([b"Switched".to_vec()]);
    let mut client = SharedNeoClient::new(transport).unwrap();

    let err = client.install_smart_applet(&image).unwrap_err();

    assert_eq!(err, ClientError::ImageSizeMismatch { declared: 0x400, actual: 0x500 });
    assert_eq!(client.transport().writes.len(), 2);
}

#[test]
fn an_os_image_without_a_segment_table_is_refused_before_writing() {
    let transport = FakeTransport::new([b"Switched".to_vec()]);
    let mut client = SharedNeoClient::new(transport).unwrap();

    let err = client.install_neo_os_image(&[0_u8; 16], false).unwrap_err();

    assert!(matches!(err, ClientError::Protocol(_)));
    assert_eq!(client.transport().writes.len(), 2);
}

#[test]
fn a_page_with_a_bad_sum_ends_the_applet_report_with_a_stop_line() {
    let record = vec![0_u8; 0x84];
    let transport = FakeTransport::new(
        [
            vec![b"Switched".to_vec()],
            vec![command(0x44, 0x84, 0x0001).to_vec(), record],
            empty_attribute_reads_for_slots(1..=8),
        ]
        .concat(),
    );
    let mut client = SharedNeoClient::new(transport).unwrap();

    let report = client.read_recovery_diagnostics().unwrap();
    let lines: Vec<&str> = report.lines().collect();

    assert_eq!(lines[0], "SmartApplet records");
    assert_eq!(lines[1], "page_offset=0 status=0x44 argument=132 trailing=0x0001");
    assert_eq!(lines[2], "payload_sum16=0x0000 expected=0x0001");
    assert_eq!(lines[3], "stop: applet list payload checksum mismatch");
    assert_eq!(lines[4], "AlphaWord file attributes");
    assert_eq!(client.transport().writes[2], command(0x04, 0, 7).to_vec());
}

#[test]
fn an_empty_chunk_is_followed_by_another_request() {
    let payload = b"abc".to_vec();
    let transport = FakeTransport::new([
        b"Switched".to_vec(),
        command(0x53, 3, 0).to_vec(),
        command(0x4D, 0, 0).to_vec(),
        Vec::new(),
        command(0x4D, 3, checksum(&payload)).to_vec(),
        payload.clone(),
    ]);
    let mut client = SharedNeoClient::new(transport).unwrap();

    assert_eq!(client.download_smart_applet(0xA130).unwrap(), payload);
    let writes = &client.transport().writes;
    assert_eq!(writes.len(), 5);
    assert_eq!(writes[3], protocol::retrieve_chunk_command());
    assert_eq!(writes[4], protocol::retrieve_chunk_command());
}
