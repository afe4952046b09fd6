//! Packets of the NEO direct-USB updater protocol: eight-byte commands and
//! responses, SmartApplet headers, AlphaWord file attributes, and the segment
//! table of a NEO System image.

use vstd::prelude::*;
use crate::bytes::{
    be_u16, be_u16_at, be_u16_bytes, be_u32, be_u32_at, be_u32_bytes, checksum8, read_be_u16,
    read_be_u32, sum8, u16_to_be, u32_to_be,
};
use crate::text::{decimal, field_text, hex_digits, hex_min, push_char, push_decimal, read_c_string};

verus! {

/// Applet id of AlphaWord, which owns the eight file slots.
pub const ALPHAWORD_APPLET_ID: u16 = 0xA000;

/// Size of a SmartApplet header, which is also one applet-list record.
pub const SMARTAPPLET_HEADER_SIZE: usize = 0x84;

/// Size of an AlphaWord file attribute record.
pub const FILE_ATTRIBUTE_RECORD_SIZE: usize = 0x28;

/// An AlphaWord file slot as listed by the device.
#[derive(Clone, Debug, PartialEq, Eq)]
pub struct FileEntry {
    pub slot: u8,
    pub name: String,
    pub attribute_bytes: u32,
}

/// Identity of an installed SmartApplet.
#[derive(Clone, Debug, PartialEq, Eq)]
pub struct SmartAppletRecord {
    pub applet_id: u16,
    pub version: String,
    pub name: String,
    pub file_size: u32,
    pub applet_class: u8,
}

/// A decoded eight-byte updater response.
#[derive(Clone, Copy, Debug, PartialEq, Eq, Structural)]
pub struct Response {
    pub status: u8,
    pub argument: u32,
    pub trailing: u16,
}

/// The 0x84-byte header at the start of every SmartApplet image.
#[derive(Clone, Debug, PartialEq, Eq)]
pub struct SmartAppletHeader {
    pub magic: u32,
    pub file_size: u32,
    pub base_memory_size: u32,
    pub payload_or_code_size: u32,
    pub flags_and_version: u32,
    pub applet_id: u16,
    pub header_version: u8,
    pub file_count: u8,
    pub name: String,
    pub version_major: u8,
    pub version_minor: u8,
    pub applet_class: u8,
    pub copyright: String,
    pub extra_memory_size: u32,
}

/// One flash region named by a NEO System image.
#[derive(Clone, Copy, Debug, PartialEq, Eq, Structural)]
pub struct OsFlashSegment {
    pub address: u32,
    pub length: u32,
}

/// Why a packet, record, or image was rejected.
#[derive(Clone, Copy, Debug, PartialEq, Eq, Structural)]
pub enum ProtocolError {
    HeaderLength { header_got: usize },
    OsImageTooShort,
    NotNeoSystemImage,
    TruncatedSegmentTable,
    InvalidSegmentLength { offset: usize },
    NoSegments,
    ResponseLength { response_got: usize },
    ResponseChecksum { checksum_got: u8, expected: u8 },
    AttributeRecordLength { record_got: usize },
}

/// The sentence that describes a protocol error.
pub open spec fn protocol_error_text(e: ProtocolError) -> Seq<char> {
    match e {
        ProtocolError::HeaderLength { header_got } => "SmartApplet header must be 132 bytes, got "@ + decimal(
            header_got as nat,
        ),
        ProtocolError::OsImageTooShort => "OS image is too short"@,
        ProtocolError::NotNeoSystemImage => "OS image is not a NEO System 3 image"@,
        ProtocolError::TruncatedSegmentTable => "truncated OS segment table"@,
        ProtocolError::InvalidSegmentLength { offset } => "invalid OS segment length at offset 0x"@ + hex_min(
            offset as nat,
        ),
        ProtocolError::NoSegments => "OS image contains no flash segments"@,
        ProtocolError::ResponseLength { response_got } => "updater response must be 8 bytes, got "@ + decimal(
            response_got as nat,
        ),
        ProtocolError::ResponseChecksum { checksum_got, expected } => "updater response checksum mismatch: got 0x"@
            + hex_digits(checksum_got as nat, 2) + ", expected 0x"@ + hex_digits(expected as nat, 2),
        ProtocolError::AttributeRecordLength { record_got } => "file attribute record must be 40 bytes, got "@
            + decimal(record_got as nat),
    }
}

impl ProtocolError {
    /// The sentence that describes this error.
    pub fn message(&self) -> (r: String)
        ensures
            r@ == protocol_error_text(*self),
    {
        let mut s = String::new();
        match self {
            ProtocolError::HeaderLength { header_got } => {
                s.append("SmartApplet header must be 132 bytes, got ");
                push_decimal(&mut s, *header_got as u64);
            },
            ProtocolError::OsImageTooShort => s.append("OS image is too short"),
            ProtocolError::NotNeoSystemImage => s.append("OS image is not a NEO System 3 image"),
            ProtocolError::TruncatedSegmentTable => s.append("truncated OS segment table"),
            ProtocolError::InvalidSegmentLength { offset } => {
                s.append("invalid OS segment length at offset 0x");
                crate::text::push_hex_min(&mut s, *offset as u64);
            },
            ProtocolError::NoSegments => s.append("OS image contains no flash segments"),
            ProtocolError::ResponseLength { response_got } => {
                s.append("updater response must be 8 bytes, got ");
                push_decimal(&mut s, *response_got as u64);
            },
            ProtocolError::ResponseChecksum { checksum_got, expected } => {
                s.append("updater response checksum mismatch: got 0x");
                crate::text::push_hex(&mut s, *checksum_got as u64, 2);
                s.append(", expected 0x");
                crate::text::push_hex(&mut s, *expected as u64, 2);
            },
            ProtocolError::AttributeRecordLength { record_got } => {
                s.append("file attribute record must be 40 bytes, got ");
                push_decimal(&mut s, *record_got as u64);
            },
        }
        s
    }
}

// ---------------------------------------------------------------- commands

/// The seven bytes a command carries before its checksum.
pub open spec fn command_body(code: u8, argument: u32, trailing: u16) -> Seq<u8> {
    seq![code] + be_u32_bytes(argument) + be_u16_bytes(trailing)
}

/// A command packet: code, big-endian argument, big-endian trailing word,
/// and the 8-bit sum of those seven bytes.
pub open spec fn command_packet(code: u8, argument: u32, trailing: u16) -> Seq<u8> {
    command_body(code, argument, trailing).push(sum8(command_body(code, argument, trailing)))
}

/// The packet that resets the device's updater.
pub open spec fn reset_bytes() -> Seq<u8> {
    seq![0x3f, 0xff, 0x00, 0x72, 0x65, 0x73, 0x65, 0x74]
}

/// The packet that asks the device to switch into updater mode.
pub open spec fn switch_bytes() -> Seq<u8> {
    seq![0x3f, 0x53, 0x77, 0x74, 0x63, 0x68, 0x00, 0x00]
}

/// The reply the device gives once it has switched: "Switched".
pub open spec fn switched_bytes() -> Seq<u8> {
    seq![0x53, 0x77, 0x69, 0x74, 0x63, 0x68, 0x65, 0x64]
}

/// `?\xff\0reset`
pub fn reset_packet() -> (p: [u8; 8])
    ensures
        p@ == reset_bytes(),
{
    let p: [u8; 8] = [0x3f, 0xff, 0x00, 0x72, 0x65, 0x73, 0x65, 0x74];
    assert(p@ =~= reset_bytes());
    p
}

/// `?Swtch\0\0`
pub fn switch_packet() -> (p: [u8; 8])
    ensures
        p@ == switch_bytes(),
{
    let p: [u8; 8] = [0x3f, 0x53, 0x77, 0x74, 0x63, 0x68, 0x00, 0x00];
    assert(p@ =~= switch_bytes());
    p
}

/// Builds a command packet.
pub fn command(code: u8, argument: u32, trailing: u16) -> (p: [u8; 8])
    ensures
        p@ == command_packet(code, argument, trailing),
{
    let a = u32_to_be(argument);
    let t = u16_to_be(trailing);
    let body: [u8; 7] = [code, a[0], a[1], a[2], a[3], t[0], t[1]];
    assert(body@ =~= command_body(code, argument, trailing));
    let sum = checksum8(body.as_slice());
    let p: [u8; 8] = [body[0], body[1], body[2], body[3], body[4], body[5], body[6], sum];
    assert(p@ =~= command_packet(code, argument, trailing));
    p
}

/// Lists a page of installed SmartApplets.
pub fn list_applets_command(page_offset: u32, page_size: u16) -> (p: [u8; 8])
    ensures
        p@ == command_packet(0x04, page_offset, page_size),
{
    command(0x04, page_offset, page_size)
}

/// Starts retrieving the image of one SmartApplet.
pub fn retrieve_applet_command(applet_id: u16) -> (p: [u8; 8])
    ensures
        p@ == command_packet(0x0F, 0, applet_id),
{
    command(0x0F, 0, applet_id)
}

/// Asks for the next chunk of a retrieval.
pub fn retrieve_chunk_command() -> (p: [u8; 8])
    ensures
        p@ == command_packet(0x10, 0, 0),
{
    command(0x10, 0, 0)
}

/// Starts adding a SmartApplet.
pub fn add_applet_begin_command(argument: u32, trailing: u16) -> (p: [u8; 8])
    ensures
        p@ == command_packet(0x06, argument, trailing),
{
    command(0x06, argument, trailing)
}

/// Programs the chunk most recently sent.
pub fn program_applet_command() -> (p: [u8; 8])
    ensures
        p@ == command_packet(0x0B, 0, 0),
{
    command(0x0B, 0, 0)
}

/// Finishes an applet or OS update.
pub fn finalize_applet_update_command() -> (p: [u8; 8])
    ensures
        p@ == command_packet(0x07, 0, 0),
{
    command(0x07, 0, 0)
}

/// Removes the SmartApplet at a list index.
pub fn remove_applet_by_index_command(index: u16) -> (p: [u8; 8])
    ensures
        p@ == command_packet(0x05, 5, index),
{
    command(0x05, 5, index)
}

/// Erases the whole SmartApplet area.
pub fn clear_applet_area_command() -> (p: [u8; 8])
    ensures
        p@ == command_packet(0x11, 0, 0),
{
    command(0x11, 0, 0)
}

/// Enters the Small ROM updater.
pub fn enter_small_rom_command() -> (p: [u8; 8])
    ensures
        p@ == command_packet(0x18, 0, 0),
{
    command(0x18, 0, 0)
}

/// Clears the map of OS segments to be flashed.
pub fn clear_os_segment_map_command() -> (p: [u8; 8])
    ensures
        p@ == command_packet(0x16, 0, 0),
{
    command(0x16, 0, 0)
}

/// Erases `erase_kb` kilobytes of flash at `address`.
pub fn erase_os_segment_command(address: u32, erase_kb: u16) -> (p: [u8; 8])
    ensures
        p@ == command_packet(0x17, address, erase_kb),
{
    command(0x17, address, erase_kb)
}

/// Restarts the device.
pub fn restart_device_command() -> (p: [u8; 8])
    ensures
        p@ == command_packet(0x08, 0, 0),
{
    command(0x08, 0, 0)
}

// --------------------------------------------------------------- responses

/// What an eight-byte response decodes to.
pub open spec fn response_of(p: Seq<u8>) -> Result<Response, ProtocolError> {
    if p.len() != 8 {
        Err(ProtocolError::ResponseLength { response_got: p.len() as usize })
    } else if p[7] != sum8(p.subrange(0, 7)) {
        Err(ProtocolError::ResponseChecksum { checksum_got: p[7], expected: sum8(p.subrange(0, 7)) })
    } else {
        Ok(
            Response {
                status: p[0],
                argument: be_u32_at(p, 1) as u32,
                trailing: be_u16_at(p, 5) as u16,
            },
        )
    }
}

/// Decodes and checks an updater response.
pub fn parse_response(packet: &[u8]) -> (r: Result<Response, ProtocolError>)
    ensures
        r == response_of(packet@),
{
    if packet.len() != 8 {
        return Err(ProtocolError::ResponseLength { response_got: packet.len() });
    }
    let body: [u8; 7] = [packet[0], packet[1], packet[2], packet[3], packet[4], packet[5], packet[6]];
    assert(body@ =~= packet@.subrange(0, 7));
    let expected = checksum8(body.as_slice());
    if packet[7] != expected {
        return Err(ProtocolError::ResponseChecksum { checksum_got: packet[7], expected });
    }
    Ok(
        Response {
            status: packet[0],
            argument: read_be_u32(packet[1], packet[2], packet[3], packet[4]),
            trailing: read_be_u16(packet[5], packet[6]),
        },
    )
}

/// A response is read back exactly as the command that carries the same
/// fields was built: parsing undoes `command`.
pub proof fn lemma_command_response_roundtrip(code: u8, argument: u32, trailing: u16)
    ensures
        response_of(command_packet(code, argument, trailing)) == Ok::<Response, ProtocolError>(
            Response { status: code, argument, trailing },
        ),
{
    let p = command_packet(code, argument, trailing);
    assert(p.subrange(0, 7) =~= command_body(code, argument, trailing));
    crate::bytes::lemma_be_u32_bytes_roundtrip(argument);
    crate::bytes::lemma_be_u16_bytes_roundtrip(trailing);
}

// ------------------------------------------------------------ file entries

/// Decodes an AlphaWord file attribute record: the name is the NUL-terminated
/// text of the first 0x18 bytes, the length the big-endian word at 0x1c.
pub fn parse_file_entry(slot: u8, payload: &[u8]) -> (r: Result<FileEntry, ProtocolError>)
    ensures
        payload@.len() != 0x28 <==> r == Err::<FileEntry, ProtocolError>(
            ProtocolError::AttributeRecordLength { record_got: payload@.len() as usize },
        ),
        payload@.len() == 0x28 ==> (r matches Ok(e) && e.slot == slot && e.name@ == field_text(
            payload@.subrange(0, 0x18),
        ) && e.attribute_bytes as int == be_u32_at(payload@, 0x1c)),
{
    if payload.len() != 0x28 {
        return Err(ProtocolError::AttributeRecordLength { record_got: payload.len() });
    }
    let name = read_c_string(payload, 0, 0x18);
    let attribute_bytes = read_be_u32(payload[0x1c], payload[0x1d], payload[0x1e], payload[0x1f]);
    Ok(FileEntry { slot, name, attribute_bytes })
}

// ------------------------------------------------------- SmartApplet headers

/// Value of a binary-coded-decimal byte.
pub open spec fn bcd_value(v: u8) -> u8 {
    (v % 16 + (v / 16 % 16) * 10) as u8
}

/// Decodes a binary-coded-decimal byte.
pub fn decode_bcd(value: u8) -> (r: u8)
    ensures
        r == bcd_value(value),
{
    value % 16 + (value / 16 % 16) * 10
}

/// Whether `h` holds the fields of the 0x84-byte header `p`.
pub open spec fn header_matches(h: SmartAppletHeader, p: Seq<u8>) -> bool {
    &&& h.magic as int == be_u32_at(p, 0x00)
    &&& h.file_size as int == be_u32_at(p, 0x04)
    &&& h.base_memory_size as int == be_u32_at(p, 0x08)
    &&& h.payload_or_code_size as int == be_u32_at(p, 0x0C)
    &&& h.flags_and_version as int == be_u32_at(p, 0x10)
    &&& h.applet_id as int == be_u16_at(p, 0x14)
    &&& h.header_version == p[0x16]
    &&& h.file_count == p[0x17]
    &&& h.name@ == field_text(p.subrange(0x18, 0x40))
    &&& h.version_major == bcd_value(p[0x3C])
    &&& h.version_minor == bcd_value(p[0x3D])
    &&& h.applet_class == p[0x3F]
    &&& h.copyright@ == field_text(p.subrange(0x40, 0x80))
    &&& h.extra_memory_size as int == be_u32_at(p, 0x80)
}

fn be32_at(p: &[u8], at: usize) -> (r: u32)
    requires
        at + 4 <= p@.len(),
    ensures
        r as int == be_u32_at(p@, at as int),
{
    read_be_u32(p[at], p[at + 1], p[at + 2], p[at + 3])
}

/// Decodes a SmartApplet header; it must be exactly 0x84 bytes.
pub fn parse_smartapplet_header(packet: &[u8]) -> (r: Result<SmartAppletHeader, ProtocolError>)
    ensures
        packet@.len() != SMARTAPPLET_HEADER_SIZE <==> r == Err::<SmartAppletHeader, ProtocolError>(
            ProtocolError::HeaderLength { header_got: packet@.len() as usize },
        ),
        packet@.len() == SMARTAPPLET_HEADER_SIZE ==> (r matches Ok(h) && header_matches(h, packet@)),
        r matches Ok(h) ==> h.version_major as nat == bcd_digits(packet@[0x3C]) && h.version_minor as nat
            == bcd_digits(packet@[0x3D]),
{
    if packet.len() != SMARTAPPLET_HEADER_SIZE {
        return Err(ProtocolError::HeaderLength { header_got: packet.len() });
    }
    Ok(
        SmartAppletHeader {
            magic: be32_at(packet, 0x00),
            file_size: be32_at(packet, 0x04),
            base_memory_size: be32_at(packet, 0x08),
            payload_or_code_size: be32_at(packet, 0x0C),
            flags_and_version: be32_at(packet, 0x10),
            applet_id: read_be_u16(packet[0x14], packet[0x15]),
            header_version: packet[0x16],
            file_count: packet[0x17],
            name: read_c_string(packet, 0x18, 0x28),
            version_major: decode_bcd(packet[0x3C]),
            version_minor: decode_bcd(packet[0x3D]),
            applet_class: packet[0x3F],
            copyright: read_c_string(packet, 0x40, 0x40),
            extra_memory_size: be32_at(packet, 0x80),
        },
    )
}

/// The version text of an applet: major and minor in decimal, joined by '.'.
pub open spec fn version_text(major: u8, minor: u8) -> Seq<char> {
    decimal(major as nat).push('.') + decimal(minor as nat)
}

/// Whether `r` is the record that the header `p` describes.
pub open spec fn record_matches(r: SmartAppletRecord, p: Seq<u8>) -> bool {
    &&& r.applet_id as int == be_u16_at(p, 0x14)
    &&& r.version@ == version_text(bcd_value(p[0x3C]), bcd_value(p[0x3D]))
    &&& r.name@ == field_text(p.subrange(0x18, 0x40))
    &&& r.file_size as int == be_u32_at(p, 0x04)
    &&& r.applet_class == p[0x3F]
}

/// The number two binary-coded-decimal digits stand for: the high nibble
/// is the tens, the low nibble the units.
pub open spec fn bcd_digits(b: u8) -> nat {
    ((b as int / 16) * 10 + b as int % 16) as nat
}

/// The version of a SmartApplet record is its major version in decimal, a
/// dot, and its minor version in decimal: the major is the BCD byte at 0x3C
/// of the header, the minor the BCD byte at 0x3D (so bytes 0x03 and 0x04
/// give "3.4").
pub proof fn lemma_record_version(r: SmartAppletRecord, header: Seq<u8>)
    requires
        header.len() == 0x84,
        record_matches(r, header),
    ensures
        r.version@ == decimal(bcd_digits(header[0x3C])) + seq!['.'] + decimal(bcd_digits(header[0x3D])),
        r.version@.subrange(0, decimal(bcd_digits(header[0x3C])).len() as int) == decimal(bcd_digits(header[0x3C])),
        r.version@[decimal(bcd_digits(header[0x3C])).len() as int] == '.',
{
    let major = decimal(bcd_digits(header[0x3C]));
    let minor = decimal(bcd_digits(header[0x3D]));
    assert(bcd_value(header[0x3C]) as nat == bcd_digits(header[0x3C]));
    assert(bcd_value(header[0x3D]) as nat == bcd_digits(header[0x3D]));
    assert(major.push('.') =~= major + seq!['.']);
    assert(r.version@.subrange(0, major.len() as int) =~= major);
}

/// Decodes the identity of a SmartApplet from its header.
pub fn parse_smartapplet_record(packet: &[u8]) -> (r: Result<SmartAppletRecord, ProtocolError>)
    ensures
        packet@.len() != SMARTAPPLET_HEADER_SIZE <==> r == Err::<SmartAppletRecord, ProtocolError>(
            ProtocolError::HeaderLength { header_got: packet@.len() as usize },
        ),
        packet@.len() == SMARTAPPLET_HEADER_SIZE ==> (r matches Ok(rec) && record_matches(
            rec,
            packet@,
        )),
        r matches Ok(rec) ==> rec.version@ == decimal(bcd_digits(packet@[0x3C])) + seq!['.'] + decimal(
            bcd_digits(packet@[0x3D]),
        ),
{
    let header = match parse_smartapplet_header(packet) {
        Ok(h) => h,
        Err(e) => return Err(e),
    };
    let mut version = String::new();
    push_decimal(&mut version, header.version_major as u64);
    push_char(&mut version, '.');
    push_decimal(&mut version, header.version_minor as u64);
    assert(version@ =~= version_text(header.version_major, header.version_minor));
    proof {
        lemma_record_version(
            SmartAppletRecord {
                applet_id: header.applet_id,
                version,
                name: header.name,
                file_size: header.file_size,
                applet_class: header.applet_class,
            },
            packet@,
        );
    }
    Ok(
        SmartAppletRecord {
            applet_id: header.applet_id,
            version,
            name: header.name,
            file_size: header.file_size,
            applet_class: header.applet_class,
        },
    )
}

/// The argument and trailing word of the add-applet command: the file size
/// with bits 16..24 of the total memory size (base plus extra, wrapping) in
/// its top byte, and the low 16 bits of that total.
pub open spec fn add_applet_start_fields(file_size: u32, base: u32, extra: u32) -> (u32, u16) {
    let combined = base.wrapping_add(extra);
    (file_size | ((combined & 0xFFFF_0000) << 8u32), (combined & 0xFFFF) as u16)
}

/// Computes the add-applet begin command's fields from a header.
pub fn derive_add_applet_start_fields(header: &SmartAppletHeader) -> (r: (u32, u16))
    ensures
        r == add_applet_start_fields(
            header.file_size,
            header.base_memory_size,
            header.extra_memory_size,
        ),
{
    let combined_memory_size = header.base_memory_size.wrapping_add(header.extra_memory_size);
    let argument = header.file_size | ((combined_memory_size & 0xFFFF_0000) << 8u32);
    let trailing = (combined_memory_size & 0xFFFF) as u16;
    (argument, trailing)
}

// ------------------------------------------------------- NEO System images

/// The name a NEO System image carries at bytes 6..24: "System 3 Neo      ".
pub open spec fn neo_system_name() -> Seq<u8> {
    seq![
        0x53, 0x79, 0x73, 0x74, 0x65, 0x6d, 0x20, 0x33, 0x20, 0x4e, 0x65, 0x6f, 0x20, 0x20, 0x20,
        0x20, 0x20, 0x20,
    ]
}

/// Whether `image` is long enough and carries the NEO System name.
pub open spec fn is_neo_system(image: Seq<u8>) -> bool {
    image.len() >= 0x70 && image.subrange(6, 24) == neo_system_name()
}

/// Checks bytes 6..24 against the NEO System name.
pub fn has_neo_system_name(image: &[u8]) -> (r: bool)
    requires
        image@.len() >= 24,
    ensures
        r == (image@.subrange(6, 24) == neo_system_name()),
{
    let name: [u8; 18] = [
        0x53, 0x79, 0x73, 0x74, 0x65, 0x6d, 0x20, 0x33, 0x20, 0x4e, 0x65, 0x6f, 0x20, 0x20, 0x20,
        0x20, 0x20, 0x20,
    ];
    assert(name@ =~= neo_system_name());
    let mut i: usize = 0;
    while i < 18
        invariant
            image@.len() >= 24,
            name@ == neo_system_name(),
            i <= 18,
            forall|k: int| 0 <= k < i ==> image@[6 + k] == name@[k],
        decreases 18 - i,
    {
        if image[6 + i] != name[i] {
            assert(image@.subrange(6, 24)[i as int] != neo_system_name()[i as int]);
            return false;
        }
        i = i + 1;
    }
    assert(image@.subrange(6, 24) =~= neo_system_name());
    true
}

/// The segments listed in the table of `image` from entry `offset` on: each
/// entry is a big-endian address and length; an all-zero entry or the end of
/// the image ends the table, and a zero length elsewhere is an error.
pub open spec fn segments_from(image: Seq<u8>, offset: int) -> Result<Seq<OsFlashSegment>, ProtocolError>
    decreases image.len() - offset,
{
    if offset < 0 || offset + 8 > image.len() {
        Ok(Seq::empty())
    } else {
        let address = be_u32_at(image, offset);
        let length = be_u32_at(image, offset + 4);
        if address == 0 && length == 0 {
            Ok(Seq::empty())
        } else if length == 0 {
            Err(ProtocolError::InvalidSegmentLength { offset: offset as usize })
        } else {
            match segments_from(image, offset + 8) {
                Ok(rest) => Ok(
                    seq![OsFlashSegment { address: address as u32, length: length as u32 }] + rest,
                ),
                Err(e) => Err(e),
            }
        }
    }
}

/// The flash segments a NEO System image names, or why it names none.
pub open spec fn os_segments_of(image: Seq<u8>) -> Result<Seq<OsFlashSegment>, ProtocolError> {
    if image.len() < 0x70 {
        Err(ProtocolError::OsImageTooShort)
    } else if image.subrange(6, 24) != neo_system_name() {
        Err(ProtocolError::NotNeoSystemImage)
    } else if (image.len() - 0x50) % 8 != 0 {
        Err(ProtocolError::TruncatedSegmentTable)
    } else {
        match segments_from(image, 0x50) {
            Ok(s) => if s.len() == 0 {
                Err(ProtocolError::NoSegments)
            } else {
                Ok(s)
            },
            Err(e) => Err(e),
        }
    }
}

/// `acc` followed by the segments of `r`, or the error of `r`.
pub open spec fn prepend_segments(acc: Seq<OsFlashSegment>, r: Result<Seq<OsFlashSegment>, ProtocolError>) -> Result<Seq<OsFlashSegment>, ProtocolError> {
    match r {
        Ok(rest) => Ok(acc + rest),
        Err(e) => Err(e),
    }
}

/// Reads the flash segment table of a NEO System image.
pub fn parse_neo_os_segments(image: &[u8]) -> (r: Result<Vec<OsFlashSegment>, ProtocolError>)
    ensures
        match r {
            Ok(v) => os_segments_of(image@) == Ok::<Seq<OsFlashSegment>, ProtocolError>(v@),
            Err(e) => os_segments_of(image@) == Err::<Seq<OsFlashSegment>, ProtocolError>(e),
        },
{
    if image.len() < 0x70 {
        return Err(ProtocolError::OsImageTooShort);
    }
    if !has_neo_system_name(image) {
        return Err(ProtocolError::NotNeoSystemImage);
    }
    if (image.len() - 0x50) % 8 != 0 {
        return Err(ProtocolError::TruncatedSegmentTable);
    }
    let mut segments: Vec<OsFlashSegment> = Vec::new();
    let mut offset: usize = 0x50;
    while offset < image.len()
        invariant
            0x50 <= offset <= image@.len(),
            (image@.len() - offset) % 8 == 0,
            image@.len() >= 0x70,
            (image@.len() - 0x50) % 8 == 0,
            image@.subrange(6, 24) == neo_system_name(),
            segments_from(image@, 0x50) == prepend_segments(
                segments@,
                segments_from(image@, offset as int),
            ),
        ensures
            segments_from(image@, 0x50) == Ok::<Seq<OsFlashSegment>, ProtocolError>(segments@),
        decreases image@.len() - offset,
    {
        let address = be32_at(image, offset);
        let length = be32_at(image, offset + 4);
        if address == 0 && length == 0 {
            assert(segments_from(image@, offset as int) == Ok::<Seq<OsFlashSegment>, ProtocolError>(Seq::empty()));
            assert(segments_from(image@, 0x50) == Ok::<Seq<OsFlashSegment>, ProtocolError>(segments@)) by {
                assert(segments@ + Seq::<OsFlashSegment>::empty() =~= segments@);
            }
            break;
        }
        if length == 0 {
            assert(offset + 8 <= image@.len());
            assert(segments_from(image@, offset as int) == Err::<Seq<OsFlashSegment>, ProtocolError>(
                ProtocolError::InvalidSegmentLength { offset },
            ));
            return Err(ProtocolError::InvalidSegmentLength { offset });
        }
        let ghost before = segments@;
        segments.push(OsFlashSegment { address, length });
        proof {
            let seg = OsFlashSegment { address, length };
            assert(segments@ =~= before + seq![seg]);
            match segments_from(image@, offset + 8) {
                Ok(rest) => {
                    assert(before + (seq![seg] + rest) =~= segments@ + rest);
                },
                Err(e) => {},
            }
        }
        offset = offset + 8;
        if offset == image.len() {
            assert(segments@ + Seq::<OsFlashSegment>::empty() =~= segments@);
        }
    }
    if segments.len() == 0 {
        return Err(ProtocolError::NoSegments);
    }
    Ok(segments)
}


/// Segment `i` of the table read from entry `offset` on is the entry `i`
/// places further, with a non-zero length.
proof fn lemma_segment_entry(image: Seq<u8>, offset: int, i: int)
    requires
        0 <= offset,
        segments_from(image, offset) is Ok,
        0 <= i < segments_from(image, offset)->Ok_0.len(),
    ensures
        offset + 8 * i + 8 <= image.len(),
        segments_from(image, offset)->Ok_0[i] == (OsFlashSegment {
            address: be_u32_at(image, offset + 8 * i) as u32,
            length: be_u32_at(image, offset + 8 * i + 4) as u32,
        }),
        be_u32_at(image, offset + 8 * i + 4) != 0,
    decreases i,
{
    let s = segments_from(image, offset)->Ok_0;
    assert(offset + 8 <= image.len());
    let rest = segments_from(image, offset + 8);
    assert(rest is Ok);
    assert(s == seq![OsFlashSegment {
        address: be_u32_at(image, offset) as u32,
        length: be_u32_at(image, offset + 4) as u32,
    }] + rest->Ok_0);
    if i > 0 {
        lemma_segment_entry(image, offset + 8, i - 1);
        assert(s[i] == rest->Ok_0[i - 1]);
        assert(offset + 8 + 8 * (i - 1) == offset + 8 * i);
    }
}

/// Whether `seg` is entry `i` of the segment table at 0x50 of `image`,
/// lying within the image, with a non-zero length.
pub open spec fn is_table_entry(image: Seq<u8>, i: int, seg: OsFlashSegment) -> bool {
    &&& 0x50 + 8 * i + 8 <= image.len()
    &&& seg.address == be_u32_at(image, 0x50 + 8 * i) as u32
    &&& seg.length == be_u32_at(image, 0x54 + 8 * i) as u32
    &&& be_u32_at(image, 0x54 + 8 * i) != 0
}

/// The segments a NEO System image names are its table's entries at 0x50,
/// 0x58, ... in order, each with a non-zero length, and there is at least
/// one.
pub proof fn lemma_os_segment_entries(image: Seq<u8>)
    ensures
        os_segments_of(image) matches Ok(s) ==> s.len() > 0 && forall|i: int|
            0 <= i < s.len() ==> is_table_entry(image, i, #[trigger] s[i]),
{
    if os_segments_of(image) is Ok {
        let s = os_segments_of(image)->Ok_0;
        assert(segments_from(image, 0x50) == os_segments_of(image));
        assert forall|i: int| 0 <= i < s.len() implies is_table_entry(image, i, #[trigger] s[i]) by {
            lemma_segment_entry(image, 0x50, i);
            assert(0x50 + 8 * i + 4 == 0x54 + 8 * i);
        }
    }
}

} // verus!
