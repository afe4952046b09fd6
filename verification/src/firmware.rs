//! Firmware images for the emulator: the small ROM, whose reset vectors
//! start the CPU, and the full NEO system image, whose segment table says
//! where each part of the file is loaded.

use vstd::prelude::*;
use crate::bytes::{be_u32_at, read_be_u32};

verus! {

/// A firmware image.
#[derive(Clone, Debug)]
pub struct FirmwareRuntime {
    image: Vec<u8>,
}

/// A part of the system image: where it is loaded, where it is in the file,
/// and how long it is.
#[derive(Clone, Copy, Debug, PartialEq, Eq, Structural)]
pub struct FirmwareSegment {
    pub address: u32,
    pub file_offset: usize,
    pub length: usize,
}

/// Why an image could not be used.
#[derive(Clone, Debug, PartialEq, Eq)]
pub enum FirmwareError {
    Read(String),
    MissingResetVectors,
    InvalidSegmentTable,
}

/// The system name a full NEO system image carries at offset 6.
pub open spec fn neo_system_tag() -> Seq<u8> {
    seq![
        0x53u8, 0x79, 0x73, 0x74, 0x65, 0x6D, 0x20, 0x33, 0x20, 0x4E, 0x65, 0x6F, 0x20, 0x20, 0x20, 0x20,
        0x20, 0x20,
    ]
}

/// Whether an image is the full NEO system image.
pub open spec fn is_neo_system(image: Seq<u8>) -> bool {
    image.len() >= 0x70 && image.subrange(6, 24) == neo_system_tag()
}

/// The segment table entries from table offset `at`, with the data of the
/// first of them at `data`; `None` for a malformed table.
pub open spec fn segment_table(image: Seq<u8>, at: int, data: int) -> Option<Seq<FirmwareSegment>>
    decreases image.len() - at,
{
    if at >= image.len() || at < 0 {
        Some(Seq::empty())
    } else if at + 8 > image.len() {
        None
    } else {
        let address = be_u32_at(image, at);
        let length = be_u32_at(image, at + 4);
        if address == 0 && length == 0 {
            Some(Seq::empty())
        } else if length == 0 || data + length > image.len() {
            None
        } else {
            match segment_table(image, at + 8, data + length) {
                Some(rest) => Some(seq![FirmwareSegment {
                    address: address as u32,
                    file_offset: data as usize,
                    length: length as usize,
                }] + rest),
                None => None,
            }
        }
    }
}

/// Segment `i` of the table read from entry `at` on, its data starting at
/// `data`: the entry `i` places further, non-empty, within the image, and
/// its data right after the data of the segment before.
proof fn lemma_table_segment(image: Seq<u8>, at: int, data: int, i: int)
    requires
        0 <= at,
        0 <= data,
        image.len() <= usize::MAX,
        segment_table(image, at, data) is Some,
        0 <= i < segment_table(image, at, data)->Some_0.len(),
    ensures
        ({
            let s = segment_table(image, at, data)->Some_0;
            &&& at + 8 * i + 8 <= image.len()
            &&& s[i].address == be_u32_at(image, at + 8 * i) as u32
            &&& s[i].length > 0
            &&& s[i].file_offset + s[i].length <= image.len()
            &&& i == 0 ==> s[i].file_offset == data
            &&& i + 1 < s.len() ==> s[i + 1].file_offset == s[i].file_offset + s[i].length
        }),
    decreases image.len() - at,
{
    let s = segment_table(image, at, data)->Some_0;
    let length = be_u32_at(image, at + 4);
    assert(at + 8 <= image.len());
    let rest = segment_table(image, at + 8, data + length);
    assert(rest is Some);
    assert(s == seq![FirmwareSegment {
        address: be_u32_at(image, at) as u32,
        file_offset: data as usize,
        length: length as usize,
    }] + rest->Some_0);
    if i == 0 {
        if s.len() > 1 {
            lemma_table_segment(image, at + 8, data + length, 0);
            assert(s[1] == rest->Some_0[0]);
        }
    } else {
        lemma_table_segment(image, at + 8, data + length, i - 1);
        assert(s[i] == rest->Some_0[i - 1]);
        if i + 1 < s.len() {
            assert(s[i + 1] == rest->Some_0[i]);
        }
        assert(at + 8 + 8 * (i - 1) == at + 8 * i);
    }
}

/// Whether segment `i` of `s` is the non-empty entry `i` of the table at
/// 0x50 of `image`, its data within the image and right after the data of
/// the segment before it.
pub open spec fn chained_segment(image: Seq<u8>, s: Seq<FirmwareSegment>, i: int) -> bool {
    &&& 0x50 + 8 * i + 8 <= image.len()
    &&& s[i].address == be_u32_at(image, 0x50 + 8 * i) as u32
    &&& s[i].length > 0
    &&& s[i].file_offset + s[i].length <= image.len()
    &&& i == 0 ==> s[i].file_offset == 0x70
    &&& i + 1 < s.len() ==> s[i + 1].file_offset == s[i].file_offset + s[i].length
}

/// The segments of a NEO System image's table are chained: each a
/// non-empty entry of the table at 0x50 in order, lying within the image,
/// the first one's data at 0x70 and each next one's right after the one
/// before.
pub proof fn lemma_segment_table_chain(image: Seq<u8>)
    requires
        image.len() <= usize::MAX,
    ensures
        segment_table(image, 0x50, 0x70) matches Some(s) ==> forall|i: int|
            0 <= i < s.len() ==> #[trigger] chained_segment(image, s, i),
{
    if segment_table(image, 0x50, 0x70) is Some {
        let s = segment_table(image, 0x50, 0x70)->Some_0;
        assert forall|i: int| 0 <= i < s.len() implies #[trigger] chained_segment(image, s, i) by {
            lemma_table_segment(image, 0x50, 0x70, i);
        }
    }
}

impl FirmwareRuntime {
    /// The image bytes.
    pub closed spec fn bytes(&self) -> Seq<u8> {
        self.image@
    }

    /// A runtime for an image read from a file.
    pub fn from_image(image: Vec<u8>) -> (r: Self)
        ensures
            r.bytes() == image@,
    {
        FirmwareRuntime { image }
    }

    /// The image bytes.
    pub fn image(&self) -> (r: &[u8])
        ensures
            r@ == self.bytes(),
    {
        self.image.as_slice()
    }

    /// The initial stack pointer and program counter of the image.
    pub fn reset_vectors(&self) -> (r: Result<(u32, u32), FirmwareError>)
        ensures
            self.bytes().len() >= 8 ==> r == Ok::<(u32, u32), FirmwareError>(
                (be_u32_at(self.bytes(), 0) as u32, be_u32_at(self.bytes(), 4) as u32),
            ),
            self.bytes().len() < 8 ==> r == Err::<(u32, u32), FirmwareError>(FirmwareError::MissingResetVectors),
    {
        if self.image.len() < 8 {
            return Err(FirmwareError::MissingResetVectors);
        }
        let ssp = read_be_u32(self.image[0], self.image[1], self.image[2], self.image[3]);
        let pc = read_be_u32(self.image[4], self.image[5], self.image[6], self.image[7]);
        Ok((ssp, pc))
    }

    /// Where the CPU starts: the system image's fixed entry point, or the
    /// reset vectors of any other image.
    pub fn boot_vectors(&self) -> (r: Result<(u32, u32), FirmwareError>)
        ensures
            is_neo_system(self.bytes()) ==> r == Ok::<(u32, u32), FirmwareError>((0x0007_fff0u32, 0x0041_0082u32)),
            !is_neo_system(self.bytes()) && self.bytes().len() >= 8 ==> r == Ok::<(u32, u32), FirmwareError>(
                (be_u32_at(self.bytes(), 0) as u32, be_u32_at(self.bytes(), 4) as u32),
            ),
            !is_neo_system(self.bytes()) && self.bytes().len() < 8 ==> r == Err::<(u32, u32), FirmwareError>(
                FirmwareError::MissingResetVectors,
            ),
    {
        if self.is_neo_system_image() {
            return Ok((0x0007_fff0, 0x0041_0082));
        }
        self.reset_vectors()
    }

    /// The segments of the system image: none for another image; an error
    /// for a malformed table.
    pub fn neo_system_segments(&self) -> (r: Result<Vec<FirmwareSegment>, FirmwareError>)
        ensures
            !is_neo_system(self.bytes()) ==> (r matches Ok(v) && v@.len() == 0),
            is_neo_system(self.bytes()) ==> match segment_table(self.bytes(), 0x50, 0x70) {
                Some(segs) => r matches Ok(v) && v@ == segs,
                None => r == Err::<Vec<FirmwareSegment>, FirmwareError>(FirmwareError::InvalidSegmentTable),
            },
    {
        if !self.is_neo_system_image() {
            return Ok(Vec::new());
        }
        let ghost img = self.image@;
        let ghost target = segment_table(img, 0x50, 0x70);
        let mut segments: Vec<FirmwareSegment> = Vec::new();
        let mut data_offset: usize = 0x70;
        let mut offset: usize = 0x50;
        while offset < self.image.len()
            invariant
                img == self.image@,
                is_neo_system(img),
                target == segment_table(img, 0x50, 0x70),
                0x50 <= offset,
                offset % 8 == 0,
                data_offset <= img.len(),
                target == (match segment_table(img, offset as int, data_offset as int) {
                    Some(rest) => Some(segments@ + rest),
                    None => None::<Seq<FirmwareSegment>>,
                }),
            decreases img.len() - offset,
        {
            if self.image.len() - offset < 8 {
                return Err(FirmwareError::InvalidSegmentTable);
            }
            let address = read_be_u32(self.image[offset], self.image[offset + 1], self.image[offset + 2], self.image[offset + 3]);
            let length = read_be_u32(self.image[offset + 4], self.image[offset + 5], self.image[offset + 6], self.image[offset + 7]);
            if address == 0 && length == 0 {
                assert(segments@ + Seq::<FirmwareSegment>::empty() =~= segments@);
                return Ok(segments);
            }
            if length == 0 {
                return Err(FirmwareError::InvalidSegmentTable);
            }
            if length as usize > self.image.len() - data_offset {
                return Err(FirmwareError::InvalidSegmentTable);
            }
            let seg = FirmwareSegment { address, file_offset: data_offset, length: length as usize };
            let ghost before = segments@;
            segments.push(seg);
            proof {
                match segment_table(img, offset + 8, data_offset + length) {
                    Some(rest) => {
                        assert(before + (seq![seg] + rest) =~= segments@ + rest);
                    },
                    None => {},
                }
            }
            data_offset = data_offset + length as usize;
            offset = offset + 8;
        }
        assert(segments@ + Seq::<FirmwareSegment>::empty() =~= segments@);
        Ok(segments)
    }

    /// Whether this is the full NEO system image.
    pub fn is_neo_system_image(&self) -> (r: bool)
        ensures
            r == is_neo_system(self.bytes()),
    {
        if self.image.len() < 0x70 {
            return false;
        }
        let tag: [u8; 18] = [
            0x53, 0x79, 0x73, 0x74, 0x65, 0x6D, 0x20, 0x33, 0x20, 0x4E, 0x65, 0x6F, 0x20, 0x20, 0x20, 0x20, 0x20, 0x20,
        ];
        assert(tag@ =~= neo_system_tag());
        let mut i: usize = 0;
        while i < 18
            invariant
                i <= 18,
                self.image@.len() >= 0x70,
                tag@ == neo_system_tag(),
                forall|k: int| 0 <= k < i ==> self.image@[6 + k] == tag@[k],
            decreases 18 - i,
        {
            if self.image[6 + i] != tag[i] {
                assert(self.image@.subrange(6, 24)[i as int] != neo_system_tag()[i as int]);
                return false;
            }
            i = i + 1;
        }
        assert(self.image@.subrange(6, 24) =~= neo_system_tag());
        true
    }
}

} // verus!
