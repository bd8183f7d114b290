use vstd::prelude::*;
use vstd::slice::slice_subrange;
use vstd::slice::slice_to_vec;
use crate::codec::be_u32;
use crate::codec::bytes_result;
use crate::codec::decode_spec;
use crate::codec::decode_stream;
use crate::error::CorruptCause;
use crate::ROM_SIZE;

verus! {

/// Value of `physical_end` that marks a record stored without compression.
pub const STORED: u32 = 0xFFFF_FFFF;

/// Size in bytes of one record of the file table.
pub const RECORD_LEN: usize = 16;

/// One entry of the file table: where a file's decompressed bytes belong
/// (virtual range) and where its source bytes lie in the raw image (physical range).
#[derive(Clone, Copy, Debug, PartialEq, Eq, Structural)]
pub struct FileRecord {
    pub virtual_start: u32,
    pub virtual_end: u32,
    pub physical_start: u32,
    pub physical_end: u32,
}

/// How a record's source bytes are kept.
#[derive(Clone, Copy, Debug, PartialEq, Eq, Structural)]
pub enum Storage {
    /// Verbatim, as many bytes as the virtual range spans.
    Stored,
    /// A compressed stream occupying the physical range up to `physical_end`.
    Compressed { physical_end: u32 },
}

impl FileRecord {
    pub open spec fn spec_storage(self) -> Storage {
        if self.physical_end == STORED {
            Storage::Stored
        } else {
            Storage::Compressed { physical_end: self.physical_end }
        }
    }

    /// The storage kind, with the sentinel turned into a tag.
    pub fn storage(&self) -> (r: Storage)
        ensures
            r == self.spec_storage(),
    {
        if self.physical_end == STORED {
            Storage::Stored
        } else {
            Storage::Compressed { physical_end: self.physical_end }
        }
    }

    /// Number of decompressed bytes the record contributes.
    pub open spec fn virtual_len(self) -> int {
        self.virtual_end - self.virtual_start
    }

    /// Ranges in order and inside the image, the sentinel excepted.
    pub open spec fn is_valid(self) -> bool {
        &&& self.virtual_start <= self.virtual_end <= ROM_SIZE
        &&& self.physical_start <= ROM_SIZE
        &&& (self.physical_end == STORED || self.physical_start <= self.physical_end <= ROM_SIZE)
    }

    /// Checks the field constraints that every table record must meet.
    pub fn validate(&self) -> (r: bool)
        ensures
            r == self.is_valid(),
    {
        self.virtual_start <= self.virtual_end && self.virtual_end as usize <= ROM_SIZE
            && self.physical_start as usize <= ROM_SIZE && (self.physical_end == STORED || (
        self.physical_start <= self.physical_end && self.physical_end as usize <= ROM_SIZE))
    }

    /// The all-zero record that ends the table.
    pub open spec fn is_terminator(self) -> bool {
        self.virtual_start == 0 && self.virtual_end == 0 && self.physical_start == 0
            && self.physical_end == 0
    }

    /// Whether the virtual ranges of two records share at least one address.
    pub open spec fn overlaps(self, other: FileRecord) -> bool {
        &&& self.virtual_start < self.virtual_end
        &&& other.virtual_start < other.virtual_end
        &&& self.virtual_start < other.virtual_end
        &&& other.virtual_start < self.virtual_end
    }
}

/// The record whose four big-endian words start at offset `off` of `raw`.
pub open spec fn record_at(raw: Seq<u8>, off: int) -> FileRecord {
    FileRecord {
        virtual_start: be_u32(raw, off),
        virtual_end: be_u32(raw, off + 4),
        physical_start: be_u32(raw, off + 8),
        physical_end: be_u32(raw, off + 12),
    }
}

fn read_be_u32(raw: &[u8], off: usize) -> (r: u32)
    requires
        off + 4 <= raw@.len(),
    ensures
        r == be_u32(raw@, off as int),
{
    ((raw[off] as u32) << 24u32) | ((raw[off + 1] as u32) << 16u32) | ((raw[off + 2] as u32)
        << 8u32) | (raw[off + 3] as u32)
}

/// Reads the record at offset `off` of the image.
pub fn read_record(raw: &[u8], off: usize) -> (r: FileRecord)
    requires
        off + RECORD_LEN <= raw@.len(),
    ensures
        r == record_at(raw@, off as int),
{
    let _n = raw.len();
    FileRecord {
        virtual_start: read_be_u32(raw, off),
        virtual_end: read_be_u32(raw, off + 4),
        physical_start: read_be_u32(raw, off + 8),
        physical_end: read_be_u32(raw, off + 12),
    }
}

/// The decompressed bytes of one record of the image `raw`.
pub open spec fn segment_spec(raw: Seq<u8>, rec: FileRecord) -> Result<Seq<u8>, CorruptCause> {
    let len = rec.virtual_end - rec.virtual_start;
    let ps = rec.physical_start as int;
    if len <= 0 {
        Ok(Seq::empty())
    } else {
        match rec.spec_storage() {
            Storage::Stored => if ps + len > raw.len() {
                Err(CorruptCause::OutOfBounds)
            } else {
                Ok(raw.subrange(ps, ps + len))
            },
            Storage::Compressed { physical_end } => if !(ps <= physical_end <= raw.len()) {
                Err(CorruptCause::OutOfBounds)
            } else {
                decode_spec(raw.subrange(ps, physical_end as int), len as nat)
            },
        }
    }
}

/// Produces the decompressed bytes of `rec`: nothing for an empty virtual range,
/// a verbatim copy for a stored record, the decoded stream for a compressed one.
pub fn decode_record(raw: &[u8], rec: &FileRecord) -> (r: Result<Vec<u8>, CorruptCause>)
    ensures
        bytes_result(r) == segment_spec(raw@, *rec),
        r is Ok && rec.virtual_start <= rec.virtual_end ==> r->Ok_0@.len() == rec.virtual_len(),
{
    if rec.virtual_end <= rec.virtual_start {
        return Ok(Vec::new());
    }
    let len: u32 = rec.virtual_end - rec.virtual_start;
    let ps: usize = rec.physical_start as usize;
    match rec.storage() {
        Storage::Stored => {
            if ps > raw.len() || len as usize > raw.len() - ps {
                return Err(CorruptCause::OutOfBounds);
            }
            Ok(slice_to_vec(slice_subrange(raw, ps, ps + len as usize)))
        },
        Storage::Compressed { physical_end } => {
            let pe: usize = physical_end as usize;
            if !(ps <= pe && pe <= raw.len()) {
                return Err(CorruptCause::OutOfBounds);
            }
            decode_stream(slice_subrange(raw, ps, pe), len)
        },
    }
}

} // verus!
