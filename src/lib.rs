//! Decompression of a cartridge image whose files are listed in a table of
//! records, each stored verbatim or compressed, into one contiguous image
//! addressed by virtual offset.
use vstd::prelude::*;

pub mod assemble;
pub mod codec;
pub mod error;
pub mod laws;
pub mod record;
pub mod table;

use crate::assemble::assemble;
use crate::assemble::assemble_spec;
use crate::assemble::image_result;
use crate::error::DecompressError;
use crate::record::FileRecord;
use crate::table::locate_spec;
use crate::table::locate_table;
use crate::table::read_table;
use crate::table::table_from;

verus! {

/// Exact length in bytes of a cartridge image.
pub const ROM_SIZE: usize = 0x0200_0000;

/// The table found at `off` of `raw`, assembled; a table with no record is no table.
pub open spec fn assemble_table_spec(raw: Seq<u8>, off: int) -> Result<Seq<u8>, DecompressError> {
    let recs: Seq<FileRecord> = table_from(raw, off);
    if recs.len() == 0 {
        Err(DecompressError::TableNotFound)
    } else {
        assemble_spec(raw, recs)
    }
}

/// The outcome of decompressing `raw`: the size is checked before anything is
/// read, then the table is searched for and its records assembled.
pub open spec fn decompress_spec(raw: Seq<u8>) -> Result<Seq<u8>, DecompressError> {
    if raw.len() != ROM_SIZE {
        Err(DecompressError::InputSize(raw.len() as usize))
    } else {
        match locate_spec(raw) {
            None => Err(DecompressError::TableNotFound),
            Some(t) => assemble_table_spec(raw, t),
        }
    }
}

/// The outcome of decompressing `raw` with its table taken at the fixed offset `off`.
pub open spec fn decompress_at_spec(raw: Seq<u8>, off: int) -> Result<Seq<u8>, DecompressError> {
    if raw.len() != ROM_SIZE {
        Err(DecompressError::InputSize(raw.len() as usize))
    } else {
        assemble_table_spec(raw, off)
    }
}

fn assemble_table(raw: &[u8], off: usize) -> (r: Result<Vec<u8>, DecompressError>)
    ensures
        image_result(r) == assemble_table_spec(raw@, off as int),
{
    let recs = read_table(raw, off);
    if recs.len() == 0 {
        return Err(DecompressError::TableNotFound);
    }
    assemble(raw, &recs)
}

/// Decompresses a whole cartridge image, locating its file table by scanning.
pub fn decompress(raw: &[u8]) -> (r: Result<Vec<u8>, DecompressError>)
    ensures
        image_result(r) == decompress_spec(raw@),
{
    if raw.len() != ROM_SIZE {
        return Err(DecompressError::InputSize(raw.len()));
    }
    match locate_table(raw) {
        None => Err(DecompressError::TableNotFound),
        Some(t) => assemble_table(raw, t),
    }
}

/// Decompresses a whole cartridge image whose file table is known to start at
/// `table_offset`, for layouts where the table's place is fixed.
pub fn decompress_at(raw: &[u8], table_offset: usize) -> (r: Result<Vec<u8>, DecompressError>)
    ensures
        image_result(r) == decompress_at_spec(raw@, table_offset as int),
{
    if raw.len() != ROM_SIZE {
        return Err(DecompressError::InputSize(raw.len()));
    }
    assemble_table(raw, table_offset)
}

} // verus!
