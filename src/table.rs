use vstd::prelude::*;
use crate::record::read_record;
use crate::record::record_at;
use crate::record::FileRecord;
use crate::record::RECORD_LEN;
use crate::record::STORED;

verus! {

/// The table is searched for in the image's first mebibyte only, so that the
/// search stays short whatever the image holds.
pub const SCAN_LIMIT: usize = 0x0010_0000;

/// What the first record of a table looks like: it maps a non-empty file, stored
/// verbatim, to the start of the virtual address space.
pub open spec fn is_signature(rec: FileRecord) -> bool {
    rec.virtual_start == 0 && rec.virtual_end != 0 && rec.physical_end == STORED
}

/// The first record-aligned offset at or after `off`, and before `SCAN_LIMIT`,
/// that holds a whole record matching the signature.
pub open spec fn scan_from(raw: Seq<u8>, off: int) -> Option<int>
    decreases SCAN_LIMIT + RECORD_LEN - off,
{
    if off < 0 || off >= SCAN_LIMIT || off + RECORD_LEN > raw.len() {
        None
    } else if is_signature(record_at(raw, off)) {
        Some(off)
    } else {
        scan_from(raw, off + RECORD_LEN)
    }
}

/// Where the table of `raw` starts, if the scan finds one.
pub open spec fn locate_spec(raw: Seq<u8>) -> Option<int> {
    scan_from(raw, 0)
}

/// The records from offset `off` on, up to the all-zero record that ends the
/// table or the end of the image, whichever comes first.
pub open spec fn table_from(raw: Seq<u8>, off: int) -> Seq<FileRecord>
    decreases raw.len() - off,
{
    if off < 0 || off + RECORD_LEN > raw.len() || record_at(raw, off).is_terminator() {
        Seq::empty()
    } else {
        seq![record_at(raw, off)] + table_from(raw, off + RECORD_LEN)
    }
}

/// Scans the start of the image, one record width at a time, for the table.
pub fn locate_table(raw: &[u8]) -> (r: Option<usize>)
    ensures
        r matches Some(t) ==> locate_spec(raw@) == Some(t as int),
        r is None ==> locate_spec(raw@) is None,
{
    let n = raw.len();
    let mut off: usize = 0;
    while off < SCAN_LIMIT && off + RECORD_LEN <= n
        invariant
            n == raw@.len(),
            off <= SCAN_LIMIT + RECORD_LEN,
            scan_from(raw@, off as int) == locate_spec(raw@),
        decreases SCAN_LIMIT + RECORD_LEN - off,
    {
        let rec = read_record(raw, off);
        if rec.virtual_start == 0 && rec.virtual_end != 0 && rec.physical_end == STORED {
            return Some(off);
        }
        off = off + RECORD_LEN;
    }
    None
}

/// Reads the records of the table that starts at `off`.
pub fn read_table(raw: &[u8], off: usize) -> (r: Vec<FileRecord>)
    ensures
        r@ == table_from(raw@, off as int),
{
    let n = raw.len();
    let mut v: Vec<FileRecord> = Vec::new();
    let mut cur: usize = off;
    while cur <= n && RECORD_LEN <= n - cur
        invariant
            n == raw@.len(),
            v@ + table_from(raw@, cur as int) == table_from(raw@, off as int),
        decreases n - cur,
    {
        let rec = read_record(raw, cur);
        if rec.virtual_start == 0 && rec.virtual_end == 0 && rec.physical_start == 0
            && rec.physical_end == 0 {
            assert(table_from(raw@, cur as int) == Seq::<FileRecord>::empty());
            assert(v@ + Seq::<FileRecord>::empty() =~= v@);
            return v;
        }
        proof {
            assert(v@.push(rec) + table_from(raw@, cur + RECORD_LEN) =~= v@ + table_from(raw@, cur as int));
        }
        v.push(rec);
        cur = cur + RECORD_LEN;
    }
    assert(table_from(raw@, cur as int) == Seq::<FileRecord>::empty());
    assert(v@ + Seq::<FileRecord>::empty() =~= v@);
    v
}

} // verus!
