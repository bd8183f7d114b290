use vstd::prelude::*;
use crate::assemble::assemble_spec;
use crate::assemble::fill_prefix;
use crate::assemble::first_invalid_from;
use crate::assemble::overlaps_earlier;
use crate::error::CorruptCause;
use crate::error::DecompressError;
use crate::record::record_at;
use crate::record::segment_spec;
use crate::record::FileRecord;
use crate::record::RECORD_LEN;
use crate::table::is_signature;
use crate::table::scan_from;
use crate::table::SCAN_LIMIT;
use crate::codec::be_u32;
use crate::codec::decode_spec;
use crate::codec::run;
use crate::decompress_spec;
use crate::ROM_SIZE;

verus! {

/// An input of the wrong length fails with `InputSize`, and its contents play no
/// part: any two inputs of that length give the same outcome.
pub proof fn lemma_wrong_size(a: Seq<u8>, b: Seq<u8>)
    requires
        a.len() != ROM_SIZE,
        a.len() == b.len(),
        a.len() <= usize::MAX,
    ensures
        decompress_spec(a) == Err::<Seq<u8>, DecompressError>(DecompressError::InputSize(a.len() as usize)),
        decompress_spec(a) == decompress_spec(b),
{
}

proof fn lemma_scan_none(raw: Seq<u8>, off: int)
    requires
        0 <= off,
        off % (RECORD_LEN as int) == 0,
        forall|t: int| off <= t < SCAN_LIMIT && t % (RECORD_LEN as int) == 0 && t + RECORD_LEN <= raw.len()
            ==> !is_signature(#[trigger] record_at(raw, t)),
    ensures
        scan_from(raw, off) is None,
    decreases SCAN_LIMIT + RECORD_LEN - off,
{
    if off < SCAN_LIMIT && off + RECORD_LEN <= raw.len() {
        lemma_scan_none(raw, off + RECORD_LEN);
    }
}

/// An image of the right size with no record matching the table signature at
/// any record-aligned offset of the scanned window fails with `TableNotFound`.
pub proof fn lemma_no_table(raw: Seq<u8>)
    requires
        raw.len() == ROM_SIZE,
        forall|t: int| 0 <= t < SCAN_LIMIT && t % (RECORD_LEN as int) == 0
            ==> !is_signature(#[trigger] record_at(raw, t)),
    ensures
        decompress_spec(raw) == Err::<Seq<u8>, DecompressError>(DecompressError::TableNotFound),
{
    lemma_scan_none(raw, 0);
}

/// Decompression is a function of the input bytes alone: the same image always
/// gives the same outcome.
pub proof fn lemma_deterministic(a: Seq<u8>, b: Seq<u8>)
    requires
        a == b,
    ensures
        decompress_spec(a) == decompress_spec(b),
{
}

/// A record with an empty virtual range yields no bytes and no error, whatever
/// its physical range holds.
pub proof fn lemma_empty_record(raw: Seq<u8>, rec: FileRecord)
    requires
        rec.virtual_start == rec.virtual_end,
    ensures
        segment_spec(raw, rec) == Ok::<Seq<u8>, CorruptCause>(Seq::empty()),
{
}

proof fn lemma_fill_err_after(raw: Seq<u8>, recs: Seq<FileRecord>, m: int, n: int)
    requires
        0 <= m <= n,
        fill_prefix(raw, recs, m) matches Err(DecompressError::RecordCorrupt(_, _)),
    ensures
        fill_prefix(raw, recs, n) matches Err(DecompressError::RecordCorrupt(_, _)),
    decreases n - m,
{
    if m < n {
        lemma_fill_err_after(raw, recs, m + 1, n);
    }
}

proof fn lemma_fill_err_kind(raw: Seq<u8>, recs: Seq<FileRecord>, m: int)
    requires
        fill_prefix(raw, recs, m) is Err,
    ensures
        fill_prefix(raw, recs, m) matches Err(DecompressError::RecordCorrupt(_, _)),
    decreases m,
{
    if m > 0 && fill_prefix(raw, recs, m - 1) is Err {
        lemma_fill_err_kind(raw, recs, m - 1);
    }
}

/// Two records of one table whose virtual ranges intersect make assembly fail
/// with a corrupt-record error; no record silently overwrites another.
pub proof fn lemma_overlap_fails(raw: Seq<u8>, recs: Seq<FileRecord>, i: int, j: int)
    requires
        0 <= j < i < recs.len(),
        recs[j].overlaps(recs[i]),
    ensures
        assemble_spec(raw, recs) matches Err(DecompressError::RecordCorrupt(_, _)),
{
    if first_invalid_from(recs, 0) is None {
        assert(overlaps_earlier(recs, i));
        assert(fill_prefix(raw, recs, i + 1) is Err);
        lemma_fill_err_kind(raw, recs, i + 1);
        lemma_fill_err_after(raw, recs, i + 1, recs.len() as int);
    }
}

/// A stream header declaring `len` decompressed bytes.
pub open spec fn stream_header(len: u32) -> Seq<u8> {
    seq![
        0x59u8, 0x61u8, 0x7Au8, 0x30u8,
        (len >> 24u32) as u8, (len >> 16u32) as u8, (len >> 8u32) as u8, len as u8,
        0u8, 0u8, 0u8, 0u8, 0u8, 0u8, 0u8, 0u8,
    ]
}

proof fn lemma_header_len(len: u32)
    ensures
        be_u32(stream_header(len), 4) == len,
{
    let h = stream_header(len);
    let (a, b, c, d) = ((len >> 24u32) as u8, (len >> 16u32) as u8, (len >> 8u32) as u8, len as u8);
    assert(h[4] == a && h[5] == b && h[6] == c && h[7] == d);
    assert((((a as u32) << 24u32) | ((b as u32) << 16u32) | ((c as u32) << 8u32) | (d as u32)) == len)
        by (bit_vector)
        requires
            a == (len >> 24u32) as u8,
            b == (len >> 16u32) as u8,
            c == (len >> 8u32) as u8,
            d == len as u8,
    ;
}

/// A run of `n + 1` equal bytes, encoded as one literal followed by one
/// back-reference of length `n` at distance 1 (a copy that overlaps its own
/// output), decodes back to that run.
pub proof fn lemma_run_round_trip(x: u8, n: nat)
    requires
        3 <= n <= 17,
    ensures
        decode_spec(stream_header((n + 1) as u32) + seq![0x80u8, x, ((n - 2) * 16) as u8, 0u8], n + 1)
            == Ok::<Seq<u8>, CorruptCause>(Seq::new(n + 1, |k: int| x)),
{
    let src = stream_header((n + 1) as u32) + seq![0x80u8, x, ((n - 2) * 16) as u8, 0u8];
    lemma_header_len((n + 1) as u32);
    assert(src.subrange(0, 16) =~= stream_header((n + 1) as u32));
    assert(be_u32(src, 4) == be_u32(stream_header((n + 1) as u32), 4));
    assert(src[16] == 0x80u8 && src[17] == x && src[18] == ((n - 2) * 16) as u8 && src[19] == 0u8);
    let one = seq![x];
    assert(Seq::<u8>::empty().push(x) =~= one);
    assert(run(src, 16, 0, 0, Seq::empty(), n + 1) == run(src, 18, 0u8, 7, one, n + 1));
    let nib = src[18] / 16;
    assert(nib == n - 2);
    let done = crate::codec::copy_back(one, 1, n);
    assert(done =~= Seq::new(n + 1, |k: int| x));
    assert(run(src, 18, 0u8, 7, one, n + 1) == run(src, 20, 0u8, 6, done, n + 1));
}

/// Coding units that carry `data` as literals only: before each run of up to
/// eight bytes, a group byte with every flag set.
pub open spec fn literal_units(data: Seq<u8>) -> Seq<u8>
    decreases data.len(),
{
    if data.len() == 0 {
        Seq::empty()
    } else if data.len() <= 8 {
        seq![0xFFu8] + data
    } else {
        seq![0xFFu8] + data.take(8) + literal_units(data.skip(8))
    }
}

/// A group byte whose `b` most significant flags are set and the rest clear.
spec fn top_flags(b: nat) -> u8 {
    if b >= 8 {
        0xFF
    } else if b == 7 {
        0xFE
    } else if b == 6 {
        0xFC
    } else if b == 5 {
        0xF8
    } else if b == 4 {
        0xF0
    } else if b == 3 {
        0xE0
    } else if b == 2 {
        0xC0
    } else if b == 1 {
        0x80
    } else {
        0
    }
}

proof fn lemma_top_flags_step(b: nat)
    requires
        1 <= b <= 8,
    ensures
        top_flags(b) >= 128,
        ((top_flags(b) as int * 2) % 256) as u8 == top_flags((b - 1) as nat),
{
}

proof fn lemma_literal_group(src: Seq<u8>, p: int, b: nat, chunk: Seq<u8>, out: Seq<u8>, total: nat)
    requires
        chunk.len() <= b <= 8,
        0 <= p,
        p + chunk.len() <= src.len(),
        forall|i: int| 0 <= i < chunk.len() ==> src[p + i] == chunk[i],
        out.len() + chunk.len() <= total,
    ensures
        run(src, p, top_flags(b), b, out, total) == run(
            src,
            p + chunk.len(),
            top_flags((b - chunk.len()) as nat),
            (b - chunk.len()) as nat,
            out + chunk,
            total,
        ),
    decreases chunk.len(),
{
    if chunk.len() == 0 {
        assert(out + chunk =~= out);
    } else {
        lemma_top_flags_step(b);
        let rest = chunk.skip(1);
        assert forall|i: int| 0 <= i < rest.len() implies src[p + 1 + i] == rest[i] by {
            assert(src[p + (1 + i)] == chunk[1 + i]);
        }
        lemma_literal_group(src, p + 1, (b - 1) as nat, rest, out.push(src[p]), total);
        assert(out.push(src[p]) + rest =~= out + chunk);
    }
}

proof fn lemma_literal_units(src: Seq<u8>, pos: int, code: u8, rest: Seq<u8>, out: Seq<u8>, total: nat)
    requires
        0 <= pos,
        pos + literal_units(rest).len() <= src.len(),
        forall|i: int| 0 <= i < literal_units(rest).len() ==> src[pos + i] == literal_units(rest)[i],
        out.len() + rest.len() == total,
    ensures
        run(src, pos, code, 0, out, total) == Ok::<Seq<u8>, CorruptCause>(out + rest),
    decreases rest.len(),
{
    let lu = literal_units(rest);
    if rest.len() == 0 {
        assert(out + rest =~= out);
    } else {
        let k: nat = if rest.len() <= 8 { rest.len() } else { 8 };
        let chunk = rest.take(k as int);
        assert(lu[0] == 0xFFu8);
        assert(src[pos] == 0xFFu8);
        assert forall|i: int| 0 <= i < chunk.len() implies src[pos + 1 + i] == chunk[i] by {
            assert(src[pos + (1 + i)] == lu[1 + i]);
        }
        assert(run(src, pos, code, 0, out, total) == run(src, pos + 1, top_flags(8), 8, out, total));
        lemma_literal_group(src, pos + 1, 8, chunk, out, total);
        if rest.len() <= 8 {
            assert(chunk =~= rest);
        } else {
            let tail = rest.skip(8);
            let lt = literal_units(tail);
            assert forall|i: int| 0 <= i < lt.len() implies src[pos + 9 + i] == lt[i] by {
                assert(src[pos + (9 + i)] == lu[9 + i]);
            }
            lemma_literal_units(src, pos + 9, 0, tail, out + chunk, total);
            assert(out + chunk + tail =~= out + rest);
        }
    }
}

/// Bytes encoded as literal units under a header declaring their length
/// decode back to exactly those bytes.
pub proof fn lemma_literal_round_trip(data: Seq<u8>)
    requires
        data.len() <= u32::MAX,
    ensures
        decode_spec(stream_header(data.len() as u32) + literal_units(data), data.len())
            == Ok::<Seq<u8>, CorruptCause>(data),
{
    let h = stream_header(data.len() as u32);
    let src = h + literal_units(data);
    lemma_header_len(data.len() as u32);
    assert(be_u32(src, 4) == be_u32(h, 4));
    assert forall|i: int| 0 <= i < literal_units(data).len() implies src[16 + i] == literal_units(data)[i] by {}
    lemma_literal_units(src, 16, 0, data, Seq::empty(), data.len());
    assert(Seq::<u8>::empty() + data =~= data);
}

} // verus!
