use vstd::prelude::*;
use crate::error::CorruptCause;
use crate::error::DecompressError;
use crate::record::decode_record;
use crate::record::segment_spec;
use crate::record::FileRecord;
use crate::ROM_SIZE;

verus! {

/// Value of every byte of the output that no record covers.
pub const FILL: u8 = 0;

/// A result over the views of its bytes.
pub open spec fn image_result(r: Result<Vec<u8>, DecompressError>) -> Result<Seq<u8>, DecompressError> {
    match r {
        Ok(v) => Ok(v@),
        Err(e) => Err(e),
    }
}

/// Index of the first record from `i` on whose fields are out of range.
pub open spec fn first_invalid_from(recs: Seq<FileRecord>, i: int) -> Option<int>
    decreases recs.len() - i,
{
    if i < 0 || i >= recs.len() {
        None
    } else if !recs[i].is_valid() {
        Some(i)
    } else {
        first_invalid_from(recs, i + 1)
    }
}

/// The largest `virtual_end` among the first `n` records (0 when there are none).
pub open spec fn max_end(recs: Seq<FileRecord>, n: int) -> nat
    decreases n,
{
    if n <= 0 {
        0
    } else {
        let m = max_end(recs, n - 1);
        let e = recs[n - 1].virtual_end as nat;
        if e > m {
            e
        } else {
            m
        }
    }
}

/// `img` with `bytes` written from offset `start` on.
pub open spec fn splice(img: Seq<u8>, start: int, bytes: Seq<u8>) -> Seq<u8> {
    img.subrange(0, start) + bytes + img.subrange(start + bytes.len(), img.len() as int)
}

/// Whether record `i` shares a virtual address with a record before it.
pub open spec fn overlaps_earlier(recs: Seq<FileRecord>, i: int) -> bool {
    exists|j: int| 0 <= j < i && #[trigger] recs[j].overlaps(recs[i])
}

/// The image after the first `n` records have been written into a buffer of
/// `max_end` fill bytes, or the first failure among them.
pub open spec fn fill_prefix(raw: Seq<u8>, recs: Seq<FileRecord>, n: int) -> Result<Seq<u8>, DecompressError>
    decreases n,
{
    if n <= 0 {
        Ok(Seq::new(max_end(recs, recs.len() as int), |k: int| FILL))
    } else {
        match fill_prefix(raw, recs, n - 1) {
            Err(e) => Err(e),
            Ok(img) => {
                let rec = recs[n - 1];
                if overlaps_earlier(recs, n - 1) {
                    Err(DecompressError::RecordCorrupt((n - 1) as usize, CorruptCause::Overlap))
                } else {
                    match segment_spec(raw, rec) {
                        Err(c) => Err(DecompressError::RecordCorrupt((n - 1) as usize, c)),
                        Ok(bytes) => Ok(splice(img, rec.virtual_start as int, bytes)),
                    }
                }
            },
        }
    }
}

/// The assembled image of the table `recs` over the raw image `raw`: the first
/// record with a field out of range fails the whole table; otherwise records are
/// decoded and written in table order, the first failure (overlap or decode) wins.
pub open spec fn assemble_spec(raw: Seq<u8>, recs: Seq<FileRecord>) -> Result<Seq<u8>, DecompressError> {
    match first_invalid_from(recs, 0) {
        Some(i) => Err(DecompressError::RecordCorrupt(i as usize, CorruptCause::FieldRange)),
        None => fill_prefix(raw, recs, recs.len() as int),
    }
}

/// Whether some record among the first `n` covers address `k`.
pub open spec fn covered_by(recs: Seq<FileRecord>, n: int, k: int) -> bool {
    exists|j: int| 0 <= j < n && #[trigger] recs[j].virtual_start <= k < recs[j].virtual_end
}

proof fn lemma_fill_err_sticks(raw: Seq<u8>, recs: Seq<FileRecord>, m: int, n: int)
    requires
        0 <= m <= n,
        fill_prefix(raw, recs, m) is Err,
    ensures
        fill_prefix(raw, recs, n) == fill_prefix(raw, recs, m),
    decreases n - m,
{
    if m < n {
        lemma_fill_err_sticks(raw, recs, m + 1, n);
    }
}

proof fn lemma_max_end_bounds(recs: Seq<FileRecord>, n: int, j: int)
    requires
        0 <= j < n <= recs.len(),
    ensures
        recs[j].virtual_end <= max_end(recs, n),
    decreases n,
{
    if j < n - 1 {
        lemma_max_end_bounds(recs, n - 1, j);
    }
}

proof fn lemma_max_end_valid(recs: Seq<FileRecord>, n: int)
    requires
        0 <= n <= recs.len(),
        forall|j: int| 0 <= j < n ==> (#[trigger] recs[j]).is_valid(),
    ensures
        max_end(recs, n) <= ROM_SIZE,
    decreases n,
{
    if n > 0 {
        lemma_max_end_valid(recs, n - 1);
    }
}

/// Writes every record of `recs` into a fresh image, failing on the first record
/// that is out of range, overlaps an earlier one, or does not decode.
pub fn assemble(raw: &[u8], recs: &Vec<FileRecord>) -> (r: Result<Vec<u8>, DecompressError>)
    ensures
        image_result(r) == assemble_spec(raw@, recs@),
{
    let n = recs.len();
    let mut i: usize = 0;
    let mut max: u32 = 0;
    while i < n
        invariant
            n == recs@.len(),
            i <= n,
            first_invalid_from(recs@, i as int) == first_invalid_from(recs@, 0),
            forall|j: int| 0 <= j < i ==> (#[trigger] recs@[j]).is_valid(),
            max == max_end(recs@, i as int),
        decreases n - i,
    {
        let rec = recs[i];
        if !rec.validate() {
            return Err(DecompressError::RecordCorrupt(i, CorruptCause::FieldRange));
        }
        if rec.virtual_end > max {
            max = rec.virtual_end;
        }
        i = i + 1;
    }
    proof {
        lemma_max_end_valid(recs@, n as int);
    }
    let size: usize = max as usize;
    let mut out: Vec<u8> = Vec::new();
    let mut covered: Vec<bool> = Vec::new();
    let mut k: usize = 0;
    while k < size
        invariant
            k <= size,
            out@.len() == k,
            covered@.len() == k,
            forall|p: int| 0 <= p < k ==> out@[p] == FILL,
            forall|p: int| 0 <= p < k ==> !covered@[p],
        decreases size - k,
    {
        out.push(FILL);
        covered.push(false);
        k = k + 1;
    }
    assert(out@ =~= Seq::new(max_end(recs@, n as int), |p: int| FILL));
    i = 0;
    while i < n
        invariant
            n == recs@.len(),
            i <= n,
            forall|j: int| 0 <= j < n ==> (#[trigger] recs@[j]).is_valid(),
            first_invalid_from(recs@, 0) is None,
            size == max_end(recs@, n as int),
            size <= ROM_SIZE,
            out@.len() == size,
            covered@.len() == size,
            fill_prefix(raw@, recs@, i as int) == Ok::<Seq<u8>, DecompressError>(out@),
            forall|p: int| 0 <= p < size ==> covered@[p] == covered_by(recs@, i as int, p),
        decreases n - i,
    {
        let rec = recs[i];
        proof {
            lemma_max_end_bounds(recs@, n as int, i as int);
        }
        let vs: usize = rec.virtual_start as usize;
        let ve: usize = rec.virtual_end as usize;
        let mut k: usize = vs;
        while k < ve
            invariant
                vs <= k <= ve <= size,
                n == recs@.len(),
                i < n,
                rec == recs@[i as int],
                fill_prefix(raw@, recs@, i as int) == Ok::<Seq<u8>, DecompressError>(out@),
                first_invalid_from(recs@, 0) is None,
                vs == rec.virtual_start,
                ve == rec.virtual_end,
                covered@.len() == size,
                forall|p: int| 0 <= p < size ==> covered@[p] == covered_by(recs@, i as int, p),
                forall|p: int| vs <= p < k ==> !covered@[p],
            decreases ve - k,
        {
            if covered[k] {
                proof {
                    let j = choose|j: int| 0 <= j < i && #[trigger] recs@[j].virtual_start <= k < recs@[j].virtual_end;
                    assert(recs@[j].overlaps(recs@[i as int]));
                    assert(overlaps_earlier(recs@, i as int));
                    assert(fill_prefix(raw@, recs@, i + 1) == Err::<Seq<u8>, DecompressError>(
                        DecompressError::RecordCorrupt(i, CorruptCause::Overlap)));
                    lemma_fill_err_sticks(raw@, recs@, i + 1, n as int);
                }
                return Err(DecompressError::RecordCorrupt(i, CorruptCause::Overlap));
            }
            k = k + 1;
        }
        proof {
            assert forall|j: int| 0 <= j < i implies !(#[trigger] recs@[j].overlaps(recs@[i as int])) by {
                if recs@[j].overlaps(recs@[i as int]) {
                    let p: int = if recs@[j].virtual_start > vs { recs@[j].virtual_start as int } else { vs as int };
                    assert(vs <= p < ve);
                    assert(recs@[j].virtual_start <= p < recs@[j].virtual_end);
                    assert(covered_by(recs@, i as int, p));
                    assert(covered@[p]);
                }
            }
        }
        let bytes = match decode_record(raw, &rec) {
            Ok(b) => b,
            Err(c) => {
                proof {
                    lemma_fill_err_sticks(raw@, recs@, i + 1, n as int);
                }
                return Err(DecompressError::RecordCorrupt(i, c));
            },
        };
        let ghost img = out@;
        let ghost cov = covered@;
        assert(forall|p: int| 0 <= p < size ==> cov[p] == covered_by(recs@, i as int, p));
        let mut k: usize = 0;
        while k < bytes.len()
            invariant
                bytes@.len() == ve - vs,
                vs <= ve <= size,
                k <= bytes@.len(),
                out@.len() == size,
                covered@.len() == size,
                img.len() == size,
                cov.len() == size,
                forall|p: int| 0 <= p < size ==> out@[p] == if vs <= p < vs + k { bytes@[p - vs] } else { img[p] },
                forall|p: int| 0 <= p < size ==> covered@[p] == (cov[p] || vs <= p < vs + k),
            decreases bytes@.len() - k,
        {
            out.set(vs + k, bytes[k]);
            covered.set(vs + k, true);
            k = k + 1;
        }
        proof {
            assert(out@ =~= splice(img, vs as int, bytes@));
            assert forall|p: int| 0 <= p < size implies covered@[p] == covered_by(recs@, i + 1, p) by {
                assert(cov[p] == covered_by(recs@, i as int, p));
                if covered_by(recs@, i as int, p) {
                    let j = choose|j: int| 0 <= j < i && #[trigger] recs@[j].virtual_start <= p < recs@[j].virtual_end;
                    assert(covered_by(recs@, i + 1, p));
                }
                if vs <= p < ve {
                    assert(recs@[i as int].virtual_start <= p < recs@[i as int].virtual_end);
                }
                if covered_by(recs@, i + 1, p) && !(vs <= p < ve) {
                    let j = choose|j: int| 0 <= j < i + 1 && #[trigger] recs@[j].virtual_start <= p < recs@[j].virtual_end;
                    assert(covered_by(recs@, i as int, p));
                }
            }
        }
        i = i + 1;
    }
    Ok(out)
}

} // verus!
