use vstd::prelude::*;
use crate::error::CorruptCause;
use vstd::arithmetic::div_mod::lemma_mod_sub_multiples_vanish;
use vstd::arithmetic::div_mod::lemma_small_mod;

verus! {

/// Length of the header that starts every compressed stream.
pub const HEADER_LEN: usize = 16;

/// The four magic bytes "Yaz0" at the start of a compressed stream.
pub open spec fn has_magic(src: Seq<u8>) -> bool {
    src.len() >= 4 && src[0] == 0x59u8 && src[1] == 0x61u8 && src[2] == 0x7Au8 && src[3] == 0x30u8
}

/// The big-endian 32-bit word at offset `i` of `s`.
pub open spec fn be_u32(s: Seq<u8>, i: int) -> u32 {
    ((s[i] as u32) << 24u32) | ((s[i + 1] as u32) << 16u32) | ((s[i + 2] as u32) << 8u32) | (s[i + 3] as u32)
}

/// `out` followed by `len` bytes, each a copy of the byte `dist` places before it
/// (so a distance shorter than the run repeats the last `dist` bytes).
pub open spec fn copy_back(out: Seq<u8>, dist: int, len: nat) -> Seq<u8> {
    out + Seq::new(len, |k: int| out[out.len() - dist + k % dist])
}

/// Distance encoded by the two bytes of a back-reference.
pub open spec fn ref_distance(b1: u8, b2: u8) -> int {
    (b1 % 16) as int * 256 + b2 as int + 1
}

/// Decodes coding units of `src` from `pos`, with `bits` flags of the group byte
/// `code` still unread (most significant first), until `out` holds `total` bytes.
/// A set flag is one literal byte; a clear flag is a back-reference of two bytes
/// (run length in the high nibble plus 2), or of three when that nibble is zero
/// (run length in the third byte plus 18).
pub open spec fn run(src: Seq<u8>, pos: int, code: u8, bits: nat, out: Seq<u8>, total: nat) -> Result<Seq<u8>, CorruptCause>
    decreases total - out.len(),
{
    if out.len() >= total {
        Ok(out)
    } else if bits == 0 && pos >= src.len() {
        Err(CorruptCause::Truncated)
    } else {
        let p = if bits == 0 { pos + 1 } else { pos };
        let c = if bits == 0 { src[pos] } else { code };
        let b = if bits == 0 { 8nat } else { bits };
        let next = ((c as int * 2) % 256) as u8;
        if c >= 128 {
            if p >= src.len() {
                Err(CorruptCause::Truncated)
            } else {
                run(src, p + 1, next, (b - 1) as nat, out.push(src[p]), total)
            }
        } else if p + 1 >= src.len() {
            Err(CorruptCause::Truncated)
        } else {
            let dist = ref_distance(src[p], src[p + 1]);
            let nib = src[p] / 16;
            if nib == 0 && p + 2 >= src.len() {
                Err(CorruptCause::Truncated)
            } else {
                let len: nat = if nib == 0 { src[p + 2] as nat + 18 } else { nib as nat + 2 };
                let p2 = if nib == 0 { p + 3 } else { p + 2 };
                if dist > out.len() {
                    Err(CorruptCause::BadReference)
                } else if out.len() + len > total {
                    Err(CorruptCause::Overrun)
                } else {
                    run(src, p2, next, (b - 1) as nat, copy_back(out, dist, len), total)
                }
            }
        }
    }
}

/// What a compressed stream decodes to, given the length its record declares.
pub open spec fn decode_spec(src: Seq<u8>, expected: nat) -> Result<Seq<u8>, CorruptCause> {
    if src.len() < HEADER_LEN {
        Err(CorruptCause::Truncated)
    } else if !has_magic(src) {
        Err(CorruptCause::BadHeader)
    } else if be_u32(src, 4) as nat != expected {
        Err(CorruptCause::LengthMismatch)
    } else {
        run(src, HEADER_LEN as int, 0, 0, Seq::empty(), expected)
    }
}

/// Every byte that a back-reference appends equals the byte `dist` places
/// before it in the output as it grows, which is what copying one byte at a time
/// in increasing order gives, also when the copy overlaps its own output.
pub proof fn lemma_copy_back_incremental(out: Seq<u8>, dist: int, len: nat, k: int)
    requires
        1 <= dist <= out.len(),
        0 <= k < len,
    ensures
        copy_back(out, dist, len)[out.len() + k] == copy_back(out, dist, len)[out.len() + k - dist],
{
    let c = copy_back(out, dist, len);
    let n = out.len() as int;
    if k >= dist {
        lemma_mod_sub_multiples_vanish(k, dist);
        assert(c[n + k - dist] == out[n - dist + (k - dist) % dist]);
    } else {
        lemma_small_mod(k as nat, dist as nat);
    }
}

/// Appends `len` bytes copied from `dist` bytes back, one at a time in increasing
/// order, so that a copy overlapping its own output repeats the run.
fn copy_back_exec(out: &mut Vec<u8>, dist: usize, len: usize)
    requires
        1 <= dist <= old(out)@.len(),
        old(out)@.len() + len <= usize::MAX,
    ensures
        final(out)@ == copy_back(old(out)@, dist as int, len as nat),
{
    let ghost start = out@;
    let mut k: usize = 0;
    while k < len
        invariant
            k <= len,
            1 <= dist <= start.len(),
            start.len() + len <= usize::MAX,
            out@ =~= copy_back(start, dist as int, k as nat),
        decreases len - k,
    {
        let b = out[out.len() - dist];
        proof {
            let n = start.len() as int;
            let d = dist as int;
            if k >= dist {
                lemma_mod_sub_multiples_vanish(k as int, d);
                assert(out@[n + k - d] == start[n - d + (k - d) % d]);
            } else {
                lemma_small_mod(k as nat, dist as nat);
            }
            assert(b == start[n - d + (k as int) % d]);
        }
        out.push(b);
        k = k + 1;
    }
}

/// A decoded result seen through the views of its bytes.
pub open spec fn bytes_result(r: Result<Vec<u8>, CorruptCause>) -> Result<Seq<u8>, CorruptCause> {
    match r {
        Ok(v) => Ok(v@),
        Err(e) => Err(e),
    }
}

/// Decodes the compressed stream `src` of a record whose virtual length is
/// `expected`: checks the header, then runs the coding units until exactly
/// `expected` bytes are produced, failing on any stream that is short, points a
/// back-reference before the output, or overruns the declared length.
pub fn decode_stream(src: &[u8], expected: u32) -> (r: Result<Vec<u8>, CorruptCause>)
    ensures
        bytes_result(r) == decode_spec(src@, expected as nat),
        r is Ok ==> r->Ok_0@.len() == expected,
{
    if src.len() < HEADER_LEN {
        return Err(CorruptCause::Truncated);
    }
    if !(src[0] == 0x59u8 && src[1] == 0x61u8 && src[2] == 0x7Au8 && src[3] == 0x30u8) {
        return Err(CorruptCause::BadHeader);
    }
    let declared: u32 = ((src[4] as u32) << 24u32) | ((src[5] as u32) << 16u32) | ((src[6] as u32) << 8u32) | (src[7] as u32);
    if declared != expected {
        return Err(CorruptCause::LengthMismatch);
    }
    let total: usize = expected as usize;
    let ghost whole = run(src@, HEADER_LEN as int, 0, 0, Seq::empty(), total as nat);
    let mut out: Vec<u8> = Vec::new();
    let mut pos: usize = HEADER_LEN;
    let mut code: u8 = 0;
    let mut bits: u8 = 0;
    while out.len() < total
        invariant
            total == expected as usize,
            bits <= 8,
            pos <= src@.len(),
            out@.len() <= total,
            whole == decode_spec(src@, expected as nat),
            run(src@, pos as int, code, bits as nat, out@, total as nat) == whole,
        decreases total - out@.len(),
    {
        let ghost p0 = pos as int;
        let ghost c0 = code;
        let ghost b0 = bits as nat;
        assert(whole == run(src@, p0, c0, b0, out@, total as nat));
        if bits == 0 {
            if pos >= src.len() {
                return Err(CorruptCause::Truncated);
            }
            code = src[pos];
            pos = pos + 1;
            bits = 8;
        }
        let c = code;
        code = ((c as u16 * 2) % 256) as u8;
        bits = bits - 1;
        if c >= 128 {
            if pos >= src.len() {
                return Err(CorruptCause::Truncated);
            }
            out.push(src[pos]);
            pos = pos + 1;
        } else {
            if src.len() - pos < 2 {
                return Err(CorruptCause::Truncated);
            }
            let b1 = src[pos];
            let b2 = src[pos + 1];
            let dist: usize = (b1 % 16) as usize * 256 + b2 as usize + 1;
            let nib = b1 / 16;
            let len: usize;
            if nib == 0 {
                if src.len() - pos < 3 {
                    return Err(CorruptCause::Truncated);
                }
                len = src[pos + 2] as usize + 18;
                pos = pos + 3;
            } else {
                len = nib as usize + 2;
                pos = pos + 2;
            }
            if dist > out.len() {
                return Err(CorruptCause::BadReference);
            }
            if len > total - out.len() {
                return Err(CorruptCause::Overrun);
            }
            copy_back_exec(&mut out, dist, len);
        }
    }
    Ok(out)
}

} // verus!
