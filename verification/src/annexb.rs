//! Annex-B access unit splitting.
//!
//! An Annex-B H.264 stream is a run of NAL units, each introduced by a start
//! code (`00 00 01` or `00 00 00 01`). Pacing needs whole pictures, so the NAL
//! units are grouped into access units: a new picture begins at a VCL slice
//! whose `first_mb_in_slice` is 0, and everything else (parameter sets, the
//! further slices of a multi-slice picture) stays with the unit it follows.

use vstd::prelude::*;
use vstd::arithmetic::power2::*;
use vstd::bits::*;
use bytes::Bytes;

verus! {

// ── The outside buffer type ──────────────────────────────────────────────────

/// `bytes::Bytes`, carried through as an opaque buffer.
#[verifier::external_type_specification]
#[verifier::external_body]
pub struct ExBytes(Bytes);

/// The bytes a `Bytes` buffer holds.
pub uninterp spec fn bytes_view(b: Bytes) -> Seq<u8>;

/// `Bytes::copy_from_slice`: a new buffer holding a copy of `data`.
#[verifier::external_body]
fn bytes_copy_from_slice(data: &[u8]) -> (b: Bytes)
    ensures
        bytes_view(b) == data@,
{
    Bytes::copy_from_slice(data)
}

// ── NAL unit types ───────────────────────────────────────────────────────────

pub const NAL_NON_IDR: u8 = 1;
pub const NAL_IDR: u8 = 5;

/// A coded slice: the NAL unit types that carry picture data.
pub open spec fn spec_is_vcl(t: u8) -> bool {
    t == NAL_NON_IDR || t == NAL_IDR
}

fn is_vcl(t: u8) -> (r: bool)
    ensures
        r == spec_is_vcl(t),
{
    t == NAL_NON_IDR || t == NAL_IDR
}

// ── Start codes ──────────────────────────────────────────────────────────────

/// The start codes found by scanning `buf` left to right from `i`, as
/// `(offset, length)` pairs. A start code is skipped over once found, so the
/// bytes of one start code never begin another.
pub open spec fn scan_marks(buf: Seq<u8>, i: int) -> Seq<(int, int)>
    decreases buf.len() - i,
{
    if i < 0 || i + 2 >= buf.len() {
        Seq::empty()
    } else if buf[i] == 0 && buf[i + 1] == 0 && buf[i + 2] == 1 {
        seq![(i, 3int)] + scan_marks(buf, i + 3)
    } else if buf[i] == 0 && buf[i + 1] == 0 && buf[i + 2] == 0 && i + 3 < buf.len() && buf[i + 3]
        == 1 {
        seq![(i, 4int)] + scan_marks(buf, i + 4)
    } else {
        scan_marks(buf, i + 1)
    }
}

/// Every start code of `buf`, in order.
pub open spec fn start_codes(buf: Seq<u8>) -> Seq<(int, int)> {
    scan_marks(buf, 0)
}

/// Every start code is followed by at least one byte, the NAL header.
pub open spec fn start_codes_complete(buf: Seq<u8>) -> bool {
    forall|n: int|
        0 <= n < start_codes(buf).len() ==> #[trigger] start_codes(buf)[n].0 + start_codes(
            buf,
        )[n].1 < buf.len()
}

/// Start codes found at or after `lo`: each one lies in the buffer, begins
/// with two zero bytes and is three or four bytes long, and each ends before
/// the next begins.
pub open spec fn marks_well_placed(buf: Seq<u8>, lo: int, m: Seq<(int, int)>) -> bool {
    &&& forall|n: int|
        0 <= n < m.len() ==> {
            let x = #[trigger] m[n];
            &&& lo <= x.0
            &&& x.1 == 3 || x.1 == 4
            &&& x.0 + x.1 <= buf.len()
            &&& buf[x.0] == 0 && buf[x.0 + 1] == 0
        }
    &&& forall|n: int| 0 <= n < m.len() - 1 ==> #[trigger] m[n].0 + m[n].1 <= m[n + 1].0
}

/// A start code at `i`, of length `l`, followed by well-placed ones.
proof fn lemma_marks_cons(buf: Seq<u8>, i: int, l: int, rest: Seq<(int, int)>)
    requires
        0 <= i,
        l == 3 || l == 4,
        i + l <= buf.len(),
        buf[i] == 0 && buf[i + 1] == 0,
        marks_well_placed(buf, i + l, rest),
    ensures
        marks_well_placed(buf, i, seq![(i, l)] + rest),
{
    let m = seq![(i, l)] + rest;
    assert forall|n: int| 0 <= n < m.len() - 1 implies #[trigger] m[n].0 + m[n].1 <= m[n + 1].0 by {
        assert(m[n + 1] == rest[n]);
        if n > 0 {
            assert(m[n] == rest[n - 1]);
        }
    }
    assert forall|n: int| 0 <= n < m.len() implies {
        let x = #[trigger] m[n];
        &&& i <= x.0
        &&& x.1 == 3 || x.1 == 4
        &&& x.0 + x.1 <= buf.len()
        &&& buf[x.0] == 0 && buf[x.0 + 1] == 0
    } by {
        if n > 0 {
            assert(m[n] == rest[n - 1]);
        }
    }
}

proof fn lemma_scan_marks(buf: Seq<u8>, i: int)
    requires
        0 <= i,
    ensures
        marks_well_placed(buf, i, scan_marks(buf, i)),
    decreases buf.len() - i,
{
    if i + 2 >= buf.len() {
    } else if buf[i] == 0 && buf[i + 1] == 0 && buf[i + 2] == 1 {
        lemma_scan_marks(buf, i + 3);
        lemma_marks_cons(buf, i, 3, scan_marks(buf, i + 3));
    } else if buf[i] == 0 && buf[i + 1] == 0 && buf[i + 2] == 0 && i + 3 < buf.len() && buf[i + 3]
        == 1 {
        lemma_scan_marks(buf, i + 4);
        lemma_marks_cons(buf, i, 4, scan_marks(buf, i + 4));
    } else {
        lemma_scan_marks(buf, i + 1);
        assert(scan_marks(buf, i) == scan_marks(buf, i + 1));
    }
}

proof fn lemma_marks_ordered(buf: Seq<u8>, a: int, b: int)
    requires
        0 <= a < b < start_codes(buf).len(),
    ensures
        start_codes(buf)[a].0 + start_codes(buf)[a].1 <= start_codes(buf)[b].0,
    decreases b - a,
{
    lemma_scan_marks(buf, 0);
    let sm = start_codes(buf);
    if a + 1 < b {
        lemma_marks_ordered(buf, a + 1, b);
        assert(sm[a + 1] == scan_marks(buf, 0)[a + 1]);
        assert(sm[a + 1].0 < sm[a + 1].0 + sm[a + 1].1);
    }
}

spec fn marks_view(marks: Seq<(usize, usize)>) -> Seq<(int, int)> {
    marks.map_values(|m: (usize, usize)| (m.0 as int, m.1 as int))
}

fn scan_start_codes(buf: &[u8]) -> (marks: Vec<(usize, usize)>)
    ensures
        marks_view(marks@) == start_codes(buf@),
{
    let mut marks: Vec<(usize, usize)> = Vec::new();
    let mut i: usize = 0;
    while buf.len() >= 3 && i < buf.len() - 2
        invariant
            i <= buf.len(),
            marks_view(marks@) + scan_marks(buf@, i as int) == start_codes(buf@),
        decreases buf.len() - i,
    {
        if buf[i] == 0 && buf[i + 1] == 0 {
            if buf[i + 2] == 1 {
                proof {
                    assert(marks_view(marks@.push((i, 3))) == marks_view(marks@).push((i as int, 3int)));
                    assert(marks_view(marks@.push((i, 3))) + scan_marks(buf@, i + 3) == marks_view(marks@) + scan_marks(buf@, i as int));
                }
                marks.push((i, 3));
                i += 3;
                continue;
            } else if buf[i + 2] == 0 && i + 3 < buf.len() && buf[i + 3] == 1 {
                proof {
                    assert(marks_view(marks@.push((i, 4))) == marks_view(marks@).push((i as int, 4int)));
                    assert(marks_view(marks@.push((i, 4))) + scan_marks(buf@, i + 4) == marks_view(marks@) + scan_marks(buf@, i as int));
                }
                marks.push((i, 4));
                i += 4;
                continue;
            }
        }
        i += 1;
    }
    assert(scan_marks(buf@, i as int) == Seq::<(int, int)>::empty());
    assert(marks_view(marks@) + Seq::<(int, int)>::empty() == marks_view(marks@));
    marks
}


// ── NAL units ────────────────────────────────────────────────────────────────

/// One NAL unit of a stream: it spans `start..end` (start code included),
/// its type is `kind`, and its payload begins at `payload`, just after the
/// one-byte NAL header.
#[derive(Clone, Copy, Debug, PartialEq, Eq)]
pub struct Nal {
    pub start: usize,
    pub end: usize,
    pub kind: u8,
    pub payload: usize,
}

/// Where the NAL unit introduced by start code `n` ends: at the next start
/// code, or at the end of the buffer.
pub open spec fn mark_end(buf: Seq<u8>, marks: Seq<(int, int)>, n: int) -> int {
    if n + 1 < marks.len() {
        marks[n + 1].0
    } else {
        buf.len() as int
    }
}

/// The NAL unit introduced by start code `n`.
pub open spec fn spec_nal(buf: Seq<u8>, marks: Seq<(int, int)>, n: int) -> Nal {
    let header = marks[n].0 + marks[n].1;
    Nal {
        start: marks[n].0 as usize,
        end: mark_end(buf, marks, n) as usize,
        kind: buf[header] & 0x1f,
        payload: (header + 1) as usize,
    }
}

/// Every NAL unit of `buf`, in order.
pub open spec fn spec_nals(buf: Seq<u8>) -> Seq<Nal> {
    Seq::new(start_codes(buf).len(), |n: int| spec_nal(buf, start_codes(buf), n))
}

/// The NAL units of a buffer tile it from the first start code to the end:
/// each lies inside the buffer, its payload starts after its start code and
/// header byte, and it ends where the next begins.
pub proof fn lemma_nals_tile(buf: Seq<u8>)
    requires
        start_codes_complete(buf),
        buf.len() <= usize::MAX,
    ensures
        forall|n: int|
            0 <= n < spec_nals(buf).len() ==> {
                let nal = #[trigger] spec_nals(buf)[n];
                &&& nal.start < nal.payload <= buf.len()
                &&& nal.start < nal.end <= buf.len()
                &&& nal.start as int == start_codes(buf)[n].0
                &&& nal.payload as int == start_codes(buf)[n].0 + start_codes(buf)[n].1 + 1
            },
        forall|n: int|
            0 <= n < spec_nals(buf).len() - 1 ==> #[trigger] spec_nals(buf)[n].end == spec_nals(
                buf,
            )[n + 1].start,
        spec_nals(buf).len() > 0 ==> spec_nals(buf).last().end == buf.len(),
{
    lemma_scan_marks(buf, 0);
    let marks = start_codes(buf);
    assert forall|n: int| 0 <= n < spec_nals(buf).len() implies {
        let nal = #[trigger] spec_nals(buf)[n];
        &&& nal.start < nal.payload <= buf.len()
        &&& nal.start < nal.end <= buf.len()
        &&& nal.start as int == start_codes(buf)[n].0
        &&& nal.payload as int == start_codes(buf)[n].0 + start_codes(buf)[n].1 + 1
    } by {
        let m = marks[n];
        assert(m == scan_marks(buf, 0)[n]);
        assert(m.0 + m.1 < buf.len());
        assert(0 <= m.0);
        let nal = spec_nals(buf)[n];
        assert(nal == spec_nal(buf, marks, n));
        assert(nal.start as int == m.0);
        assert(nal.payload as int == m.0 + m.1 + 1);
        if n + 1 < marks.len() {
            let m2 = marks[n + 1];
            assert(m2 == scan_marks(buf, 0)[n + 1]);
            assert(m.0 + m.1 <= m2.0);
            assert(m2.0 + m2.1 < buf.len());
            assert(nal.end as int == m2.0);
        } else {
            assert(nal.end as int == buf.len());
        }
    }
    assert forall|n: int| 0 <= n < spec_nals(buf).len() - 1 implies #[trigger] spec_nals(buf)[n].end
        == spec_nals(buf)[n + 1].start by {
        let m2 = marks[n + 1];
        assert(m2.0 + m2.1 <= buf.len());
    }
}

/// The NAL units of `buf`, found by scanning for start codes.
fn find_nals(buf: &[u8]) -> (nals: Vec<Nal>)
    requires
        start_codes_complete(buf@),
    ensures
        nals@ == spec_nals(buf@),
{
    let marks = scan_start_codes(buf);
    let ghost sm = start_codes(buf@);
    proof {
        lemma_scan_marks(buf@, 0);
        assert(marks_view(marks@).len() == marks@.len());
    }
    let mut nals: Vec<Nal> = Vec::new();
    let mut n: usize = 0;
    while n < marks.len()
        invariant
            n <= marks@.len(),
            marks_view(marks@) == sm,
            sm == start_codes(buf@),
            start_codes_complete(buf@),
            nals@.len() == n,
            forall|k: int| 0 <= k < n ==> #[trigger] nals@[k] == spec_nal(buf@, sm, k),
            forall|k: int|
                0 <= k < sm.len() ==> {
                    let m = #[trigger] sm[k];
                    &&& 0 <= m.0
                    &&& m.1 == 3 || m.1 == 4
                    &&& m.0 + m.1 <= buf.len()
                },
            forall|k: int| 0 <= k < sm.len() - 1 ==> #[trigger] sm[k].0 + sm[k].1 <= sm[k + 1].0,
        decreases marks@.len() - n,
    {
        let (at, len) = marks[n];
        assert(sm[n as int] == (at as int, len as int));
        let end = if n + 1 < marks.len() {
            assert(sm[n + 1] == (marks@[n + 1].0 as int, marks@[n + 1].1 as int));
            marks[n + 1].0
        } else {
            buf.len()
        };
        let header = at + len;
        assert(header < buf.len());
        let nal = Nal { start: at, end, kind: buf[header] & 0x1f, payload: header + 1 };
        assert(nal == spec_nal(buf@, sm, n as int));
        nals.push(nal);
        n += 1;
    }
    assert(nals@ =~= spec_nals(buf@));
    nals
}


// ── Reading slice headers ────────────────────────────────────────────────────

/// Bit `p` of `buf`, most significant bit of each byte first; a read past the
/// end gives 0.
pub open spec fn bit_at(buf: Seq<u8>, p: int) -> u32 {
    if 0 <= p < 8 * buf.len() {
        ((buf[p / 8] >> ((7 - p % 8) as u8)) & 1u8) as u32
    } else {
        0
    }
}

/// How many zero bits start at `p`, counting at most `cap` of them.
pub open spec fn zero_run(buf: Seq<u8>, p: int, cap: nat) -> nat
    decreases cap,
{
    if cap == 0 {
        0
    } else if bit_at(buf, p) == 0 {
        1 + zero_run(buf, p + 1, (cap - 1) as nat)
    } else {
        0
    }
}

/// The `n` bits starting at `p`, read as a big-endian unsigned number.
pub open spec fn bits_value(buf: Seq<u8>, p: int, n: nat) -> nat
    decreases n,
{
    if n == 0 {
        0
    } else {
        2 * bits_value(buf, p, (n - 1) as nat) + bit_at(buf, p + n - 1) as nat
    }
}

/// The unsigned Exp-Golomb number coded at bit `p`: `z` zero bits, a one
/// bit, then `z` bits of value, giving `2^z - 1 + value`.
pub open spec fn ue_value(buf: Seq<u8>, p: int) -> int {
    let z = zero_run(buf, p, 32);
    pow2(z) - 1 + bits_value(buf, p + z + 1, z)
}

/// The position a reader has reached after `v` bits, when reads past the end
/// of a buffer of `len8` bits leave it where it is.
pub open spec fn reader_pos(v: int, len8: int) -> int {
    if v < len8 {
        v
    } else {
        len8
    }
}

proof fn lemma_zero_run_is(buf: Seq<u8>, p: int, k: nat, cap: nat)
    requires
        k <= cap,
        forall|j: int| 0 <= j < k ==> bit_at(buf, #[trigger] (p + j)) == 0,
        k == cap || bit_at(buf, p + k) == 1,
    ensures
        zero_run(buf, p, cap) == k,
    decreases k,
{
    if k > 0 {
        assert(bit_at(buf, p + 0) == 0);
        assert forall|j: int| 0 <= j < k - 1 implies bit_at(buf, #[trigger] ((p + 1) + j)) == 0 by {
            assert(bit_at(buf, p + (j + 1)) == 0);
            assert(p + (j + 1) == (p + 1) + j);
        }
        lemma_zero_run_is(buf, p + 1, (k - 1) as nat, (cap - 1) as nat);
    } else if cap > 0 {
        assert(bit_at(buf, p + 0) == 1);
    }
}

proof fn lemma_bit_read(buf: Seq<u8>, v: int)
    requires
        0 <= v,
    ensures
        bit_at(buf, v) <= 1,
        bit_at(buf, reader_pos(v, 8 * buf.len() as int)) == bit_at(buf, v),
{
    if 0 <= v < 8 * buf.len() {
        let byte = buf[v / 8];
        let sh = (7 - v % 8) as u8;
        assert((byte >> sh) & 1u8 <= 1u8) by (bit_vector);
    }
}

proof fn lemma_bits_value_first(buf: Seq<u8>, q: int, n: nat)
    requires
        0 <= q,
    ensures
        bits_value(buf, q, n + 1) == bit_at(buf, q) * pow2(n) + bits_value(buf, q + 1, n),
    decreases n,
{
    lemma_bit_read(buf, q);
    lemma_pow2_unfold(n + 1);
    if n == 0 {
        assert(bits_value(buf, q, 0) == 0);
        assert(pow2(0) == 1) by {
            lemma2_to64();
        }
    } else {
        lemma_pow2_unfold(n);
        lemma_bits_value_first(buf, q, (n - 1) as nat);
        assert(bits_value(buf, q, n + 1) == 2 * bits_value(buf, q, n) + bit_at(buf, q + n));
        assert(bits_value(buf, q + 1, n) == 2 * bits_value(buf, q + 1, (n - 1) as nat) + bit_at(
            buf,
            q + 1 + n - 1,
        ));
        if bit_at(buf, q) == 0 {
        } else {
            assert(bit_at(buf, q) == 1);
        }
    }
}

proof fn lemma_bits_value_bound(buf: Seq<u8>, q: int, n: nat)
    requires
        0 <= q,
    ensures
        bits_value(buf, q, n) < pow2(n),
    decreases n,
{
    if n == 0 {
        assert(pow2(0) == 1) by {
            lemma2_to64();
        }
    } else {
        lemma_bits_value_bound(buf, q, (n - 1) as nat);
        lemma_bit_read(buf, q + n - 1);
        lemma_pow2_unfold(n);
    }
}

/// Law: reading undoes unsigned Exp-Golomb coding. When `k` zero bits start
/// at `p` and are followed by the `k + 1` binary digits of `v + 1` (so `k` is
/// the floor of log2 of `v + 1`), the code at `p` has `k` leading zeros and
/// reads as `v`; a reader then stands at `p + 2k + 1` (see `BitReader::ue`).
pub proof fn law_exp_golomb_reads_back(buf: Seq<u8>, p: int, v: u32, k: nat)
    requires
        0 <= p,
        v < u32::MAX,
        pow2(k) <= v + 1 < pow2(k + 1),
        forall|j: int| 0 <= j < k ==> bit_at(buf, #[trigger] (p + j)) == 0,
        bits_value(buf, p + k, k + 1) == v + 1,
    ensures
        zero_run(buf, p, 32) == k,
        ue_value(buf, p) == v,
{
    lemma2_to64();
    if k > 32 {
        lemma_pow2_strictly_increases(32, k);
    }
    assert(k < 32);
    let q = p + k;
    lemma_bits_value_first(buf, q, k);
    lemma_bits_value_bound(buf, q + 1, k);
    lemma_bit_read(buf, q);
    if bit_at(buf, q) == 0 {
        assert(false);
    }
    assert(bit_at(buf, p + k) == 1);
    lemma_zero_run_is(buf, p, k, 32);
    let b = bit_at(buf, q);
    let pk = pow2(k);
    assert(b == 1);
    assert(b * pk == pk) by (nonlinear_arith)
        requires
            b == 1,
    ;
    assert(bits_value(buf, q, k + 1) == pow2(k) + bits_value(buf, q + 1, k));
    assert(bits_value(buf, p + k + 1, k) == v + 1 - pow2(k));
}

/// A cursor over the bits of a byte slice.
struct BitReader<'a> {
    buf: &'a [u8],
    pos: usize,
}

impl<'a> BitReader<'a> {
    spec fn wf(&self) -> bool {
        &&& self.pos <= 8 * self.buf@.len()
        &&& 8 * self.buf@.len() <= usize::MAX
    }

    /// The next bit, or 0 once the slice is exhausted.
    fn bit(&mut self) -> (b: u32)
        requires
            old(self).wf(),
        ensures
            final(self).wf(),
            final(self).buf@ == old(self).buf@,
            b == bit_at(old(self).buf@, old(self).pos as int),
            final(self).pos == reader_pos(old(self).pos + 1, 8 * old(self).buf@.len() as int),
    {
        let pos = self.pos;
        assert(pos >> 3 == pos / 8) by (bit_vector);
        assert(pos & 7 == pos % 8) by (bit_vector);
        if (self.pos >> 3) >= self.buf.len() {
            return 0;
        }
        let byte = self.buf[self.pos >> 3];
        let b = ((byte >> (7 - (self.pos & 7))) & 1) as u32;
        self.pos += 1;
        b
    }

    /// Unsigned Exp-Golomb, the encoding H.264 uses for most header fields.
    fn ue(&mut self) -> (v: u32)
        requires
            old(self).wf(),
            zero_run(old(self).buf@, old(self).pos as int, 32) < 32,
        ensures
            v == ue_value(old(self).buf@, old(self).pos as int),
            final(self).wf(),
            final(self).buf@ == old(self).buf@,
            final(self).pos == reader_pos(
                old(self).pos + 2 * zero_run(old(self).buf@, old(self).pos as int, 32) + 1,
                8 * old(self).buf@.len() as int,
            ),
    {
        let ghost buf = self.buf@;
        let ghost p0 = self.pos as int;
        let ghost len8: int = 8 * buf.len() as int;
        let mut zeros: u32 = 0;
        loop
            invariant_except_break
                self.wf(),
                self.buf@ == buf,
                len8 == 8 * buf.len(),
                zero_run(buf, p0, 32) < 32,
                zeros <= 32,
                forall|j: int| 0 <= j < zeros ==> bit_at(buf, #[trigger] (p0 + j)) == 0,
                self.pos == reader_pos(p0 + zeros, len8),
            ensures
                self.wf(),
                self.buf@ == buf,
                zeros < 32,
                zero_run(buf, p0, 32) == zeros,
                self.pos == reader_pos(p0 + zeros + 1, len8),
            decreases 32 - zeros,
        {
            let b = self.bit();
            proof {
                lemma_bit_read(buf, p0 + zeros);
            }
            if !(b == 0 && zeros < 32) {
                proof {
                    if zeros == 32 {
                        lemma_zero_run_is(buf, p0, 32, 32);
                    } else {
                        lemma_zero_run_is(buf, p0, zeros as nat, 32);
                    }
                }
                break;
            }
            zeros += 1;
        }
        let ghost q = p0 + zeros + 1;
        let mut value: u32 = 0;
        let mut j: u32 = 0;
        proof {
            lemma2_to64();
        }
        while j < zeros
            invariant
                self.wf(),
                self.buf@ == buf,
                len8 == 8 * buf.len(),
                zeros < 32,
                j <= zeros,
                q == p0 + zeros + 1,
                value == bits_value(buf, q, j as nat),
                value < pow2(j as nat),
                self.pos == reader_pos(q + j, len8),
            decreases zeros - j,
        {
            let b = self.bit();
            proof {
                lemma2_to64();
                lemma_pow2_strictly_increases(j as nat, 31);
                lemma_pow2_unfold((j + 1) as nat);
                lemma_bit_read(buf, q + j);
                assert(value < 0x8000_0000);
                assert(((value << 1) | b) == 2 * value + b) by (bit_vector)
                    requires
                        value < 0x8000_0000,
                        b <= 1,
                ;
            }
            value = (value << 1) | b;
            j += 1;
        }
        proof {
            lemma_u32_pow2_no_overflow(zeros as nat);
            lemma_u32_shl_is_mul(1, zeros);
            lemma_pow2_unfold((zeros + 1) as nat);
            lemma_pow2_strictly_increases(zeros as nat, 32);
        }
        (1u32 << zeros) - 1 + value
    }
}

/// The bytes a slice header is read from: up to eight payload bytes.
pub open spec fn header_window(buf: Seq<u8>, nal: Nal) -> Seq<u8> {
    let end = if nal.payload + 8 < buf.len() {
        nal.payload + 8
    } else {
        buf.len() as int
    };
    buf.subrange(nal.payload as int, end)
}

/// The NAL unit is a slice whose `first_mb_in_slice` is 0: a picture starts
/// here.
pub open spec fn spec_starts_new_picture(buf: Seq<u8>, nal: Nal) -> bool {
    spec_is_vcl(nal.kind) && ue_value(header_window(buf, nal), 0) == 0
}

/// The `first_mb_in_slice` field of the slice can be read: it does not start
/// with 32 zero bits.
pub open spec fn first_mb_readable(buf: Seq<u8>, nal: Nal) -> bool {
    zero_run(header_window(buf, nal), 0, 32) < 32
}

/// A picture starts at the slice whose first macroblock is 0.
///
/// Treating every VCL NAL as its own picture is wrong the moment an encoder
/// emits multiple slices per frame - it does not error, it silently multiplies
/// the frame count, which here would corrupt the pacing the estimator is
/// measuring against.
fn starts_new_picture(buf: &[u8], nal: &Nal) -> (r: bool)
    requires
        nal.payload <= buf@.len(),
        spec_is_vcl(nal.kind) ==> first_mb_readable(buf@, *nal),
    ensures
        r == spec_starts_new_picture(buf@, *nal),
{
    if !is_vcl(nal.kind) {
        return false;
    }
    let end = if buf.len() - nal.payload > 8 {
        nal.payload + 8
    } else {
        buf.len()
    };
    let mut reader = BitReader { buf: vstd::slice::slice_subrange(buf, nal.payload, end), pos: 0 };
    assert(reader.buf@ == header_window(buf@, *nal));
    reader.ue() == 0
}


// ── Access units ─────────────────────────────────────────────────────────────

/// Some NAL unit among `nals[lo..hi]` is a slice.
pub open spec fn has_vcl(nals: Seq<Nal>, lo: int, hi: int) -> bool {
    exists|i: int| lo <= i < hi && spec_is_vcl(#[trigger] nals[i].kind)
}

/// Some NAL unit among `nals[lo..hi]` is an IDR slice.
pub open spec fn has_idr(nals: Seq<Nal>, lo: int, hi: int) -> bool {
    exists|i: int| lo <= i < hi && #[trigger] nals[i].kind == NAL_IDR
}

/// Grouping of the first `k` NAL units: the access units already closed, as
/// ranges of NAL indices, and the index at which the open one begins. A new
/// access unit begins at a NAL unit that starts a new picture, provided the
/// open one already holds a slice.
pub open spec fn split_prefix(buf: Seq<u8>, nals: Seq<Nal>, k: nat) -> (Seq<(int, int)>, int)
    decreases k,
{
    if k == 0 {
        (Seq::empty(), 0)
    } else {
        let prev = split_prefix(buf, nals, (k - 1) as nat);
        let j = k - 1;
        if has_vcl(nals, prev.1, j) && spec_starts_new_picture(buf, nals[j]) {
            (prev.0.push((prev.1, j)), j)
        } else {
            prev
        }
    }
}

/// The access units of `buf`, as ranges `lo..hi` of indices into its NAL
/// units.
pub open spec fn unit_ranges(buf: Seq<u8>) -> Seq<(int, int)> {
    let nals = spec_nals(buf);
    if nals.len() == 0 {
        Seq::empty()
    } else {
        let s = split_prefix(buf, nals, nals.len());
        s.0.push((s.1, nals.len() as int))
    }
}

/// The bytes of the access unit made of NAL units `r.0..r.1`.
pub open spec fn unit_bytes(buf: Seq<u8>, r: (int, int)) -> Seq<u8> {
    buf.subrange(spec_nals(buf)[r.0].start as int, spec_nals(buf)[r.1 - 1].end as int)
}

/// The access unit made of NAL units `r.0..r.1` holds an IDR slice.
pub open spec fn unit_key(buf: Seq<u8>, r: (int, int)) -> bool {
    has_idr(spec_nals(buf), r.0, r.1)
}

/// `buf` can be split without a fault: every start code is followed by a NAL
/// header, and every slice that follows another slice has a readable
/// `first_mb_in_slice`.
pub open spec fn splittable(buf: Seq<u8>) -> bool {
    &&& start_codes_complete(buf)
    &&& forall|i: int, j: int|
        0 <= i < j < spec_nals(buf).len() && spec_is_vcl(#[trigger] spec_nals(buf)[i].kind)
            && spec_is_vcl(#[trigger] spec_nals(buf)[j].kind) ==> first_mb_readable(
            buf,
            spec_nals(buf)[j],
        )
}

/// One access unit: a whole picture and the NAL units that travel with it.
pub struct AccessUnit {
    pub data: Bytes,
    pub key: bool,
}

/// Shape of a grouping: the closed units are consecutive, non-empty NAL
/// ranges from index 0 up to where the open one begins.
pub open spec fn split_shape(s: (Seq<(int, int)>, int), k: int) -> bool {
    &&& 0 <= s.1
    &&& k > 0 ==> s.1 < k
    &&& k == 0 ==> s.1 == 0
    &&& s.0.len() > 0 ==> s.0[0].0 == 0
    &&& s.0.len() == 0 ==> s.1 == 0
    &&& forall|u: int| 0 <= u < s.0.len() ==> 0 <= (#[trigger] s.0[u]).0 < s.0[u].1 <= s.1
    &&& forall|u: int| 0 <= u < s.0.len() - 1 ==> #[trigger] s.0[u].1 == s.0[u + 1].0
    &&& s.0.len() > 0 ==> s.0.last().1 == s.1
}

proof fn lemma_split_ranges(buf: Seq<u8>, nals: Seq<Nal>, k: nat)
    requires
        k <= nals.len(),
    ensures
        split_shape(split_prefix(buf, nals, k), k as int),
    decreases k,
{
    if k > 0 {
        lemma_split_ranges(buf, nals, (k - 1) as nat);
        let prev = split_prefix(buf, nals, (k - 1) as nat);
        let s = split_prefix(buf, nals, k);
        if has_vcl(nals, prev.1, k - 1) && spec_starts_new_picture(buf, nals[k - 1]) {
            assert(s.0 == prev.0.push((prev.1, k - 1)));
            assert forall|u: int| 0 <= u < s.0.len() implies 0 <= (#[trigger] s.0[u]).0 < s.0[u].1
                <= s.1 by {
                if u < prev.0.len() {
                    assert(s.0[u] == prev.0[u]);
                }
            }
            assert forall|u: int| 0 <= u < s.0.len() - 1 implies #[trigger] s.0[u].1 == s.0[u
                + 1].0 by {
                assert(s.0[u] == prev.0[u]);
                if u + 1 < prev.0.len() {
                    assert(s.0[u + 1] == prev.0[u + 1]);
                }
            }
        }
    }
}

/// Every closed unit holds a slice, and every boundary starts a new picture.
proof fn lemma_split_prefix(buf: Seq<u8>, nals: Seq<Nal>, k: nat)
    requires
        k <= nals.len(),
    ensures
        ({
            let s = split_prefix(buf, nals, k);
            &&& split_shape(s, k as int)
            &&& forall|u: int|
                0 <= u < s.0.len() ==> has_vcl(nals, (#[trigger] s.0[u]).0, s.0[u].1)
                    && spec_starts_new_picture(buf, nals[s.0[u].1])
            &&& s.0.len() > 0 ==> spec_starts_new_picture(buf, nals[s.1])
        }),
    decreases k,
{
    lemma_split_ranges(buf, nals, k);
    if k > 0 {
        lemma_split_prefix(buf, nals, (k - 1) as nat);
        let prev = split_prefix(buf, nals, (k - 1) as nat);
        let s = split_prefix(buf, nals, k);
        if has_vcl(nals, prev.1, k - 1) && spec_starts_new_picture(buf, nals[k - 1]) {
            assert(s.0 == prev.0.push((prev.1, k - 1)));
            assert forall|u: int| 0 <= u < s.0.len() implies has_vcl(
                nals,
                (#[trigger] s.0[u]).0,
                s.0[u].1,
            ) && spec_starts_new_picture(buf, nals[s.0[u].1]) by {
                if u < prev.0.len() {
                    assert(s.0[u] == prev.0[u]);
                }
            }
        }
    }
}

proof fn lemma_nal_order(buf: Seq<u8>, i: int, j: int)
    requires
        start_codes_complete(buf),
        buf.len() <= usize::MAX,
        0 <= i <= j < spec_nals(buf).len(),
    ensures
        spec_nals(buf)[i].start < spec_nals(buf)[j].end,
        spec_nals(buf)[i].start <= spec_nals(buf)[j].start,
    decreases j - i,
{
    lemma_nals_tile(buf);
    if i < j {
        lemma_nal_order(buf, i + 1, j);
        assert(spec_nals(buf)[i].end == spec_nals(buf)[i + 1].start);
        assert(spec_nals(buf)[i].start < spec_nals(buf)[i].end);
    }
}

spec fn units_match(buf: Seq<u8>, units: Seq<AccessUnit>, ranges: Seq<(int, int)>) -> bool {
    &&& units.len() == ranges.len()
    &&& forall|u: int|
        0 <= u < units.len() ==> {
            &&& bytes_view((#[trigger] units[u]).data) == unit_bytes(buf, ranges[u])
            &&& units[u].key == unit_key(buf, ranges[u])
        }
}

proof fn lemma_units_push(
    buf: Seq<u8>,
    units: Seq<AccessUnit>,
    ranges: Seq<(int, int)>,
    a: AccessUnit,
    r: (int, int),
)
    requires
        units_match(buf, units, ranges),
        bytes_view(a.data) == unit_bytes(buf, r),
        a.key == unit_key(buf, r),
    ensures
        units_match(buf, units.push(a), ranges.push(r)),
{
    assert forall|u: int| 0 <= u < units.push(a).len() implies {
        &&& bytes_view((#[trigger] units.push(a)[u]).data) == unit_bytes(buf, ranges.push(r)[u])
        &&& units.push(a)[u].key == unit_key(buf, ranges.push(r)[u])
    } by {
        if u < units.len() {
            assert(units.push(a)[u] == units[u]);
            assert(ranges.push(r)[u] == ranges[u]);
        }
    }
}

/// The access unit still open after the first `k` NAL units: its first byte,
/// its end, whether it holds an IDR slice, and whether it holds a slice.
spec fn open_unit(buf: Seq<u8>, sn: Seq<Nal>, k: nat) -> (usize, usize, bool, bool) {
    let lo = split_prefix(buf, sn, k).1;
    (sn[lo].start, sn[k - 1].end, has_idr(sn, lo, k as int), has_vcl(sn, lo, k as int))
}

proof fn lemma_open_unit_bounds(buf: Seq<u8>, k: nat)
    requires
        start_codes_complete(buf),
        buf.len() <= usize::MAX,
        0 < k <= spec_nals(buf).len(),
    ensures
        open_unit(buf, spec_nals(buf), k).0 <= open_unit(buf, spec_nals(buf), k).1 <= buf.len(),
{
    let sn = spec_nals(buf);
    lemma_split_ranges(buf, sn, k);
    lemma_nals_tile(buf);
    lemma_nal_order(buf, split_prefix(buf, sn, k).1, k - 1);
}

/// How one more NAL unit changes the grouping.
proof fn lemma_split_step(buf: Seq<u8>, k: nat)
    requires
        splittable(buf),
        buf.len() <= usize::MAX,
        k < spec_nals(buf).len(),
    ensures
        ({
            let sn = spec_nals(buf);
            let prev = split_prefix(buf, sn, k);
            let next = split_prefix(buf, sn, k + 1);
            let nal = sn[k as int];
            let boundary = k > 0 && has_vcl(sn, prev.1, k as int) && spec_starts_new_picture(
                buf,
                nal,
            );
            &&& k > 0 ==> open_unit(buf, sn, k).3 == has_vcl(sn, prev.1, k as int)
            &&& (k > 0 && open_unit(buf, sn, k).3 && spec_is_vcl(nal.kind)) ==> first_mb_readable(
                buf,
                nal,
            )
            &&& nal.payload <= buf.len()
            &&& k > 0 ==> open_unit(buf, sn, k).0 <= open_unit(buf, sn, k).1 <= buf.len()
            &&& boundary ==> next.0 == prev.0.push((prev.1, k as int)) && next.1 == k
            &&& !boundary ==> next == prev
            &&& open_unit(buf, sn, k + 1) == if boundary || k == 0 {
                (nal.start, nal.end, nal.kind == NAL_IDR, spec_is_vcl(nal.kind))
            } else {
                let o = open_unit(buf, sn, k);
                (o.0, nal.end, o.2 || nal.kind == NAL_IDR, o.3 || spec_is_vcl(nal.kind))
            }
        }),
{
    let sn = spec_nals(buf);
    lemma_nals_tile(buf);
    lemma_split_prefix(buf, sn, k);
    let prev = split_prefix(buf, sn, k);
    let next = split_prefix(buf, sn, k + 1);
    let nal = sn[k as int];
    let lo = next.1;
    if k > 0 {
        lemma_nal_order(buf, prev.1, k - 1);
        if has_vcl(sn, prev.1, k as int) && spec_is_vcl(nal.kind) {
            let i = choose|i: int| prev.1 <= i < k && spec_is_vcl(#[trigger] sn[i].kind);
            assert(spec_is_vcl(sn[i].kind) && spec_is_vcl(sn[k as int].kind));
        }
    }
    assert(has_idr(sn, lo, k + 1int) == (has_idr(sn, lo, k as int) || sn[k as int].kind == NAL_IDR));
    assert(has_vcl(sn, lo, k + 1int) == (has_vcl(sn, lo, k as int) || spec_is_vcl(
        sn[k as int].kind,
    )));
    if lo == k {
        assert(!has_idr(sn, lo, k as int));
        assert(!has_vcl(sn, lo, k as int));
    }
}

/// Split an Annex-B stream into access units.
///
/// Leading parameter sets stay attached to the slice that follows: split off
/// on their own, the decoder never receives its parameter sets and cannot
/// start.
pub fn to_access_units(buf: &[u8]) -> (out: Vec<AccessUnit>)
    requires
        splittable(buf@),
    ensures
        out@.len() == unit_ranges(buf@).len(),
        forall|u: int|
            0 <= u < out@.len() ==> {
                &&& bytes_view((#[trigger] out@[u]).data) == unit_bytes(buf@, unit_ranges(buf@)[u])
                &&& out@[u].key == unit_key(buf@, unit_ranges(buf@)[u])
            },
{
    let nals = find_nals(buf);
    let ghost sn = spec_nals(buf@);
    proof {
        assert(buf.len() == buf@.len());
    }
    if nals.len() == 0 {
        return Vec::new();
    }
    let mut out: Vec<AccessUnit> = Vec::new();
    // start, end, key, has_vcl of the access unit being built
    let mut cur: Option<(usize, usize, bool, bool)> = None;
    let mut k: usize = 0;
    while k < nals.len()
        invariant
            nals@ == sn,
            sn == spec_nals(buf@),
            splittable(buf@),
            buf@.len() == buf.len(),
            k <= sn.len(),
            units_match(buf@, out@, split_prefix(buf@, sn, k as nat).0),
            k == 0 ==> cur is None,
            k > 0 ==> cur == Some(open_unit(buf@, sn, k as nat)),
        decreases sn.len() - k,
    {
        let nal = nals[k];
        proof {
            lemma_split_step(buf@, k as nat);
        }
        let mut close = false;
        if let Some((_, _, _, vcl)) = cur {
            if vcl {
                close = starts_new_picture(buf, &nal);
            }
        }
        if close {
            if let Some((start, end, key, _)) = cur {
                let data = bytes_copy_from_slice(vstd::slice::slice_subrange(buf, start, end));
                let unit = AccessUnit { data, key };
                proof {
                    let prev = split_prefix(buf@, sn, k as nat);
                    lemma_units_push(buf@, out@, prev.0, unit, (prev.1, k as int));
                }
                out.push(unit);
            }
            cur = None;
        }
        let entry = match cur {
            Some(e) => e,
            None => (nal.start, nal.end, false, false),
        };
        cur = Some((entry.0, nal.end, entry.2 || nal.kind == NAL_IDR, entry.3 || is_vcl(nal.kind)));
        k += 1;
    }
    proof {
        lemma_open_unit_bounds(buf@, k as nat);
    }
    if let Some((start, end, key, _)) = cur {
        let data = bytes_copy_from_slice(vstd::slice::slice_subrange(buf, start, end));
        let unit = AccessUnit { data, key };
        proof {
            let s = split_prefix(buf@, sn, k as nat);
            lemma_units_push(buf@, out@, s.0, unit, (s.1, k as int));
            assert(unit_ranges(buf@) == s.0.push((s.1, k as int)));
        }
        out.push(unit);
    }
    out
}


// ── Checking a stream before splitting it ────────────────────────────────────

/// Whether the `first_mb_in_slice` field of `nal` can be read.
fn check_first_mb_readable(buf: &[u8], nal: &Nal) -> (r: bool)
    requires
        nal.payload <= buf@.len(),
    ensures
        r == first_mb_readable(buf@, *nal),
{
    let end = if buf.len() - nal.payload > 8 {
        nal.payload + 8
    } else {
        buf.len()
    };
    let mut reader = BitReader { buf: vstd::slice::slice_subrange(buf, nal.payload, end), pos: 0 };
    let ghost w = reader.buf@;
    assert(w == header_window(buf@, *nal));
    let mut zeros: u32 = 0;
    while zeros < 32
        invariant
            reader.wf(),
            reader.buf@ == w,
            w == header_window(buf@, *nal),
            zeros <= 32,
            forall|j: int| 0 <= j < zeros ==> bit_at(w, #[trigger] (0 + j)) == 0,
            reader.pos == reader_pos(zeros as int, 8 * w.len() as int),
        decreases 32 - zeros,
    {
        let b = reader.bit();
        proof {
            lemma_bit_read(w, zeros as int);
        }
        if b != 0 {
            proof {
                assert(bit_at(w, 0 + zeros) == 1);
                lemma_zero_run_is(w, 0, zeros as nat, 32);
                assert(zero_run(w, 0, 32) == zeros);
            }
            return true;
        }
        zeros += 1;
    }
    proof {
        lemma_zero_run_is(w, 0, 32, 32);
    }
    false
}

/// Whether `buf` can be handed to [`to_access_units`]: every start code is
/// followed by a NAL header, and every slice after the first has a readable
/// `first_mb_in_slice`.
pub fn is_splittable(buf: &[u8]) -> (r: bool)
    ensures
        r == splittable(buf@),
{
    let marks = scan_start_codes(buf);
    proof {
        lemma_scan_marks(buf@, 0);
        assert(marks_view(marks@).len() == marks@.len());
        assert(buf.len() == buf@.len());
    }
    if marks.len() > 0 {
        let (at, len) = marks[marks.len() - 1];
        assert(start_codes(buf@)[marks@.len() - 1] == (at as int, len as int));
        if buf.len() - at <= len {
            return false;
        }
        proof {
            let sm = start_codes(buf@);
            assert forall|n: int| 0 <= n < sm.len() implies #[trigger] sm[n].0 + sm[n].1 < buf@.len() by {
                if n < sm.len() - 1 {
                    lemma_marks_ordered(buf@, n, sm.len() - 1);
                }
            }
        }
    }
    let nals = find_nals(buf);
    let ghost sn = spec_nals(buf@);
    proof {
        lemma_nals_tile(buf@);
    }
    let mut seen_vcl = false;
    let mut j: usize = 0;
    while j < nals.len()
        invariant
            nals@ == sn,
            sn == spec_nals(buf@),
            start_codes_complete(buf@),
            buf@.len() == buf.len(),
            j <= sn.len(),
            forall|n: int| 0 <= n < sn.len() ==> (#[trigger] sn[n]).payload <= buf.len(),
            seen_vcl == has_vcl(sn, 0, j as int),
            forall|a: int, b: int|
                0 <= a < b < j && spec_is_vcl(#[trigger] sn[a].kind) && spec_is_vcl(
                    #[trigger] sn[b].kind,
                ) ==> first_mb_readable(buf@, sn[b]),
        decreases sn.len() - j,
    {
        let nal = nals[j];
        if is_vcl(nal.kind) {
            if seen_vcl && !check_first_mb_readable(buf, &nal) {
                proof {
                    let a = choose|a: int| 0 <= a < j && spec_is_vcl(#[trigger] sn[a].kind);
                    assert(spec_is_vcl(sn[a].kind) && spec_is_vcl(sn[j as int].kind));
                }
                return false;
            }
            seen_vcl = true;
        }
        proof {
            assert(has_vcl(sn, 0, j + 1int) == (has_vcl(sn, 0, j as int) || spec_is_vcl(
                sn[j as int].kind,
            )));
            assert forall|a: int, b: int|
                0 <= a < b < j + 1 && spec_is_vcl(#[trigger] sn[a].kind) && spec_is_vcl(
                    #[trigger] sn[b].kind,
                ) implies first_mb_readable(buf@, sn[b]) by {
                if b == j {
                    assert(has_vcl(sn, 0, j as int));
                }
            }
        }
        j += 1;
    }
    true
}

/// The access unit sent after unit `i` of `n`: the next one, back to the
/// first after the last, so the stream loops.
pub fn next_unit(i: usize, n: usize) -> (next: usize)
    requires
        i < n,
    ensures
        next == (i + 1) % (n as int),
        next < n,
{
    (i + 1) % n
}

/// Law: an access unit is a keyframe exactly when some NAL unit inside it
/// is an IDR slice (type 5), wherever in the unit it stands; parameter sets
/// or other NAL units after the IDR slice do not clear the flag.
pub proof fn law_key_iff_idr_inside(buf: Seq<u8>)
    ensures
        forall|u: int|
            0 <= u < unit_ranges(buf).len() ==> (unit_key(buf, #[trigger] unit_ranges(buf)[u]) <==> exists|i: int|
                unit_ranges(buf)[u].0 <= i < unit_ranges(buf)[u].1 && #[trigger] spec_nals(buf)[i].kind
                    == 5u8),
{
}

/// Law: the bytes of an access unit are the buffer from the unit's first
/// byte to its end.
pub proof fn law_unit_bytes_are_its_span(buf: Seq<u8>)
    ensures
        forall|u: int|
            0 <= u < unit_ranges(buf).len() ==> unit_bytes(buf, #[trigger] unit_ranges(buf)[u])
                == buf.subrange(
                spec_nals(buf)[unit_ranges(buf)[u].0].start as int,
                spec_nals(buf)[unit_ranges(buf)[u].1 - 1].end as int,
            ),
{
}

/// How many of `units` are keyframes.
pub open spec fn key_count(units: Seq<AccessUnit>) -> nat
    decreases units.len(),
{
    if units.len() == 0 {
        0
    } else {
        key_count(units.drop_last()) + if units.last().key {
            1nat
        } else {
            0nat
        }
    }
}

/// Law: counting keyframes counts every unit once: none in an empty list,
/// and one more for each appended unit that is a keyframe, the last one
/// included.
pub proof fn law_key_count_counts_each_unit(units: Seq<AccessUnit>, u: AccessUnit)
    ensures
        key_count(Seq::<AccessUnit>::empty()) == 0,
        key_count(units.push(u)) == key_count(units) + if u.key {
            1int
        } else {
            0int
        },
        key_count(seq![u]) == if u.key {
            1int
        } else {
            0int
        },
{
    assert(units.push(u).drop_last() == units);
    assert(seq![u].drop_last() == Seq::<AccessUnit>::empty());
}

/// Count the access units that are keyframes.
pub fn count_keyframes(units: &[AccessUnit]) -> (n: usize)
    ensures
        n == key_count(units@),
{
    let mut n: usize = 0;
    let mut i: usize = 0;
    while i < units.len()
        invariant
            i <= units@.len(),
            n == key_count(units@.subrange(0, i as int)),
            n <= i,
        decreases units@.len() - i,
    {
        assert(units@.subrange(0, i + 1).drop_last() == units@.subrange(0, i as int));
        if units[i].key {
            n += 1;
        }
        i += 1;
    }
    assert(units@.subrange(0, i as int) == units@);
    n
}


// ── Laws of the splitting ────────────────────────────────────────────────────

/// First byte of the access unit made of NAL units `r.0..r.1`.
pub open spec fn unit_start(buf: Seq<u8>, r: (int, int)) -> int {
    spec_nals(buf)[r.0].start as int
}

/// End of the access unit made of NAL units `r.0..r.1`.
pub open spec fn unit_end(buf: Seq<u8>, r: (int, int)) -> int {
    spec_nals(buf)[r.1 - 1].end as int
}

/// No NAL unit after a slice inside `nals[lo..hi]` starts a new picture.
pub open spec fn picture_whole(buf: Seq<u8>, nals: Seq<Nal>, lo: int, hi: int) -> bool {
    forall|j: int|
        lo < j < hi && has_vcl(nals, lo, j) ==> !spec_starts_new_picture(buf, #[trigger] nals[j])
}

proof fn lemma_split_whole(buf: Seq<u8>, nals: Seq<Nal>, k: nat)
    requires
        k <= nals.len(),
    ensures
        ({
            let s = split_prefix(buf, nals, k);
            &&& forall|u: int|
                0 <= u < s.0.len() ==> picture_whole(buf, nals, (#[trigger] s.0[u]).0, s.0[u].1)
            &&& picture_whole(buf, nals, s.1, k as int)
        }),
    decreases k,
{
    if k > 0 {
        lemma_split_whole(buf, nals, (k - 1) as nat);
        lemma_split_prefix(buf, nals, (k - 1) as nat);
        let prev = split_prefix(buf, nals, (k - 1) as nat);
        let s = split_prefix(buf, nals, k);
        if has_vcl(nals, prev.1, k - 1) && spec_starts_new_picture(buf, nals[k - 1]) {
            assert forall|u: int| 0 <= u < s.0.len() implies picture_whole(
                buf,
                nals,
                (#[trigger] s.0[u]).0,
                s.0[u].1,
            ) by {
                if u < prev.0.len() {
                    assert(s.0[u] == prev.0[u]);
                }
            }
        }
    }
}

/// Access-unit ranges over NAL units that tile a buffer tile it too.
proof fn lemma_ranges_tile(buf: Seq<u8>, nals: Seq<Nal>)
    requires
        nals.len() > 0,
        forall|i: int| 0 <= i < nals.len() ==> (#[trigger] nals[i]).start < nals[i].end,
        forall|i: int| 0 <= i < nals.len() - 1 ==> #[trigger] nals[i].end == nals[i + 1].start,
    ensures
        ({
            let s = split_prefix(buf, nals, nals.len());
            let units = s.0.push((s.1, nals.len() as int));
            &&& units[0].0 == 0
            &&& units.last().1 == nals.len()
            &&& forall|u: int|
                0 <= u < units.len() ==> 0 <= (#[trigger] units[u]).0 < units[u].1 <= nals.len()
                    && nals[units[u].0].start < nals[units[u].1 - 1].end
            &&& forall|u: int|
                0 <= u < units.len() - 1 ==> nals[#[trigger] units[u].1 - 1].end == nals[units[u
                    + 1].0].start
        }),
{
    let n = nals.len();
    lemma_split_ranges(buf, nals, n);
    let s = split_prefix(buf, nals, n);
    let units = s.0.push((s.1, n as int));
    assert(split_shape(s, n as int));
    assert forall|u: int| 0 <= u < units.len() implies 0 <= (#[trigger] units[u]).0 < units[u].1
        <= nals.len() && nals[units[u].0].start < nals[units[u].1 - 1].end by {
        if u < s.0.len() {
            assert(units[u] == s.0[u]);
            lemma_seq_order(nals, s.0[u].0, s.0[u].1 - 1);
        } else {
            lemma_seq_order(nals, s.1, n - 1);
        }
    }
    assert forall|u: int| 0 <= u < units.len() - 1 implies nals[#[trigger] units[u].1 - 1].end
        == nals[units[u + 1].0].start by {
        assert(units[u] == s.0[u]);
        if u + 1 < s.0.len() {
            assert(units[u + 1] == s.0[u + 1]);
        }
    }
    if s.0.len() > 0 {
        assert(units[0] == s.0[0]);
    }
}

proof fn lemma_seq_order(nals: Seq<Nal>, i: int, j: int)
    requires
        0 <= i <= j < nals.len(),
        forall|i: int| 0 <= i < nals.len() ==> (#[trigger] nals[i]).start < nals[i].end,
        forall|i: int| 0 <= i < nals.len() - 1 ==> #[trigger] nals[i].end == nals[i + 1].start,
    ensures
        nals[i].start < nals[j].end,
    decreases j - i,
{
    if i < j {
        lemma_seq_order(nals, i + 1, j);
    }
}

/// Law: the access units tile the stream. There are none exactly when the
/// stream holds no start code; otherwise the first begins at the first start
/// code, each ends where the next begins, and the last ends with the buffer,
/// so no byte after the first start code is lost or repeated.
pub proof fn law_units_tile_stream(buf: Seq<u8>)
    requires
        splittable(buf),
        buf.len() <= usize::MAX,
    ensures
        (unit_ranges(buf).len() == 0) == (start_codes(buf).len() == 0),
        unit_ranges(buf).len() > 0 ==> unit_start(buf, unit_ranges(buf)[0]) == start_codes(buf)[0].0,
        unit_ranges(buf).len() > 0 ==> unit_end(buf, unit_ranges(buf).last()) == buf.len(),
        forall|u: int|
            0 <= u < unit_ranges(buf).len() ==> unit_start(buf, #[trigger] unit_ranges(buf)[u])
                < unit_end(buf, unit_ranges(buf)[u]),
        forall|u: int|
            0 <= u < unit_ranges(buf).len() - 1 ==> unit_end(buf, #[trigger] unit_ranges(buf)[u])
                == unit_start(buf, unit_ranges(buf)[u + 1]),
{
    let sn = spec_nals(buf);
    lemma_nals_tile(buf);
    if sn.len() > 0 {
        lemma_ranges_tile(buf, sn);
        let s = split_prefix(buf, sn, sn.len());
        assert(unit_ranges(buf) == s.0.push((s.1, sn.len() as int)));
    }
}

/// Law: a picture is never split. Inside an access unit, no NAL unit that
/// follows a slice starts a new picture, so the further slices of a
/// multi-slice picture stay with its first.
pub proof fn law_pictures_stay_whole(buf: Seq<u8>)
    requires
        splittable(buf),
    ensures
        forall|u: int|
            0 <= u < unit_ranges(buf).len() ==> picture_whole(
                buf,
                spec_nals(buf),
                (#[trigger] unit_ranges(buf)[u]).0,
                unit_ranges(buf)[u].1,
            ),
{
    let sn = spec_nals(buf);
    let n = sn.len();
    if n > 0 {
        lemma_split_whole(buf, sn, n);
        let s = split_prefix(buf, sn, n);
        let units = unit_ranges(buf);
        assert forall|u: int| 0 <= u < units.len() implies picture_whole(
            buf,
            sn,
            (#[trigger] units[u]).0,
            units[u].1,
        ) by {
            if u < s.0.len() {
                assert(units[u] == s.0[u]);
            }
        }
    }
}

/// Law: every access unit after the first begins with a slice that starts a
/// new picture.
pub proof fn law_units_begin_pictures(buf: Seq<u8>)
    requires
        splittable(buf),
    ensures
        forall|u: int|
            0 < u < unit_ranges(buf).len() ==> spec_starts_new_picture(
                buf,
                spec_nals(buf)[(#[trigger] unit_ranges(buf)[u]).0],
            ),
{
    let sn = spec_nals(buf);
    let n = sn.len();
    if n > 0 {
        lemma_split_prefix(buf, sn, n);
        let s = split_prefix(buf, sn, n);
        let units = unit_ranges(buf);
        assert forall|u: int| 0 < u < units.len() implies spec_starts_new_picture(
            buf,
            sn[(#[trigger] units[u]).0],
        ) by {
            assert(units[u - 1] == s.0[u - 1]);
            if u < s.0.len() {
                assert(units[u] == s.0[u]);
            }
        }
    }
}

/// Law: parameter sets never travel alone. When the stream holds any slice,
/// every access unit holds one, so the SPS and PPS that lead the stream stay
/// attached to the picture that follows them.
pub proof fn law_every_unit_has_a_picture(buf: Seq<u8>)
    requires
        splittable(buf),
        has_vcl(spec_nals(buf), 0, spec_nals(buf).len() as int),
    ensures
        forall|u: int|
            0 <= u < unit_ranges(buf).len() ==> has_vcl(
                spec_nals(buf),
                (#[trigger] unit_ranges(buf)[u]).0,
                unit_ranges(buf)[u].1,
            ),
{
    let sn = spec_nals(buf);
    let n = sn.len();
    lemma_split_prefix(buf, sn, n);
    let s = split_prefix(buf, sn, n);
    let units = unit_ranges(buf);
    assert forall|u: int| 0 <= u < units.len() implies has_vcl(
        sn,
        (#[trigger] units[u]).0,
        units[u].1,
    ) by {
        if u < s.0.len() {
            assert(units[u] == s.0[u]);
        } else if s.0.len() > 0 {
            assert(spec_is_vcl(sn[s.1].kind));
        }
    }
}

} // verus!
