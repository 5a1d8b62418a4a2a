//! Decoding of interval blocks: a 24-byte header followed by fixed-size
//! records in one of three layouts (explicit intervals, variable-step,
//! fixed-step), an optional half-open coordinate filter, and the packed
//! column-major result buffer.

use crate::wire::{
    bits_from_i32, bits_to_i32, i32_from_bits, le16, le32, le_column_i32, le_column_u32, le_i32,
    push_i32_column, push_u32_column, push_u32_le, read_i32_le, read_u16_le, read_u32_le,
    u16_le_bytes, u32_le_bytes,
};
use vstd::prelude::*;
use vstd::slice::slice_index_get;

verus! {

/// One decoded interval record.  The score is carried as the
/// little-endian bit pattern of the 32-bit field read from the wire;
/// interval decoding never interprets it numerically.
pub struct IntervalRec {
    pub start: i32,
    pub end: i32,
    pub score_bits: u32,
}

/// The block's base coordinate (header offset 4).
pub open spec fn blk_start(d: Seq<u8>) -> i32 {
    le_i32(d, 4)
}

/// The per-record coordinate step (header offset 12, reinterpreted as
/// signed, as the decoder's arithmetic is).
pub open spec fn blk_step(d: Seq<u8>) -> i32 {
    i32_from_bits(le32(d, 12))
}

/// The per-record span (header offset 16, reinterpreted as signed).
pub open spec fn blk_span(d: Seq<u8>) -> i32 {
    i32_from_bits(le32(d, 16))
}

/// The block type byte (header offset 20).
pub open spec fn blk_type(d: Seq<u8>) -> u8 {
    d[20]
}

/// The declared record count (header offset 22).
pub open spec fn blk_count(d: Seq<u8>) -> u16 {
    le16(d, 22)
}

/// Bytes per record for each block type: explicit intervals store
/// start, end and score; variable-step stores start and score;
/// fixed-step stores only the score.
pub open spec fn record_size(t: u8) -> int {
    if t == 1 {
        12
    } else if t == 2 {
        8
    } else {
        4
    }
}

/// Whether `d` can be decoded as an interval block without reading past
/// its end: either it decodes to no records (too short, or an unknown
/// type), or the declared record count fits inside its bytes.
pub open spec fn interval_data_ok(d: Seq<u8>) -> bool {
    ||| d.len() < 24
    ||| !(1 <= blk_type(d) && blk_type(d) <= 3)
    ||| d.len() >= 24 + blk_count(d) * record_size(blk_type(d))
}

/// The record at index `i` of the block `d`, derived per block type:
/// explicit intervals read all three fields; variable-step reads start
/// and score and derives `end = start + span`; fixed-step reads only
/// the score and derives `start = base + i * step`, `end = start +
/// span`.  Coordinate arithmetic wraps as 32-bit.
pub open spec fn interval_rec(d: Seq<u8>, i: int) -> IntervalRec {
    let t = blk_type(d);
    if t == 1 {
        IntervalRec {
            start: le_i32(d, 24 + 12 * i),
            end: le_i32(d, 24 + 12 * i + 4),
            score_bits: le32(d, 24 + 12 * i + 8),
        }
    } else if t == 2 {
        let s = le_i32(d, 24 + 8 * i);
        IntervalRec {
            start: s,
            end: s.wrapping_add(blk_span(d)),
            score_bits: le32(d, 24 + 8 * i + 4),
        }
    } else {
        let s = blk_start(d).wrapping_add((i as i32).wrapping_mul(blk_step(d)));
        IntervalRec {
            start: s,
            end: s.wrapping_add(blk_span(d)),
            score_bits: le32(d, 24 + 4 * i),
        }
    }
}

/// All records the block `d` declares, before filtering.  A block
/// shorter than its 24-byte header, or of a type outside 1..=3, decodes
/// to no records.
pub open spec fn interval_records(d: Seq<u8>) -> Seq<IntervalRec> {
    if d.len() < 24 || !(1 <= blk_type(d) && blk_type(d) <= 3) {
        Seq::empty()
    } else {
        Seq::new(blk_count(d) as nat, |i: int| interval_rec(d, i))
    }
}

/// The half-open overlap filter.  Filtering is disabled when both
/// bounds are exactly zero; otherwise a record passes iff it overlaps
/// the window [req_start, req_end).
pub open spec fn passes_filter(start: i32, end: i32, req_start: i32, req_end: i32) -> bool {
    (req_start == 0 && req_end == 0) || (start < req_end && end > req_start)
}

/// The records of `recs` that pass the filter, in their original order.
pub open spec fn kept_records(recs: Seq<IntervalRec>, req_start: i32, req_end: i32) -> Seq<
    IntervalRec,
>
    decreases recs.len(),
{
    if recs.len() == 0 {
        Seq::empty()
    } else {
        let rest = kept_records(recs.drop_last(), req_start, req_end);
        if passes_filter(recs.last().start, recs.last().end, req_start, req_end) {
            rest.push(recs.last())
        } else {
            rest
        }
    }
}

/// The records of the block `d` that survive the filter.
pub open spec fn kept_interval_records(d: Seq<u8>, req_start: i32, req_end: i32) -> Seq<
    IntervalRec,
> {
    kept_records(interval_records(d), req_start, req_end)
}

/// The start coordinates of `recs`, in order.
pub open spec fn rec_starts(recs: Seq<IntervalRec>) -> Seq<i32> {
    recs.map_values(|r: IntervalRec| r.start)
}

/// The end coordinates of `recs`, in order.
pub open spec fn rec_ends(recs: Seq<IntervalRec>) -> Seq<i32> {
    recs.map_values(|r: IntervalRec| r.end)
}

/// The score bit patterns of `recs`, in order.
pub open spec fn rec_scores(recs: Seq<IntervalRec>) -> Seq<u32> {
    recs.map_values(|r: IntervalRec| r.score_bits)
}

/// The packed interval result: a 32-bit record count followed by the
/// start, end and score columns, all little-endian.
pub open spec fn packed_interval(recs: Seq<IntervalRec>) -> Seq<u8> {
    u32_le_bytes(recs.len() as u32) + le_column_i32(rec_starts(recs)) + le_column_i32(
        rec_ends(recs),
    ) + le_column_u32(rec_scores(recs))
}

/// The wire bytes of one record under block type `t`: explicit
/// intervals store start, end and score; variable-step start and
/// score; fixed-step only the score.
pub open spec fn encoded_interval_rec(r: IntervalRec, t: u8) -> Seq<u8> {
    if t == 1 {
        u32_le_bytes(bits_from_i32(r.start)) + u32_le_bytes(bits_from_i32(r.end)) + u32_le_bytes(
            r.score_bits,
        )
    } else if t == 2 {
        u32_le_bytes(bits_from_i32(r.start)) + u32_le_bytes(r.score_bits)
    } else {
        u32_le_bytes(r.score_bits)
    }
}

/// The record payload of a block of type `t`, record by record.
pub open spec fn encoded_interval_payload(recs: Seq<IntervalRec>, t: u8) -> Seq<u8>
    decreases recs.len(),
{
    if recs.len() == 0 {
        Seq::empty()
    } else {
        encoded_interval_payload(recs.drop_last(), t) + encoded_interval_rec(recs.last(), t)
    }
}

/// The wire encoding of a whole interval block: the 24-byte header
/// (chromosome id, base coordinate, a reserved word, step, span, the
/// type byte, a reserved byte, the record count) followed by the
/// record payload.
pub open spec fn encoded_interval_block(
    chrom_id: u32,
    block_start: i32,
    step_bits: u32,
    span_bits: u32,
    t: u8,
    recs: Seq<IntervalRec>,
) -> Seq<u8> {
    u32_le_bytes(chrom_id) + u32_le_bytes(bits_from_i32(block_start)) + u32_le_bytes(0)
        + u32_le_bytes(step_bits) + u32_le_bytes(span_bits) + seq![t, 0u8] + u16_le_bytes(
        recs.len() as u16,
    ) + encoded_interval_payload(recs, t)
}

/// An encoded payload takes `record_size(t)` bytes per record.
pub proof fn lemma_encoded_payload_len(recs: Seq<IntervalRec>, t: u8)
    ensures
        encoded_interval_payload(recs, t).len() == recs.len() * record_size(t),
    decreases recs.len(),
{
    if recs.len() > 0 {
        lemma_encoded_payload_len(recs.drop_last(), t);
        assert((recs.len() - 1) * record_size(t) + record_size(t) == recs.len() * record_size(t))
            by (nonlinear_arith);
    }
}

/// The bytes at slot `i` of an encoded payload are record `i`'s bytes.
proof fn lemma_encoded_payload_at(recs: Seq<IntervalRec>, t: u8, i: int)
    requires
        0 <= i < recs.len(),
    ensures
        encoded_interval_payload(recs, t).subrange(
            i * record_size(t),
            i * record_size(t) + record_size(t),
        ) == encoded_interval_rec(recs[i], t),
    decreases recs.len(),
{
    lemma_encoded_payload_len(recs, t);
    lemma_encoded_payload_len(recs.drop_last(), t);
    let sz = record_size(t);
    if i == recs.len() - 1 {
        assert(encoded_interval_payload(recs, t).subrange(i * sz, i * sz + sz)
            =~= encoded_interval_rec(recs[i], t));
    } else {
        lemma_encoded_payload_at(recs.drop_last(), t, i);
        assert((i + 1) * sz <= (recs.len() - 1) * sz) by (nonlinear_arith)
            requires
                i + 1 <= recs.len() - 1,
                sz >= 0,
        ;
        assert(i * sz + sz == (i + 1) * sz) by (nonlinear_arith);
        assert(encoded_interval_payload(recs, t).subrange(i * sz, i * sz + sz)
            =~= encoded_interval_payload(recs.drop_last(), t).subrange(i * sz, i * sz + sz));
    }
}

/// The header fields of an encoded block decode to what was encoded.
#[verifier::rlimit(80)]
proof fn lemma_interval_header_decodes(
    chrom_id: u32,
    block_start: i32,
    step_bits: u32,
    span_bits: u32,
    t: u8,
    recs: Seq<IntervalRec>,
)
    requires
        recs.len() <= u16::MAX,
    ensures
        ({
            let enc = encoded_interval_block(chrom_id, block_start, step_bits, span_bits, t, recs);
            &&& enc.len() == 24 + recs.len() * record_size(t)
            &&& blk_type(enc) == t
            &&& blk_count(enc) == recs.len()
            &&& blk_start(enc) == block_start
            &&& blk_step(enc) == i32_from_bits(step_bits)
            &&& blk_span(enc) == i32_from_bits(span_bits)
        }),
{
    let enc = encoded_interval_block(chrom_id, block_start, step_bits, span_bits, t, recs);
    lemma_encoded_payload_len(recs, t);
    assert(enc.subrange(4, 8) =~= u32_le_bytes(bits_from_i32(block_start)));
    crate::wire::lemma_le32_at(enc, 4, bits_from_i32(block_start));
    crate::wire::lemma_i32_bits_roundtrip(block_start);
    assert(enc.subrange(12, 16) =~= u32_le_bytes(step_bits));
    crate::wire::lemma_le32_at(enc, 12, step_bits);
    assert(enc.subrange(16, 20) =~= u32_le_bytes(span_bits));
    crate::wire::lemma_le32_at(enc, 16, span_bits);
    assert(enc[20] == t);
    assert(enc.subrange(22, 24) =~= u16_le_bytes(recs.len() as u16));
    crate::wire::lemma_le16_at(enc, 22, recs.len() as u16);
}

/// The record at slot `i` of an encoded block decodes to the encoded
/// fields, with the derived coordinates following the header.
#[verifier::rlimit(80)]
proof fn lemma_interval_rec_decodes(
    chrom_id: u32,
    block_start: i32,
    step_bits: u32,
    span_bits: u32,
    t: u8,
    recs: Seq<IntervalRec>,
    i: int,
)
    requires
        1 <= t <= 3,
        recs.len() <= u16::MAX,
        0 <= i < recs.len(),
    ensures
        ({
            let dec = interval_rec(
                encoded_interval_block(chrom_id, block_start, step_bits, span_bits, t, recs),
                i,
            );
            &&& dec.score_bits == recs[i].score_bits
            &&& t == 1 ==> dec.start == recs[i].start && dec.end == recs[i].end
            &&& t == 2 ==> dec.start == recs[i].start && dec.end == recs[i].start.wrapping_add(
                i32_from_bits(span_bits),
            )
            &&& t == 3 ==> dec.start == block_start.wrapping_add(
                (i as i32).wrapping_mul(i32_from_bits(step_bits)),
            ) && dec.end == dec.start.wrapping_add(i32_from_bits(span_bits))
        }),
{
    let enc = encoded_interval_block(chrom_id, block_start, step_bits, span_bits, t, recs);
    let r = recs[i];
    let rb = encoded_interval_rec(r, t);
    let sz = record_size(t);
    lemma_interval_header_decodes(chrom_id, block_start, step_bits, span_bits, t, recs);
    lemma_encoded_payload_len(recs, t);
    lemma_encoded_payload_at(recs, t, i);
    assert((i + 1) * sz <= recs.len() * sz) by (nonlinear_arith)
        requires
            i + 1 <= recs.len(),
            sz >= 0,
    ;
    assert(i * sz + sz == (i + 1) * sz) by (nonlinear_arith);
    let pl = encoded_interval_payload(recs, t);
    assert(enc.subrange(24 + i * sz, 24 + i * sz + sz) =~= pl.subrange(i * sz, i * sz + sz));
    if t == 1 {
        assert(rb.subrange(0, 4) =~= u32_le_bytes(bits_from_i32(r.start)));
        assert(rb.subrange(4, 8) =~= u32_le_bytes(bits_from_i32(r.end)));
        assert(rb.subrange(8, 12) =~= u32_le_bytes(r.score_bits));
        assert(enc.subrange(24 + 12 * i, 24 + 12 * i + 4) =~= rb.subrange(0, 4));
        assert(enc.subrange(24 + 12 * i + 4, 24 + 12 * i + 8) =~= rb.subrange(4, 8));
        assert(enc.subrange(24 + 12 * i + 8, 24 + 12 * i + 12) =~= rb.subrange(8, 12));
        crate::wire::lemma_le32_at(enc, 24 + 12 * i, bits_from_i32(r.start));
        crate::wire::lemma_le32_at(enc, 24 + 12 * i + 4, bits_from_i32(r.end));
        crate::wire::lemma_le32_at(enc, 24 + 12 * i + 8, r.score_bits);
        crate::wire::lemma_i32_bits_roundtrip(r.start);
        crate::wire::lemma_i32_bits_roundtrip(r.end);
    } else if t == 2 {
        assert(rb.subrange(0, 4) =~= u32_le_bytes(bits_from_i32(r.start)));
        assert(rb.subrange(4, 8) =~= u32_le_bytes(r.score_bits));
        assert(enc.subrange(24 + 8 * i, 24 + 8 * i + 4) =~= rb.subrange(0, 4));
        assert(enc.subrange(24 + 8 * i + 4, 24 + 8 * i + 8) =~= rb.subrange(4, 8));
        crate::wire::lemma_le32_at(enc, 24 + 8 * i, bits_from_i32(r.start));
        crate::wire::lemma_le32_at(enc, 24 + 8 * i + 4, r.score_bits);
        crate::wire::lemma_i32_bits_roundtrip(r.start);
    } else {
        assert(rb.subrange(0, 4) =~= u32_le_bytes(r.score_bits));
        assert(enc.subrange(24 + 4 * i, 24 + 4 * i + 4) =~= rb.subrange(0, 4));
        crate::wire::lemma_le32_at(enc, 24 + 4 * i, r.score_bits);
    }
}

/// Law: decoding inverts the interval encoding for all three block
/// types: when the header is consistent with the records (a
/// variable-step record ends at its start plus the span; a fixed-step
/// record's coordinates follow the base, step and span), the full
/// decoded record list is exactly the encoded one, in order.
pub proof fn lemma_interval_round_trip(
    chrom_id: u32,
    block_start: i32,
    step_bits: u32,
    span_bits: u32,
    t: u8,
    recs: Seq<IntervalRec>,
)
    requires
        1 <= t <= 3,
        recs.len() <= u16::MAX,
        t == 2 ==> forall|j: int|
            0 <= j < recs.len() ==> (#[trigger] recs[j]).end == recs[j].start.wrapping_add(
                i32_from_bits(span_bits),
            ),
        t == 3 ==> forall|j: int|
            0 <= j < recs.len() ==> ((#[trigger] recs[j]).start == block_start.wrapping_add(
                (j as i32).wrapping_mul(i32_from_bits(step_bits)),
            ) && recs[j].end == recs[j].start.wrapping_add(i32_from_bits(span_bits))),
    ensures
        interval_records(encoded_interval_block(chrom_id, block_start, step_bits, span_bits, t, recs))
            == recs,
{
    let enc = encoded_interval_block(chrom_id, block_start, step_bits, span_bits, t, recs);
    lemma_interval_header_decodes(chrom_id, block_start, step_bits, span_bits, t, recs);
    assert forall|i: int| 0 <= i < recs.len() implies interval_rec(enc, i) == recs[i] by {
        lemma_interval_rec_decodes(chrom_id, block_start, step_bits, span_bits, t, recs, i);
    }
    assert(interval_records(enc) =~= recs);
}

/// Law: with the filter enabled (some bound nonzero), a record is kept
/// iff it overlaps the half-open request window: `start < req_end`
/// and `end > req_start`.  A record that only touches a boundary
/// (`end == req_start` or `start == req_end`) is excluded.
pub proof fn lemma_filter_overlap(start: i32, end: i32, req_start: i32, req_end: i32)
    requires
        req_start != 0 || req_end != 0,
    ensures
        passes_filter(start, end, req_start, req_end) <==> (start < req_end && end > req_start),
{
}

/// Law: with both request bounds zero the filter is disabled and every
/// record is kept, whatever its coordinates — including a record at
/// (0, 0).
pub proof fn lemma_filter_disabled(start: i32, end: i32)
    ensures
        passes_filter(start, end, 0, 0),
{
}

/// Law: every record that `kept_records` keeps passes the filter.
pub proof fn lemma_kept_records_pass(recs: Seq<IntervalRec>, req_start: i32, req_end: i32, j: int)
    requires
        0 <= j < kept_records(recs, req_start, req_end).len(),
    ensures
        passes_filter(
            kept_records(recs, req_start, req_end)[j].start,
            kept_records(recs, req_start, req_end)[j].end,
            req_start,
            req_end,
        ),
    decreases recs.len(),
{
    if recs.len() > 0 {
        let kept = kept_records(recs, req_start, req_end);
        let rest = kept_records(recs.drop_last(), req_start, req_end);
        if j < rest.len() {
            lemma_kept_records_pass(recs.drop_last(), req_start, req_end, j);
        }
    }
}

/// Law: every record that passes the filter is kept.
pub proof fn lemma_kept_records_complete(
    recs: Seq<IntervalRec>,
    req_start: i32,
    req_end: i32,
    j: int,
)
    requires
        0 <= j < recs.len(),
        passes_filter(recs[j].start, recs[j].end, req_start, req_end),
    ensures
        kept_records(recs, req_start, req_end).contains(recs[j]),
    decreases recs.len(),
{
    let kept = kept_records(recs, req_start, req_end);
    let rest = kept_records(recs.drop_last(), req_start, req_end);
    if j == recs.len() - 1 {
        assert(kept == rest.push(recs[j]));
        assert(kept[kept.len() - 1] == recs[j]);
    } else {
        assert(recs.drop_last()[j] == recs[j]);
        lemma_kept_records_complete(recs.drop_last(), req_start, req_end, j);
        let i = choose|i: int| 0 <= i < rest.len() && rest[i] == recs[j];
        assert(kept[i] == recs[j]);
    }
}

/// Never more records survive the filter than the block declares.
pub proof fn lemma_kept_records_len(recs: Seq<IntervalRec>, req_start: i32, req_end: i32)
    ensures
        kept_records(recs, req_start, req_end).len() <= recs.len(),
    decreases recs.len(),
{
    if recs.len() > 0 {
        lemma_kept_records_len(recs.drop_last(), req_start, req_end);
    }
}

/// Law: a block shorter than the 24-byte header decodes to zero
/// records, and its packed result is a lone zero count.
pub proof fn lemma_truncated_block_empty(d: Seq<u8>, req_start: i32, req_end: i32)
    requires
        d.len() < 24,
    ensures
        kept_interval_records(d, req_start, req_end) == Seq::<IntervalRec>::empty(),
        packed_interval(kept_interval_records(d, req_start, req_end)) == u32_le_bytes(0),
{
    let kept = kept_interval_records(d, req_start, req_end);
    assert(interval_records(d) == Seq::<IntervalRec>::empty());
    assert(kept == Seq::<IntervalRec>::empty());
    assert(rec_starts(kept) =~= Seq::<i32>::empty());
    assert(rec_ends(kept) =~= Seq::<i32>::empty());
    assert(rec_scores(kept) =~= Seq::<u32>::empty());
    assert(packed_interval(kept) =~= u32_le_bytes(0));
}

/// Taking the starts of one more record appends its start.
proof fn lemma_rec_columns_push(s: Seq<IntervalRec>, r: IntervalRec)
    ensures
        rec_starts(s.push(r)) == rec_starts(s).push(r.start),
        rec_ends(s.push(r)) == rec_ends(s).push(r.end),
        rec_scores(s.push(r)) == rec_scores(s).push(r.score_bits),
{
    assert(rec_starts(s.push(r)) =~= rec_starts(s).push(r.start));
    assert(rec_ends(s.push(r)) =~= rec_ends(s).push(r.end));
    assert(rec_scores(s.push(r)) =~= rec_scores(s).push(r.score_bits));
}

/// Taking the columns of concatenated record runs concatenates the
/// columns.
pub(crate) proof fn lemma_rec_columns_concat(a: Seq<IntervalRec>, b: Seq<IntervalRec>)
    ensures
        rec_starts(a + b) == rec_starts(a) + rec_starts(b),
        rec_ends(a + b) == rec_ends(a) + rec_ends(b),
        rec_scores(a + b) == rec_scores(a) + rec_scores(b),
{
    assert(rec_starts(a + b) =~= rec_starts(a) + rec_starts(b));
    assert(rec_ends(a + b) =~= rec_ends(a) + rec_ends(b));
    assert(rec_scores(a + b) =~= rec_scores(a) + rec_scores(b));
}

/// Whether the filter keeps the record (start, end).
pub(crate) fn filter_keeps(start: i32, end: i32, req_start: i32, req_end: i32) -> (b: bool)
    ensures
        b == passes_filter(start, end, req_start, req_end),
{
    (req_start == 0 && req_end == 0) || (start < req_end && end > req_start)
}

/// Checks that the block's declared record count fits in its bytes:
/// exactly the precondition of `parse_bigwig_block`.
pub fn interval_block_fits(data: &[u8]) -> (b: bool)
    ensures
        b == interval_data_ok(data@),
{
    proof {
        vstd::slice::axiom_spec_len(data);
    }
    if data.len() < 24 {
        return true;
    }
    let t = *slice_index_get(data, 20);
    if t < 1 || t > 3 {
        return true;
    }
    let count = read_u16_le(data, 22) as usize;
    let rsz: usize = if t == 1 {
        12
    } else if t == 2 {
        8
    } else {
        4
    };
    data.len() >= 24 + count * rsz
}

/// Decodes the interval block `data` and appends the surviving records
/// to the three column accumulators.
pub(crate) fn parse_interval_into(
    data: &[u8],
    req_start: i32,
    req_end: i32,
    starts: &mut Vec<i32>,
    ends: &mut Vec<i32>,
    scores: &mut Vec<u32>,
)
    requires
        interval_data_ok(data@),
    ensures
        final(starts)@ == old(starts)@ + rec_starts(
            kept_interval_records(data@, req_start, req_end),
        ),
        final(ends)@ == old(ends)@ + rec_ends(kept_interval_records(data@, req_start, req_end)),
        final(scores)@ == old(scores)@ + rec_scores(
            kept_interval_records(data@, req_start, req_end),
        ),
{
    proof {
        vstd::slice::axiom_spec_len(data);
    }
    if data.len() < 24 {
        proof {
            lemma_truncated_block_empty(data@, req_start, req_end);
            assert(starts@ =~= old(starts)@ + rec_starts(
                kept_interval_records(data@, req_start, req_end),
            ));
            assert(ends@ =~= old(ends)@ + rec_ends(
                kept_interval_records(data@, req_start, req_end),
            ));
            assert(scores@ =~= old(scores)@ + rec_scores(
                kept_interval_records(data@, req_start, req_end),
            ));
        }
        return;
    }
    let bstart = read_i32_le(data, 4);
    let istep = bits_to_i32(read_u32_le(data, 12));
    let ispan = bits_to_i32(read_u32_le(data, 16));
    let btype = *slice_index_get(data, 20);
    let count = read_u16_le(data, 22) as usize;
    if btype < 1 || btype > 3 {
        proof {
            let kept = kept_interval_records(data@, req_start, req_end);
            assert(interval_records(data@) == Seq::<IntervalRec>::empty());
            assert(kept == Seq::<IntervalRec>::empty());
            assert(starts@ =~= old(starts)@ + rec_starts(kept));
            assert(ends@ =~= old(ends)@ + rec_ends(kept));
            assert(scores@ =~= old(scores)@ + rec_scores(kept));
        }
        return;
    }
    let rsz: usize = if btype == 1 {
        12
    } else if btype == 2 {
        8
    } else {
        4
    };
    proof {
        assert(data@.len() >= 24 + blk_count(data@) * record_size(blk_type(data@)));
        assert(interval_records(data@).len() == count);
        assert(interval_records(data@).take(0) =~= Seq::<IntervalRec>::empty());
        assert(starts@ =~= old(starts)@ + rec_starts(
            kept_records(interval_records(data@).take(0), req_start, req_end),
        ));
        assert(ends@ =~= old(ends)@ + rec_ends(
            kept_records(interval_records(data@).take(0), req_start, req_end),
        ));
        assert(scores@ =~= old(scores)@ + rec_scores(
            kept_records(interval_records(data@).take(0), req_start, req_end),
        ));
    }
    let mut i: usize = 0;
    while i < count
        invariant
            data@.len() <= usize::MAX,
            24 <= data@.len(),
            1 <= btype <= 3,
            btype == blk_type(data@),
            count == blk_count(data@),
            rsz == record_size(btype),
            bstart == blk_start(data@),
            istep == blk_step(data@),
            ispan == blk_span(data@),
            data@.len() >= 24 + count * rsz,
            i <= count,
            starts@ == old(starts)@ + rec_starts(
                kept_records(interval_records(data@).take(i as int), req_start, req_end),
            ),
            ends@ == old(ends)@ + rec_ends(
                kept_records(interval_records(data@).take(i as int), req_start, req_end),
            ),
            scores@ == old(scores)@ + rec_scores(
                kept_records(interval_records(data@).take(i as int), req_start, req_end),
            ),
        decreases count - i,
    {
        proof {
            assert((i + 1) * rsz <= count * rsz) by (nonlinear_arith)
                requires
                    i + 1 <= count,
                    rsz >= 0,
            ;
            assert(i * rsz + rsz == (i + 1) * rsz) by (nonlinear_arith);
        }
        let base = 24 + i * rsz;
        let rec_start: i32;
        let rec_end: i32;
        let rec_score: u32;
        if btype == 1 {
            rec_start = read_i32_le(data, base);
            rec_end = read_i32_le(data, base + 4);
            rec_score = read_u32_le(data, base + 8);
        } else if btype == 2 {
            rec_start = read_i32_le(data, base);
            rec_score = read_u32_le(data, base + 4);
            rec_end = rec_start.wrapping_add(ispan);
        } else {
            rec_score = read_u32_le(data, base);
            rec_start = bstart.wrapping_add((i as i32).wrapping_mul(istep));
            rec_end = rec_start.wrapping_add(ispan);
        }
        proof {
            let recs = interval_records(data@);
            assert(recs[i as int] == interval_rec(data@, i as int));
            assert(rec_start == interval_rec(data@, i as int).start);
            assert(rec_end == interval_rec(data@, i as int).end);
            assert(rec_score == interval_rec(data@, i as int).score_bits);
        }
        if filter_keeps(rec_start, rec_end, req_start, req_end) {
            starts.push(rec_start);
            ends.push(rec_end);
            scores.push(rec_score);
        }
        proof {
            let recs = interval_records(data@);
            let r = recs[i as int];
            assert(recs.take(i + 1).drop_last() =~= recs.take(i as int));
            assert(recs.take(i + 1).last() == r);
            let kept_prev = kept_records(recs.take(i as int), req_start, req_end);
            let kept_next = kept_records(recs.take(i + 1), req_start, req_end);
            if passes_filter(r.start, r.end, req_start, req_end) {
                assert(kept_next == kept_prev.push(r));
                lemma_rec_columns_push(kept_prev, r);
                assert(starts@ =~= old(starts)@ + rec_starts(kept_next));
                assert(ends@ =~= old(ends)@ + rec_ends(kept_next));
                assert(scores@ =~= old(scores)@ + rec_scores(kept_next));
            } else {
                assert(kept_next == kept_prev);
            }
        }
        i = i + 1;
    }
    proof {
        assert(interval_records(data@).take(count as int) =~= interval_records(data@));
    }
}

/// Packs the three column accumulators into the flat result layout:
/// the 32-bit record count, then the start, end and score columns.
pub(crate) fn pack_interval_columns(starts: &Vec<i32>, ends: &Vec<i32>, scores: &Vec<u32>) -> (out:
    Vec<u8>)
    requires
        starts@.len() == ends@.len(),
        starts@.len() == scores@.len(),
        starts@.len() <= u32::MAX,
    ensures
        out@ == u32_le_bytes(starts@.len() as u32) + le_column_i32(starts@) + le_column_i32(ends@)
            + le_column_u32(scores@),
{
    let mut out: Vec<u8> = Vec::new();
    let n = starts.len();
    push_u32_le(&mut out, n as u32);
    push_i32_column(&mut out, starts);
    push_i32_column(&mut out, ends);
    push_u32_column(&mut out, scores);
    proof {
        assert(out@ =~= u32_le_bytes(starts@.len() as u32) + le_column_i32(starts@)
            + le_column_i32(ends@) + le_column_u32(scores@));
    }
    out
}

/// Decodes one interval block into the packed result layout, keeping
/// only the records that survive the half-open coordinate filter
/// (disabled when both bounds are zero).  A block shorter than its
/// 24-byte header, or of an unknown type, packs as zero records.  The
/// block must not declare more records than its bytes hold.
pub fn parse_bigwig_block(data: &[u8], req_start: i32, req_end: i32) -> (out: Vec<u8>)
    requires
        interval_data_ok(data@),
    ensures
        out@ == packed_interval(kept_interval_records(data@, req_start, req_end)),
{
    let mut starts: Vec<i32> = Vec::new();
    let mut ends: Vec<i32> = Vec::new();
    let mut scores: Vec<u32> = Vec::new();
    parse_interval_into(data, req_start, req_end, &mut starts, &mut ends, &mut scores);
    proof {
        let kept = kept_interval_records(data@, req_start, req_end);
        lemma_kept_records_len(interval_records(data@), req_start, req_end);
        assert(interval_records(data@).len() <= u16::MAX);
        assert(starts@ =~= rec_starts(kept));
        assert(ends@ =~= rec_ends(kept));
        assert(scores@ =~= rec_scores(kept));
    }
    pack_interval_columns(&starts, &ends, &scores)
}

} // verus!
