//! Decoding of zoom/summary blocks: flat 32-byte records carrying
//! pre-aggregated statistics, a chromosome-plus-interval filter, and
//! the packed five-column result buffer.  The derived score is
//! `sum / valid_count` in IEEE single precision (or the raw sum when no
//! samples were valid); the two float operations are done bit-exactly
//! by the `rustc_apfloat` crate behind trusted wrappers, so scores are
//! carried as 32-bit patterns throughout.

use crate::wire::{
    bits_from_i32, i32_from_bits, le32, le_column_i32, le_column_u32, push_i32_column,
    push_u32_column, push_u32_le, read_i32_le, read_u32_le, u32_le_bytes,
};
use rustc_apfloat::ieee::Single;
use rustc_apfloat::Float;
use vstd::prelude::*;

verus! {

/// One decoded summary record.  All score-like fields are carried as
/// the little-endian bit patterns of the 32-bit wire values.
pub struct SummaryRec {
    pub chrom_id: u32,
    pub start: i32,
    pub end: i32,
    pub valid_count: u32,
    pub min_bits: u32,
    pub max_bits: u32,
    pub sum_bits: u32,
}

/// The IEEE single-precision value (as its bit pattern) nearest to the
/// unsigned integer `n`.
pub uninterp spec fn single_bits_from_u32(n: u32) -> u32;

/// The IEEE single-precision quotient (as bit patterns, round to
/// nearest, ties to even) of the values encoded by `a` and `b`.
pub uninterp spec fn single_bits_div(a: u32, b: u32) -> u32;

/// Relies on rustc_apfloat's `Single::from_u128`: converts an unsigned
/// integer to the nearest IEEE single-precision value, as Rust's
/// integer-to-float casts do.
#[verifier::external_body]
pub(crate) fn to_single_bits(n: u32) -> (r: u32)
    ensures
        r == single_bits_from_u32(n),
{
    Single::from_u128(n as u128).value.to_bits() as u32
}

/// Relies on rustc_apfloat's IEEE single-precision division
/// (`Float::div_r` with round-to-nearest-even, through the `Div`
/// operator): the quotient of two bit patterns, bit-exact with
/// hardware `f32` division.
#[verifier::external_body]
pub(crate) fn div_single_bits(a: u32, b: u32) -> (r: u32)
    ensures
        r == single_bits_div(a, b),
{
    let x = Single::from_bits(a as u128);
    let y = Single::from_bits(b as u128);
    (x / y).value.to_bits() as u32
}

/// The derived score of a summary record: the mean `sum / valid_count`
/// when at least one sample was valid, else the raw sum (guards the
/// divide by zero and preserves a measured sum).
pub open spec fn summary_score_bits(valid_count: u32, sum_bits: u32) -> u32 {
    if valid_count > 0 {
        single_bits_div(sum_bits, single_bits_from_u32(valid_count))
    } else {
        sum_bits
    }
}

/// The record stored in the 32 bytes at index `i` of the block.
pub open spec fn summary_rec(d: Seq<u8>, i: int) -> SummaryRec {
    SummaryRec {
        chrom_id: le32(d, 32 * i),
        start: i32_from_bits(le32(d, 32 * i + 4)),
        end: i32_from_bits(le32(d, 32 * i + 8)),
        valid_count: le32(d, 32 * i + 12),
        min_bits: le32(d, 32 * i + 16),
        max_bits: le32(d, 32 * i + 20),
        sum_bits: le32(d, 32 * i + 24),
    }
}

/// All whole records of the block; a trailing partial record (the byte
/// length not a multiple of 32) is ignored.
pub open spec fn summary_records(d: Seq<u8>) -> Seq<SummaryRec> {
    Seq::new((d.len() / 32) as nat, |i: int| summary_rec(d, i))
}

/// The summary filter: disabled when both coordinate bounds are zero;
/// otherwise a record passes iff its chromosome matches and it
/// overlaps the half-open window.
pub open spec fn passes_summary_filter(
    r: SummaryRec,
    req_chr_id: u32,
    req_start: i32,
    req_end: i32,
) -> bool {
    (req_start == 0 && req_end == 0) || (r.chrom_id == req_chr_id && r.start < req_end && r.end
        > req_start)
}

/// The records of `recs` that pass the summary filter, in order.
pub open spec fn kept_sum_records(
    recs: Seq<SummaryRec>,
    req_chr_id: u32,
    req_start: i32,
    req_end: i32,
) -> Seq<SummaryRec>
    decreases recs.len(),
{
    if recs.len() == 0 {
        Seq::empty()
    } else {
        let rest = kept_sum_records(recs.drop_last(), req_chr_id, req_start, req_end);
        if passes_summary_filter(recs.last(), req_chr_id, req_start, req_end) {
            rest.push(recs.last())
        } else {
            rest
        }
    }
}

/// The records of the block `d` that survive the summary filter.
pub open spec fn kept_summary_records(
    d: Seq<u8>,
    req_chr_id: u32,
    req_start: i32,
    req_end: i32,
) -> Seq<SummaryRec> {
    kept_sum_records(summary_records(d), req_chr_id, req_start, req_end)
}

/// The start coordinates of `recs`, in order.
pub open spec fn sum_starts(recs: Seq<SummaryRec>) -> Seq<i32> {
    recs.map_values(|r: SummaryRec| r.start)
}

/// The end coordinates of `recs`, in order.
pub open spec fn sum_ends(recs: Seq<SummaryRec>) -> Seq<i32> {
    recs.map_values(|r: SummaryRec| r.end)
}

/// The derived scores of `recs`, in order.
pub open spec fn sum_scores(recs: Seq<SummaryRec>) -> Seq<u32> {
    recs.map_values(|r: SummaryRec| summary_score_bits(r.valid_count, r.sum_bits))
}

/// The minimum scores of `recs`, in order.
pub open spec fn sum_mins(recs: Seq<SummaryRec>) -> Seq<u32> {
    recs.map_values(|r: SummaryRec| r.min_bits)
}

/// The maximum scores of `recs`, in order.
pub open spec fn sum_maxes(recs: Seq<SummaryRec>) -> Seq<u32> {
    recs.map_values(|r: SummaryRec| r.max_bits)
}

/// The packed summary result: a 32-bit record count followed by the
/// start, end, score, minimum and maximum columns, all little-endian.
pub open spec fn packed_summary(recs: Seq<SummaryRec>) -> Seq<u8> {
    u32_le_bytes(recs.len() as u32) + le_column_i32(sum_starts(recs)) + le_column_i32(
        sum_ends(recs),
    ) + le_column_u32(sum_scores(recs)) + le_column_u32(sum_mins(recs)) + le_column_u32(
        sum_maxes(recs),
    )
}

/// The 32-byte wire encoding of one summary record; `square_bits`
/// stands in the sum-of-squares slot, which decoding never reads.
pub open spec fn encoded_summary_rec(r: SummaryRec, square_bits: u32) -> Seq<u8> {
    u32_le_bytes(r.chrom_id) + u32_le_bytes(bits_from_i32(r.start)) + u32_le_bytes(
        bits_from_i32(r.end),
    ) + u32_le_bytes(r.valid_count) + u32_le_bytes(r.min_bits) + u32_le_bytes(r.max_bits)
        + u32_le_bytes(r.sum_bits) + u32_le_bytes(square_bits)
}

/// The wire encoding of a run of summary records, one 32-byte record
/// each, with `squares` filling the sum-of-squares slots.
pub open spec fn encoded_summary_block(recs: Seq<SummaryRec>, squares: Seq<u32>) -> Seq<u8>
    decreases recs.len(),
{
    if recs.len() == 0 {
        Seq::empty()
    } else {
        encoded_summary_block(recs.drop_last(), squares.drop_last()) + encoded_summary_rec(
            recs.last(),
            squares.last(),
        )
    }
}

/// An encoded run takes 32 bytes per record.
pub proof fn lemma_encoded_summary_len(recs: Seq<SummaryRec>, squares: Seq<u32>)
    ensures
        encoded_summary_block(recs, squares).len() == 32 * recs.len(),
    decreases recs.len(),
{
    if recs.len() > 0 {
        lemma_encoded_summary_len(recs.drop_last(), squares.drop_last());
    }
}

/// The 32 bytes at slot `i` of an encoded run are record `i`'s bytes.
proof fn lemma_encoded_summary_at(recs: Seq<SummaryRec>, squares: Seq<u32>, i: int)
    requires
        squares.len() == recs.len(),
        0 <= i < recs.len(),
    ensures
        encoded_summary_block(recs, squares).subrange(32 * i, 32 * i + 32)
            == encoded_summary_rec(recs[i], squares[i]),
    decreases recs.len(),
{
    lemma_encoded_summary_len(recs, squares);
    lemma_encoded_summary_len(recs.drop_last(), squares.drop_last());
    if i == recs.len() - 1 {
        assert(encoded_summary_block(recs, squares).subrange(32 * i, 32 * i + 32)
            =~= encoded_summary_rec(recs.last(), squares.last()));
    } else {
        lemma_encoded_summary_at(recs.drop_last(), squares.drop_last(), i);
        assert(encoded_summary_block(recs, squares).subrange(32 * i, 32 * i + 32)
            =~= encoded_summary_block(recs.drop_last(), squares.drop_last()).subrange(
            32 * i,
            32 * i + 32,
        ));
    }
}

/// Law: decoding inverts the summary encoding — every whole record
/// comes back field for field, bit for bit, whatever the
/// sum-of-squares slots held (they never affect the output).
#[verifier::rlimit(80)]
pub proof fn lemma_summary_round_trip(recs: Seq<SummaryRec>, squares: Seq<u32>)
    requires
        squares.len() == recs.len(),
    ensures
        summary_records(encoded_summary_block(recs, squares)) == recs,
{
    let enc = encoded_summary_block(recs, squares);
    lemma_encoded_summary_len(recs, squares);
    assert forall|i: int| 0 <= i < recs.len() implies summary_rec(enc, i) == recs[i] by {
        lemma_encoded_summary_at(recs, squares, i);
        let r = recs[i];
        let rb = encoded_summary_rec(r, squares[i]);
        assert(rb.subrange(0, 4) =~= u32_le_bytes(r.chrom_id));
        assert(rb.subrange(4, 8) =~= u32_le_bytes(bits_from_i32(r.start)));
        assert(rb.subrange(8, 12) =~= u32_le_bytes(bits_from_i32(r.end)));
        assert(rb.subrange(12, 16) =~= u32_le_bytes(r.valid_count));
        assert(rb.subrange(16, 20) =~= u32_le_bytes(r.min_bits));
        assert(rb.subrange(20, 24) =~= u32_le_bytes(r.max_bits));
        assert(rb.subrange(24, 28) =~= u32_le_bytes(r.sum_bits));
        assert(enc.subrange(32 * i, 32 * i + 4) =~= rb.subrange(0, 4));
        assert(enc.subrange(32 * i + 4, 32 * i + 8) =~= rb.subrange(4, 8));
        assert(enc.subrange(32 * i + 8, 32 * i + 12) =~= rb.subrange(8, 12));
        assert(enc.subrange(32 * i + 12, 32 * i + 16) =~= rb.subrange(12, 16));
        assert(enc.subrange(32 * i + 16, 32 * i + 20) =~= rb.subrange(16, 20));
        assert(enc.subrange(32 * i + 20, 32 * i + 24) =~= rb.subrange(20, 24));
        assert(enc.subrange(32 * i + 24, 32 * i + 28) =~= rb.subrange(24, 28));
        crate::wire::lemma_le32_at(enc, 32 * i, r.chrom_id);
        crate::wire::lemma_le32_at(enc, 32 * i + 4, bits_from_i32(r.start));
        crate::wire::lemma_le32_at(enc, 32 * i + 8, bits_from_i32(r.end));
        crate::wire::lemma_le32_at(enc, 32 * i + 12, r.valid_count);
        crate::wire::lemma_le32_at(enc, 32 * i + 16, r.min_bits);
        crate::wire::lemma_le32_at(enc, 32 * i + 20, r.max_bits);
        crate::wire::lemma_le32_at(enc, 32 * i + 24, r.sum_bits);
        crate::wire::lemma_i32_bits_roundtrip(r.start);
        crate::wire::lemma_i32_bits_roundtrip(r.end);
    }
    assert(summary_records(enc) =~= recs);
}

/// Never more records survive the filter than the block holds.
pub proof fn lemma_kept_sum_records_len(
    recs: Seq<SummaryRec>,
    req_chr_id: u32,
    req_start: i32,
    req_end: i32,
)
    ensures
        kept_sum_records(recs, req_chr_id, req_start, req_end).len() <= recs.len(),
    decreases recs.len(),
{
    if recs.len() > 0 {
        lemma_kept_sum_records_len(recs.drop_last(), req_chr_id, req_start, req_end);
    }
}

/// Taking the columns of one more record appends its fields.
proof fn lemma_sum_columns_push(s: Seq<SummaryRec>, r: SummaryRec)
    ensures
        sum_starts(s.push(r)) == sum_starts(s).push(r.start),
        sum_ends(s.push(r)) == sum_ends(s).push(r.end),
        sum_scores(s.push(r)) == sum_scores(s).push(summary_score_bits(r.valid_count, r.sum_bits)),
        sum_mins(s.push(r)) == sum_mins(s).push(r.min_bits),
        sum_maxes(s.push(r)) == sum_maxes(s).push(r.max_bits),
{
    assert(sum_starts(s.push(r)) =~= sum_starts(s).push(r.start));
    assert(sum_ends(s.push(r)) =~= sum_ends(s).push(r.end));
    assert(sum_scores(s.push(r)) =~= sum_scores(s).push(
        summary_score_bits(r.valid_count, r.sum_bits),
    ));
    assert(sum_mins(s.push(r)) =~= sum_mins(s).push(r.min_bits));
    assert(sum_maxes(s.push(r)) =~= sum_maxes(s).push(r.max_bits));
}

/// Taking the columns of concatenated record runs concatenates the
/// columns.
pub(crate) proof fn lemma_sum_columns_concat(a: Seq<SummaryRec>, b: Seq<SummaryRec>)
    ensures
        sum_starts(a + b) == sum_starts(a) + sum_starts(b),
        sum_ends(a + b) == sum_ends(a) + sum_ends(b),
        sum_scores(a + b) == sum_scores(a) + sum_scores(b),
        sum_mins(a + b) == sum_mins(a) + sum_mins(b),
        sum_maxes(a + b) == sum_maxes(a) + sum_maxes(b),
{
    assert(sum_starts(a + b) =~= sum_starts(a) + sum_starts(b));
    assert(sum_ends(a + b) =~= sum_ends(a) + sum_ends(b));
    assert(sum_scores(a + b) =~= sum_scores(a) + sum_scores(b));
    assert(sum_mins(a + b) =~= sum_mins(a) + sum_mins(b));
    assert(sum_maxes(a + b) =~= sum_maxes(a) + sum_maxes(b));
}

/// Decodes the summary block `data` and appends the surviving records
/// to the five column accumulators.
pub(crate) fn parse_summary_into(
    data: &[u8],
    req_chr_id: u32,
    req_start: i32,
    req_end: i32,
    starts: &mut Vec<i32>,
    ends: &mut Vec<i32>,
    scores: &mut Vec<u32>,
    mins: &mut Vec<u32>,
    maxes: &mut Vec<u32>,
)
    ensures
        final(starts)@ == old(starts)@ + sum_starts(
            kept_summary_records(data@, req_chr_id, req_start, req_end),
        ),
        final(ends)@ == old(ends)@ + sum_ends(
            kept_summary_records(data@, req_chr_id, req_start, req_end),
        ),
        final(scores)@ == old(scores)@ + sum_scores(
            kept_summary_records(data@, req_chr_id, req_start, req_end),
        ),
        final(mins)@ == old(mins)@ + sum_mins(
            kept_summary_records(data@, req_chr_id, req_start, req_end),
        ),
        final(maxes)@ == old(maxes)@ + sum_maxes(
            kept_summary_records(data@, req_chr_id, req_start, req_end),
        ),
{
    proof {
        vstd::slice::axiom_spec_len(data);
    }
    let count = data.len() / 32;
    proof {
        assert(count * 32 <= data@.len());
        assert(summary_records(data@).len() == count);
        assert(summary_records(data@).take(0) =~= Seq::<SummaryRec>::empty());
        assert(starts@ =~= old(starts)@ + sum_starts(
            kept_sum_records(summary_records(data@).take(0), req_chr_id, req_start, req_end),
        ));
        assert(ends@ =~= old(ends)@ + sum_ends(
            kept_sum_records(summary_records(data@).take(0), req_chr_id, req_start, req_end),
        ));
        assert(scores@ =~= old(scores)@ + sum_scores(
            kept_sum_records(summary_records(data@).take(0), req_chr_id, req_start, req_end),
        ));
        assert(mins@ =~= old(mins)@ + sum_mins(
            kept_sum_records(summary_records(data@).take(0), req_chr_id, req_start, req_end),
        ));
        assert(maxes@ =~= old(maxes)@ + sum_maxes(
            kept_sum_records(summary_records(data@).take(0), req_chr_id, req_start, req_end),
        ));
    }
    let mut i: usize = 0;
    while i < count
        invariant
            data@.len() <= usize::MAX,
            count == data@.len() / 32,
            count * 32 <= data@.len(),
            i <= count,
            starts@ == old(starts)@ + sum_starts(
                kept_sum_records(
                    summary_records(data@).take(i as int),
                    req_chr_id,
                    req_start,
                    req_end,
                ),
            ),
            ends@ == old(ends)@ + sum_ends(
                kept_sum_records(
                    summary_records(data@).take(i as int),
                    req_chr_id,
                    req_start,
                    req_end,
                ),
            ),
            scores@ == old(scores)@ + sum_scores(
                kept_sum_records(
                    summary_records(data@).take(i as int),
                    req_chr_id,
                    req_start,
                    req_end,
                ),
            ),
            mins@ == old(mins)@ + sum_mins(
                kept_sum_records(
                    summary_records(data@).take(i as int),
                    req_chr_id,
                    req_start,
                    req_end,
                ),
            ),
            maxes@ == old(maxes)@ + sum_maxes(
                kept_sum_records(
                    summary_records(data@).take(i as int),
                    req_chr_id,
                    req_start,
                    req_end,
                ),
            ),
        decreases count - i,
    {
        proof {
            assert((i + 1) * 32 <= count * 32) by (nonlinear_arith)
                requires
                    i + 1 <= count,
            ;
            assert(i * 32 + 32 == (i + 1) * 32);
        }
        let base = i * 32;
        let chrom_id = read_u32_le(data, base);
        let rec_start = read_i32_le(data, base + 4);
        let rec_end = read_i32_le(data, base + 8);
        let valid_cnt = read_u32_le(data, base + 12);
        let min_bits = read_u32_le(data, base + 16);
        let max_bits = read_u32_le(data, base + 20);
        let sum_bits = read_u32_le(data, base + 24);
        proof {
            let r = summary_records(data@)[i as int];
            assert(r == summary_rec(data@, i as int));
            assert(chrom_id == r.chrom_id && rec_start == r.start && rec_end == r.end);
            assert(valid_cnt == r.valid_count && min_bits == r.min_bits && max_bits == r.max_bits
                && sum_bits == r.sum_bits);
        }
        let keep = (req_start == 0 && req_end == 0) || (chrom_id == req_chr_id && rec_start
            < req_end && rec_end > req_start);
        if keep {
            let score_bits = if valid_cnt > 0 {
                div_single_bits(sum_bits, to_single_bits(valid_cnt))
            } else {
                sum_bits
            };
            starts.push(rec_start);
            ends.push(rec_end);
            scores.push(score_bits);
            mins.push(min_bits);
            maxes.push(max_bits);
        }
        proof {
            let recs = summary_records(data@);
            let r = recs[i as int];
            assert(recs.take(i + 1).drop_last() =~= recs.take(i as int));
            assert(recs.take(i + 1).last() == r);
            let kept_prev = kept_sum_records(recs.take(i as int), req_chr_id, req_start, req_end);
            let kept_next = kept_sum_records(recs.take(i + 1), req_chr_id, req_start, req_end);
            if passes_summary_filter(r, req_chr_id, req_start, req_end) {
                assert(kept_next == kept_prev.push(r));
                lemma_sum_columns_push(kept_prev, r);
                assert(starts@ =~= old(starts)@ + sum_starts(kept_next));
                assert(ends@ =~= old(ends)@ + sum_ends(kept_next));
                assert(scores@ =~= old(scores)@ + sum_scores(kept_next));
                assert(mins@ =~= old(mins)@ + sum_mins(kept_next));
                assert(maxes@ =~= old(maxes)@ + sum_maxes(kept_next));
            } else {
                assert(kept_next == kept_prev);
            }
        }
        i = i + 1;
    }
    proof {
        assert(summary_records(data@).take(count as int) =~= summary_records(data@));
    }
}

/// Packs the five column accumulators into the flat result layout.
pub(crate) fn pack_summary_columns(
    starts: &Vec<i32>,
    ends: &Vec<i32>,
    scores: &Vec<u32>,
    mins: &Vec<u32>,
    maxes: &Vec<u32>,
) -> (out: Vec<u8>)
    requires
        starts@.len() == ends@.len(),
        starts@.len() == scores@.len(),
        starts@.len() == mins@.len(),
        starts@.len() == maxes@.len(),
        starts@.len() <= u32::MAX,
    ensures
        out@ == u32_le_bytes(starts@.len() as u32) + le_column_i32(starts@) + le_column_i32(ends@)
            + le_column_u32(scores@) + le_column_u32(mins@) + le_column_u32(maxes@),
{
    let mut out: Vec<u8> = Vec::new();
    let n = starts.len();
    push_u32_le(&mut out, n as u32);
    push_i32_column(&mut out, starts);
    push_i32_column(&mut out, ends);
    push_u32_column(&mut out, scores);
    push_u32_column(&mut out, mins);
    push_u32_column(&mut out, maxes);
    proof {
        assert(out@ =~= u32_le_bytes(starts@.len() as u32) + le_column_i32(starts@)
            + le_column_i32(ends@) + le_column_u32(scores@) + le_column_u32(mins@)
            + le_column_u32(maxes@));
    }
    out
}

/// Decodes one summary block into the packed result layout, keeping
/// only the records whose chromosome matches and that overlap the
/// half-open window (the filter is disabled when both bounds are
/// zero).  A trailing partial record is ignored; the decode never
/// fails.  The length bound only keeps the record count inside its
/// 32-bit result field.
pub fn parse_summary_block(data: &[u8], req_chr_id: u32, req_start: i32, req_end: i32) -> (out:
    Vec<u8>)
    requires
        data@.len() / 32 <= u32::MAX,
    ensures
        out@ == packed_summary(kept_summary_records(data@, req_chr_id, req_start, req_end)),
{
    let mut starts: Vec<i32> = Vec::new();
    let mut ends: Vec<i32> = Vec::new();
    let mut scores: Vec<u32> = Vec::new();
    let mut mins: Vec<u32> = Vec::new();
    let mut maxes: Vec<u32> = Vec::new();
    parse_summary_into(
        data,
        req_chr_id,
        req_start,
        req_end,
        &mut starts,
        &mut ends,
        &mut scores,
        &mut mins,
        &mut maxes,
    );
    proof {
        let kept = kept_summary_records(data@, req_chr_id, req_start, req_end);
        lemma_kept_sum_records_len(summary_records(data@), req_chr_id, req_start, req_end);
        assert(starts@ =~= sum_starts(kept));
        assert(ends@ =~= sum_ends(kept));
        assert(scores@ =~= sum_scores(kept));
        assert(mins@ =~= sum_mins(kept));
        assert(maxes@ =~= sum_maxes(kept));
    }
    pack_summary_columns(&starts, &ends, &scores, &mins, &maxes)
}

} // verus!
