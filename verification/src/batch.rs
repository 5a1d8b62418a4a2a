//! Batch operations: many independently-offset compressed sub-blocks of
//! one input buffer, each stripped of a fixed two-byte prefix and
//! decompressed in turn, optionally fed straight into a block decoder.
//! A failure on any sub-block aborts the whole batch.

use crate::error::DecodeError;
use crate::inflate::{inflate_into, inflation, new_decompressor};
use crate::interval::{
    interval_block_fits, interval_data_ok, kept_interval_records, packed_interval,
    pack_interval_columns, parse_interval_into, rec_ends, rec_scores, rec_starts, IntervalRec,
};
use crate::summary::{
    kept_summary_records, pack_summary_columns, packed_summary, parse_summary_into, sum_ends,
    sum_maxes, sum_mins, sum_scores, sum_starts, SummaryRec,
};
use crate::wire::{le32, le_column_u32, push_u32_le, u32_le_bytes};
use vstd::prelude::*;
use vstd::slice::slice_subrange;

verus! {

/// The fixed prefix stripped from every declared sub-block before
/// decompression (a two-byte zlib wrapper header; a caller-declared
/// convention, not auto-detected).
pub const STRIPPED_PREFIX_LEN: usize = 2;

/// Whether the declared sub-block (offset, length) pair stays inside
/// the input buffer and is long enough to lose its stripped prefix.
pub open spec fn pair_ok(inputs: Seq<u8>, off: u32, len: u32) -> bool {
    len >= STRIPPED_PREFIX_LEN && off + len <= inputs.len()
}

/// Every declared pair is in bounds.
pub open spec fn pairs_ok(inputs: Seq<u8>, offs: Seq<u32>, lens: Seq<u32>) -> bool {
    forall|i: int| 0 <= i < offs.len() ==> #[trigger] pair_ok(inputs, offs[i], lens[i])
}

/// The compressed bytes of one sub-block, after the stripped prefix.
pub open spec fn block_slice(inputs: Seq<u8>, off: u32, len: u32) -> Seq<u8> {
    inputs.subrange(off + STRIPPED_PREFIX_LEN, off + len)
}

/// What each sub-block decompresses to (meaningful at the indices
/// where the stream is well formed).
pub open spec fn block_inflations(inputs: Seq<u8>, offs: Seq<u32>, lens: Seq<u32>) -> Seq<
    Seq<u8>,
> {
    Seq::new(offs.len(), |i: int| inflation(block_slice(inputs, offs[i], lens[i])).unwrap())
}

/// The sub-blocks before index `i` are well-formed streams that fit
/// the per-block bound.
pub open spec fn blocks_inflate_to(
    inputs: Seq<u8>,
    offs: Seq<u32>,
    lens: Seq<u32>,
    max_out: int,
    i: int,
) -> bool {
    forall|j: int| 0 <= j < i ==> (#[trigger] inflation(block_slice(inputs, offs[j], lens[j]))
        matches Some(d) && d.len() <= max_out)
}

/// The concatenation of the first `k` decompressed sub-blocks.
pub open spec fn cat(ds: Seq<Seq<u8>>, k: int) -> Seq<u8>
    decreases k,
{
    if k <= 0 {
        Seq::empty()
    } else {
        cat(ds, k - 1) + ds[k - 1]
    }
}

/// Longer prefixes concatenate to no fewer bytes.
pub proof fn lemma_cat_len_monotone(ds: Seq<Seq<u8>>, k1: int, k2: int)
    requires
        k1 <= k2,
    ensures
        cat(ds, k1).len() <= cat(ds, k2).len(),
    decreases k2 - k1,
{
    if k1 < k2 {
        lemma_cat_len_monotone(ds, k1, k2 - 1);
    }
}

/// The cumulative offset table of a batch: entry `i` is the total
/// length of the first `i` decompressed sub-blocks.
pub open spec fn table_entries(ds: Seq<Seq<u8>>) -> Seq<u32> {
    Seq::new(ds.len() + 1, |i: int| cat(ds, i).len() as u32)
}

/// The packed batch result: a 32-bit sub-block count, the cumulative
/// offset table (one more entry than sub-blocks), then the
/// concatenated decompressed bytes.
pub open spec fn packed_batch(ds: Seq<Seq<u8>>) -> Seq<u8> {
    u32_le_bytes(ds.len() as u32) + le_column_u32(table_entries(ds)) + cat(ds, ds.len() as int)
}

/// Law: in a packed batch result the offset table brackets every
/// sub-block: entry `i` is the total decompressed length of the first
/// `i` sub-blocks — so entry 0 is 0, consecutive entries differ by
/// exactly the enclosed sub-block's length, and the last entry is the
/// total decompressed length.
pub proof fn lemma_offset_table(ds: Seq<Seq<u8>>, i: int)
    requires
        0 <= i <= ds.len(),
        ds.len() <= u32::MAX,
        cat(ds, ds.len() as int).len() <= u32::MAX,
    ensures
        le32(packed_batch(ds), 4 + 4 * i) == cat(ds, i).len(),
        i < ds.len() ==> cat(ds, i + 1).len() == cat(ds, i).len() + ds[i].len(),
{
    let tvals = table_entries(ds);
    let table = le_column_u32(tvals);
    crate::wire::lemma_le_column_u32_len(tvals);
    crate::wire::lemma_le_column_u32_at(tvals, i);
    lemma_cat_len_monotone(ds, i, ds.len() as int);
    assert(packed_batch(ds).subrange(4 + 4 * i, 4 + 4 * i + 4) =~= table.subrange(
        4 * i,
        4 * i + 4,
    ));
    crate::wire::lemma_le32_at(packed_batch(ds), 4 + 4 * i, tvals[i]);
}

/// Checks that every declared (offset, length) pair lies inside the
/// input buffer and is at least as long as the stripped prefix.
fn validate_pairs(inputs: &[u8], offs: &[u32], lens: &[u32]) -> (ok: bool)
    requires
        offs@.len() == lens@.len(),
    ensures
        ok == pairs_ok(inputs@, offs@, lens@),
{
    proof {
        vstd::slice::axiom_spec_len(inputs);
        vstd::slice::axiom_spec_len(offs);
    }
    let n = offs.len();
    let total = inputs.len() as u64;
    let mut i: usize = 0;
    while i < n
        invariant
            n == offs@.len(),
            offs@.len() == lens@.len(),
            total == inputs@.len(),
            i <= n,
            forall|j: int| 0 <= j < i ==> #[trigger] pair_ok(inputs@, offs@[j], lens@[j]),
        decreases n - i,
    {
        let off = offs[i];
        let len = lens[i];
        if len < STRIPPED_PREFIX_LEN as u32 || (off as u64) + (len as u64) > total {
            assert(!pair_ok(inputs@, offs@[i as int], lens@[i as int]));
            return false;
        }
        i = i + 1;
    }
    true
}

/// Everything that must hold of a batch for it to decompress whole:
/// every pair in bounds, every stream well formed and no larger than
/// the per-block bound, and the concatenated output short enough for
/// the 32-bit offset table.
pub open spec fn batch_inflate_ok(
    inputs: Seq<u8>,
    offs: Seq<u32>,
    lens: Seq<u32>,
    max_out: int,
) -> bool {
    &&& pairs_ok(inputs, offs, lens)
    &&& blocks_inflate_to(inputs, offs, lens, max_out, offs.len() as int)
    &&& cat(block_inflations(inputs, offs, lens), offs.len() as int).len() <= u32::MAX
}

/// Decompresses a batch of sub-blocks of `inputs`, each declared by an
/// (offset, length) pair, stripped of its two-byte prefix, and at most
/// `max_block_size` bytes long once decompressed.  The result packs
/// the sub-block count, the cumulative offset table and the
/// concatenated decompressed bytes.  A pair out of bounds, a sub-block
/// that is malformed or grows past the bound, or a total past the
/// 32-bit table's reach fails the whole batch.
pub fn inflate_raw_batch(
    inputs: &[u8],
    input_offsets: &[u32],
    input_lengths: &[u32],
    max_block_size: u32,
) -> (r: Result<Vec<u8>, DecodeError>)
    requires
        input_offsets@.len() == input_lengths@.len(),
        input_offsets@.len() <= u32::MAX,
    ensures
        r is Ok <==> batch_inflate_ok(
            inputs@,
            input_offsets@,
            input_lengths@,
            max_block_size as int,
        ),
        r matches Ok(out) ==> out@ == packed_batch(
            block_inflations(inputs@, input_offsets@, input_lengths@),
        ),
        r matches Err(e) ==> (e == DecodeError::OutOfBounds || e == DecodeError::Malformed
            || e == DecodeError::InsufficientSpace || e == DecodeError::OutputTooLarge),
        r == Err::<Vec<u8>, DecodeError>(DecodeError::OutOfBounds) ==> !pairs_ok(
            inputs@,
            input_offsets@,
            input_lengths@,
        ),
        r == Err::<Vec<u8>, DecodeError>(DecodeError::Malformed) ==> exists|j: int|
            0 <= j < input_offsets@.len() && inflation(
                #[trigger] block_slice(inputs@, input_offsets@[j], input_lengths@[j]),
            ) is None,
        r == Err::<Vec<u8>, DecodeError>(DecodeError::InsufficientSpace) ==> exists|j: int|
            0 <= j < input_offsets@.len() && !(inflation(
                #[trigger] block_slice(inputs@, input_offsets@[j], input_lengths@[j]),
            ) matches Some(d) && d.len() <= max_block_size),
        r == Err::<Vec<u8>, DecodeError>(DecodeError::OutputTooLarge) ==> exists|k: int|
            0 <= k <= input_offsets@.len() && #[trigger] cat(
                block_inflations(inputs@, input_offsets@, input_lengths@),
                k,
            ).len() > u32::MAX,
{
    proof {
        vstd::slice::axiom_spec_len(inputs);
        vstd::slice::axiom_spec_len(input_offsets);
    }
    let ghost ds = block_inflations(inputs@, input_offsets@, input_lengths@);
    if !validate_pairs(inputs, input_offsets, input_lengths) {
        return Err(DecodeError::OutOfBounds);
    }
    let num_blocks = input_offsets.len();
    let max_out = max_block_size as usize;
    let mut d = new_decompressor();
    let mut temp = vec![0u8; max_out];
    let mut data: Vec<u8> = Vec::new();
    let mut table: Vec<u32> = Vec::new();
    let mut i: usize = 0;
    while i < num_blocks
        invariant
            num_blocks == input_offsets@.len(),
            input_offsets@.len() == input_lengths@.len(),
            input_offsets@.len() <= u32::MAX,
            inputs@.len() <= usize::MAX,
            max_out == max_block_size,
            ds == block_inflations(inputs@, input_offsets@, input_lengths@),
            pairs_ok(inputs@, input_offsets@, input_lengths@),
            temp@.len() == max_out,
            i <= num_blocks,
            blocks_inflate_to(
                inputs@,
                input_offsets@,
                input_lengths@,
                max_block_size as int,
                i as int,
            ),
            data@ == cat(ds, i as int),
            data@.len() <= u32::MAX,
            table@.len() == i,
            forall|j: int| 0 <= j < i ==> table@[j] == cat(ds, j).len(),
        decreases num_blocks - i,
    {
        assert(pair_ok(inputs@, input_offsets@[i as int], input_lengths@[i as int]));
        let off = input_offsets[i] as usize;
        let len = input_lengths[i] as usize;
        let start = off + STRIPPED_PREFIX_LEN;
        let input = slice_subrange(inputs, start, off + len);
        assert(input@ == block_slice(inputs@, input_offsets@[i as int], input_lengths@[i as int]));
        match inflate_into(&mut d, input, &mut temp) {
            Ok(n) => {
                assert(inflation(input@) == Some(temp@.subrange(0, n as int)));
                assert(ds[i as int] == temp@.subrange(0, n as int));
                if n > (u32::MAX as usize) - data.len() {
                    proof {
                        assert(cat(ds, i + 1) == cat(ds, i as int) + ds[i as int]);
                        assert(cat(ds, i + 1).len() > u32::MAX);
                        lemma_cat_len_monotone(ds, i + 1, num_blocks as int);
                    }
                    return Err(DecodeError::OutputTooLarge);
                }
                table.push(data.len() as u32);
                let piece = slice_subrange(temp.as_slice(), 0, n);
                data.extend_from_slice(piece);
                proof {
                    assert(data@ =~= cat(ds, i + 1));
                }
            },
            Err(e) => {
                if e == DecodeError::Malformed {
                    assert(inflation(
                        block_slice(inputs@, input_offsets@[i as int], input_lengths@[i as int]),
                    ) is None);
                    return Err(DecodeError::Malformed);
                } else {
                    assert(!(inflation(
                        block_slice(inputs@, input_offsets@[i as int], input_lengths@[i as int]),
                    ) matches Some(d0) && d0.len() <= max_block_size));
                    return Err(DecodeError::InsufficientSpace);
                }
            },
        }
        i = i + 1;
    }
    table.push(data.len() as u32);
    proof {
        assert(table@ =~= table_entries(ds));
    }
    let mut out: Vec<u8> = Vec::new();
    push_u32_le(&mut out, num_blocks as u32);
    crate::wire::push_u32_column(&mut out, &table);
    out.append(&mut data);
    proof {
        assert(out@ =~= packed_batch(ds));
    }
    Ok(out)
}

/// The sub-blocks before index `i` decompress within the bound to
/// decodable interval blocks (none declares more records than its
/// bytes hold).
pub open spec fn interval_blocks_ok(
    inputs: Seq<u8>,
    offs: Seq<u32>,
    lens: Seq<u32>,
    max_out: int,
    i: int,
) -> bool {
    forall|j: int| 0 <= j < i ==> (#[trigger] inflation(block_slice(inputs, offs[j], lens[j]))
        matches Some(d) && d.len() <= max_out && interval_data_ok(d))
}

/// The surviving interval records of the first `k` decompressed
/// sub-blocks, concatenated in batch order.
pub open spec fn batch_kept_interval(
    ds: Seq<Seq<u8>>,
    k: int,
    req_start: i32,
    req_end: i32,
) -> Seq<IntervalRec>
    decreases k,
{
    if k <= 0 {
        Seq::empty()
    } else {
        batch_kept_interval(ds, k - 1, req_start, req_end) + kept_interval_records(
            ds[k - 1],
            req_start,
            req_end,
        )
    }
}

/// Later prefixes keep no fewer records.
pub proof fn lemma_batch_kept_interval_monotone(
    ds: Seq<Seq<u8>>,
    k1: int,
    k2: int,
    req_start: i32,
    req_end: i32,
)
    requires
        k1 <= k2,
    ensures
        batch_kept_interval(ds, k1, req_start, req_end).len() <= batch_kept_interval(
            ds,
            k2,
            req_start,
            req_end,
        ).len(),
    decreases k2 - k1,
{
    if k1 < k2 {
        lemma_batch_kept_interval_monotone(ds, k1, k2 - 1, req_start, req_end);
    }
}

/// Everything that must hold of a batch for the combined interval
/// operation to succeed.
pub open spec fn batch_parse_interval_ok(
    inputs: Seq<u8>,
    offs: Seq<u32>,
    lens: Seq<u32>,
    max_out: int,
    req_start: i32,
    req_end: i32,
) -> bool {
    &&& pairs_ok(inputs, offs, lens)
    &&& interval_blocks_ok(inputs, offs, lens, max_out, offs.len() as int)
    &&& batch_kept_interval(
        block_inflations(inputs, offs, lens),
        offs.len() as int,
        req_start,
        req_end,
    ).len() <= u32::MAX
}

/// Decompresses every sub-block of the batch and immediately decodes
/// it as an interval block, accumulating the surviving records of the
/// whole batch into one packed interval result.  Decompression or
/// decode failure on any sub-block aborts the whole batch.
pub fn decompress_and_parse_bigwig(
    inputs: &[u8],
    input_offsets: &[u32],
    input_lengths: &[u32],
    max_block_size: u32,
    req_start: i32,
    req_end: i32,
) -> (r: Result<Vec<u8>, DecodeError>)
    requires
        input_offsets@.len() == input_lengths@.len(),
    ensures
        r is Ok <==> batch_parse_interval_ok(
            inputs@,
            input_offsets@,
            input_lengths@,
            max_block_size as int,
            req_start,
            req_end,
        ),
        r matches Ok(out) ==> out@ == packed_interval(
            batch_kept_interval(
                block_inflations(inputs@, input_offsets@, input_lengths@),
                input_offsets@.len() as int,
                req_start,
                req_end,
            ),
        ),
        r matches Err(e) ==> (e == DecodeError::OutOfBounds || e == DecodeError::Malformed
            || e == DecodeError::InsufficientSpace || e == DecodeError::OutputTooLarge),
        r == Err::<Vec<u8>, DecodeError>(DecodeError::OutOfBounds) ==> (!pairs_ok(
            inputs@,
            input_offsets@,
            input_lengths@,
        ) || exists|j: int|
            0 <= j < input_offsets@.len() && (inflation(
                #[trigger] block_slice(inputs@, input_offsets@[j], input_lengths@[j]),
            ) matches Some(d) && !interval_data_ok(d))),
        r == Err::<Vec<u8>, DecodeError>(DecodeError::Malformed) ==> exists|j: int|
            0 <= j < input_offsets@.len() && inflation(
                #[trigger] block_slice(inputs@, input_offsets@[j], input_lengths@[j]),
            ) is None,
        r == Err::<Vec<u8>, DecodeError>(DecodeError::InsufficientSpace) ==> exists|j: int|
            0 <= j < input_offsets@.len() && !(inflation(
                #[trigger] block_slice(inputs@, input_offsets@[j], input_lengths@[j]),
            ) matches Some(d) && d.len() <= max_block_size),
        r == Err::<Vec<u8>, DecodeError>(DecodeError::OutputTooLarge) ==> exists|k: int|
            0 <= k <= input_offsets@.len() && #[trigger] batch_kept_interval(
                block_inflations(inputs@, input_offsets@, input_lengths@),
                k,
                req_start,
                req_end,
            ).len() > u32::MAX,
{
    proof {
        vstd::slice::axiom_spec_len(inputs);
        vstd::slice::axiom_spec_len(input_offsets);
    }
    let ghost ds = block_inflations(inputs@, input_offsets@, input_lengths@);
    if !validate_pairs(inputs, input_offsets, input_lengths) {
        return Err(DecodeError::OutOfBounds);
    }
    let num_blocks = input_offsets.len();
    let max_out = max_block_size as usize;
    let mut d = new_decompressor();
    let mut temp = vec![0u8; max_out];
    let mut starts: Vec<i32> = Vec::new();
    let mut ends: Vec<i32> = Vec::new();
    let mut scores: Vec<u32> = Vec::new();
    let mut i: usize = 0;
    while i < num_blocks
        invariant
            num_blocks == input_offsets@.len(),
            input_offsets@.len() == input_lengths@.len(),
            inputs@.len() <= usize::MAX,
            max_out == max_block_size,
            ds == block_inflations(inputs@, input_offsets@, input_lengths@),
            pairs_ok(inputs@, input_offsets@, input_lengths@),
            temp@.len() == max_out,
            i <= num_blocks,
            interval_blocks_ok(
                inputs@,
                input_offsets@,
                input_lengths@,
                max_block_size as int,
                i as int,
            ),
            starts@ == rec_starts(batch_kept_interval(ds, i as int, req_start, req_end)),
            ends@ == rec_ends(batch_kept_interval(ds, i as int, req_start, req_end)),
            scores@ == rec_scores(batch_kept_interval(ds, i as int, req_start, req_end)),
            starts@.len() <= u32::MAX,
        decreases num_blocks - i,
    {
        assert(pair_ok(inputs@, input_offsets@[i as int], input_lengths@[i as int]));
        let off = input_offsets[i] as usize;
        let len = input_lengths[i] as usize;
        let start = off + STRIPPED_PREFIX_LEN;
        let input = slice_subrange(inputs, start, off + len);
        assert(input@ == block_slice(inputs@, input_offsets@[i as int], input_lengths@[i as int]));
        match inflate_into(&mut d, input, &mut temp) {
            Ok(n) => {
                assert(inflation(input@) == Some(temp@.subrange(0, n as int)));
                let block = slice_subrange(temp.as_slice(), 0, n);
                assert(block@ == ds[i as int]);
                if !interval_block_fits(block) {
                    assert(inflation(
                        block_slice(inputs@, input_offsets@[i as int], input_lengths@[i as int]),
                    ) matches Some(d0) && !interval_data_ok(d0));
                    return Err(DecodeError::OutOfBounds);
                }
                parse_interval_into(block, req_start, req_end, &mut starts, &mut ends, &mut scores);
                proof {
                    let prev = batch_kept_interval(ds, i as int, req_start, req_end);
                    let here = kept_interval_records(ds[i as int], req_start, req_end);
                    crate::interval::lemma_rec_columns_concat(prev, here);
                    assert(batch_kept_interval(ds, i + 1, req_start, req_end) == prev + here);
                }
                if starts.len() > u32::MAX as usize {
                    proof {
                        assert(batch_kept_interval(ds, i + 1, req_start, req_end).len()
                            > u32::MAX);
                        lemma_batch_kept_interval_monotone(
                            ds,
                            i + 1,
                            num_blocks as int,
                            req_start,
                            req_end,
                        );
                    }
                    return Err(DecodeError::OutputTooLarge);
                }
            },
            Err(e) => {
                if e == DecodeError::Malformed {
                    assert(inflation(
                        block_slice(inputs@, input_offsets@[i as int], input_lengths@[i as int]),
                    ) is None);
                    return Err(DecodeError::Malformed);
                } else {
                    assert(!(inflation(
                        block_slice(inputs@, input_offsets@[i as int], input_lengths@[i as int]),
                    ) matches Some(d0) && d0.len() <= max_block_size));
                    return Err(DecodeError::InsufficientSpace);
                }
            },
        }
        i = i + 1;
    }
    let out = pack_interval_columns(&starts, &ends, &scores);
    proof {
        assert(out@ =~= packed_interval(
            batch_kept_interval(ds, num_blocks as int, req_start, req_end),
        ));
    }
    Ok(out)
}

/// The surviving summary records of the first `k` decompressed
/// sub-blocks, concatenated in batch order.
pub open spec fn batch_kept_summary(
    ds: Seq<Seq<u8>>,
    k: int,
    req_chr_id: u32,
    req_start: i32,
    req_end: i32,
) -> Seq<SummaryRec>
    decreases k,
{
    if k <= 0 {
        Seq::empty()
    } else {
        batch_kept_summary(ds, k - 1, req_chr_id, req_start, req_end) + kept_summary_records(
            ds[k - 1],
            req_chr_id,
            req_start,
            req_end,
        )
    }
}

/// Later prefixes keep no fewer records.
pub proof fn lemma_batch_kept_summary_monotone(
    ds: Seq<Seq<u8>>,
    k1: int,
    k2: int,
    req_chr_id: u32,
    req_start: i32,
    req_end: i32,
)
    requires
        k1 <= k2,
    ensures
        batch_kept_summary(ds, k1, req_chr_id, req_start, req_end).len() <= batch_kept_summary(
            ds,
            k2,
            req_chr_id,
            req_start,
            req_end,
        ).len(),
    decreases k2 - k1,
{
    if k1 < k2 {
        lemma_batch_kept_summary_monotone(ds, k1, k2 - 1, req_chr_id, req_start, req_end);
    }
}

/// Everything that must hold of a batch for the combined summary
/// operation to succeed.
pub open spec fn batch_parse_summary_ok(
    inputs: Seq<u8>,
    offs: Seq<u32>,
    lens: Seq<u32>,
    max_out: int,
    req_chr_id: u32,
    req_start: i32,
    req_end: i32,
) -> bool {
    &&& pairs_ok(inputs, offs, lens)
    &&& blocks_inflate_to(inputs, offs, lens, max_out, offs.len() as int)
    &&& batch_kept_summary(
        block_inflations(inputs, offs, lens),
        offs.len() as int,
        req_chr_id,
        req_start,
        req_end,
    ).len() <= u32::MAX
}

/// Decompresses every sub-block of the batch and immediately decodes
/// it as a summary block, accumulating the surviving records of the
/// whole batch into one packed summary result.  Decompression failure
/// on any sub-block aborts the whole batch; the decode itself never
/// fails.
pub fn decompress_and_parse_summary(
    inputs: &[u8],
    input_offsets: &[u32],
    input_lengths: &[u32],
    max_block_size: u32,
    req_chr_id: u32,
    req_start: i32,
    req_end: i32,
) -> (r: Result<Vec<u8>, DecodeError>)
    requires
        input_offsets@.len() == input_lengths@.len(),
    ensures
        r is Ok <==> batch_parse_summary_ok(
            inputs@,
            input_offsets@,
            input_lengths@,
            max_block_size as int,
            req_chr_id,
            req_start,
            req_end,
        ),
        r matches Ok(out) ==> out@ == packed_summary(
            batch_kept_summary(
                block_inflations(inputs@, input_offsets@, input_lengths@),
                input_offsets@.len() as int,
                req_chr_id,
                req_start,
                req_end,
            ),
        ),
        r matches Err(e) ==> (e == DecodeError::OutOfBounds || e == DecodeError::Malformed
            || e == DecodeError::InsufficientSpace || e == DecodeError::OutputTooLarge),
        r == Err::<Vec<u8>, DecodeError>(DecodeError::OutOfBounds) ==> !pairs_ok(
            inputs@,
            input_offsets@,
            input_lengths@,
        ),
        r == Err::<Vec<u8>, DecodeError>(DecodeError::Malformed) ==> exists|j: int|
            0 <= j < input_offsets@.len() && inflation(
                #[trigger] block_slice(inputs@, input_offsets@[j], input_lengths@[j]),
            ) is None,
        r == Err::<Vec<u8>, DecodeError>(DecodeError::InsufficientSpace) ==> exists|j: int|
            0 <= j < input_offsets@.len() && !(inflation(
                #[trigger] block_slice(inputs@, input_offsets@[j], input_lengths@[j]),
            ) matches Some(d) && d.len() <= max_block_size),
        r == Err::<Vec<u8>, DecodeError>(DecodeError::OutputTooLarge) ==> exists|k: int|
            0 <= k <= input_offsets@.len() && #[trigger] batch_kept_summary(
                block_inflations(inputs@, input_offsets@, input_lengths@),
                k,
                req_chr_id,
                req_start,
                req_end,
            ).len() > u32::MAX,
{
    proof {
        vstd::slice::axiom_spec_len(inputs);
        vstd::slice::axiom_spec_len(input_offsets);
    }
    let ghost ds = block_inflations(inputs@, input_offsets@, input_lengths@);
    if !validate_pairs(inputs, input_offsets, input_lengths) {
        return Err(DecodeError::OutOfBounds);
    }
    let num_blocks = input_offsets.len();
    let max_out = max_block_size as usize;
    let mut d = new_decompressor();
    let mut temp = vec![0u8; max_out];
    let mut starts: Vec<i32> = Vec::new();
    let mut ends: Vec<i32> = Vec::new();
    let mut scores: Vec<u32> = Vec::new();
    let mut mins: Vec<u32> = Vec::new();
    let mut maxes: Vec<u32> = Vec::new();
    let mut i: usize = 0;
    while i < num_blocks
        invariant
            num_blocks == input_offsets@.len(),
            input_offsets@.len() == input_lengths@.len(),
            inputs@.len() <= usize::MAX,
            max_out == max_block_size,
            ds == block_inflations(inputs@, input_offsets@, input_lengths@),
            pairs_ok(inputs@, input_offsets@, input_lengths@),
            temp@.len() == max_out,
            i <= num_blocks,
            blocks_inflate_to(
                inputs@,
                input_offsets@,
                input_lengths@,
                max_block_size as int,
                i as int,
            ),
            starts@ == sum_starts(
                batch_kept_summary(ds, i as int, req_chr_id, req_start, req_end),
            ),
            ends@ == sum_ends(batch_kept_summary(ds, i as int, req_chr_id, req_start, req_end)),
            scores@ == sum_scores(
                batch_kept_summary(ds, i as int, req_chr_id, req_start, req_end),
            ),
            mins@ == sum_mins(batch_kept_summary(ds, i as int, req_chr_id, req_start, req_end)),
            maxes@ == sum_maxes(batch_kept_summary(ds, i as int, req_chr_id, req_start, req_end)),
            starts@.len() <= u32::MAX,
        decreases num_blocks - i,
    {
        assert(pair_ok(inputs@, input_offsets@[i as int], input_lengths@[i as int]));
        let off = input_offsets[i] as usize;
        let len = input_lengths[i] as usize;
        let start = off + STRIPPED_PREFIX_LEN;
        let input = slice_subrange(inputs, start, off + len);
        assert(input@ == block_slice(inputs@, input_offsets@[i as int], input_lengths@[i as int]));
        match inflate_into(&mut d, input, &mut temp) {
            Ok(n) => {
                assert(inflation(input@) == Some(temp@.subrange(0, n as int)));
                let block = slice_subrange(temp.as_slice(), 0, n);
                assert(block@ == ds[i as int]);
                parse_summary_into(
                    block,
                    req_chr_id,
                    req_start,
                    req_end,
                    &mut starts,
                    &mut ends,
                    &mut scores,
                    &mut mins,
                    &mut maxes,
                );
                proof {
                    let prev = batch_kept_summary(ds, i as int, req_chr_id, req_start, req_end);
                    let here = kept_summary_records(ds[i as int], req_chr_id, req_start, req_end);
                    crate::summary::lemma_sum_columns_concat(prev, here);
                    assert(batch_kept_summary(ds, i + 1, req_chr_id, req_start, req_end) == prev
                        + here);
                }
                if starts.len() > u32::MAX as usize {
                    proof {
                        assert(batch_kept_summary(ds, i + 1, req_chr_id, req_start, req_end).len()
                            > u32::MAX);
                        lemma_batch_kept_summary_monotone(
                            ds,
                            i + 1,
                            num_blocks as int,
                            req_chr_id,
                            req_start,
                            req_end,
                        );
                    }
                    return Err(DecodeError::OutputTooLarge);
                }
            },
            Err(e) => {
                if e == DecodeError::Malformed {
                    assert(inflation(
                        block_slice(inputs@, input_offsets@[i as int], input_lengths@[i as int]),
                    ) is None);
                    return Err(DecodeError::Malformed);
                } else {
                    assert(!(inflation(
                        block_slice(inputs@, input_offsets@[i as int], input_lengths@[i as int]),
                    ) matches Some(d0) && d0.len() <= max_block_size));
                    return Err(DecodeError::InsufficientSpace);
                }
            },
        }
        i = i + 1;
    }
    let out = pack_summary_columns(&starts, &ends, &scores, &mins, &maxes);
    proof {
        assert(out@ =~= packed_summary(
            batch_kept_summary(ds, num_blocks as int, req_chr_id, req_start, req_end),
        ));
    }
    Ok(out)
}

} // verus!
