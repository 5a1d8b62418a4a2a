//! Tests for the pure block decoders: the three interval layouts, the
//! summary layout, the coordinate filter and the packed result format.

use bigwig_blocks::interval::interval_block_fits;
use bigwig_blocks::{parse_bigwig_block, parse_summary_block};

fn push_u32(out: &mut Vec<u8>, x: u32) {
    out.extend_from_slice(&x.to_le_bytes());
}

fn push_i32(out: &mut Vec<u8>, x: i32) {
    out.extend_from_slice(&x.to_le_bytes());
}

fn push_f32(out: &mut Vec<u8>, x: f32) {
    out.extend_from_slice(&x.to_le_bytes());
}

fn read_u32(b: &[u8], off: usize) -> u32 {
    u32::from_le_bytes([b[off], b[off + 1], b[off + 2], b[off + 3]])
}

fn read_i32(b: &[u8], off: usize) -> i32 {
    i32::from_le_bytes([b[off], b[off + 1], b[off + 2], b[off + 3]])
}

fn read_f32(b: &[u8], off: usize) -> f32 {
    f32::from_le_bytes([b[off], b[off + 1], b[off + 2], b[off + 3]])
}

/// Builds an interval block with the given header fields and raw
/// record payload.
fn interval_block(
    block_start: i32,
    item_step: u32,
    item_span: u32,
    block_type: u8,
    item_count: u16,
    payload: &[u8],
) -> Vec<u8> {
    let mut b = Vec::new();
    push_u32(&mut b, 7); // chrom id, unused by the decoder
    push_i32(&mut b, block_start);
    push_u32(&mut b, 0); // reserved
    push_u32(&mut b, item_step);
    push_u32(&mut b, item_span);
    b.push(block_type);
    b.push(0); // reserved
    b.extend_from_slice(&item_count.to_le_bytes());
    b.extend_from_slice(payload);
    b
}

/// Splits a packed interval result into its three columns.
fn unpack_intervals(out: &[u8]) -> (Vec<i32>, Vec<i32>, Vec<f32>) {
    let n = read_u32(out, 0) as usize;
    assert_eq!(out.len(), 4 + 12 * n);
    let mut starts = Vec::new();
    let mut ends = Vec::new();
    let mut scores = Vec::new();
    for i in 0..n {
        starts.push(read_i32(out, 4 + 4 * i));
        ends.push(read_i32(out, 4 + 4 * n + 4 * i));
        scores.push(read_f32(out, 4 + 8 * n + 4 * i));
    }
    (starts, ends, scores)
}

/// Splits a packed summary result into its five columns.
fn unpack_summaries(out: &[u8]) -> (Vec<i32>, Vec<i32>, Vec<f32>, Vec<f32>, Vec<f32>) {
    let n = read_u32(out, 0) as usize;
    assert_eq!(out.len(), 4 + 20 * n);
    let mut starts = Vec::new();
    let mut ends = Vec::new();
    let mut scores = Vec::new();
    let mut mins = Vec::new();
    let mut maxes = Vec::new();
    for i in 0..n {
        starts.push(read_i32(out, 4 + 4 * i));
        ends.push(read_i32(out, 4 + 4 * n + 4 * i));
        scores.push(read_f32(out, 4 + 8 * n + 4 * i));
        mins.push(read_f32(out, 4 + 12 * n + 4 * i));
        maxes.push(read_f32(out, 4 + 16 * n + 4 * i));
    }
    (starts, ends, scores, mins, maxes)
}

/// One 32-byte summary record.
fn summary_record(
    chrom_id: u32,
    start: u32,
    end: u32,
    valid_cnt: u32,
    min: f32,
    max: f32,
    sum: f32,
    sum_sq: f32,
) -> Vec<u8> {
    let mut b = Vec::new();
    push_u32(&mut b, chrom_id);
    push_u32(&mut b, start);
    push_u32(&mut b, end);
    push_u32(&mut b, valid_cnt);
    push_f32(&mut b, min);
    push_f32(&mut b, max);
    push_f32(&mut b, sum);
    push_f32(&mut b, sum_sq);
    b
}

#[test]
fn explicit_intervals_unfiltered() {
    let mut payload = Vec::new();
    for (s, e, sc) in [(10, 20, 1.5f32), (30, 45, -2.25), (50, 60, 0.0)] {
        push_i32(&mut payload, s);
        push_i32(&mut payload, e);
        push_f32(&mut payload, sc);
    }
    let block = interval_block(0, 0, 0, 1, 3, &payload);
    let out = parse_bigwig_block(&block, 0, 0);
    let (starts, ends, scores) = unpack_intervals(&out);
    assert_eq!(starts, vec![10, 30, 50]);
    assert_eq!(ends, vec![20, 45, 60]);
    assert_eq!(scores, vec![1.5, -2.25, 0.0]);
}

#[test]
fn variable_step_derives_end_from_span() {
    let mut payload = Vec::new();
    for (s, sc) in [(100, 4.0f32), (200, 8.0)] {
        push_i32(&mut payload, s);
        push_f32(&mut payload, sc);
    }
    let block = interval_block(0, 0, 25, 2, 2, &payload);
    let out = parse_bigwig_block(&block, 0, 0);
    let (starts, ends, scores) = unpack_intervals(&out);
    assert_eq!(starts, vec![100, 200]);
    assert_eq!(ends, vec![125, 225]);
    assert_eq!(scores, vec![4.0, 8.0]);
}

#[test]
fn fixed_step_derives_coordinates() {
    let mut payload = Vec::new();
    for sc in [1.0f32, 2.0, 3.0] {
        push_f32(&mut payload, sc);
    }
    let block = interval_block(100, 10, 5, 3, 3, &payload);
    let out = parse_bigwig_block(&block, 0, 0);
    let (starts, ends, scores) = unpack_intervals(&out);
    assert_eq!(starts, vec![100, 110, 120]);
    assert_eq!(ends, vec![105, 115, 125]);
    assert_eq!(scores, vec![1.0, 2.0, 3.0]);
}

#[test]
fn filter_excludes_boundary_touching_records() {
    let mut payload = Vec::new();
    // One record ending exactly at the window start, one starting
    // exactly at the window end, one genuinely overlapping.
    for (s, e, sc) in [(10, 50, 1.0f32), (200, 300, 2.0), (60, 70, 3.0)] {
        push_i32(&mut payload, s);
        push_i32(&mut payload, e);
        push_f32(&mut payload, sc);
    }
    let block = interval_block(0, 0, 0, 1, 3, &payload);
    let out = parse_bigwig_block(&block, 50, 200);
    let (starts, ends, scores) = unpack_intervals(&out);
    assert_eq!(starts, vec![60]);
    assert_eq!(ends, vec![70]);
    assert_eq!(scores, vec![3.0]);
}

#[test]
fn filter_keeps_partial_overlaps() {
    let mut payload = Vec::new();
    for (s, e, sc) in [(0, 51, 1.0f32), (199, 500, 2.0)] {
        push_i32(&mut payload, s);
        push_i32(&mut payload, e);
        push_f32(&mut payload, sc);
    }
    let block = interval_block(0, 0, 0, 1, 2, &payload);
    let out = parse_bigwig_block(&block, 50, 200);
    let (starts, _, _) = unpack_intervals(&out);
    assert_eq!(starts, vec![0, 199]);
}

#[test]
fn disabled_filter_keeps_zero_zero_record() {
    let mut payload = Vec::new();
    push_i32(&mut payload, 0);
    push_i32(&mut payload, 0);
    push_f32(&mut payload, 9.0);
    let block = interval_block(0, 0, 0, 1, 1, &payload);
    let out = parse_bigwig_block(&block, 0, 0);
    let (starts, ends, scores) = unpack_intervals(&out);
    assert_eq!(starts, vec![0]);
    assert_eq!(ends, vec![0]);
    assert_eq!(scores, vec![9.0]);
}

#[test]
fn truncated_block_decodes_to_zero_records() {
    let out = parse_bigwig_block(&[1, 2, 3, 4, 5], 0, 0);
    assert_eq!(out, vec![0, 0, 0, 0]);
    let out = parse_bigwig_block(&[], 10, 20);
    assert_eq!(out, vec![0, 0, 0, 0]);
}

#[test]
fn unknown_block_type_decodes_to_zero_records() {
    let block = interval_block(0, 0, 0, 5, 3, &[0u8; 36]);
    let out = parse_bigwig_block(&block, 0, 0);
    assert_eq!(out, vec![0, 0, 0, 0]);
}

#[test]
fn summary_score_is_mean_or_raw_sum() {
    let mut data = Vec::new();
    data.extend_from_slice(&summary_record(1, 0, 10, 0, 0.5, 2.5, 7.5, 0.0));
    data.extend_from_slice(&summary_record(1, 10, 20, 3, 1.0, 5.0, 9.0, 0.0));
    let out = parse_summary_block(&data, 1, 0, 0);
    let (starts, ends, scores, mins, maxes) = unpack_summaries(&out);
    assert_eq!(starts, vec![0, 10]);
    assert_eq!(ends, vec![10, 20]);
    assert_eq!(scores, vec![7.5, 3.0]);
    assert_eq!(mins, vec![0.5, 1.0]);
    assert_eq!(maxes, vec![2.5, 5.0]);
}

#[test]
fn summary_filter_matches_chromosome_and_window() {
    let mut data = Vec::new();
    data.extend_from_slice(&summary_record(1, 10, 20, 1, 0.0, 0.0, 1.0, 0.0));
    data.extend_from_slice(&summary_record(2, 10, 20, 1, 0.0, 0.0, 2.0, 0.0));
    data.extend_from_slice(&summary_record(1, 100, 200, 1, 0.0, 0.0, 3.0, 0.0));
    let out = parse_summary_block(&data, 1, 5, 50);
    let (starts, _, scores, _, _) = unpack_summaries(&out);
    assert_eq!(starts, vec![10]);
    assert_eq!(scores, vec![1.0]);
}

#[test]
fn summary_trailing_partial_record_is_ignored() {
    let mut data = Vec::new();
    data.extend_from_slice(&summary_record(1, 10, 20, 1, 0.0, 0.0, 1.0, 0.0));
    data.extend_from_slice(&[0xab; 17]);
    let out = parse_summary_block(&data, 0, 0, 0);
    let (starts, _, _, _, _) = unpack_summaries(&out);
    assert_eq!(starts, vec![10]);
}

#[test]
fn summary_disabled_filter_ignores_chromosome() {
    let mut data = Vec::new();
    data.extend_from_slice(&summary_record(9, 10, 20, 1, 0.0, 0.0, 1.0, 0.0));
    let out = parse_summary_block(&data, 1, 0, 0);
    let (starts, _, _, _, _) = unpack_summaries(&out);
    assert_eq!(starts, vec![10]);
}

#[test]
fn block_fits_accepts_consistent_and_degenerate_blocks() {
    // Shorter than a header, or of unknown type: decodes to zero
    // records, so it always fits.
    assert!(interval_block_fits(&[1, 2, 3]));
    assert!(interval_block_fits(&interval_block(0, 0, 0, 9, 100, &[])));
    // Consistent declared count.
    let block = interval_block(0, 0, 0, 3, 2, &[0u8; 8]);
    assert!(interval_block_fits(&block));
    // Declared count larger than the payload.
    let block = interval_block(0, 0, 0, 3, 3, &[0u8; 8]);
    assert!(!interval_block_fits(&block));
}
