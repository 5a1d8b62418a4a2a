//! Tests for the decompression operations: exact-size, growing, batch,
//! and the combined decompress-and-decode pipelines.  Fixtures are
//! compressed with libdeflater's own compressor, so the trusted
//! decompression wrappers are exercised against the real codec.

use bigwig_blocks::{
    decompress_and_parse_bigwig, decompress_and_parse_summary, inflate_raw, inflate_raw_batch,
    inflate_raw_unknown_size, DecodeError,
};
use libdeflater::{CompressionLvl, Compressor};

fn deflate(data: &[u8]) -> Vec<u8> {
    let mut c = Compressor::new(CompressionLvl::default());
    let bound = c.deflate_compress_bound(data.len());
    let mut out = vec![0u8; bound];
    let n = c.deflate_compress(data, &mut out).expect("compression failed");
    out.truncate(n);
    out
}

fn read_u32(b: &[u8], off: usize) -> u32 {
    u32::from_le_bytes([b[off], b[off + 1], b[off + 2], b[off + 3]])
}

fn read_i32(b: &[u8], off: usize) -> i32 {
    i32::from_le_bytes([b[off], b[off + 1], b[off + 2], b[off + 3]])
}

fn read_f32(b: &[u8], off: usize) -> f32 {
    f32::from_le_bytes([b[off], b[off + 1], b[off + 2], b[off + 3]])
}

/// Concatenates sub-blocks, each prefixed with two junk bytes (the
/// stripped zlib-header convention), and returns the buffer with the
/// declared (offset, length) pairs.
fn build_batch(blocks: &[&[u8]]) -> (Vec<u8>, Vec<u32>, Vec<u32>) {
    let mut buf = Vec::new();
    let mut offsets = Vec::new();
    let mut lengths = Vec::new();
    for block in blocks {
        offsets.push(buf.len() as u32);
        buf.push(0x78);
        buf.push(0x9c);
        buf.extend_from_slice(block);
        lengths.push((block.len() + 2) as u32);
    }
    (buf, offsets, lengths)
}

fn interval_block_type1(records: &[(i32, i32, f32)]) -> Vec<u8> {
    let mut b = Vec::new();
    b.extend_from_slice(&7u32.to_le_bytes());
    b.extend_from_slice(&0i32.to_le_bytes());
    b.extend_from_slice(&0u32.to_le_bytes());
    b.extend_from_slice(&0u32.to_le_bytes());
    b.extend_from_slice(&0u32.to_le_bytes());
    b.push(1);
    b.push(0);
    b.extend_from_slice(&(records.len() as u16).to_le_bytes());
    for (s, e, sc) in records {
        b.extend_from_slice(&s.to_le_bytes());
        b.extend_from_slice(&e.to_le_bytes());
        b.extend_from_slice(&sc.to_le_bytes());
    }
    b
}

fn summary_block(records: &[(u32, u32, u32, u32, f32, f32, f32)]) -> Vec<u8> {
    let mut b = Vec::new();
    for (chrom, start, end, valid, min, max, sum) in records {
        b.extend_from_slice(&chrom.to_le_bytes());
        b.extend_from_slice(&start.to_le_bytes());
        b.extend_from_slice(&end.to_le_bytes());
        b.extend_from_slice(&valid.to_le_bytes());
        b.extend_from_slice(&min.to_le_bytes());
        b.extend_from_slice(&max.to_le_bytes());
        b.extend_from_slice(&sum.to_le_bytes());
        b.extend_from_slice(&0f32.to_le_bytes());
    }
    b
}

#[test]
fn inflate_raw_round_trips() {
    let original: Vec<u8> = (0..1000u32).flat_map(|x| x.to_le_bytes()).collect();
    let compressed = deflate(&original);
    let out = inflate_raw(&compressed, original.len()).expect("exact-size inflate failed");
    assert_eq!(out, original);
}

#[test]
fn inflate_raw_reports_insufficient_space() {
    let original = vec![42u8; 4096];
    let compressed = deflate(&original);
    let r = inflate_raw(&compressed, 100);
    assert_eq!(r, Err(DecodeError::InsufficientSpace));
}

#[test]
fn inflate_raw_rejects_capacity_mismatch() {
    // The stream is valid but decompresses to fewer bytes than the
    // declared capacity: the exact-size path must refuse it.
    let original = vec![5u8; 1000];
    let compressed = deflate(&original);
    let r = inflate_raw(&compressed, 2000);
    assert_eq!(r, Err(DecodeError::CapacityMismatch));
    assert_eq!(
        DecodeError::CapacityMismatch.message(),
        "decompressed size differs from the declared capacity"
    );
}

#[test]
fn inflate_raw_rejects_malformed_stream() {
    let garbage = vec![0xfeu8; 64];
    assert_eq!(inflate_raw(&garbage, 1024), Err(DecodeError::Malformed));
    assert_eq!(inflate_raw_unknown_size(&garbage), Err(DecodeError::Malformed));
    assert_eq!(
        DecodeError::Malformed.message(),
        "decompression failed: malformed deflate stream"
    );
}

#[test]
fn unknown_size_matches_exact_size() {
    // Highly compressible input, so the first buffer (four times the
    // compressed length) is too small and the doubling retry runs.
    let original = vec![7u8; 1 << 20];
    let compressed = deflate(&original);
    assert!(compressed.len() * 4 < original.len());
    let exact = inflate_raw(&compressed, original.len()).expect("exact-size inflate failed");
    let grown = inflate_raw_unknown_size(&compressed).expect("growing inflate failed");
    assert_eq!(exact, grown);
    assert_eq!(grown, original);
}

#[test]
fn unknown_size_over_cap_is_output_too_large() {
    // Decompresses to more than 256 MiB: the growth loop must give up
    // with the output-too-large error rather than retrying forever.
    let original = vec![0u8; 270 * 1024 * 1024];
    let compressed = deflate(&original);
    let r = inflate_raw_unknown_size(&compressed);
    assert_eq!(r, Err(DecodeError::OutputTooLarge));
}

#[test]
fn batch_packs_offset_table_and_bytes() {
    let b0: Vec<u8> = (0..500u32).flat_map(|x| x.to_le_bytes()).collect();
    let b1 = vec![9u8; 37];
    let b2: Vec<u8> = Vec::new();
    let c0 = deflate(&b0);
    let c1 = deflate(&b1);
    let c2 = deflate(&b2);
    let (buf, offsets, lengths) = build_batch(&[&c0, &c1, &c2]);
    let out = inflate_raw_batch(&buf, &offsets, &lengths, 1 << 16).expect("batch failed");
    assert_eq!(read_u32(&out, 0), 3);
    let table: Vec<u32> = (0..4).map(|i| read_u32(&out, 4 + 4 * i)).collect();
    assert_eq!(table[0], 0);
    assert_eq!(table[1], b0.len() as u32);
    assert_eq!(table[2], (b0.len() + b1.len()) as u32);
    assert_eq!(table[3], (b0.len() + b1.len() + b2.len()) as u32);
    let data_start = 4 + 4 * 4;
    assert_eq!(out.len(), data_start + b0.len() + b1.len() + b2.len());
    assert_eq!(&out[data_start..data_start + b0.len()], &b0[..]);
    assert_eq!(&out[data_start + b0.len()..data_start + b0.len() + b1.len()], &b1[..]);
}

#[test]
fn batch_rejects_short_declared_length() {
    let buf = vec![0u8; 10];
    let r = inflate_raw_batch(&buf, &[0], &[1], 1024);
    assert_eq!(r, Err(DecodeError::OutOfBounds));
}

#[test]
fn batch_rejects_out_of_range_pair() {
    let buf = vec![0u8; 10];
    let r = inflate_raw_batch(&buf, &[4], &[8], 1024);
    assert_eq!(r, Err(DecodeError::OutOfBounds));
}

#[test]
fn batch_rejects_block_past_bound() {
    let original = vec![3u8; 10000];
    let c = deflate(&original);
    let (buf, offsets, lengths) = build_batch(&[&c]);
    let r = inflate_raw_batch(&buf, &offsets, &lengths, 100);
    assert_eq!(r, Err(DecodeError::InsufficientSpace));
}

#[test]
fn batch_rejects_malformed_block() {
    let garbage = vec![0xfeu8; 32];
    let (buf, offsets, lengths) = build_batch(&[&garbage]);
    let r = inflate_raw_batch(&buf, &offsets, &lengths, 1024);
    assert_eq!(r, Err(DecodeError::Malformed));
}

#[test]
fn combined_interval_pipeline_round_trips() {
    // Two compressed type-1 blocks; with the filter disabled every
    // record of both blocks comes back, in batch order.
    let recs0 = [(10, 20, 1.5f32), (30, 40, 2.5)];
    let recs1 = [(100, 200, -4.0f32)];
    let c0 = deflate(&interval_block_type1(&recs0));
    let c1 = deflate(&interval_block_type1(&recs1));
    let (buf, offsets, lengths) = build_batch(&[&c0, &c1]);
    let out = decompress_and_parse_bigwig(&buf, &offsets, &lengths, 1 << 16, 0, 0)
        .expect("combined interval decode failed");
    let n = read_u32(&out, 0) as usize;
    assert_eq!(n, 3);
    let expected = [(10, 20, 1.5f32), (30, 40, 2.5), (100, 200, -4.0)];
    for (i, (s, e, sc)) in expected.iter().enumerate() {
        assert_eq!(read_i32(&out, 4 + 4 * i), *s);
        assert_eq!(read_i32(&out, 4 + 4 * n + 4 * i), *e);
        assert_eq!(read_f32(&out, 4 + 8 * n + 4 * i), *sc);
    }
}

#[test]
fn combined_interval_pipeline_filters_across_blocks() {
    let recs0 = [(10, 20, 1.0f32), (90, 110, 2.0)];
    let recs1 = [(100, 200, 3.0f32), (500, 600, 4.0)];
    let c0 = deflate(&interval_block_type1(&recs0));
    let c1 = deflate(&interval_block_type1(&recs1));
    let (buf, offsets, lengths) = build_batch(&[&c0, &c1]);
    let out = decompress_and_parse_bigwig(&buf, &offsets, &lengths, 1 << 16, 100, 300)
        .expect("combined interval decode failed");
    let n = read_u32(&out, 0) as usize;
    assert_eq!(n, 2);
    assert_eq!(read_i32(&out, 4), 90);
    assert_eq!(read_i32(&out, 8), 100);
}

#[test]
fn combined_interval_pipeline_rejects_overdeclared_count() {
    // A block that declares more records than its bytes hold is a
    // bounds violation for the whole batch.
    let mut block = interval_block_type1(&[(1, 2, 3.0f32)]);
    let len = block.len();
    block[22] = 9; // declared count raised past the payload
    block.truncate(len);
    let c = deflate(&block);
    let (buf, offsets, lengths) = build_batch(&[&c]);
    let r = decompress_and_parse_bigwig(&buf, &offsets, &lengths, 1 << 16, 0, 0);
    assert_eq!(r, Err(DecodeError::OutOfBounds));
}

#[test]
fn combined_summary_pipeline_round_trips() {
    let recs0 = [(1u32, 0u32, 10u32, 0u32, 0.5f32, 2.5f32, 7.5f32)];
    let recs1 = [(1u32, 10u32, 20u32, 3u32, 1.0f32, 5.0f32, 9.0f32)];
    let c0 = deflate(&summary_block(&recs0));
    let c1 = deflate(&summary_block(&recs1));
    let (buf, offsets, lengths) = build_batch(&[&c0, &c1]);
    let out = decompress_and_parse_summary(&buf, &offsets, &lengths, 1 << 16, 1, 0, 0)
        .expect("combined summary decode failed");
    let n = read_u32(&out, 0) as usize;
    assert_eq!(n, 2);
    assert_eq!(read_i32(&out, 4), 0);
    assert_eq!(read_i32(&out, 8), 10);
    assert_eq!(read_i32(&out, 4 + 4 * n), 10);
    assert_eq!(read_i32(&out, 4 + 4 * n + 4), 20);
    // Scores: raw sum when no samples were valid, the mean otherwise.
    assert_eq!(read_f32(&out, 4 + 8 * n), 7.5);
    assert_eq!(read_f32(&out, 4 + 8 * n + 4), 3.0);
    assert_eq!(read_f32(&out, 4 + 12 * n), 0.5);
    assert_eq!(read_f32(&out, 4 + 16 * n + 4), 5.0);
}

#[test]
fn combined_summary_pipeline_filters_by_chromosome() {
    let recs = [
        (1u32, 10u32, 20u32, 1u32, 0.0f32, 0.0f32, 1.0f32),
        (2u32, 10u32, 20u32, 1u32, 0.0f32, 0.0f32, 2.0f32),
    ];
    let c = deflate(&summary_block(&recs));
    let (buf, offsets, lengths) = build_batch(&[&c]);
    let out = decompress_and_parse_summary(&buf, &offsets, &lengths, 1 << 16, 2, 5, 50)
        .expect("combined summary decode failed");
    let n = read_u32(&out, 0) as usize;
    assert_eq!(n, 1);
    assert_eq!(read_f32(&out, 4 + 8 * n), 2.0);
}
