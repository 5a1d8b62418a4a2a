//! Raw-deflate decompression.  The actual inflation is done by the
//! `libdeflater` crate behind trusted wrappers; everything around the
//! calls — buffer sizing, the growth-and-retry policy, and the error
//! taxonomy — is verified.

use crate::error::DecodeError;
use libdeflater::Decompressor;
use vstd::prelude::*;

verus! {

/// Cap on the output buffer growth of unknown-size decompression: 256 MiB.
pub const MAX_INFLATED_LEN: usize = 256 * 1024 * 1024;

/// What a raw-deflate stream decompresses to: `Some(bytes)` when `input`
/// is a well-formed deflate stream whose decompressed form is `bytes`,
/// `None` when the stream is malformed.  Deflate decoding is a function
/// of the input bytes alone.
pub uninterp spec fn inflation(input: Seq<u8>) -> Option<Seq<u8>>;

#[verifier::external_type_specification]
#[verifier::external_body]
pub struct ExDecompressor(Decompressor);

/// Relies on libdeflater's `Decompressor::new`: allocates a fresh
/// decompressor handle (scratch state only; it carries no data between
/// calls).
#[verifier::external_body]
pub(crate) fn new_decompressor() -> Decompressor {
    Decompressor::new()
}

/// Relies on libdeflater's `Decompressor::deflate_decompress`: inflates
/// the raw-deflate stream `input` into `out`, returning the decompressed
/// length on success, an insufficient-space condition when `out` is too
/// small for the decompressed data, and a bad-data condition when the
/// stream is invalid.  On error the contents of `out` are unspecified,
/// but its length never changes.
#[verifier::external_body]
pub(crate) fn inflate_into(d: &mut Decompressor, input: &[u8], out: &mut Vec<u8>) -> (r: Result<
    usize,
    DecodeError,
>)
    ensures
        final(out)@.len() == old(out)@.len(),
        match r {
            Ok(n) => n <= old(out)@.len() && inflation(input@) == Some(
                final(out)@.subrange(0, n as int),
            ),
            Err(e) => match e {
                DecodeError::InsufficientSpace => inflation(input@) matches Some(d0) ==> d0.len()
                    > old(out)@.len(),
                DecodeError::Malformed => inflation(input@) is None,
                _ => false,
            },
        },
        (inflation(input@) matches Some(d0) && d0.len() <= old(out)@.len()) ==> r is Ok,
{
    match d.deflate_decompress(input, out.as_mut_slice()) {
        Ok(n) => Ok(n),
        Err(libdeflater::DecompressionError::InsufficientSpace) => Err(
            DecodeError::InsufficientSpace,
        ),
        Err(libdeflater::DecompressionError::BadData) => Err(DecodeError::Malformed),
    }
}

/// Everything exact-size decompression promises of its result: success
/// exactly when the stream is well formed and its decompressed length
/// is exactly `output_size`, and then the buffer is exactly the
/// decompressed stream; each error names its cause (a longer stream is
/// insufficient space, a shorter one a capacity mismatch, an invalid
/// one malformed).
pub open spec fn exact_inflate_post(
    input: Seq<u8>,
    output_size: int,
    r: Result<Vec<u8>, DecodeError>,
) -> bool {
    &&& (r is Ok <==> (inflation(input) matches Some(d) && d.len() == output_size))
    &&& match r {
        Ok(out) => inflation(input) == Some(out@),
        Err(e) => {
            &&& e == DecodeError::InsufficientSpace || e == DecodeError::CapacityMismatch
                || e == DecodeError::Malformed
            &&& e == DecodeError::InsufficientSpace ==> (inflation(input) matches Some(d) ==> d.len()
                > output_size)
            &&& e == DecodeError::CapacityMismatch ==> (inflation(input) matches Some(d) && d.len()
                < output_size)
            &&& e == DecodeError::Malformed ==> inflation(input) is None
        },
    }
}

/// Decompresses the raw-deflate stream `input` into a buffer of exactly
/// `output_size` bytes.  The call succeeds only when the true
/// decompressed size is exactly `output_size`: a longer stream is
/// refused with an insufficient-space error, a shorter one with a
/// capacity-mismatch error, a malformed stream with a malformed-stream
/// error.  This path never retries.
pub fn inflate_raw(input: &[u8], output_size: usize) -> (r: Result<Vec<u8>, DecodeError>)
    ensures
        exact_inflate_post(input@, output_size as int, r),
{
    let mut d = new_decompressor();
    let mut out = vec![0u8; output_size];
    match inflate_into(&mut d, input, &mut out) {
        Ok(n) => {
            if n == output_size {
                proof {
                    assert(out@.subrange(0, n as int) =~= out@);
                }
                Ok(out)
            } else {
                Err(DecodeError::CapacityMismatch)
            }
        },
        Err(e) => Err(e),
    }
}

/// The largest output capacity the growth schedule attempts when it
/// starts from `start` bytes: capacities double (a zero start becomes
/// one byte) until one passes half the cap, and that last capacity is
/// still attempted; a start already past half the cap is attempted as
/// it is.
pub open spec fn schedule_cap(start: int) -> int
    decreases (if start <= MAX_INFLATED_LEN {
        MAX_INFLATED_LEN + 1 - start
    } else {
        0int
    }),
{
    if start < 0 {
        0
    } else if start > MAX_INFLATED_LEN / 2 {
        start
    } else if start == 0 {
        schedule_cap(1)
    } else {
        schedule_cap(2 * start)
    }
}

/// The schedule reaches at least its starting capacity, always passes
/// half the cap, and from a start at or below the cap never attempts
/// more than the cap.
pub proof fn lemma_schedule_cap_bounds(start: int)
    requires
        0 <= start,
    ensures
        schedule_cap(start) >= start,
        schedule_cap(start) > MAX_INFLATED_LEN / 2,
        start <= MAX_INFLATED_LEN ==> schedule_cap(start) <= MAX_INFLATED_LEN,
        start > MAX_INFLATED_LEN / 2 ==> schedule_cap(start) == start,
    decreases (if start <= MAX_INFLATED_LEN {
        MAX_INFLATED_LEN + 1 - start
    } else {
        0int
    }),
{
    if start > MAX_INFLATED_LEN / 2 {
    } else if start == 0 {
        lemma_schedule_cap_bounds(1);
    } else {
        lemma_schedule_cap_bounds(2 * start);
    }
}

/// Everything growing-capacity decompression promises of its result:
/// success exactly when the stream is well formed and short enough for
/// the growth schedule to reach, and then the buffer is exactly the
/// decompressed stream (no trailing padding); a malformed stream is
/// reported as such; the output-too-large error only comes for a
/// stream past the schedule's reach, and a stream past both the cap
/// and the first buffer always draws it.
pub open spec fn growing_inflate_post(input: Seq<u8>, r: Result<Vec<u8>, DecodeError>) -> bool {
    &&& (r is Ok <==> (inflation(input) matches Some(d) && d.len() <= schedule_cap(
        4 * input.len() as int,
    )))
    &&& match r {
        Ok(out) => inflation(input) == Some(out@),
        Err(e) => {
            &&& e == DecodeError::Malformed || e == DecodeError::OutputTooLarge
            &&& e == DecodeError::Malformed ==> inflation(input) is None
            &&& e == DecodeError::OutputTooLarge ==> (inflation(input) matches Some(d) ==> d.len()
                > schedule_cap(4 * input.len() as int))
        },
    }
    &&& (inflation(input) matches Some(d) && d.len() > MAX_INFLATED_LEN && d.len() > 4
        * input.len()) ==> r == Err::<Vec<u8>, DecodeError>(DecodeError::OutputTooLarge)
}

/// Decompresses the raw-deflate stream `input` without knowing the
/// decompressed size: starts with a buffer of four times the input
/// length and doubles it on every insufficient-space signal, giving up
/// with an output-too-large error once the doubled capacity would pass
/// the 256 MiB cap.  Malformed streams are reported immediately, never
/// retried.
pub fn inflate_raw_unknown_size(input: &[u8]) -> (r: Result<Vec<u8>, DecodeError>)
    requires
        input@.len() * 4 <= usize::MAX,
    ensures
        growing_inflate_post(input@, r),
{
    let mut d = new_decompressor();
    let mut size: usize = input.len() * 4;
    loop
        invariant
            input@.len() * 4 <= usize::MAX,
            size == input@.len() * 4 || (1 <= size && size <= MAX_INFLATED_LEN),
            schedule_cap(size as int) == schedule_cap(4 * input@.len() as int),
        decreases (if size <= MAX_INFLATED_LEN {
            MAX_INFLATED_LEN - size
        } else {
            0int
        }),
    {
        let mut out = vec![0u8; size];
        match inflate_into(&mut d, input, &mut out) {
            Ok(n) => {
                proof {
                    lemma_schedule_cap_bounds(size as int);
                }
                out.truncate(n);
                return Ok(out);
            },
            Err(DecodeError::InsufficientSpace) => {
                if size > MAX_INFLATED_LEN / 2 {
                    proof {
                        lemma_schedule_cap_bounds(size as int);
                    }
                    return Err(DecodeError::OutputTooLarge);
                }
                size = if size == 0 {
                    1
                } else {
                    size * 2
                };
            },
            Err(e) => {
                return Err(e);
            },
        }
    }
}

/// Law: growing-capacity decompression agrees with exact-size
/// decompression that was given the true decompressed length, on every
/// stream the growth schedule reaches (its length at most the last
/// capacity the doubling schedule attempts); both return exactly the
/// decompressed bytes.  A stream that fits the first buffer or half
/// the cap is always reached.
pub proof fn lemma_unknown_size_matches_exact(
    input: Seq<u8>,
    d: Seq<u8>,
    r_exact: Result<Vec<u8>, DecodeError>,
    r_grow: Result<Vec<u8>, DecodeError>,
)
    requires
        inflation(input) == Some(d),
        d.len() <= schedule_cap(4 * input.len() as int),
        exact_inflate_post(input, d.len() as int, r_exact),
        growing_inflate_post(input, r_grow),
    ensures
        r_exact is Ok,
        r_grow is Ok,
        r_exact.unwrap()@ == d,
        r_grow.unwrap()@ == d,
{
}

} // verus!
