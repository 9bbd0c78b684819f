//! The decisions of the multi-frame driver: whether two decoders can be
//! compared, whether the producer reads another frame pair, and what the run
//! yields once the workers have drained.
use vstd::prelude::*;

use crate::error::MetricsError;
use crate::frame::ChromaSampling;
use crate::pixel::PixelType;

verus! {

/// Checks that two videos can be compared and picks the sample type for their
/// frames: 8-bit samples up to 8 bits, 16-bit samples above. Runs on the
/// decoders' details before any frame is read.
pub fn check_video_pair(
    bit_depth1: usize,
    bit_depth2: usize,
    chroma_sampling1: ChromaSampling,
    chroma_sampling2: ChromaSampling,
) -> (r: Result<PixelType, MetricsError>)
    ensures
        bit_depth1 != bit_depth2 ==> r == Err::<PixelType, MetricsError>(
            MetricsError::InputMismatch { reason: "Bit depths do not match" },
        ),
        bit_depth1 == bit_depth2 && chroma_sampling1 != chroma_sampling2 ==> r == Err::<
            PixelType,
            MetricsError,
        >(MetricsError::InputMismatch { reason: "Chroma samplings do not match" }),
        r is Ok <==> bit_depth1 == bit_depth2 && chroma_sampling1 == chroma_sampling2,
        r is Ok ==> r->Ok_0 == if bit_depth1 > 8 {
            PixelType::U16
        } else {
            PixelType::U8
        },
{
    if bit_depth1 != bit_depth2 {
        return Err(MetricsError::InputMismatch { reason: "Bit depths do not match" });
    }
    if chroma_sampling1 != chroma_sampling2 {
        return Err(MetricsError::InputMismatch { reason: "Chroma samplings do not match" });
    }
    if bit_depth1 > 8 {
        Ok(PixelType::U16)
    } else {
        Ok(PixelType::U8)
    }
}

/// Whether the producer reads another frame pair, having read `decoded`
/// pairs: always without a limit, else while fewer than `frame_limit`.
pub fn should_decode_next(decoded: usize, frame_limit: Option<usize>) -> (r: bool)
    ensures
        r == match frame_limit {
            Some(limit) => decoded < limit,
            None => true,
        },
{
    match frame_limit {
        Some(limit) => limit > decoded,
        None => true,
    }
}

/// What a run yields once the producer has stopped and the workers have
/// drained: the first recorded failure, or an unsupported input when no frame
/// pair was processed, or else the per-frame results for aggregation.
pub fn finish_video<R>(
    results: Vec<R>,
    send_error: Option<String>,
    process_error: Option<String>,
) -> (r: Result<Vec<R>, MetricsError>)
    ensures
        send_error is Some ==> r == Err::<Vec<R>, MetricsError>(
            MetricsError::SendError { reason: send_error->Some_0 },
        ),
        send_error is None && process_error is Some ==> r == Err::<Vec<R>, MetricsError>(
            MetricsError::ProcessError { reason: process_error->Some_0 },
        ),
        send_error is None && process_error is None && results@.len() == 0 ==> r is Err
            && r->Err_0 is UnsupportedInput,
        r is Ok <==> send_error is None && process_error is None && results@.len() > 0,
        r is Ok ==> r->Ok_0 == results,
{
    if let Some(reason) = send_error {
        return Err(MetricsError::SendError { reason });
    }
    if let Some(reason) = process_error {
        return Err(MetricsError::ProcessError { reason });
    }
    if results.len() == 0 {
        return Err(
            MetricsError::UnsupportedInput {
                reason: "No readable frames found in one or more input files",
            },
        );
    }
    Ok(results)
}

} // verus!
