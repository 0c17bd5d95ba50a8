//! The stream compressor's settings, the encoder they ask for, and the
//! sampling of its counters.

use crate::error::{CompressConfigError, EncoderFault};
use vstd::prelude::*;

verus! {

#[verifier::external_type_specification]
#[verifier::external_body]
pub struct ExStream(xz2::stream::Stream);

#[verifier::external_type_specification]
#[verifier::external_body]
pub struct ExStreamError(xz2::stream::Error);

/// The highest compression level.
pub const MAX_LEVEL: u32 = 9;

/// The settings of the compressor.
#[derive(Clone, Copy, Debug, PartialEq, Eq, Structural)]
pub struct CompressorConfig {
    /// The compression level, from 0 to 9.
    pub level: u32,
    /// The number of worker threads; 0 stands for all available cores.
    pub threads: u32,
    /// The size of each uncompressed block in bytes; 0 leaves the choice
    /// to the encoder.
    pub block_size: u64,
}

/// `xz2::stream::MtStreamBuilder`: a multithreaded encoder for the given
/// preset, number of threads and block size. Whether the encoder can be
/// set up is for the compression library to say.
#[verifier::external_body]
fn mt_encoder(level: u32, threads: u32, block_size: u64) -> (r: Result<
    xz2::stream::Stream,
    xz2::stream::Error,
>) {
    xz2::stream::MtStreamBuilder::new().preset(level).threads(threads).block_size(
        block_size,
    ).encoder()
}

/// Which of the variants of `xz2::stream::Error` an error is.
pub uninterp spec fn fault_kind(e: xz2::stream::Error) -> EncoderFault;

/// Which of the variants of `xz2::stream::Error` an error is, variant
/// for variant.
#[verifier::external_body]
fn fault_of(e: &xz2::stream::Error) -> (fault: EncoderFault)
    ensures
        fault == fault_kind(*e),
{
    match e {
        xz2::stream::Error::Data => EncoderFault::Data,
        xz2::stream::Error::Options => EncoderFault::Options,
        xz2::stream::Error::Format => EncoderFault::Format,
        xz2::stream::Error::MemLimit => EncoderFault::MemLimit,
        xz2::stream::Error::Mem => EncoderFault::Mem,
        xz2::stream::Error::Program => EncoderFault::Program,
        xz2::stream::Error::NoCheck => EncoderFault::NoCheck,
        xz2::stream::Error::UnsupportedCheck => EncoderFault::UnsupportedCheck,
    }
}

impl CompressorConfig {
    /// The number of worker threads to run with `available` cores.
    pub open spec fn workers(self, available: u32) -> u32 {
        if self.threads == 0 {
            available
        } else {
            self.threads
        }
    }

    /// Refuses a level above the highest one.
    pub fn validate(&self) -> (r: Result<(), CompressConfigError>)
        ensures
            self.level <= MAX_LEVEL ==> r is Ok,
            self.level > MAX_LEVEL ==> r == Err::<(), CompressConfigError>(
                CompressConfigError::LevelTooHigh { level: self.level },
            ),
    {
        if self.level > MAX_LEVEL {
            Err(CompressConfigError::LevelTooHigh { level: self.level })
        } else {
            Ok(())
        }
    }

    /// The number of worker threads to run with `available` cores: the
    /// configured number, or all cores where that is 0.
    pub fn effective_threads(&self, available: u32) -> (n: u32)
        ensures
            n == self.workers(available),
    {
        if self.threads == 0 {
            available
        } else {
            self.threads
        }
    }
}

/// What becomes of the compression library's answer: an encoder is handed
/// on, a refusal is reported by its kind.
pub fn encoder_outcome(r: Result<xz2::stream::Stream, xz2::stream::Error>) -> (out: Result<
    xz2::stream::Stream,
    CompressConfigError,
>)
    ensures
        match r {
            Ok(stream) => out == Ok::<xz2::stream::Stream, CompressConfigError>(stream),
            Err(e) => out == Err::<xz2::stream::Stream, CompressConfigError>(
                CompressConfigError::Encoder { fault: fault_kind(e) },
            ),
        },
{
    match r {
        Ok(stream) => Ok(stream),
        Err(e) => Err(CompressConfigError::Encoder { fault: fault_of(&e) }),
    }
}

/// Sets up the encoder for `cfg` on a machine with `available` cores. A
/// level above the highest one is refused before the compression library
/// is asked; any other refusal is the library's.
pub fn build_encoder(cfg: &CompressorConfig, available: u32) -> (out: Result<
    xz2::stream::Stream,
    CompressConfigError,
>)
    ensures
        cfg.level > MAX_LEVEL ==> out == Err::<xz2::stream::Stream, CompressConfigError>(
            CompressConfigError::LevelTooHigh { level: cfg.level },
        ),
        cfg.level <= MAX_LEVEL ==> out is Ok || (out matches Err(e) && e is Encoder),
{
    match cfg.validate() {
        Err(e) => Err(e),
        Ok(_) => encoder_outcome(
            mt_encoder(cfg.level, cfg.effective_threads(available), cfg.block_size),
        ),
    }
}

/// The last sample of the compressor's counters.
#[derive(Clone, Copy, Debug, PartialEq, Eq, Structural)]
pub struct CompressProgress {
    consumed: u64,
    produced: u64,
}

impl CompressProgress {
    /// No byte consumed, none produced.
    pub fn new() -> (p: Self)
        ensures
            p.consumed_bytes() == 0,
            p.produced_bytes() == 0,
    {
        CompressProgress { consumed: 0, produced: 0 }
    }

    /// The bytes consumed as of the last sample.
    pub closed spec fn consumed_bytes(self) -> u64 {
        self.consumed
    }

    /// The bytes produced as of the last sample.
    pub closed spec fn produced_bytes(self) -> u64 {
        self.produced
    }

    /// The bytes consumed as of the last sample.
    pub fn bytes_consumed(&self) -> (n: u64)
        ensures
            n == self.consumed_bytes(),
    {
        self.consumed
    }

    /// The bytes produced as of the last sample.
    pub fn bytes_produced(&self) -> (n: u64)
        ensures
            n == self.produced_bytes(),
    {
        self.produced
    }

    /// Takes in a sample of the two counters, and gives the number of
    /// bytes produced since the last sample if there are any. A counter
    /// that reads lower than before, as a sample taken from another
    /// thread may, does not set the progress back.
    pub fn sample(&mut self, total_in: u64, total_out: u64) -> (fresh: Option<u64>)
        ensures
            final(self).consumed_bytes() == (if total_in > old(self).consumed_bytes() {
                total_in
            } else {
                old(self).consumed_bytes()
            }),
            final(self).produced_bytes() == (if total_out > old(self).produced_bytes() {
                total_out
            } else {
                old(self).produced_bytes()
            }),
            fresh == (if total_out > old(self).produced_bytes() {
                Some((total_out - old(self).produced_bytes()) as u64)
            } else {
                None
            }),
    {
        if total_in > self.consumed {
            self.consumed = total_in;
        }
        if total_out > self.produced {
            let fresh = total_out - self.produced;
            self.produced = total_out;
            Some(fresh)
        } else {
            None
        }
    }
}

} // verus!
