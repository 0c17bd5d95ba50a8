//! The errors that configuration can cause before a run starts.

use vstd::prelude::*;

verus! {

/// A fault in the exclusion rules.
#[derive(Debug)]
pub enum ExclusionConfigError {
    /// The pattern was refused by the regular-expression compiler, with
    /// the compiler's words.
    Pattern { message: String },
    /// A tag's keep mode is none of the known words.
    UnknownTagMode,
}

/// What the compression library reported when it refused to set up an
/// encoder.
#[derive(Clone, Copy, Debug, PartialEq, Eq, Structural)]
pub enum EncoderFault {
    Data,
    Options,
    Format,
    MemLimit,
    Mem,
    Program,
    NoCheck,
    UnsupportedCheck,
}

/// A fault in the compressor's settings.
#[derive(Clone, Copy, Debug, PartialEq, Eq, Structural)]
pub enum CompressConfigError {
    /// The level exceeds the highest supported one.
    LevelTooHigh { level: u32 },
    /// The compression library refused the settings.
    Encoder { fault: EncoderFault },
}

/// A fault in the settings of the progress display.
#[derive(Clone, Copy, Debug, PartialEq, Eq, Structural)]
pub enum DisplayConfigError {
    /// A character set holds fewer than two characters.
    TooFewChars,
    /// A colour name holds a character other than a letter, a digit,
    /// `_` or `/`.
    InvalidColor,
}

} // verus!
