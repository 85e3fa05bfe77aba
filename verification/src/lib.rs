//! Sound-bank ("BK") container parsing and VADPCM audio decoding.
//!
//! A BK file is a self-referential binary container: a fixed header holds a
//! 16-slot table of absolute byte offsets to instrument records, and each
//! record in turn holds absolute offsets to its waveform bytes, loop
//! coefficients, prediction coefficients and envelope program.  This crate
//! materializes that offset graph into an owned data model and decodes the
//! fixed-point adaptive-predictive ("VADPCM") waveform data to PCM samples.

use vstd::prelude::*;

pub mod bank;
pub mod bytes;
pub mod envelope;
pub mod vadpcm;

pub use bank::{Bk, Format, Instrument, InstrumentType};
pub use envelope::{Envelope, EnvelopeCmd, EnvelopeOffset};

verus! {

/// A parse failure for the container format.
#[derive(Debug, Clone, Copy, PartialEq, Eq, Structural)]
pub enum FormatError {
    /// The buffer does not begin with the `"BK  "` magic.
    BadMagic,
    /// A two-byte tag is not one of the recognized codes.
    UnknownFormatTag,
    /// The buffer is shorter than a field or block requires.
    TruncatedInput,
    /// A predictor coefficient block has the wrong length for its codebook.
    CodebookSizeMismatch,
}

} // verus!
