//! The closed set of supported PCM sample encodings, with their byte widths
//! and the mapping from the textual labels used at the engine's ingestion
//! point.

use vstd::prelude::*;

verus! {

/// One of the five supported PCM sample encodings.
///
/// The encoding determines the byte width of a single (per-channel) sample
/// and the arithmetic that turns its bytes into a normalized Q15 value.
#[derive(Clone, Copy, PartialEq, Eq, Structural, Debug)]
pub enum SampleFormat {
    /// Signed 16-bit little-endian.
    S16le,
    /// Signed 32-bit little-endian.
    S32le,
    /// IEEE-754 single-precision little-endian.
    F32le,
    /// Signed 8-bit.
    S8,
    /// Unsigned 8-bit, centered at 128.
    U8,
}

impl SampleFormat {
    /// Byte width of a single encoded sample of this format.
    pub open spec fn spec_bytes_per_sample(self) -> nat {
        match self {
            SampleFormat::S16le => 2,
            SampleFormat::S32le => 4,
            SampleFormat::F32le => 4,
            SampleFormat::S8 => 1,
            SampleFormat::U8 => 1,
        }
    }

    /// Byte width of a single encoded sample of this format.
    pub fn bytes_per_sample(&self) -> (n: usize)
        ensures
            n == self.spec_bytes_per_sample(),
            1 <= n <= 4,
    {
        match self {
            SampleFormat::S16le => 2,
            SampleFormat::S32le => 4,
            SampleFormat::F32le => 4,
            SampleFormat::S8 => 1,
            SampleFormat::U8 => 1,
        }
    }

    /// The format named by a textual label, if the label is one of the five
    /// known ones.
    pub open spec fn spec_from_label(label: Seq<char>) -> Option<SampleFormat> {
        if label == "S16LE"@ {
            Some(SampleFormat::S16le)
        } else if label == "S32LE"@ {
            Some(SampleFormat::S32le)
        } else if label == "F32LE"@ {
            Some(SampleFormat::F32le)
        } else if label == "S8"@ {
            Some(SampleFormat::S8)
        } else if label == "U8"@ {
            Some(SampleFormat::U8)
        } else {
            None
        }
    }

    /// Parses a textual format label; unknown labels yield `None`.
    pub fn from_label(label: &str) -> (r: Option<SampleFormat>)
        ensures
            r == Self::spec_from_label(label@),
    {
        if str_eq(label, "S16LE") {
            Some(SampleFormat::S16le)
        } else if str_eq(label, "S32LE") {
            Some(SampleFormat::S32le)
        } else if str_eq(label, "F32LE") {
            Some(SampleFormat::F32le)
        } else if str_eq(label, "S8") {
            Some(SampleFormat::S8)
        } else if str_eq(label, "U8") {
            Some(SampleFormat::U8)
        } else {
            None
        }
    }
}

/// Equality of two string slices, specified over their character sequences.
pub fn str_eq(a: &str, b: &str) -> (r: bool)
    ensures
        r == (a@ == b@),
{
    let sa = String::from_str(a);
    let sb = String::from_str(b);
    sa.eq(&sb)
}

} // verus!
