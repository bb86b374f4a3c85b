//! Raw I/Q capture files: which sample format a file holds, and how many
//! samples its length gives.
use vstd::prelude::*;
use crate::sources::SourceError;
use crate::text::chars_of;

verus! {

/// Loads raw I/Q captures as produced by SDR tools (e.g. `rtl_sdr`, GNU
/// Radio file sinks). Two raw formats are supported, chosen by file
/// extension:
///
/// - `.cf32` / `.cfile` / `.fc32`: interleaved 32-bit float I/Q (GNU Radio style)
/// - anything else: interleaved 8-bit unsigned I/Q (`rtl_sdr` `.cu8` style)
pub struct IqFileSource;

/// The sample format of an I/Q file.
#[derive(Debug, Clone, Copy, PartialEq, Eq, Structural)]
pub enum IqFormat {
    /// Interleaved little-endian 32-bit float I and Q.
    Cf32,
    /// Interleaved unsigned 8-bit I and Q.
    Cu8,
}

/// The lower-case form of a text, as `str::to_lowercase` computes it.
pub uninterp spec fn lowercase(s: Seq<char>) -> Seq<char>;

/// Calls `str::to_lowercase`; its result is named by `lowercase`.
#[verifier::external_body]
fn to_lowercase(s: &str) -> (lower: String)
    ensures
        lower@ == lowercase(s@),
{
    s.to_lowercase()
}

/// `s` ends with `suffix`.
pub open spec fn has_suffix(s: Seq<char>, suffix: Seq<char>) -> bool {
    suffix.len() <= s.len() && s.subrange(s.len() - suffix.len(), s.len() as int) == suffix
}

/// The format named by a lower-cased path: float I/Q when it ends with
/// `.cf32`, `.cfile` or `.fc32`, byte I/Q otherwise.
pub open spec fn format_by_suffix(lower: Seq<char>) -> IqFormat {
    if has_suffix(lower, ".cf32"@) || has_suffix(lower, ".cfile"@) || has_suffix(lower, ".fc32"@) {
        IqFormat::Cf32
    } else {
        IqFormat::Cu8
    }
}

/// The format of a file by its path: the suffix rule applied to the
/// lower-cased path.
pub open spec fn iq_format_of(path: Seq<char>) -> IqFormat {
    format_by_suffix(lowercase(path))
}

/// The format named by an already lower-cased path (see `format_by_suffix`).
pub fn format_of_lowercase(lower: &str) -> (format: IqFormat)
    ensures
        format == format_by_suffix(lower@),
{
    let chars = chars_of(lower);
    if ends_with(&chars, ".cf32") || ends_with(&chars, ".cfile") || ends_with(&chars, ".fc32") {
        IqFormat::Cf32
    } else {
        IqFormat::Cu8
    }
}

/// The number of bytes one I/Q pair takes in a format.
pub open spec fn pair_width(format: IqFormat) -> nat {
    match format {
        IqFormat::Cf32 => 8,
        IqFormat::Cu8 => 2,
    }
}

/// The message for a file whose length is not a whole number of I/Q pairs.
pub open spec fn odd_length_message(format: IqFormat) -> Seq<char> {
    match format {
        IqFormat::Cf32 => "cf32 file length is not a multiple of 8 bytes (float32 I/Q pairs)"@,
        IqFormat::Cu8 => "cu8 file length is not a multiple of 2 bytes (byte I/Q pairs)"@,
    }
}

fn ends_with(s: &Vec<char>, suffix: &str) -> (b: bool)
    ensures
        b == has_suffix(s@, suffix@),
{
    let t = chars_of(suffix);
    let n = s.len();
    let m = t.len();
    if m > n {
        return false;
    }
    let ghost tail = s@.subrange(n - m, n as int);
    let mut k: usize = 0;
    while k < m
        invariant
            n == s@.len(),
            m == t@.len(),
            t@ == suffix@,
            m <= n,
            tail == s@.subrange(n - m, n as int),
            0 <= k <= m,
            forall|j: int| 0 <= j < k ==> tail[j] == t@[j],
        decreases m - k,
    {
        if s[n - m + k] != t[k] {
            assert(tail[k as int] != t@[k as int]);
            return false;
        }
        k = k + 1;
    }
    assert(tail =~= t@);
    true
}

impl IqFileSource {
    /// The source's display name.
    pub fn name(&self) -> (name: &'static str)
        ensures
            name@ == "IQ / SDR raw file"@,
    {
        "IQ / SDR raw file"
    }

    /// The sample format of the file at `path`, by its extension.
    pub fn sample_format(&self, path: &str) -> (format: IqFormat)
        ensures
            format == iq_format_of(path@),
    {
        let lower = to_lowercase(path);
        format_of_lowercase(lower.as_str())
    }

    /// The number of I/Q samples in a file of `byte_len` bytes in `format`:
    /// an error when the length is not a whole number of pairs, or is zero.
    pub fn sample_count(&self, format: IqFormat, byte_len: usize) -> (count: Result<
        usize,
        SourceError,
    >)
        ensures
            byte_len as nat % pair_width(format) != 0 ==> (count matches Err(SourceError::Format(m))
                && m@ == odd_length_message(format)),
            byte_len == 0 ==> (count matches Err(SourceError::Format(m)) && m@
                == "no IQ samples found in file"@),
            byte_len as nat % pair_width(format) == 0 && byte_len > 0 ==> count == Ok::<
                usize,
                SourceError,
            >((byte_len as nat / pair_width(format)) as usize),
    {
        let width: usize = match format {
            IqFormat::Cf32 => 8,
            IqFormat::Cu8 => 2,
        };
        if byte_len % width != 0 {
            let message = match format {
                IqFormat::Cf32 => String::from_str(
                    "cf32 file length is not a multiple of 8 bytes (float32 I/Q pairs)",
                ),
                IqFormat::Cu8 => String::from_str(
                    "cu8 file length is not a multiple of 2 bytes (byte I/Q pairs)",
                ),
            };
            return Err(SourceError::Format(message));
        }
        if byte_len == 0 {
            return Err(SourceError::Format(String::from_str("no IQ samples found in file")));
        }
        Ok(byte_len / width)
    }
}

} // verus!
