//! The values a digest computation hands to its shell: progress snapshots
//! while it runs and the final result.
use crate::encoding::{base64_decode, base64_encode, base64_standard, hex_decode, hex_encode,
    hex_lower, lemma_encodings_agree};
use vstd::prelude::*;

verus! {

/// Whole percent, rounded down, that `processed` makes of `total`.
///
/// An empty total counts as zero percent. A share that does not fit the
/// one-byte field — more was processed than the total announced — is held at
/// the field's largest value.
pub open spec fn percent_of(processed: u64, total: u64) -> int {
    if total == 0 {
        0
    } else {
        let share: int = (processed as int * 100) / (total as int);
        if share > u8::MAX as int {
            u8::MAX as int
        } else {
            share
        }
    }
}

/// Snapshot of a running computation, taken after each chunk.
#[derive(Debug, Clone, Copy, PartialEq, Eq, Structural)]
pub struct HashProgress {
    /// Bytes hashed so far.
    pub processed: u64,
    /// The file's length in bytes, as looked up before reading.
    pub total: u64,
    /// `processed` as a share of `total`, see [`percent_of`].
    pub percent: u8,
}

impl HashProgress {
    /// A snapshot is well formed when its percentage is the one derived from
    /// its two byte counts.
    pub open spec fn wf(self) -> bool {
        self.percent as int == percent_of(self.processed, self.total)
    }

    /// The snapshot for `processed` bytes out of `total`.
    pub open spec fn at(processed: u64, total: u64) -> HashProgress {
        HashProgress { processed, total, percent: percent_of(processed, total) as u8 }
    }

    /// Snapshot for `processed` bytes out of `total`.
    pub fn new(processed: u64, total: u64) -> (progress: Self)
        ensures
            progress == Self::at(processed, total),
            progress.percent as int == percent_of(processed, total),
            progress.wf(),
    {
        let percent: u8 = if total > 0 {
            let share: u128 = (processed as u128 * 100) / (total as u128);
            if share > 255 {
                255
            } else {
                share as u8
            }
        } else {
            0
        };
        Self { processed, total, percent }
    }
}

/// Outcome of a computation that ran to the end of its source.
#[derive(Debug, PartialEq, Eq)]
pub struct HashResult {
    /// The digest in lower-case hexadecimal.
    pub hex: String,
    /// The same digest in padded base64.
    pub base64: String,
    /// How long the computation took, in milliseconds.
    pub elapsed_ms: u128,
    /// The file's length in bytes, as looked up before reading.
    pub bytes: u64,
    /// The path the computation was asked for.
    pub path: String,
}

/// What a [`HashResult`] says, with its texts as sequences of characters.
pub struct HashResultView {
    pub hex: Seq<char>,
    pub base64: Seq<char>,
    pub elapsed_ms: u128,
    pub bytes: u64,
    pub path: Seq<char>,
}

impl View for HashResult {
    type V = HashResultView;

    open spec fn view(&self) -> HashResultView {
        HashResultView {
            hex: self.hex@,
            base64: self.base64@,
            elapsed_ms: self.elapsed_ms,
            bytes: self.bytes,
            path: self.path@,
        }
    }
}

/// The two texts a digest is published in.
#[derive(Debug, PartialEq, Eq)]
pub struct DigestTexts {
    /// The digest in lower-case hexadecimal.
    pub hex: String,
    /// The same digest in padded base64.
    pub base64: String,
}

impl DigestTexts {
    /// Whether these are the two texts of `digest`.
    pub open spec fn are_of(self, digest: Seq<u8>) -> bool {
        &&& self.hex@ == hex_lower(digest)
        &&& self.base64@ == base64_standard(digest)
    }

    /// Encodes a finished digest, the same 32 bytes twice.
    pub fn of(digest: &[u8; 32]) -> (texts: Self)
        ensures
            texts.are_of(digest@),
    {
        let raw = digest.as_slice();
        let hex = hex_encode(raw);
        let base64 = base64_encode(raw);
        DigestTexts { hex, base64 }
    }
}

impl HashResultView {
    /// The result that publishes `digest` for the file at `path`.
    pub open spec fn of_digest(
        digest: Seq<u8>,
        elapsed_ms: u128,
        bytes: u64,
        path: Seq<char>,
    ) -> HashResultView {
        HashResultView {
            hex: hex_lower(digest),
            base64: base64_standard(digest),
            elapsed_ms,
            bytes,
            path,
        }
    }
}

/// Decoded, the two texts of a digest give the same bytes: the digest.
pub proof fn lemma_texts_agree(texts: DigestTexts, digest: Seq<u8>)
    requires
        texts.are_of(digest),
    ensures
        hex_decode(texts.hex@) == Some(digest),
        base64_decode(texts.base64@) == Some(digest),
{
    lemma_encodings_agree(digest);
}

/// While no more has been processed than the total announces, the
/// percentage stays within 0 to 100, and it reaches 100 exactly when
/// everything has been processed.
pub proof fn lemma_percent_bounds(processed: u64, total: u64)
    requires
        processed <= total,
    ensures
        0 <= percent_of(processed, total) <= 100,
        total > 0 ==> (percent_of(processed, total) == 100 <==> processed == total),
{
    if total > 0 {
        let p: int = processed as int;
        let t: int = total as int;
        assert(0 <= (p * 100) / t <= 100 && ((p * 100) / t == 100 <==> p == t)) by (nonlinear_arith)
            requires
                0 <= p <= t,
                t > 0,
        ;
    }
}

/// The percentage never falls as more bytes are processed.
pub proof fn lemma_percent_monotonic(earlier: u64, later: u64, total: u64)
    requires
        earlier <= later,
    ensures
        percent_of(earlier, total) <= percent_of(later, total),
{
    if total > 0 {
        let a: int = earlier as int;
        let b: int = later as int;
        let t: int = total as int;
        assert((a * 100) / t <= (b * 100) / t) by (nonlinear_arith)
            requires
                0 <= a <= b,
                t > 0,
        ;
    }
}

} // verus!
