use vstd::prelude::*;
use crate::forge::{calculate_new_bytes, forged_suffix};

verus! {

/// The checksum that crc32fast computes for `bytes` when continuing from the
/// finished checksum `seed`.
pub uninterp spec fn crc32fast_continued(seed: u32, bytes: Seq<u8>) -> u32;

/// Relies on crc32fast's `Hasher::new_with_initial`, `update` and `finalize`:
/// the checksum of `bytes` continued from `seed`, a function of the two alone.
#[verifier::external_body]
fn recompute_crc32(seed: u32, bytes: &[u8]) -> (r: u32)
    ensures
        r == crc32fast_continued(seed, bytes@),
{
    let mut hasher = crc32fast::Hasher::new_with_initial(seed);
    hasher.update(bytes);
    hasher.finalize()
}

/// Why a suffix was not produced.
#[derive(Debug, Clone, Copy, PartialEq, Eq, Structural)]
pub enum PatchError {
    /// The input already has the requested checksum.
    AlreadyMatches { crc32: u32 },
    /// The independent recomputation disagrees with the requested checksum.
    VerificationMismatch { got: u32, expected: u32 },
}

/// Checks an independently recomputed checksum of `from` continued with
/// `suffix`: the suffix is handed back only when it reaches `to`.
pub fn check_suffix(to: u32, suffix: [u8; 4], recomputed: u32) -> (r: Result<[u8; 4], PatchError>)
    ensures
        recomputed == to ==> r == Ok::<[u8; 4], PatchError>(suffix),
        recomputed != to ==> r == Err::<[u8; 4], PatchError>(
            PatchError::VerificationMismatch { got: recomputed, expected: to },
        ),
{
    if recomputed == to {
        Ok(suffix)
    } else {
        Err(PatchError::VerificationMismatch { got: recomputed, expected: to })
    }
}

/// Whether crc32fast, continuing from `from` over `suffix`, arrives at `expected`.
pub fn verify_suffix(from: u32, suffix: &[u8], expected: u32) -> (r: bool)
    ensures
        r == (crc32fast_continued(from, suffix@) == expected),
{
    recompute_crc32(from, suffix) == expected
}

/// The four bytes to append to input whose checksum is `old` so that it gets the
/// checksum `new`. Refuses when nothing would change, and when the independent
/// recomputation of the result disagrees; no bytes are handed out then.
pub fn prepare_patch(old: u32, new: u32) -> (r: Result<[u8; 4], PatchError>)
    ensures
        old == new <==> r == Err::<[u8; 4], PatchError>(PatchError::AlreadyMatches { crc32: new }),
        old != new && crc32fast_continued(old, forged_suffix(old, new)) == new ==> r is Ok,
        r matches Ok(b) ==> b@ == forged_suffix(old, new) && crc32fast_continued(old, b@) == new,
        r matches Err(PatchError::VerificationMismatch { got, expected }) ==> old != new
            && expected == new && got == crc32fast_continued(old, forged_suffix(old, new)) && got
            != new,
{
    if old == new {
        return Err(PatchError::AlreadyMatches { crc32: new });
    }
    let suffix = calculate_new_bytes(old, new);
    let recomputed = recompute_crc32(old, &suffix);
    check_suffix(new, suffix, recomputed)
}

} // verus!
