//! The Adler-32 checksum used as the content-equality proxy.

use vstd::prelude::*;

verus! {

/// The modulus of both Adler-32 accumulators: the largest prime below 2^16.
pub const ADLER_BASE: u32 = 65521;

/// The first accumulator after `s`: one plus the sum of the bytes, modulo
/// [`ADLER_BASE`].
pub open spec fn adler_a(s: Seq<u8>) -> nat
    decreases s.len(),
{
    if s.len() == 0 {
        1
    } else {
        (adler_a(s.drop_last()) + s.last() as nat) % (ADLER_BASE as nat)
    }
}

/// The second accumulator after `s`: the sum of the values the first
/// accumulator took after each byte, modulo [`ADLER_BASE`].
pub open spec fn adler_b(s: Seq<u8>) -> nat
    decreases s.len(),
{
    if s.len() == 0 {
        0
    } else {
        (adler_b(s.drop_last()) + adler_a(s)) % (ADLER_BASE as nat)
    }
}

/// The Adler-32 checksum of `s`: the second accumulator in the upper sixteen
/// bits, the first in the lower sixteen.
pub open spec fn adler32_spec(s: Seq<u8>) -> u32 {
    (adler_b(s) * 65536 + adler_a(s)) as u32
}

/// Both accumulators stay below the modulus, so the checksum is the second
/// accumulator shifted left by sixteen bits, or-ed with the first.
pub proof fn lemma_adler32_packs_both_sums(s: Seq<u8>)
    ensures
        adler_a(s) < ADLER_BASE,
        adler_b(s) < ADLER_BASE,
        adler32_spec(s) == adler_b(s) * 65536 + adler_a(s),
        adler32_spec(s) == ((adler_b(s) as u32) << 16) | (adler_a(s) as u32),
    decreases s.len(),
{
    if s.len() > 0 {
        lemma_adler32_packs_both_sums(s.drop_last());
    }
    let a = adler_a(s) as u32;
    let b = adler_b(s) as u32;
    assert((b << 16) | a == b * 65536 + a) by (bit_vector)
        requires
            a < 65521,
            b < 65521,
    ;
}

/// Determinism: the checksum depends on the bytes alone, so two contents of
/// the same length that agree byte for byte have the same checksum.
pub proof fn lemma_checksum_deterministic(a: Seq<u8>, b: Seq<u8>)
    requires
        a.len() == b.len(),
        forall|i: int| 0 <= i < a.len() ==> a[i] == b[i],
    ensures
        adler32_spec(a) == adler32_spec(b),
{
    assert(a =~= b);
}

/// Calls `adler32::adler32` with the slice as its reader.
///
/// That function feeds everything the reader yields to a rolling hash that
/// starts at 1 and returns `(b << 16) | a`; the contract states that value as
/// [`adler32_spec`]. It fails only when the reader does, and a slice never
/// does.
#[verifier::external_body]
fn adler32_of_slice(bytes: &[u8]) -> (sum: u32)
    ensures
        sum == adler32_spec(bytes@),
{
    adler32::adler32(bytes).unwrap()
}

/// The whole-content checksum of a file's bytes. It is a function of the
/// bytes: the same content gives the same checksum at every call.
pub fn checksum(bytes: &[u8]) -> (sum: u32)
    ensures
        sum == adler32_spec(bytes@),
{
    adler32_of_slice(bytes)
}

} // verus!
