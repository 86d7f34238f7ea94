//! The parts of the TETRA Authentication Algorithm (TAA1) suite that need no key schedule, and the
//! types of the others.

use vstd::prelude::*;

verus! {

/// The 128-bit TETRA authentication key K, shared between an ITSI and its home SwMI.
pub type AuthKey = [u8; 16];

/// An 80-bit random seed (RS) or random challenge (RAND1/RAND2).
pub type Challenge80 = [u8; 10];

/// A 128-bit session authentication key (KS or KS').
pub type SessionKey = [u8; 16];

/// A 32-bit authentication response (RES1/RES2/XRES1/XRES2).
pub type AuthResponse = [u8; 4];

/// An 80-bit derived cipher key component (DCK1/DCK2) or the combined DCK.
pub type DckComponent = [u8; 10];

/// Two key components combined: their exclusive or, byte by byte.
pub open spec fn combined(dck1: Seq<u8>, dck2: Seq<u8>) -> Seq<u8> {
    Seq::new(dck1.len(), |i: int| dck1[i] ^ dck2[i])
}

/// The key component of one-way authentication that stays zero.
pub open spec fn zero_component() -> Seq<u8> {
    Seq::new(10, |i: int| 0u8)
}

/// Combine DCK1 and DCK2 (one of which is all-zero for one-way authentication) into the final
/// Derived Cipher Key.
/// ETSI EN 300 392-7 clause 4.2.1, Figure 4.7.
pub fn tb4(dck1: &DckComponent, dck2: &DckComponent) -> (dck: DckComponent)
    ensures
        dck@ == combined(dck1@, dck2@),
{
    let mut out: DckComponent = [0u8; 10];
    let mut i: usize = 0;
    while i < 10
        invariant
            i <= 10,
            forall|j: int| 0 <= j < i ==> #[trigger] out@[j] == dck1@[j] ^ dck2@[j],
        decreases 10 - i,
    {
        out[i] = dck1[i] ^ dck2[i];
        i = i + 1;
    }
    assert(out@ =~= combined(dck1@, dck2@));
    out
}

/// A component combined with zero stays itself, one combined with itself is zero, the order does
/// not matter, and combining with the same component twice leads back.
pub proof fn law_combining_components(dck1: Seq<u8>, dck2: Seq<u8>)
    requires
        dck1.len() == 10,
        dck2.len() == 10,
    ensures
        combined(dck1, zero_component()) == dck1,
        combined(dck1, dck1) == zero_component(),
        combined(dck1, dck2) == combined(dck2, dck1),
        combined(combined(dck1, dck2), dck2) == dck1,
{
    assert forall|a: u8, b: u8| #![trigger a ^ b] a ^ 0 == a && a ^ a == 0 && a ^ b == b ^ a && (a
        ^ b) ^ b == a by {
        assert(a ^ 0 == a && a ^ a == 0 && a ^ b == b ^ a && (a ^ b) ^ b == a) by (bit_vector);
    }
    assert(combined(dck1, zero_component()) =~= dck1);
    assert(combined(dck1, dck1) =~= zero_component());
    assert(combined(dck1, dck2) =~= combined(dck2, dck1));
    assert(combined(combined(dck1, dck2), dck2) =~= dck1);
}

/// Every bit of the combined key is set where it is set in one of the two components and not in
/// the other.
pub proof fn law_keys_are_combined_bit_by_bit(
    dck1: DckComponent,
    dck2: DckComponent,
    dck: DckComponent,
    i: int,
    b: u8,
)
    requires
        call_ensures(tb4, (&dck1, &dck2), dck),
        0 <= i < 10,
        b < 8,
    ensures
        ((dck@[i] >> b) % 2 == 1) <==> ((dck1@[i] >> b) % 2 == 1) != ((dck2@[i] >> b) % 2 == 1),
{
    let (x, y) = (dck1@[i], dck2@[i]);
    assert((((x ^ y) >> b) % 2 == 1) <==> ((x >> b) % 2 == 1) != ((y >> b) % 2 == 1)) by (bit_vector);
    assert(dck@[i] == x ^ y);
}

} // verus!
