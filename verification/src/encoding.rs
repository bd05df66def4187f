//! Byte encodings that bind withdrawal parameters into the proof's public
//! input: account identities truncated and padded, amounts in big-endian.

use vstd::prelude::*;

verus! {

/// The binding form of a 32-byte account identity: its first 20 bytes,
/// padded with 12 zero bytes.
pub open spec fn padded_account(a: Seq<u8>) -> Seq<u8> {
    a.take(20) + Seq::new(12, |i: int| 0u8)
}

/// The 16 big-endian bytes of a 128-bit amount.
pub open spec fn be_bytes_u128(x: u128) -> Seq<u8> {
    Seq::new(16, |i: int| (x >> ((8 * (15 - i)) as u128)) as u8)
}

/// Truncates an account identity to 20 bytes and pads it back to 32.
pub fn truncate_and_pad(a: &[u8; 32]) -> (r: Vec<u8>)
    ensures
        r@ == padded_account(a@),
{
    let mut out: Vec<u8> = Vec::new();
    let mut i: usize = 0;
    while i < 20
        invariant
            i <= 20,
            out@.len() == i,
            forall|j: int| 0 <= j < i ==> out@[j] == a@[j],
        decreases 20 - i,
    {
        out.push(a[i]);
        i += 1;
    }
    let mut k: usize = 0;
    while k < 12
        invariant
            k <= 12,
            out@.len() == 20 + k,
            forall|j: int| 0 <= j < 20 ==> out@[j] == a@[j],
            forall|j: int| 20 <= j < 20 + k ==> out@[j] == 0u8,
        decreases 12 - k,
    {
        out.push(0u8);
        k += 1;
    }
    proof {
        assert(out@ =~= padded_account(a@));
    }
    out
}

/// Writes a 128-bit amount as its 16 big-endian bytes.
pub fn u128_to_be_bytes(x: u128) -> (r: Vec<u8>)
    ensures
        r@ == be_bytes_u128(x),
{
    let mut out: Vec<u8> = Vec::new();
    let mut i: usize = 0;
    while i < 16
        invariant
            i <= 16,
            out@.len() == i,
            forall|j: int| 0 <= j < i ==> out@[j] == (x >> ((8 * (15 - j)) as u128)) as u8,
        decreases 16 - i,
    {
        let shift: u32 = 8 * (15 - i as u32);
        let b: u8 = (x >> shift) as u8;
        out.push(b);
        i += 1;
    }
    proof {
        assert(out@ =~= be_bytes_u128(x));
    }
    out
}

} // verus!
