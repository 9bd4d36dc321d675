//! Numbers as they stand in memory, least significant byte first.
use vstd::prelude::*;

verus! {

/// The `n` least significant bytes of `x`, the least significant one first.
pub open spec fn le_bytes(x: nat, n: nat) -> Seq<u8>
    decreases n,
{
    if n == 0 {
        Seq::empty()
    } else {
        seq![(x % 256) as u8] + le_bytes(x / 256, (n - 1) as nat)
    }
}

/// The number that bytes hold, the first one being the least significant one.
pub open spec fn le_number(bytes: Seq<u8>) -> nat
    decreases bytes.len(),
{
    if bytes.len() == 0 {
        0
    } else {
        bytes[0] as nat + 256 * le_number(bytes.skip(1))
    }
}

/// The least number that does not fit into `n` bytes.
pub open spec fn byte_range(n: nat) -> nat
    decreases n,
{
    if n == 0 {
        1
    } else {
        256 * byte_range((n - 1) as nat)
    }
}

/// A number that fits into the bytes reads back as it was written.
pub proof fn le_roundtrip(x: nat, n: nat)
    requires
        x < byte_range(n),
    ensures
        le_bytes(x, n).len() == n,
        le_number(le_bytes(x, n)) == x,
    decreases n,
{
    if n > 0 {
        le_roundtrip(x / 256, (n - 1) as nat);
        assert(le_bytes(x, n).skip(1) =~= le_bytes(x / 256, (n - 1) as nat));
    }
}

/// A number is written in as many bytes as it is asked to be.
pub proof fn lemma_le_bytes_len(x: nat, n: nat)
    ensures
        le_bytes(x, n).len() == n,
    decreases n,
{
    if n > 0 {
        lemma_le_bytes_len(x / 256, (n - 1) as nat);
    }
}

/// Appends the `n` least significant bytes of `x`.
pub fn push_le_bytes(bytes: &mut Vec<u8>, x: u64, n: usize)
    ensures
        final(bytes)@ == old(bytes)@ + le_bytes(x as nat, n as nat),
{
    let mut rest: u64 = x;
    let mut i: usize = 0;
    assert(bytes@ + le_bytes(rest as nat, n as nat) =~= old(bytes)@ + le_bytes(
        x as nat,
        n as nat,
    ));
    while i < n
        invariant
            i <= n,
            bytes@ + le_bytes(rest as nat, (n - i) as nat) == old(bytes)@ + le_bytes(
                x as nat,
                n as nat,
            ),
        decreases n - i,
    {
        let ghost before = bytes@;
        bytes.push((rest % 256) as u8);
        assert(bytes@ + le_bytes(rest as nat / 256, (n - i - 1) as nat) =~= before + le_bytes(
            rest as nat,
            (n - i) as nat,
        ));
        rest = rest / 256;
        i = i + 1;
    }
    assert(bytes@ + le_bytes(rest as nat, 0) =~= bytes@);
}

} // verus!
