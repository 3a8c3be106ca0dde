//! Byte transcripts that a Fiat-Shamir challenge is hashed from.
use vstd::prelude::*;

verus! {

/// Appends `bytes` to the transcript.
pub fn absorb(transcript: &mut Vec<u8>, bytes: &[u8])
    ensures
        final(transcript)@ == old(transcript)@ + bytes@,
{
    let mut i: usize = 0;
    while i < bytes.len()
        invariant
            i <= bytes@.len(),
            transcript@ == old(transcript)@ + bytes@.subrange(0, i as int),
        decreases bytes.len() - i,
    {
        transcript.push(bytes[i]);
        i = i + 1;
        assert(transcript@ =~= old(transcript)@ + bytes@.subrange(0, i as int));
    }
    assert(bytes@.subrange(0, bytes@.len() as int) =~= bytes@);
}

/// The `n` low bytes of `v`, least significant first.
pub open spec fn le_bytes(v: nat, n: nat) -> Seq<u8>
    decreases n,
{
    if n == 0 {
        Seq::empty()
    } else {
        seq![(v % 256) as u8] + le_bytes(v / 256, (n - 1) as nat)
    }
}

/// The 8-byte little-endian encoding of `v`.
pub fn u64_le_bytes(v: u64) -> (r: Vec<u8>)
    ensures
        r@ == le_bytes(v as nat, 8),
        r@.len() == 8,
{
    let mut out: Vec<u8> = Vec::new();
    let mut rest: u64 = v;
    let mut i: usize = 0;
    while i < 8
        invariant
            i <= 8,
            out@ + le_bytes(rest as nat, (8 - i) as nat) == le_bytes(v as nat, 8),
            out@.len() == i,
        decreases 8 - i,
    {
        proof {
            assert(le_bytes(rest as nat, (8 - i) as nat) == seq![(rest as nat % 256) as u8]
                + le_bytes(rest as nat / 256, (8 - i - 1) as nat));
        }
        let b = (rest % 256) as u8;
        let ghost before = out@;
        out.push(b);
        rest = rest / 256;
        i = i + 1;
        assert(out@ + le_bytes(rest as nat, (8 - i) as nat) =~= before + (seq![b] + le_bytes(rest as nat, (8 - i) as nat)));
    }
    assert(le_bytes(rest as nat, 0) =~= Seq::<u8>::empty());
    assert(out@ + Seq::<u8>::empty() =~= out@);
    out
}

/// Copies `N` bytes of `b` from `start` into an array.
pub fn copy_array<const N: usize>(b: &[u8], start: usize) -> (r: [u8; N])
    requires
        start + N <= b@.len(),
    ensures
        r@ == b@.subrange(start as int, start + N),
{
    let mut a: [u8; N] = [0u8; N];
    let len = b.len();
    let mut i: usize = 0;
    while i < N
        invariant
            len == b@.len(),
            start + N <= b@.len(),
            i <= N,
            a@.len() == N,
            forall|k: int| 0 <= k < i ==> a@[k] == b@[start + k],
        decreases N - i,
    {
        a[i] = b[start + i];
        i = i + 1;
    }
    assert(a@ =~= b@.subrange(start as int, start + N));
    a
}

} // verus!
