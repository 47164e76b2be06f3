//! Byte strings and sequences: little-endian encodings, slices, concatenation.

use vstd::prelude::*;

verus! {

/// The two bytes of `x`, least significant first.
pub open spec fn u16_le(x: u16) -> Seq<u8> {
    seq![(x % 0x100) as u8, (x / 0x100) as u8]
}

/// The eight bytes of `x`, least significant first.
pub open spec fn u64_le(x: u64) -> Seq<u8> {
    seq![
        (x % 0x100) as u8,
        (x / 0x100 % 0x100) as u8,
        (x / 0x1_0000 % 0x100) as u8,
        (x / 0x100_0000 % 0x100) as u8,
        (x / 0x1_0000_0000 % 0x100) as u8,
        (x / 0x100_0000_0000 % 0x100) as u8,
        (x / 0x1_0000_0000_0000 % 0x100) as u8,
        (x / 0x100_0000_0000_0000 % 0x100) as u8,
    ]
}

/// Appends `tail` to `out`.
pub(crate) fn append(out: &mut Vec<u8>, tail: &[u8])
    ensures
        final(out)@ == old(out)@ + tail@,
{
    out.extend_from_slice(tail);
    assert(out@ =~= old(out)@ + tail@);
}

/// The `N` bytes of `s` that start at `at`.
pub(crate) fn array_at<const N: usize>(s: &[u8], at: usize) -> (r: [u8; N])
    requires
        at + N <= s@.len(),
    ensures
        r@ == s@.subrange(at as int, at + N),
{
    let len: usize = s.len();
    let mut out: [u8; N] = [0u8; N];
    let mut i: usize = 0;
    while i < N
        invariant
            i <= N,
            len == s@.len(),
            at + N <= len,
            forall|j: int| 0 <= j < i ==> out@[j] == s@[at + j],
        decreases N - i,
    {
        out[i] = s[at + i];
        i = i + 1;
    }
    assert(out@ =~= s@.subrange(at as int, at + N));
    out
}

/// Whether two arrays hold the same bytes.
pub(crate) fn same_bytes<const N: usize>(a: &[u8; N], b: &[u8; N]) -> (r: bool)
    ensures
        r == (a@ == b@),
        r == (*a == *b),
{
    let mut i: usize = 0;
    while i < N
        invariant
            i <= N,
            forall|j: int| 0 <= j < i ==> a@[j] == b@[j],
        decreases N - i,
    {
        if a[i] != b[i] {
            return false;
        }
        i = i + 1;
    }
    assert(a@ =~= b@);
    assert(*a =~= *b);
    true
}

/// One more item of a sequence.
pub(crate) proof fn lemma_take_step<A>(s: Seq<A>, i: int)
    requires
        0 <= i < s.len(),
    ensures
        s.take(i + 1) == s.take(i).push(s[i]),
        forall|a: A| #[trigger] s.take(i + 1).contains(a) <==> s.take(i).contains(a) || a == s[i],
{
    assert(s.take(i + 1) =~= s.take(i).push(s[i]));
    assert forall|a: A| #[trigger] s.take(i + 1).contains(a) <==> s.take(i).contains(a) || a
        == s[i] by {
        assert(s.take(i + 1)[i] == s[i]);
        if s.take(i).contains(a) {
            let k = choose|k: int| 0 <= k < i && s.take(i)[k] == a;
            assert(s.take(i + 1)[k] == a);
        }
    }
}

/// Different numbers have different bytes.
pub(crate) proof fn lemma_u64_le_injective(a: u64, b: u64)
    requires
        u64_le(a) == u64_le(b),
    ensures
        a == b,
{
    let x = u64_le(a);
    let y = u64_le(b);
    assert(x[0] == y[0] && x[1] == y[1] && x[2] == y[2] && x[3] == y[3]);
    assert(x[4] == y[4] && x[5] == y[5] && x[6] == y[6] && x[7] == y[7]);
    assert(a == b) by (bit_vector)
        requires
            a % 0x100 == b % 0x100,
            a / 0x100 % 0x100 == b / 0x100 % 0x100,
            a / 0x1_0000 % 0x100 == b / 0x1_0000 % 0x100,
            a / 0x100_0000 % 0x100 == b / 0x100_0000 % 0x100,
            a / 0x1_0000_0000 % 0x100 == b / 0x1_0000_0000 % 0x100,
            a / 0x100_0000_0000 % 0x100 == b / 0x100_0000_0000 % 0x100,
            a / 0x1_0000_0000_0000 % 0x100 == b / 0x1_0000_0000_0000 % 0x100,
            a / 0x100_0000_0000_0000 % 0x100 == b / 0x100_0000_0000_0000 % 0x100,
    ;
}

} // verus!
