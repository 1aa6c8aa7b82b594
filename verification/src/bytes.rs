//! Fixed-width little-endian byte encodings.
//!
//! Pair identities and pool accounts are derived by hashing an encoded
//! tuple; the encoding concatenates each component in little-endian form
//! at a fixed width, which makes it injective over the tuple.

use vstd::prelude::*;

verus! {

/// The little-endian encoding of `x`, exactly `n` bytes wide.
pub open spec fn le_bytes_of(x: int, n: nat) -> Seq<u8>
    decreases n,
{
    if n == 0 {
        Seq::empty()
    } else {
        seq![(x % 256) as u8] + le_bytes_of(x / 256, (n - 1) as nat)
    }
}

/// The integer read from a little-endian byte sequence.
pub open spec fn le_to_int(s: Seq<u8>) -> int
    decreases s.len(),
{
    if s.len() == 0 {
        0
    } else {
        s[0] + 256 * le_to_int(s.drop_first())
    }
}

/// 256 to the power `n`.
pub open spec fn pow256(n: nat) -> int
    decreases n,
{
    if n == 0 {
        1
    } else {
        256 * pow256((n - 1) as nat)
    }
}

pub proof fn lemma_le_to_int_bounds(s: Seq<u8>)
    ensures
        0 <= le_to_int(s) < pow256(s.len()),
    decreases s.len(),
{
    if s.len() == 0 {
    } else {
        lemma_le_to_int_bounds(s.drop_first());
    }
}

pub proof fn lemma_pow256_increases(a: nat, b: nat)
    requires
        a <= b,
    ensures
        pow256(a) <= pow256(b),
    decreases b,
{
    if a < b {
        lemma_pow256_increases(a, (b - 1) as nat);
        assert(pow256(b) == 256 * pow256((b - 1) as nat));
        assert(pow256(a) >= 1) by {
            lemma_pow256_positive(a);
        }
    }
}

pub proof fn lemma_pow256_positive(n: nat)
    ensures
        pow256(n) >= 1,
    decreases n,
{
    if n > 0 {
        lemma_pow256_positive((n - 1) as nat);
    }
}

/// `pow256(16)` is one past the largest `u128`, and `pow256(8)` one past
/// the largest `u64`.
pub proof fn lemma_pow256_values()
    ensures
        pow256(8) == 0x1_0000_0000_0000_0000,
        pow256(16) == 0x1_0000_0000_0000_0000_0000_0000_0000_0000,
{
    assert(pow256(0) == 1);
    assert(pow256(1) == 256);
    assert(pow256(2) == 0x1_0000);
    assert(pow256(3) == 0x100_0000);
    assert(pow256(4) == 0x1_0000_0000);
    assert(pow256(5) == 0x100_0000_0000);
    assert(pow256(6) == 0x1_0000_0000_0000);
    assert(pow256(7) == 0x100_0000_0000_0000);
    assert(pow256(8) == 0x1_0000_0000_0000_0000);
    assert(pow256(9) == 0x100_0000_0000_0000_0000);
    assert(pow256(10) == 0x1_0000_0000_0000_0000_0000);
    assert(pow256(11) == 0x100_0000_0000_0000_0000_0000);
    assert(pow256(12) == 0x1_0000_0000_0000_0000_0000_0000);
    assert(pow256(13) == 0x100_0000_0000_0000_0000_0000_0000);
    assert(pow256(14) == 0x1_0000_0000_0000_0000_0000_0000_0000);
    assert(pow256(15) == 0x100_0000_0000_0000_0000_0000_0000_0000);
    assert(pow256(16) == 0x1_0000_0000_0000_0000_0000_0000_0000_0000);
}

/// Appends the `width`-byte little-endian encoding of `x` to `out`.
pub fn append_le_bytes(out: &mut Vec<u8>, x: u128, width: usize)
    ensures
        final(out)@ == old(out)@ + le_bytes_of(x as int, width as nat),
{
    let mut cur: u128 = x;
    let mut i: usize = 0;
    while i < width
        invariant
            i <= width,
            out@ + le_bytes_of(cur as int, (width - i) as nat) == old(out)@ + le_bytes_of(
                x as int,
                width as nat,
            ),
        decreases width - i,
    {
        let byte: u8 = (cur % 256) as u8;
        proof {
            assert(le_bytes_of(cur as int, (width - i) as nat) == seq![byte] + le_bytes_of(
                cur as int / 256,
                (width - i - 1) as nat,
            ));
            assert(out@.push(byte) + le_bytes_of(cur as int / 256, (width - i - 1) as nat) =~= out@
                + le_bytes_of(cur as int, (width - i) as nat));
        }
        out.push(byte);
        cur = cur / 256;
        i = i + 1;
    }
    proof {
        assert(out@ + le_bytes_of(cur as int, 0) =~= out@);
    }
}

/// Reads `len` little-endian bytes of `s` starting at `start` as an
/// unsigned integer.
pub fn read_le_u128(s: &Vec<u8>, start: usize, len: usize) -> (r: u128)
    requires
        start + len <= s@.len(),
        len <= 16,
    ensures
        r == le_to_int(s@.subrange(start as int, start + len)),
{
    let slen: usize = s.len();
    let mut acc: u128 = 0;
    let mut i: usize = len;
    while i > 0
        invariant
            i <= len,
            len <= 16,
            start + len <= slen,
            slen == s@.len(),
            acc == le_to_int(s@.subrange(start + i, start + len)),
            acc < pow256((len - i) as nat),
        decreases i,
    {
        let b: u8 = s[start + i - 1];
        proof {
            let tail = s@.subrange(start + i, start + len);
            let whole = s@.subrange(start + i - 1, start + len);
            assert(whole.drop_first() =~= tail);
            assert(whole[0] == b);
            assert(le_to_int(whole) == b + 256 * acc);
            lemma_pow256_increases((len - i + 1) as nat, 16);
            lemma_pow256_values();
            assert(256 * acc + b < 256 * pow256((len - i) as nat));
            assert(pow256((len - i + 1) as nat) == 256 * pow256((len - i) as nat));
        }
        acc = acc * 256 + (b as u128);
        i = i - 1;
    }
    proof {
        assert(s@.subrange(start as int, start + len) == s@.subrange(start + 0, start + len));
    }
    acc
}

} // verus!
