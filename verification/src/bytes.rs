//! Reading fixed-width big-endian numbers and byte windows.

use vstd::prelude::*;
use vstd::slice::slice_subrange;

verus! {

/// `256` to the power `n`.
pub open spec fn pow256(n: nat) -> nat
    decreases n,
{
    if n == 0 {
        1
    } else {
        256 * pow256((n - 1) as nat)
    }
}

/// The unsigned number that `bytes` write, most significant byte first.
pub open spec fn be_uint(bytes: Seq<u8>) -> nat
    decreases bytes.len(),
{
    if bytes.len() == 0 {
        0
    } else {
        be_uint(bytes.drop_last()) * 256 + bytes.last() as nat
    }
}

/// The signed number that `bytes` write in two's complement, most
/// significant byte first.
pub open spec fn be_int(bytes: Seq<u8>) -> int {
    if bytes.len() > 0 && bytes[0] >= 0x80 {
        be_uint(bytes) - pow256(bytes.len())
    } else {
        be_uint(bytes) as int
    }
}

/// The `n` bytes of `data` that start at `offset`, where the data reaches
/// that far. A window of no bytes is always there.
pub open spec fn bytes_at(data: Seq<u8>, offset: int, n: int) -> Option<Seq<u8>> {
    if n == 0 {
        Some(Seq::empty())
    } else if 0 <= offset && 0 < n && offset + n <= data.len() {
        Some(data.subrange(offset, offset + n))
    } else {
        None
    }
}

/// The powers of 256 up to the eighth.
pub proof fn lemma_pow256_values()
    ensures
        pow256(0) == 1,
        pow256(1) == 0x100,
        pow256(2) == 0x1_0000,
        pow256(3) == 0x100_0000,
        pow256(4) == 0x1_0000_0000,
        pow256(5) == 0x100_0000_0000,
        pow256(6) == 0x1_0000_0000_0000,
        pow256(7) == 0x100_0000_0000_0000,
        pow256(8) == 0x1_0000_0000_0000_0000,
{
    reveal_with_fuel(pow256, 9);
}

/// `n` bytes write an unsigned number below `256` to the `n`, and the first
/// byte's high bit tells in which half of that range it lies.
pub proof fn lemma_be_uint_bound(bytes: Seq<u8>)
    ensures
        be_uint(bytes) < pow256(bytes.len()),
        bytes.len() > 0 ==> (bytes[0] >= 0x80 <==> 2 * be_uint(bytes) >= pow256(bytes.len())),
    decreases bytes.len(),
{
    if bytes.len() > 0 {
        lemma_be_uint_bound(bytes.drop_last());
        if bytes.len() == 1 {
            reveal_with_fuel(be_uint, 2);
            reveal_with_fuel(pow256, 2);
        } else {
            assert(bytes.drop_last()[0] == bytes[0]);
        }
    }
}

/// A signed number of `n` bytes lies in the two's complement range of `n`
/// bytes.
pub proof fn lemma_be_int_bound(bytes: Seq<u8>)
    requires
        bytes.len() > 0,
    ensures
        -(pow256(bytes.len()) as int) <= 2 * be_int(bytes) < pow256(bytes.len()),
{
    lemma_be_uint_bound(bytes);
}

/// The bytes of `data` from `offset` on, `n` of them, or `None` where the
/// data ends before.
pub fn read_exact_at<'a>(data: &'a [u8], offset: u64, n: u64) -> (r: Option<&'a [u8]>)
    ensures
        r is Some <==> bytes_at(data@, offset as int, n as int) is Some,
        r matches Some(w) ==> bytes_at(data@, offset as int, n as int) == Some(w@) && w@.len()
            == n,
        r is Some && n > 0 ==> offset + n <= data@.len() <= usize::MAX,
{
    let len = data.len() as u64;
    if n == 0 {
        let w = slice_subrange(data, 0, 0);
        assert(w@ =~= Seq::<u8>::empty());
        Some(w)
    } else if offset <= len && n <= len - offset {
        Some(slice_subrange(data, offset as usize, (offset + n) as usize))
    } else {
        None
    }
}

/// The unsigned big-endian number written by up to eight bytes.
pub fn read_be_uint(bytes: &[u8]) -> (r: u64)
    requires
        bytes@.len() <= 8,
    ensures
        r == be_uint(bytes@),
{
    let mut val: u64 = 0;
    let mut i: usize = 0;
    proof {
        lemma_pow256_values();
        assert(bytes@.take(0) =~= Seq::<u8>::empty());
    }
    while i < bytes.len()
        invariant
            i <= bytes@.len() <= 8,
            val == be_uint(bytes@.take(i as int)),
            val < pow256(i as nat),
        decreases bytes@.len() - i,
    {
        proof {
            lemma_pow256_values();
            assert(pow256(i as nat) <= 0x100_0000_0000_0000) by {
                reveal_with_fuel(pow256, 9);
            }
            assert(bytes@.take(i + 1).drop_last() =~= bytes@.take(i as int));
            assert(bytes@.take(i + 1).last() == bytes@[i as int]);
        }
        val = val * 256 + bytes[i] as u64;
        i += 1;
    }
    proof {
        assert(bytes@.take(i as int) =~= bytes@);
    }
    val
}

/// The signed big-endian number written by one to eight bytes in two's
/// complement.
pub fn read_be_int(bytes: &[u8]) -> (r: i64)
    requires
        1 <= bytes@.len() <= 8,
    ensures
        r == be_int(bytes@),
{
    let u = read_be_uint(bytes);
    let n = bytes.len();
    proof {
        lemma_pow256_values();
        lemma_be_uint_bound(bytes@);
        assert(pow256(n as nat) <= 0x1_0000_0000_0000_0000) by {
            reveal_with_fuel(pow256, 9);
        }
    }
    if bytes[0] < 0x80 {
        u as i64
    } else if n == 8 {
        let low: u64 = u - 0x8000_0000_0000_0000;
        (low as i64) - 0x4000_0000_0000_0000 - 0x4000_0000_0000_0000
    } else {
        let span: u64 = if n == 1 {
            0x100
        } else if n == 2 {
            0x1_0000
        } else if n == 3 {
            0x100_0000
        } else if n == 4 {
            0x1_0000_0000
        } else if n == 5 {
            0x100_0000_0000
        } else if n == 6 {
            0x1_0000_0000_0000
        } else {
            0x100_0000_0000_0000
        };
        (u as i64) - (span as i64)
    }
}

} // verus!
