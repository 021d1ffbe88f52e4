//! Variable-length integers.
//!
//! A varint occupies one to nine bytes. Each of the first eight bytes gives
//! seven bits of the value, most significant first, and its high bit tells
//! whether another byte follows. A ninth byte, when present, gives eight bits.

use crate::error::DecodeError;
use vstd::prelude::*;

verus! {

/// Whether `bytes` has a byte at index `i` whose high bit is set.
pub open spec fn continues_at(bytes: Seq<u8>, i: int) -> bool {
    0 <= i < bytes.len() && bytes[i] >= 0x80
}

/// The number of bytes that the varint at the start of `bytes` occupies.
///
/// Where the window ends before the varint does, this is one more than the
/// window's length.
pub open spec fn varint_len(bytes: Seq<u8>) -> nat {
    if !continues_at(bytes, 0) {
        1
    } else if !continues_at(bytes, 1) {
        2
    } else if !continues_at(bytes, 2) {
        3
    } else if !continues_at(bytes, 3) {
        4
    } else if !continues_at(bytes, 4) {
        5
    } else if !continues_at(bytes, 5) {
        6
    } else if !continues_at(bytes, 6) {
        7
    } else if !continues_at(bytes, 7) {
        8
    } else {
        9
    }
}

/// Whether the whole varint at the start of `bytes` lies inside `bytes`.
pub open spec fn varint_complete(bytes: Seq<u8>) -> bool {
    varint_len(bytes) <= bytes.len()
}

/// The number written by the low seven bits of each of the first `n` bytes,
/// most significant first.
pub open spec fn base128(bytes: Seq<u8>, n: nat) -> nat
    decreases n,
{
    if n == 0 {
        0
    } else {
        base128(bytes, (n - 1) as nat) * 128 + (bytes[n - 1] as nat) % 128
    }
}

/// The value of the varint at the start of `bytes`.
pub open spec fn varint_value(bytes: Seq<u8>) -> nat {
    let n = varint_len(bytes);
    if n <= 8 {
        base128(bytes, n)
    } else {
        base128(bytes, 8) * 256 + bytes[8] as nat
    }
}

/// `128` to the power `n`.
pub open spec fn pow128(n: nat) -> nat
    decreases n,
{
    if n == 0 {
        1
    } else {
        128 * pow128((n - 1) as nat)
    }
}

/// The powers of 128 up to the eighth.
pub proof fn lemma_pow128_values()
    ensures
        pow128(0) == 1,
        pow128(1) == 0x80,
        pow128(2) == 0x4000,
        pow128(3) == 0x20_0000,
        pow128(4) == 0x1000_0000,
        pow128(5) == 0x8_0000_0000,
        pow128(6) == 0x400_0000_0000,
        pow128(7) == 0x2_0000_0000_0000,
        pow128(8) == 0x100_0000_0000_0000,
{
    reveal_with_fuel(pow128, 9);
}

/// The number of bytes in the shortest varint that holds `v`.
pub open spec fn encoded_len(v: u64) -> nat {
    if v < 0x80 {
        1
    } else if v < 0x4000 {
        2
    } else if v < 0x20_0000 {
        3
    } else if v < 0x1000_0000 {
        4
    } else if v < 0x8_0000_0000 {
        5
    } else if v < 0x400_0000_0000 {
        6
    } else if v < 0x2_0000_0000_0000 {
        7
    } else if v < 0x100_0000_0000_0000 {
        8
    } else {
        9
    }
}

/// The `n` lowest base-128 digits of `x`, most significant first, each with
/// the high bit set to announce a following byte.
pub open spec fn continued_digits(x: nat, n: nat) -> Seq<u8>
    decreases n,
{
    if n == 0 {
        Seq::empty()
    } else {
        continued_digits(x / 128, (n - 1) as nat).push((128 + x % 128) as u8)
    }
}

/// The shortest varint that holds `v`.
///
/// Values below `128` to the eighth take seven bits per byte. Larger values
/// take nine bytes, of which the last holds the low eight bits in full.
pub open spec fn varint_encoding(v: u64) -> Seq<u8> {
    let n = encoded_len(v);
    if n <= 8 {
        continued_digits(v as nat / 128, (n - 1) as nat).push((v % 128) as u8)
    } else {
        continued_digits(v as nat / 256, 8).push((v % 256) as u8)
    }
}

/// `continued_digits(x, n)` has `n` bytes, each with its high bit set.
pub proof fn lemma_continued_digits_shape(x: nat, n: nat)
    ensures
        continued_digits(x, n).len() == n,
        forall|i: int| 0 <= i < n ==> #[trigger] continued_digits(x, n)[i] >= 0x80,
    decreases n,
{
    if n > 0 {
        lemma_continued_digits_shape(x / 128, (n - 1) as nat);
    }
}

/// Reading back `n` continued digits of a number below `128` to the `n`
/// gives that number, whatever bytes follow.
pub proof fn lemma_base128_of_continued_digits(x: nat, n: nat, bytes: Seq<u8>)
    requires
        x < pow128(n),
        bytes.len() >= n,
        forall|i: int| 0 <= i < n ==> bytes[i] == continued_digits(x, n)[i],
    ensures
        base128(bytes, n) == x,
    decreases n,
{
    if n > 0 {
        let m = (n - 1) as nat;
        lemma_continued_digits_shape(x / 128, m);
        assert forall|i: int| 0 <= i < m implies bytes[i] == continued_digits(x / 128, m)[i] by {
            assert(bytes[i] == continued_digits(x, n)[i]);
        }
        lemma_base128_of_continued_digits(x / 128, m, bytes);
        assert(bytes[n - 1] == continued_digits(x, n)[n - 1]);
        assert(bytes[n - 1] == (128 + x % 128) as u8);
    }
}

/// Decoding undoes encoding: the shortest varint of `v`, followed by any
/// bytes, decodes to `v` and to the number of bytes of that varint.
pub proof fn lemma_varint_round_trip(v: u64, rest: Seq<u8>)
    ensures
        varint_encoding(v).len() == encoded_len(v),
        1 <= encoded_len(v) <= 9,
        varint_complete(varint_encoding(v) + rest),
        varint_len(varint_encoding(v) + rest) == encoded_len(v),
        varint_value(varint_encoding(v) + rest) == v,
{
    let n = encoded_len(v);
    let enc = varint_encoding(v);
    let bytes = enc + rest;
    lemma_pow128_values();
    if n <= 8 {
        let m = (n - 1) as nat;
        let x = v as nat / 128;
        lemma_continued_digits_shape(x, m);
        assert(enc.len() == n);
        assert forall|i: int| 0 <= i < m implies bytes[i] == continued_digits(x, m)[i]
            && bytes[i] >= 0x80 by {
            assert(bytes[i] == enc[i]);
        }
        assert(bytes[m as int] == enc[m as int]);
        assert(bytes[m as int] == (v % 128) as u8);
        assert(!continues_at(bytes, m as int));
        assert forall|i: int| 0 <= i < m implies continues_at(bytes, i) by {
            assert(bytes[i] >= 0x80);
        }
        assert(varint_len(bytes) == n);
        assert(x < pow128(m)) by {
            reveal_with_fuel(pow128, 9);
        }
        lemma_base128_of_continued_digits(x, m, bytes);
        assert(base128(bytes, n) == base128(bytes, m) * 128 + (bytes[n - 1] as nat) % 128);
    } else {
        let x = v as nat / 256;
        lemma_continued_digits_shape(x, 8);
        assert(enc.len() == 9);
        assert forall|i: int| 0 <= i < 8 implies bytes[i] == continued_digits(x, 8)[i]
            && bytes[i] >= 0x80 by {
            assert(bytes[i] == enc[i]);
        }
        assert forall|i: int| 0 <= i < 8 implies continues_at(bytes, i) by {
            assert(bytes[i] >= 0x80);
        }
        assert(varint_len(bytes) == 9);
        assert(bytes[8] == enc[8]);
        assert(bytes[8] == (v % 256) as u8);
        lemma_base128_of_continued_digits(x, 8, bytes);
    }
}

/// Decodes the varint at the start of `bytes`.
///
/// Returns the value and the number of bytes it occupies, from one to nine.
/// Bytes after the varint are not looked at. Fails when `bytes` ends before
/// the varint does; a window of nine bytes never does.
pub fn handle_varint(bytes: &[u8]) -> (r: Result<(u64, usize), DecodeError>)
    ensures
        r is Ok <==> varint_complete(bytes@),
        r matches Ok((value, len)) ==> value == varint_value(bytes@) && len == varint_len(bytes@)
            && 1 <= len <= 9,
        r matches Err(e) ==> e == DecodeError::TruncatedVarint,
{
    if bytes.len() == 0 {
        return Err(DecodeError::TruncatedVarint);
    }
    let mut i: usize = 1;
    let mut val: u64 = (bytes[0] & 0x7f) as u64;
    proof {
        let b = bytes[0];
        assert((b & 0x7f) as u64 == b % 128) by (bit_vector);
        reveal_with_fuel(base128, 2);
        lemma_pow128_values();
    }
    while bytes[i - 1] >= 0x80 && i < 8
        invariant
            1 <= i <= 8,
            i <= bytes.len(),
            forall|j: int| 0 <= j < i - 1 ==> bytes[j] >= 0x80,
            val == base128(bytes@, i as nat),
            val < pow128(i as nat),
        decreases 8 - i,
    {
        if i >= bytes.len() {
            return Err(DecodeError::TruncatedVarint);
        }
        let b = bytes[i];
        proof {
            lemma_pow128_values();
            assert(pow128(i as nat) <= 0x2_0000_0000_0000) by {
                reveal_with_fuel(pow128, 9);
            }
            assert((val << 7) | ((b & 0x7f) as u64) == val * 128 + b % 128) by (bit_vector)
                requires
                    val < 0x2_0000_0000_0000u64,
            ;
        }
        val = (val << 7) | ((b & 0x7f) as u64);
        i += 1;
    }
    if bytes[i - 1] >= 0x80 {
        if i >= bytes.len() {
            return Err(DecodeError::TruncatedVarint);
        }
        let b = bytes[i];
        proof {
            lemma_pow128_values();
            assert((val << 8) | (b as u64) == val * 256 + b) by (bit_vector)
                requires
                    val < 0x100_0000_0000_0000u64,
            ;
        }
        val = (val << 8) | (b as u64);
        i += 1;
    }
    Ok((val, i))
}

} // verus!
