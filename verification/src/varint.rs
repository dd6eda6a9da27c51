//! QUIC variable-length integers (RFC 9000, section 16).
use vstd::prelude::*;
use vstd::slice::slice_subrange;

use crate::octets::{push_be, read_be};

verus! {

/// Why a variable-length integer was refused.
#[derive(Debug, Clone, Copy, PartialEq, Eq)]
pub enum VarintError {
    /// The value needs more than 62 bits.
    TooLarge { value: u64 },
    Empty,
    /// The first byte announces this many bytes, and fewer are there.
    Truncated { width: usize },
}

/// Bytes in the shortest encoding of `value`.
pub open spec fn encoded_width(value: nat) -> nat {
    if value < 64 {
        1
    } else if value < 16_384 {
        2
    } else if value < 1_073_741_824 {
        4
    } else {
        8
    }
}

/// Largest number of values that `width` bytes hold beside the two length bits.
pub open spec fn width_limit(width: nat) -> nat {
    if width == 1 {
        64
    } else if width == 2 {
        16_384
    } else if width == 4 {
        1_073_741_824
    } else {
        0x4000_0000_0000_0000
    }
}

/// The two high bits that announce `width` bytes.
pub open spec fn width_tag(width: nat) -> nat {
    if width == 1 {
        0
    } else if width == 2 {
        1
    } else if width == 4 {
        2
    } else {
        3
    }
}

/// The width that the first byte of an encoding announces.
pub open spec fn announced_width(first: u8) -> nat {
    if first < 64 {
        1
    } else if first < 128 {
        2
    } else if first < 192 {
        4
    } else {
        8
    }
}

/// The shortest encoding of `value`: the number in big-endian order with its
/// width in the two high bits.
pub open spec fn encoding(value: nat) -> Seq<u8> {
    let w = encoded_width(value);
    crate::octets::be_bytes(value + width_tag(w) * width_limit(w), w)
}

/// What `buf` starts with: a value and the bytes it takes, or why there is none.
pub open spec fn decoding(buf: Seq<u8>) -> Result<(u64, usize), VarintError> {
    if buf.len() == 0 {
        Err(VarintError::Empty)
    } else {
        let w = announced_width(buf[0]);
        if buf.len() < w {
            Err(VarintError::Truncated { width: w as usize })
        } else {
            Ok(((crate::octets::be(buf.take(w as int)) % width_limit(w)) as u64, w as usize))
        }
    }
}

/// Encode a QUIC variable-length integer after the bytes of `out`.
pub fn encode_varint(out: Vec<u8>, value: u64) -> (res: Result<Vec<u8>, VarintError>)
    ensures
        value < 0x4000_0000_0000_0000 ==> res is Ok && res->Ok_0@ == out@ + encoding(value as nat),
        value >= 0x4000_0000_0000_0000 ==> res == Err::<Vec<u8>, VarintError>(
            VarintError::TooLarge { value },
        ),
{
    let mut out = out;
    if value < 64 {
        push_be(&mut out, value, 1);
    } else if value < 16_384 {
        push_be(&mut out, value + 0x4000, 2);
    } else if value < 1_073_741_824 {
        push_be(&mut out, value + 0x8000_0000, 4);
    } else if value < 0x4000_0000_0000_0000 {
        push_be(&mut out, value + 0xC000_0000_0000_0000, 8);
    } else {
        return Err(VarintError::TooLarge { value });
    }
    Ok(out)
}

/// Decode a QUIC variable-length integer: its value and the bytes it takes.
pub fn decode_varint(buf: &[u8]) -> (res: Result<(u64, usize), VarintError>)
    ensures
        res == decoding(buf@),
        res matches Ok((value, n)) ==> value < 0x4000_0000_0000_0000 && 1 <= n <= 8 && n
            <= buf@.len(),
{
    if buf.len() == 0 {
        return Err(VarintError::Empty);
    }
    let first: u8 = buf[0];
    let (width, limit): (usize, u64) = if first < 64 {
        (1, 64)
    } else if first < 128 {
        (2, 16_384)
    } else if first < 192 {
        (4, 1_073_741_824)
    } else {
        (8, 0x4000_0000_0000_0000)
    };
    if buf.len() < width {
        return Err(VarintError::Truncated { width });
    }
    let n: u64 = read_be(slice_subrange(buf, 0, width));
    assert(buf@.subrange(0, width as int) =~= buf@.take(width as int));
    Ok((n % limit, width))
}

/// The first byte of a big-endian number holds its high bits.
proof fn lemma_first_byte(n: nat, width: nat)
    requires
        width >= 1,
        n < crate::octets::pow256(width),
    ensures
        crate::octets::be_bytes(n, width)[0] == n / crate::octets::pow256((width - 1) as nat),
    decreases width,
{
    let w = (width - 1) as nat;
    if w > 0 {
        let p = crate::octets::pow256((w - 1) as nat);
        assert(n / 256 < crate::octets::pow256(w));
        lemma_first_byte(n / 256, w);
        crate::octets::lemma_be_bytes_len(n / 256, w);
        crate::octets::lemma_pow256_positive((w - 1) as nat);
        vstd::arithmetic::div_mod::lemma_div_denominator(n as int, 256, p as int);
        assert(crate::octets::be_bytes(n, width)[0] == crate::octets::be_bytes(n / 256, w)[0]);
    } else {
        assert(crate::octets::pow256(1) == 256) by {
            crate::octets::lemma_pow256_small();
        }
        crate::octets::lemma_be_bytes_len(n / 256, 0);
        assert(n % 256 == n);
        assert(crate::octets::pow256(0) == 1);
        assert(n / 1 == n);
        assert(crate::octets::be_bytes(n, 1)[0] == (n % 256) as u8);
    }
}

/// Decoding gives back every value that can be encoded, and takes exactly the
/// bytes of its encoding, whatever follows them.
pub proof fn law_varint_roundtrip(value: u64, rest: Seq<u8>)
    requires
        value < 0x4000_0000_0000_0000,
    ensures
        decoding(encoding(value as nat) + rest) == Ok::<(u64, usize), VarintError>(
            (value, encoding(value as nat).len() as usize),
        ),
        encoding(value as nat).len() == encoded_width(value as nat),
{
    let w = encoded_width(value as nat);
    let n = value as nat + width_tag(w) * width_limit(w);
    crate::octets::lemma_pow256_small();
    crate::octets::lemma_be_bytes_len(n, w);
    lemma_first_byte(n, w);
    let enc = encoding(value as nat);
    let buf = enc + rest;
    assert(buf[0] == enc[0]);
    assert(announced_width(buf[0]) == w) by {
        if w == 1 {
            assert(n / 1 == n);
        } else if w == 2 {
            assert(64 <= n / 0x100 < 128);
        } else if w == 4 {
            assert(128 <= n / 0x100_0000 < 192);
        } else {
            assert(192 <= n / 0x100_0000_0000_0000 < 256);
        }
    }
    assert(buf.take(w as int) =~= enc);
    crate::octets::law_be_of_be_bytes(n, w);
}

/// The shortest encoding, byte by byte: the two high bits of the first byte say
/// how many bytes there are.
pub proof fn law_varint_bytes(a: u8, b: u8, c: u8, d: u8)
    ensures
        a < 64 ==> encoding(a as nat) == seq![a],
        64 <= a < 128 && (a > 64 || b >= 64) ==> encoding((256 * (a - 64) + b) as nat) == seq![
            a,
            b,
        ],
        128 <= a < 192 && (a > 128 || b > 0 || c >= 64) ==> encoding(
            (16777216 * (a - 128) + 65536 * b + 256 * c + d) as nat,
        ) == seq![a, b, c, d],
{
    crate::octets::law_short_numbers_are_written(a, b, c, d);
    if a < 64 {
        reveal_with_fuel(crate::octets::be_bytes, 2);
        assert(encoding(a as nat) =~= seq![a]);
    } else if a < 128 {
        let n = (256 * (a - 64) + b) as nat;
        if a > 64 || b >= 64 {
            assert(encoded_width(n) == 2);
            assert(n + 1 * width_limit(2) == 256 * a + b);
        }
    } else if a < 192 {
        let n = (16777216 * (a - 128) + 65536 * b + 256 * c + d) as nat;
        if a > 128 || b > 0 || c >= 64 {
            assert(encoded_width(n) == 4);
            assert(n + 2 * width_limit(4) == 16777216 * a + 65536 * b + 256 * c + d);
        }
    }
}

/// Numbers from 2^30 on take eight bytes: the number in big-endian order, with both
/// high bits set.
pub proof fn law_long_varints(value: u64, first: u8, rest: Seq<u8>, more: Seq<u8>)
    requires
        rest.len() == 7,
        first >= 192,
    ensures
        0x4000_0000 <= value < 0x4000_0000_0000_0000 ==> encoding(value as nat)
            == crate::octets::be_bytes(value as nat + 0xC000_0000_0000_0000, 8),
        decoding(seq![first] + rest + more) == Ok::<(u64, usize), VarintError>(
            (
                ((first - 192) * 0x100_0000_0000_0000 + crate::octets::be(rest)) as u64,
                8,
            ),
        ),
{
    crate::octets::lemma_pow256_small();
    assert(3 * width_limit(8) == 0xC000_0000_0000_0000);
    let all = seq![first] + rest + more;
    assert(all.take(8) =~= seq![first] + rest);
    assert(all[0] == first);
    crate::octets::law_first_byte_weighs_most(first, rest);
    crate::octets::lemma_be_bound(rest);
    let m = (first - 192) * 0x100_0000_0000_0000 + crate::octets::be(rest);
    assert(crate::octets::be(all.take(8)) == m + 0xC000_0000_0000_0000);
    assert(0 <= m < 0x4000_0000_0000_0000);
    assert((m + 0xC000_0000_0000_0000) % 0x4000_0000_0000_0000 == m);
}

/// Decoding, byte by byte, also of an encoding that is longer than it needs to
/// be; what is missing is said.
pub proof fn law_varint_is_read(a: u8, b: u8, c: u8, d: u8, rest: Seq<u8>)
    ensures
        a < 64 ==> decoding(seq![a] + rest) == Ok::<(u64, usize), VarintError>((a as u64, 1)),
        64 <= a < 128 ==> decoding(seq![a, b] + rest) == Ok::<(u64, usize), VarintError>(
            ((256 * (a - 64) + b) as u64, 2),
        ),
        64 <= a < 128 ==> decoding(seq![a]) == Err::<(u64, usize), VarintError>(
            VarintError::Truncated { width: 2 },
        ),
        128 <= a < 192 ==> decoding(seq![a, b, c, d] + rest) == Ok::<(u64, usize), VarintError>(
            ((16777216 * (a - 128) + 65536 * b + 256 * c + d) as u64, 4),
        ),
        128 <= a < 192 ==> decoding(seq![a, b, c]) == Err::<(u64, usize), VarintError>(
            VarintError::Truncated { width: 4 },
        ),
        a >= 192 ==> decoding(seq![a, b, c, d]) == Err::<(u64, usize), VarintError>(
            VarintError::Truncated { width: 8 },
        ),
        decoding(Seq::empty()) == Err::<(u64, usize), VarintError>(VarintError::Empty),
{
    let one = seq![a] + rest;
    let two = seq![a, b] + rest;
    let four = seq![a, b, c, d] + rest;
    assert(one[0] == a && two[0] == a && four[0] == a);
    assert(one.take(1) =~= seq![a]);
    assert(two.take(2) =~= seq![a, b]);
    assert(four.take(4) =~= seq![a, b, c, d]);
    crate::octets::law_short_numbers_are_read(a, b, c, d);
    if a < 64 {
        crate::octets::lemma_pow256_small();
        crate::octets::law_first_byte_weighs_most(a, Seq::empty());
        assert(seq![a] + Seq::<u8>::empty() =~= seq![a]);
        assert(crate::octets::be(seq![a]) == a);
        assert(announced_width(a) == 1);
        assert(a as nat % 64 == a);
    }
    if 64 <= a < 128 {
        assert((256 * a + b) % 16384 == 256 * (a - 64) + b);
    }
    if 128 <= a < 192 {
        assert((16777216 * a + 65536 * b + 256 * c + d) % 1073741824 == 16777216 * (a - 128) + 65536
            * b + 256 * c + d);
    }
}

} // verus!
