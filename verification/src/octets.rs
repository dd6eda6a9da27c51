//! Big-endian integers and byte-string searches.
use vstd::prelude::*;

verus! {

/// 256 to the power `n`.
pub open spec fn pow256(n: nat) -> nat
    decreases n,
{
    if n == 0 {
        1
    } else {
        256 * pow256((n - 1) as nat)
    }
}

/// The number that `s` writes in big-endian byte order.
pub open spec fn be(s: Seq<u8>) -> nat
    decreases s.len(),
{
    if s.len() == 0 {
        0
    } else {
        be(s.drop_last()) * 256 + s.last() as nat
    }
}

/// The low `width` bytes of `n` in big-endian order.
pub open spec fn be_bytes(n: nat, width: nat) -> Seq<u8>
    decreases width,
{
    if width == 0 {
        Seq::empty()
    } else {
        be_bytes(n / 256, (width - 1) as nat).push((n % 256) as u8)
    }
}

pub proof fn lemma_pow256_positive(n: nat)
    ensures
        pow256(n) > 0,
    decreases n,
{
    if n > 0 {
        lemma_pow256_positive((n - 1) as nat);
    }
}

pub proof fn lemma_be_bytes_len(n: nat, width: nat)
    ensures
        be_bytes(n, width).len() == width,
    decreases width,
{
    if width > 0 {
        lemma_be_bytes_len(n / 256, (width - 1) as nat);
    }
}

pub proof fn lemma_be_bound(s: Seq<u8>)
    ensures
        be(s) < pow256(s.len()),
    decreases s.len(),
{
    if s.len() > 0 {
        lemma_be_bound(s.drop_last());
    }
}

/// Reading back what was written: a number that fits in `width` bytes survives
/// the trip through its big-endian form.
pub proof fn law_be_of_be_bytes(n: nat, width: nat)
    requires
        n < pow256(width),
    ensures
        be(be_bytes(n, width)) == n,
    decreases width,
{
    if width > 0 {
        let w = (width - 1) as nat;
        assert(n / 256 < pow256(w));
        law_be_of_be_bytes(n / 256, w);
        assert(be_bytes(n, width).drop_last() =~= be_bytes(n / 256, w));
    }
}

/// Every byte string is the big-endian form of the number it writes.
pub proof fn law_be_bytes_of_be(s: Seq<u8>)
    ensures
        be_bytes(be(s), s.len()) == s,
    decreases s.len(),
{
    if s.len() > 0 {
        law_be_bytes_of_be(s.drop_last());
        assert(be(s) / 256 == be(s.drop_last()));
        assert(be(s) % 256 == s.last() as nat);
        assert(s.drop_last().push(s.last()) =~= s);
    } else {
        assert(be_bytes(be(s), 0) =~= s);
    }
}

pub proof fn lemma_pow256_small()
    ensures
        pow256(0) == 1,
        pow256(1) == 0x100,
        pow256(2) == 0x1_0000,
        pow256(3) == 0x100_0000,
        pow256(4) == 0x1_0000_0000,
        pow256(5) == 0x100_0000_0000,
        pow256(6) == 0x1_0000_0000_0000,
        pow256(7) == 0x100_0000_0000_0000,
        pow256(8) == 0x1_0000_0000_0000_0000,
{
    reveal_with_fuel(pow256, 9);
}

/// Append the low `width` bytes of `n`, most significant first.
pub fn push_be(out: &mut Vec<u8>, n: u64, width: usize)
    ensures
        final(out)@ == old(out)@ + be_bytes(n as nat, width as nat),
    decreases width,
{
    if width > 0 {
        push_be(out, n / 256, width - 1);
        out.push((n % 256) as u8);
    }
    assert(out@ =~= old(out)@ + be_bytes(n as nat, width as nat));
}

/// The number that at most eight bytes write in big-endian order.
pub fn read_be(buf: &[u8]) -> (n: u64)
    requires
        buf@.len() <= 8,
    ensures
        n == be(buf@),
{
    let mut n: u64 = 0;
    let mut i: usize = 0;
    while i < buf.len()
        invariant
            i <= buf@.len() <= 8,
            n == be(buf@.take(i as int)),
        decreases buf@.len() - i,
    {
        proof {
            lemma_pow256_small();
            lemma_be_bound(buf@.take(i as int));
            lemma_be_bound(buf@.take(i + 1));
            assert(buf@.take(i + 1).drop_last() =~= buf@.take(i as int));
        }
        n = n * 256 + buf[i] as u64;
        i = i + 1;
    }
    assert(buf@.take(i as int) =~= buf@);
    n
}

/// A copy of the bytes.
pub fn to_bytes(s: &[u8]) -> (out: Vec<u8>)
    ensures
        out@ == s@,
{
    let mut out: Vec<u8> = Vec::new();
    out.extend_from_slice(s);
    assert(out@ =~= s@);
    out
}

/// The first byte of a big-endian number weighs most: a byte in front adds its
/// value times 256 for each byte behind it.
pub proof fn law_first_byte_weighs_most(first: u8, rest: Seq<u8>)
    ensures
        be(seq![first] + rest) == first as nat * pow256(rest.len()) + be(rest),
        be(Seq::empty()) == 0,
    decreases rest.len(),
{
    let all = seq![first] + rest;
    if rest.len() == 0 {
        assert(all.drop_last() =~= Seq::empty());
        reveal_with_fuel(be, 2);
        assert(all.last() == first);
        assert(first as nat * 1 == first as nat);
    } else {
        let init = rest.drop_last();
        law_first_byte_weighs_most(first, init);
        assert(all.drop_last() =~= seq![first] + init);
        assert(all.last() == rest.last());
        let w = pow256(init.len());
        assert(pow256(rest.len()) == 256 * w);
        assert((first as nat * w) * 256 == first as nat * (256 * w)) by (nonlinear_arith);
        assert((first as nat * w + be(init)) * 256 == (first as nat * w) * 256 + be(init) * 256)
            by (nonlinear_arith);
    }
}

/// What two and four bytes are read as.
pub proof fn law_short_numbers_are_read(a: u8, b: u8, c: u8, d: u8)
    ensures
        be(seq![a]) == a,
        be(seq![a, b]) == 256 * a + b,
        be(seq![a, b, c, d]) == 16777216 * a + 65536 * b + 256 * c + d,
{
    let one = seq![a];
    let two = seq![a, b];
    let three = seq![a, b, c];
    let four = seq![a, b, c, d];
    assert(one.drop_last() =~= Seq::empty());
    assert(be(one.drop_last()) == 0);
    assert(two.drop_last() =~= one);
    assert(three.drop_last() =~= two);
    assert(four.drop_last() =~= three);
    assert(be(one) == be(one.drop_last()) * 256 + one.last());
    assert(be(two) == be(one) * 256 + two.last());
    assert(be(three) == be(two) * 256 + three.last());
    assert(be(four) == be(three) * 256 + four.last());
}

/// Two and four bytes, written.
pub proof fn law_short_numbers_are_written(a: u8, b: u8, c: u8, d: u8)
    ensures
        be_bytes((256 * a + b) as nat, 2) == seq![a, b],
        be_bytes((16777216 * a + 65536 * b + 256 * c + d) as nat, 4) == seq![a, b, c, d],
{
    law_short_numbers_are_read(a, b, c, d);
    law_be_bytes_of_be(seq![a, b]);
    law_be_bytes_of_be(seq![a, b, c, d]);
}

} // verus!
