//! Little-endian byte sequences and the lemmas that tie them to numbers.

use vstd::arithmetic::div_mod::{lemma_fundamental_div_mod, lemma_fundamental_div_mod_converse};
use vstd::prelude::*;

verus! {

/// `256^k`.
pub open spec fn pow256(k: nat) -> nat
    decreases k,
{
    if k == 0 {
        1
    } else {
        256 * pow256((k - 1) as nat)
    }
}

/// The `len` low-order bytes of `n`, least significant first.
pub open spec fn le_bytes(n: nat, len: nat) -> Seq<u8>
    decreases len,
{
    if len == 0 {
        Seq::empty()
    } else {
        seq![(n % 256) as u8] + le_bytes(n / 256, (len - 1) as nat)
    }
}

/// The number that the bytes `b` spell, least significant first.
pub open spec fn le_value(b: Seq<u8>) -> nat
    decreases b.len(),
{
    if b.len() == 0 {
        0
    } else {
        (b[0] as nat + 256 * le_value(b.drop_first())) as nat
    }
}

/// The two's-complement representative in `[0, modulus)` of `v`.
pub open spec fn twos(v: int, modulus: nat) -> nat {
    if v < 0 {
        (v + modulus) as nat
    } else {
        v as nat
    }
}

pub proof fn lemma_pow256_values()
    ensures
        pow256(1) == 0x100,
        pow256(2) == 0x1_0000,
        pow256(4) == 0x1_0000_0000,
        pow256(8) == 0x1_0000_0000_0000_0000,
        pow256(16) == 0x1_0000_0000_0000_0000_0000_0000_0000_0000,
{
    reveal_with_fuel(pow256, 17);
}

pub proof fn lemma_le_bytes_len(n: nat, len: nat)
    ensures
        le_bytes(n, len).len() == len,
    decreases len,
{
    if len > 0 {
        lemma_le_bytes_len(n / 256, (len - 1) as nat);
    }
}

/// Bytes read as a number and written back are the same bytes.
pub proof fn lemma_le_bytes_of_value(b: Seq<u8>)
    ensures
        le_bytes(le_value(b), b.len()) == b,
    decreases b.len(),
{
    if b.len() > 0 {
        let t = b.drop_first();
        lemma_le_bytes_of_value(t);
        let v = le_value(b);
        lemma_fundamental_div_mod_converse(v as int, 256, le_value(t) as int, b[0] as int);
        assert(le_bytes(v, b.len()) =~= b);
    }
}

/// A number below `256^len` written as bytes and read back is the same number.
pub proof fn lemma_le_value_of_bytes(n: nat, len: nat)
    requires
        n < pow256(len),
    ensures
        le_value(le_bytes(n, len)) == n,
    decreases len,
{
    if len > 0 {
        let q = n / 256;
        let p = pow256((len - 1) as nat);
        lemma_fundamental_div_mod(n as int, 256);
        assert(q < p) by (nonlinear_arith)
            requires
                n == 256 * q + n % 256,
                n < 256 * p,
                0 <= n % 256,
        ;
        lemma_le_value_of_bytes(q, (len - 1) as nat);
        let s = le_bytes(n, len);
        assert(s.drop_first() =~= le_bytes(q, (len - 1) as nat));
    }
}

/// Appends the `len` low-order bytes of `x`, least significant first.
pub fn push_le(out: &mut Vec<u8>, x: u128, len: usize)
    ensures
        final(out)@ == old(out)@ + le_bytes(x as nat, len as nat),
{
    let mut i: usize = 0;
    let mut rest: u128 = x;
    while i < len
        invariant
            i <= len,
            out@ + le_bytes(rest as nat, (len - i) as nat) == old(out)@ + le_bytes(
                x as nat,
                len as nat,
            ),
        decreases len - i,
    {
        let ghost before = out@;
        let ghost k = (len - i) as nat;
        out.push((rest % 256) as u8);
        assert(le_bytes(rest as nat, k) == seq![(rest % 256) as u8] + le_bytes(
            (rest / 256) as nat,
            (k - 1) as nat,
        ));
        assert(out@ + le_bytes((rest / 256) as nat, (k - 1) as nat) =~= before + le_bytes(
            rest as nat,
            k,
        ));
        rest = rest / 256;
        i = i + 1;
    }
    assert(out@ + le_bytes(rest as nat, 0) =~= out@);
}

/// Reads `len` bytes of `b` from `start` as a little-endian number.
pub fn read_le(b: &[u8], start: usize, len: usize) -> (r: u128)
    requires
        start + len <= b@.len(),
        len <= 16,
    ensures
        r as nat == le_value(b@.subrange(start as int, start + len)),
        r < pow256(len as nat),
        le_bytes(r as nat, len as nat) == b@.subrange(start as int, start + len),
{
    let n = b.len();
    assert(start + len <= n);
    let end: usize = start + len;
    let mut j: usize = end;
    let mut acc: u128 = 0;
    proof {
        lemma_pow256_values();
    }
    while j > start
        invariant
            start <= j <= end,
            end == start + len,
            end <= b@.len(),
            len <= 16,
            acc as nat == le_value(b@.subrange(j as int, end as int)),
            acc < pow256((end - j) as nat),
            pow256(16) == 0x1_0000_0000_0000_0000_0000_0000_0000_0000,
        decreases j,
    {
        let ghost old_acc = acc as nat;
        let ghost p = pow256((end - j) as nat);
        proof {
            lemma_pow_mono((end - j) as nat, 15);
        }
        let h = b[j - 1];
        assert(old_acc * 256 + h < 256 * p) by (nonlinear_arith)
            requires
                old_acc < p,
                h < 256,
        ;
        assert(256 * p <= 256 * pow256(15)) by (nonlinear_arith)
            requires
                p <= pow256(15),
        ;
        acc = acc * 256 + h as u128;
        j = j - 1;
        assert(b@.subrange(j as int, end as int).drop_first() =~= b@.subrange(
            j + 1,
            end as int,
        ));
    }
    proof {
        lemma_le_bytes_of_value(b@.subrange(start as int, end as int));
    }
    acc
}

pub proof fn lemma_pow_mono(a: nat, b: nat)
    requires
        a <= b,
    ensures
        pow256(a) <= pow256(b),
    decreases b,
{
    if a < b {
        lemma_pow_mono(a, (b - 1) as nat);
    }
}

/// Appends all of `src`.
pub fn push_all(out: &mut Vec<u8>, src: &[u8])
    ensures
        final(out)@ == old(out)@ + src@,
{
    let mut i: usize = 0;
    while i < src.len()
        invariant
            i <= src@.len(),
            out@ == old(out)@ + src@.subrange(0, i as int),
        decreases src@.len() - i,
    {
        out.push(src[i]);
        i = i + 1;
        assert(out@ =~= old(out)@ + src@.subrange(0, i as int));
    }
    assert(src@.subrange(0, i as int) =~= src@);
}

/// A copy of `b[start..end]`.
pub fn copy_range(b: &[u8], start: usize, end: usize) -> (r: Vec<u8>)
    requires
        start <= end <= b@.len(),
    ensures
        r@ == b@.subrange(start as int, end as int),
{
    let mut r: Vec<u8> = Vec::new();
    let mut i: usize = start;
    while i < end
        invariant
            start <= i <= end,
            end <= b@.len(),
            r@ == b@.subrange(start as int, i as int),
        decreases end - i,
    {
        r.push(b[i]);
        i = i + 1;
        assert(r@ =~= b@.subrange(start as int, i as int));
    }
    r
}

} // verus!
