//! The mathematical model of the wire format: big-endian unsigned values,
//! two's-complement signed values and single-byte characters.
use vstd::prelude::*;

verus! {

/// `256` raised to the power `n`.
pub open spec fn pow256(n: nat) -> nat
    decreases n,
{
    if n == 0 {
        1
    } else {
        256 * pow256((n - 1) as nat)
    }
}

/// The `n` bytes that encode `v` most significant byte first
/// (only the low `n` bytes of `v` are kept).
pub open spec fn be_bytes(v: nat, n: nat) -> Seq<u8>
    decreases n,
{
    if n == 0 {
        Seq::empty()
    } else {
        be_bytes(v / 256, (n - 1) as nat).push((v % 256) as u8)
    }
}

/// The unsigned value of the bytes `s`, read most significant byte first.
pub open spec fn be_value(s: Seq<u8>) -> nat
    decreases s.len(),
{
    if s.len() == 0 {
        0
    } else {
        be_value(s.drop_last()) * 256 + s.last() as nat
    }
}

/// The unsigned `n`-byte pattern of the two's-complement value `v`.
pub open spec fn as_unsigned(v: int, n: nat) -> nat {
    if v < 0 {
        (v + pow256(n)) as nat
    } else {
        v as nat
    }
}

/// The signed value of the unsigned `n`-byte pattern `u`, read as two's complement.
pub open spec fn as_signed(u: nat, n: nat) -> int {
    if 2 * u >= pow256(n) {
        u - pow256(n)
    } else {
        u as int
    }
}

/// The byte that stands for the character `c`: the low byte of its scalar value.
pub open spec fn low_byte(c: char) -> u8 {
    (c as u32 % 256) as u8
}

/// The low bytes of the characters of `s`, in order.
pub open spec fn low_bytes(s: Seq<char>) -> Seq<u8> {
    s.map_values(|c: char| low_byte(c))
}

/// The characters whose scalar values are the bytes of `s`, in order.
pub open spec fn chars_of(s: Seq<u8>) -> Seq<char> {
    s.map_values(|b: u8| b as char)
}

/// `k` is the index of the first zero byte of `s`, or the length of `s` when
/// it holds no zero byte.
pub open spec fn stops_at_zero(s: Seq<u8>, k: nat) -> bool {
    &&& k <= s.len()
    &&& forall|i: int| 0 <= i < k ==> s[i] != 0
    &&& k < s.len() ==> s[k as int] == 0
}

/// The powers of 256 that the integer widths use.
pub proof fn lemma_pow256_values()
    ensures
        pow256(1) == 0x100,
        pow256(2) == 0x1_0000,
        pow256(4) == 0x1_0000_0000,
        pow256(8) == 0x1_0000_0000_0000_0000,
{
    assert(pow256(0) == 1);
    assert(pow256(1) == 0x100);
    assert(pow256(2) == 0x1_0000);
    assert(pow256(3) == 0x100_0000);
    assert(pow256(4) == 0x1_0000_0000);
    assert(pow256(5) == 0x100_0000_0000);
    assert(pow256(6) == 0x1_0000_0000_0000);
    assert(pow256(7) == 0x100_0000_0000_0000);
    assert(pow256(8) == 0x1_0000_0000_0000_0000);
}

/// Pushing one byte shifts the value up by one byte.
pub proof fn lemma_be_value_push(s: Seq<u8>, b: u8)
    ensures
        be_value(s.push(b)) == be_value(s) * 256 + b,
{
    assert(s.push(b).drop_last() =~= s);
}

/// A value read from `n` bytes is below `256^n`.
pub proof fn lemma_be_value_bound(s: Seq<u8>)
    ensures
        be_value(s) < pow256(s.len()),
    decreases s.len(),
{
    if s.len() > 0 {
        let t = s.drop_last();
        lemma_be_value_bound(t);
        let a = be_value(t);
        let p = pow256(t.len());
        let b = s.last() as int;
        assert(a * 256 + b < p * 256) by (nonlinear_arith)
            requires
                a < p,
                0 <= b < 256,
        ;
    }
}

/// Encoding a value below `256^n` on `n` bytes and reading it back gives the value.
pub proof fn lemma_be_round_trip(v: nat, n: nat)
    requires
        v < pow256(n),
    ensures
        be_bytes(v, n).len() == n,
        be_value(be_bytes(v, n)) == v,
    decreases n,
{
    if n > 0 {
        let m = (n - 1) as nat;
        assert(v / 256 < pow256(m)) by (nonlinear_arith)
            requires
                v < 256 * pow256(m),
        ;
        lemma_be_round_trip(v / 256, m);
        lemma_be_value_push(be_bytes(v / 256, m), (v % 256) as u8);
    }
}

/// The encoding of a value on `n` bytes is `n` bytes long.
pub proof fn lemma_be_bytes_len(v: nat, n: nat)
    ensures
        be_bytes(v, n).len() == n,
    decreases n,
{
    if n > 0 {
        lemma_be_bytes_len(v / 256, (n - 1) as nat);
    }
}

/// Appends the `n` low bytes of `v` to `out`, most significant byte first.
pub(crate) fn push_be(out: &mut Vec<u8>, v: u64, n: usize)
    requires
        n <= 8,
    ensures
        final(out)@ == old(out)@ + be_bytes(v as nat, n as nat),
    decreases n,
{
    if n > 0 {
        push_be(out, v / 256, n - 1);
        out.push((v % 256) as u8);
        assert(out@ =~= old(out)@ + be_bytes(v as nat, n as nat));
    } else {
        assert(out@ =~= old(out)@ + be_bytes(v as nat, n as nat));
    }
}

/// Reads the `n` bytes of `s` from index `start` as a big-endian unsigned value.
pub(crate) fn decode_be(s: &Vec<u8>, start: usize, n: usize) -> (r: u64)
    requires
        n <= 8,
        start + n <= s@.len(),
    ensures
        r as nat == be_value(s@.subrange(start as int, start + n)),
{
    proof {
        lemma_pow256_values();
    }
    let len = s.len();
    let mut acc: u64 = 0;
    let mut i: usize = 0;
    while i < n
        invariant
            i <= n <= 8,
            len == s@.len(),
            start + n <= s@.len(),
            acc as nat == be_value(s@.subrange(start as int, start + i)),
            acc < pow256(i as nat),
        decreases n - i,
    {
        let b = s[start + i];
        proof {
            let w = s@.subrange(start as int, start + i);
            assert(s@.subrange(start as int, start + i + 1) =~= w.push(b));
            lemma_be_value_push(w, b);
            lemma_pow256_values();
            lemma_pow256_monotone(i as nat + 1, 8);
            assert(pow256(i as nat + 1) == 256 * pow256(i as nat));
            let a = acc as int;
            let p = pow256(i as nat);
            assert(a * 256 + b < p * 256) by (nonlinear_arith)
                requires
                    a < p,
                    0 <= b < 256,
            ;
            assert(a * 256 + b < 0x1_0000_0000_0000_0000);
        }
        acc = acc * 256 + b as u64;
        i = i + 1;
    }
    acc
}

/// `256^n` grows with `n`.
pub proof fn lemma_pow256_monotone(m: nat, n: nat)
    requires
        m <= n,
    ensures
        pow256(m) <= pow256(n),
    decreases n - m,
{
    if m < n {
        lemma_pow256_monotone(m, (n - 1) as nat);
    }
}

} // verus!
