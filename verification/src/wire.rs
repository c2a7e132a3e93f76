//! Big-endian integer encoding on byte sequences.
use vstd::prelude::*;

verus! {

/// `256` raised to the power `n`.
pub open spec fn pow256(n: nat) -> nat
    decreases n,
{
    if n == 0 {
        1
    } else {
        256 * pow256((n - 1) as nat)
    }
}

/// The low `n` bytes of `v`, most significant first.
pub open spec fn be_bytes(v: nat, n: nat) -> Seq<u8>
    decreases n,
{
    if n == 0 {
        Seq::empty()
    } else {
        be_bytes(v / 256, (n - 1) as nat).push((v % 256) as u8)
    }
}

/// The number whose big-endian representation is `s`.
pub open spec fn be_value(s: Seq<u8>) -> nat
    decreases s.len(),
{
    if s.len() == 0 {
        0
    } else {
        be_value(s.drop_last()) * 256 + s.last() as nat
    }
}

pub proof fn lemma_pow256_positive(n: nat)
    ensures
        pow256(n) >= 1,
    decreases n,
{
    if n > 0 {
        lemma_pow256_positive((n - 1) as nat);
    }
}

pub proof fn lemma_pow256_monotone(a: nat, b: nat)
    requires
        a <= b,
    ensures
        pow256(a) <= pow256(b),
    decreases b,
{
    if a < b {
        lemma_pow256_monotone(a, (b - 1) as nat);
        lemma_pow256_positive((b - 1) as nat);
    }
}

pub proof fn lemma_pow256_values()
    ensures
        pow256(1) == 0x100,
        pow256(2) == 0x1_0000,
        pow256(4) == 0x1_0000_0000,
        pow256(8) == 0x1_0000_0000_0000_0000,
{
    reveal_with_fuel(pow256, 9);
}

pub proof fn lemma_be_bytes_len(v: nat, n: nat)
    ensures
        be_bytes(v, n).len() == n,
    decreases n,
{
    if n > 0 {
        lemma_be_bytes_len(v / 256, (n - 1) as nat);
    }
}

/// Reading back the bytes written for `v` gives `v` modulo `256^n`.
pub proof fn lemma_be_value_of_bytes(v: nat, n: nat)
    ensures
        be_value(be_bytes(v, n)) == v % pow256(n),
    decreases n,
{
    if n == 0 {
    } else {
        let m = (n - 1) as nat;
        lemma_be_value_of_bytes(v / 256, m);
        let s = be_bytes(v, n);
        assert(s.drop_last() =~= be_bytes(v / 256, m));
        lemma_pow256_positive(m);
        vstd::arithmetic::div_mod::lemma_mod_breakdown(v as int, 256, pow256(m) as int);
        assert(be_value(s) == ((v / 256) % pow256(m)) * 256 + v % 256);
        assert(pow256(n) == 256 * pow256(m));
        assert(((v / 256) % pow256(m)) * 256 == 256 * ((v / 256) % pow256(m))) by (nonlinear_arith);
    }
}

/// A big-endian value of `k` bytes is below `256^k`.
pub proof fn lemma_be_value_bound(s: Seq<u8>)
    ensures
        be_value(s) < pow256(s.len()),
    decreases s.len(),
{
    if s.len() > 0 {
        let t = s.drop_last();
        lemma_be_value_bound(t);
        assert(be_value(t) + 1 <= pow256(t.len()));
        assert((be_value(t) + 1) * 256 <= pow256(t.len()) * 256) by (nonlinear_arith)
            requires
                be_value(t) + 1 <= pow256(t.len()),
        ;
    }
}

/// Writing the bytes of a value that fits in `n` bytes loses nothing.
pub proof fn lemma_be_roundtrip(v: nat, n: nat)
    requires
        v < pow256(n),
    ensures
        be_value(be_bytes(v, n)) == v,
        be_bytes(v, n).len() == n,
{
    lemma_be_value_of_bytes(v, n);
    lemma_be_bytes_len(v, n);
    vstd::arithmetic::div_mod::lemma_small_mod(v, pow256(n));
}

/// Writing back the value read from bytes gives the same bytes: with
/// [`lemma_be_bytes_index`] and [`lemma_be_value_bound`] this fixes
/// `be_value(s)` as the number whose big-endian digits are `s`.
pub proof fn lemma_be_bytes_of_value(s: Seq<u8>)
    ensures
        be_bytes(be_value(s), s.len()) == s,
    decreases s.len(),
{
    if s.len() > 0 {
        let t = s.drop_last();
        lemma_be_bytes_of_value(t);
        let v = be_value(s);
        assert(v / 256 == be_value(t)) by (nonlinear_arith)
            requires
                v == be_value(t) * 256 + s.last(),
                0 <= s.last() < 256,
        ;
        assert(v % 256 == s.last()) by (nonlinear_arith)
            requires
                v == be_value(t) * 256 + s.last(),
                0 <= s.last() < 256,
        ;
        assert(be_bytes(v, s.len()) =~= s);
    }
}

/// Byte `i` of the `n`-byte big-endian form of `v` is the base-256 digit
/// of `v` worth `256^(n - 1 - i)`: the most significant byte comes first.
pub proof fn lemma_be_bytes_index(v: nat, n: nat, i: int)
    requires
        0 <= i < n,
    ensures
        be_bytes(v, n)[i] == (v / pow256((n - 1 - i) as nat)) % 256,
    decreases n,
{
    let m = (n - 1) as nat;
    lemma_be_bytes_len(v / 256, m);
    if i == m {
        assert(pow256(0) == 1);
        assert(v / 1 == v);
    } else {
        lemma_be_bytes_index(v / 256, m, i);
        let k = (m - 1 - i) as nat;
        lemma_pow256_positive(k);
        vstd::arithmetic::div_mod::lemma_div_denominator(v as int, 256, pow256(k) as int);
        assert(pow256((n - 1 - i) as nat) == 256 * pow256(k));
    }
}

/// Appends the low `n` bytes of `v` to `out`, most significant first.
pub fn push_be(out: &mut Vec<u8>, v: u64, n: usize)
    requires
        n <= 8,
    ensures
        final(out)@ == old(out)@ + be_bytes(v as nat, n as nat),
{
    let mut buf: [u8; 8] = [0u8; 8];
    let mut x: u64 = v;
    let mut i: usize = n;
    while i > 0
        invariant
            i <= n <= 8,
            be_bytes(v as nat, n as nat) == be_bytes(x as nat, i as nat) + buf@.subrange(
                i as int,
                n as int,
            ),
        decreases i,
    {
        let ghost old_buf = buf@;
        let ghost old_x = x;
        buf[i - 1] = (x % 256) as u8;
        x = x / 256;
        i = i - 1;
        assert(buf@.subrange(i as int, n as int) =~= seq![(old_x % 256) as u8]
            + old_buf.subrange(i + 1, n as int));
        assert(be_bytes(old_x as nat, (i + 1) as nat) == be_bytes(x as nat, i as nat).push(
            (old_x % 256) as u8,
        ));
        assert(be_bytes(x as nat, i as nat).push((old_x % 256) as u8) + old_buf.subrange(
            i + 1,
            n as int,
        ) =~= be_bytes(x as nat, i as nat) + buf@.subrange(i as int, n as int));
    }
    assert(be_bytes(x as nat, 0) + buf@.subrange(0, n as int) =~= buf@.subrange(0, n as int));
    let ghost before = out@;
    let mut j: usize = 0;
    while j < n
        invariant
            j <= n <= 8,
            out@ == before + buf@.subrange(0, j as int),
        decreases n - j,
    {
        out.push(buf[j]);
        j = j + 1;
        assert(out@ =~= before + buf@.subrange(0, j as int));
    }
}

/// Reads the big-endian number held in at most eight bytes.
pub fn read_be(bytes: &[u8]) -> (v: u64)
    requires
        bytes@.len() <= 8,
    ensures
        v as nat == be_value(bytes@),
{
    let mut acc: u64 = 0;
    let mut i: usize = 0;
    proof {
        lemma_pow256_values();
    }
    while i < bytes.len()
        invariant
            i <= bytes@.len() <= 8,
            acc as nat == be_value(bytes@.subrange(0, i as int)),
            pow256(8) == 0x1_0000_0000_0000_0000,
        decreases bytes@.len() - i,
    {
        let ghost prefix = bytes@.subrange(0, i + 1);
        assert(prefix.drop_last() =~= bytes@.subrange(0, i as int));
        proof {
            lemma_be_value_bound(prefix);
            lemma_pow256_monotone(prefix.len(), 8);
        }
        acc = acc * 256 + bytes[i] as u64;
        i = i + 1;
    }
    assert(bytes@.subrange(0, i as int) =~= bytes@);
    acc
}

/// Appends every byte of `bytes` to `out`.
pub fn push_bytes(out: &mut Vec<u8>, bytes: &[u8])
    ensures
        final(out)@ == old(out)@ + bytes@,
{
    let ghost before = out@;
    let mut i: usize = 0;
    while i < bytes.len()
        invariant
            i <= bytes@.len(),
            out@ == before + bytes@.subrange(0, i as int),
        decreases bytes@.len() - i,
    {
        out.push(bytes[i]);
        i = i + 1;
        assert(out@ =~= before + bytes@.subrange(0, i as int));
    }
    assert(bytes@.subrange(0, i as int) =~= bytes@);
}

/// Whether two byte strings are equal.
pub fn bytes_eq(a: &[u8], b: &[u8]) -> (same: bool)
    ensures
        same == (a@ == b@),
{
    if a.len() != b.len() {
        return false;
    }
    let mut i: usize = 0;
    while i < a.len()
        invariant
            i <= a@.len() == b@.len(),
            a@.subrange(0, i as int) == b@.subrange(0, i as int),
        decreases a@.len() - i,
    {
        if a[i] != b[i] {
            assert(a@[i as int] != b@[i as int]);
            return false;
        }
        i = i + 1;
        assert(a@.subrange(0, i as int) =~= b@.subrange(0, i as int)) by {
            assert(a@.subrange(0, i - 1) == b@.subrange(0, i - 1));
            assert forall|k: int| 0 <= k < i implies a@.subrange(0, i as int)[k] == b@.subrange(0, i as int)[k] by {
                if k < i - 1 {
                    assert(a@.subrange(0, i - 1)[k] == b@.subrange(0, i - 1)[k]);
                }
            }
        }
    }
    assert(a@ =~= a@.subrange(0, i as int));
    assert(b@ =~= b@.subrange(0, i as int));
    true
}

} // verus!
