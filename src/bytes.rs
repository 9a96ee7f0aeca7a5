//! Little- and big-endian byte strings of unsigned integers.
use vstd::prelude::*;

verus! {

/// `256` raised to the power `k`.
pub open spec fn pow256(k: nat) -> nat
    decreases k,
{
    if k == 0 {
        1
    } else {
        256 * pow256((k - 1) as nat)
    }
}

/// The `k` least significant bytes of `x`, least significant first.
pub open spec fn le_bytes(x: nat, k: nat) -> Seq<u8>
    decreases k,
{
    if k == 0 {
        Seq::empty()
    } else {
        seq![(x % 256) as u8] + le_bytes(x / 256, (k - 1) as nat)
    }
}

/// The number that `s` spells, least significant byte first.
pub open spec fn le_value(s: Seq<u8>) -> nat
    decreases s.len(),
{
    if s.len() == 0 {
        0
    } else {
        s[0] as nat + 256 * le_value(s.drop_first())
    }
}

/// The `k` least significant bytes of `x`, most significant first.
pub open spec fn be_bytes(x: nat, k: nat) -> Seq<u8> {
    le_bytes(x, k).reverse()
}

/// The number that `s` spells, most significant byte first.
pub open spec fn be_value(s: Seq<u8>) -> nat {
    le_value(s.reverse())
}

pub proof fn lemma_pow256_values()
    ensures
        pow256(2) == 0x1_0000,
        pow256(4) == 0x1_0000_0000,
        pow256(8) == 0x1_0000_0000_0000_0000,
        pow256(11) == 0x100_0000_0000_0000_0000_0000,
        pow256(16) == 0x1_0000_0000_0000_0000_0000_0000_0000_0000,
{
    reveal_with_fuel(pow256, 17);
}

pub proof fn lemma_le_bytes_len(x: nat, k: nat)
    ensures
        le_bytes(x, k).len() == k,
    decreases k,
{
    if k > 0 {
        lemma_le_bytes_len(x / 256, (k - 1) as nat);
    }
}

/// Reading back the bytes of a number that fits gives the number.
pub proof fn lemma_le_round_trip(x: nat, k: nat)
    requires
        x < pow256(k),
    ensures
        le_value(le_bytes(x, k)) == x,
    decreases k,
{
    if k > 0 {
        let p = pow256((k - 1) as nat);
        assert(x / 256 < p) by (nonlinear_arith)
            requires
                x < 256 * p,
        ;
        lemma_le_round_trip(x / 256, (k - 1) as nat);
        let s = le_bytes(x, k);
        assert(s.drop_first() =~= le_bytes(x / 256, (k - 1) as nat));
    }
}

/// A string of bytes spells a number below `256` to the power of its length.
pub proof fn lemma_le_value_bound(s: Seq<u8>)
    ensures
        le_value(s) < pow256(s.len()),
    decreases s.len(),
{
    if s.len() > 0 {
        lemma_le_value_bound(s.drop_first());
    }
}

/// Writing out the number that a string spells gives the string back.
pub proof fn lemma_le_bytes_of_value(s: Seq<u8>)
    ensures
        le_bytes(le_value(s), s.len()) == s,
    decreases s.len(),
{
    if s.len() > 0 {
        lemma_le_bytes_of_value(s.drop_first());
        let v = le_value(s);
        let t = le_value(s.drop_first());
        assert(v % 256 == s[0] as nat && v / 256 == t) by (nonlinear_arith)
            requires
                v == s[0] as nat + 256 * t,
                s[0] < 256,
        ;
        assert(le_bytes(v, s.len()) =~= s);
    }
}

pub proof fn lemma_be_round_trip(x: nat, k: nat)
    requires
        x < pow256(k),
    ensures
        be_value(be_bytes(x, k)) == x,
        be_bytes(x, k).len() == k,
{
    lemma_le_round_trip(x, k);
    lemma_le_bytes_len(x, k);
    assert(be_bytes(x, k).reverse() =~= le_bytes(x, k));
}

pub proof fn lemma_be_bytes_of_value(s: Seq<u8>)
    ensures
        be_bytes(be_value(s), s.len()) == s,
        be_value(s) < pow256(s.len()),
{
    lemma_le_bytes_of_value(s.reverse());
    lemma_le_value_bound(s.reverse());
    assert(le_bytes(be_value(s), s.len()).reverse() =~= s);
}

/// Appends the `k` least significant bytes of `x`, least significant first.
pub fn push_le(out: &mut Vec<u8>, x: u128, k: usize)
    ensures
        final(out)@ == old(out)@ + le_bytes(x as nat, k as nat),
{
    let ghost start = old(out)@;
    let mut rest: u128 = x;
    let mut i: usize = 0;
    while i < k
        invariant
            i <= k,
            start + le_bytes(x as nat, k as nat) == out@ + le_bytes(rest as nat, (k - i) as nat),
        decreases k - i,
    {
        let ghost before = out@;
        out.push((rest % 256) as u8);
        assert(le_bytes(rest as nat, (k - i) as nat) =~= seq![(rest % 256) as u8] + le_bytes(
            (rest / 256) as nat,
            (k - i - 1) as nat,
        ));
        assert(before + le_bytes(rest as nat, (k - i) as nat) =~= out@ + le_bytes(
            (rest / 256) as nat,
            (k - i - 1) as nat,
        ));
        rest = rest / 256;
        i = i + 1;
    }
    assert(out@ + le_bytes(rest as nat, 0) =~= out@);
}

/// Appends the `k` least significant bytes of `x`, most significant first.
pub fn push_be(out: &mut Vec<u8>, x: u128, k: usize)
    ensures
        final(out)@ == old(out)@ + be_bytes(x as nat, k as nat),
{
    let mut le: Vec<u8> = Vec::new();
    push_le(&mut le, x, k);
    assert(le@ =~= le_bytes(x as nat, k as nat));
    proof {
        lemma_le_bytes_len(x as nat, k as nat);
    }
    let ghost start = out@;
    let mut j: usize = k;
    while j > 0
        invariant
            j <= k,
            le@.len() == k,
            out@ == start + le@.reverse().take(k - j),
        decreases j,
    {
        j = j - 1;
        out.push(le[j]);
        assert(le@.reverse().take(k - j) =~= le@.reverse().take(k - j - 1).push(le@[j as int]));
    }
    assert(le@.reverse().take(k as int) =~= be_bytes(x as nat, k as nat));
}

/// The number that `s[start..start + k]` spells, least significant byte first.
pub fn read_le(s: &[u8], start: usize, k: usize) -> (r: u128)
    requires
        start + k <= s@.len(),
        k <= 16,
    ensures
        r as nat == le_value(s@.subrange(start as int, start + k)),
{
    let n: usize = s.len();
    let mut acc: u128 = 0;
    let mut j: usize = k;
    proof {
        lemma_pow256_values();
    }
    while j > 0
        invariant
            j <= k <= 16,
            start + k <= n == s@.len(),
            pow256(16) == 0x1_0000_0000_0000_0000_0000_0000_0000_0000,
            acc as nat == le_value(s@.subrange(start + j, start + k)),
            acc < pow256((k - j) as nat),
        decreases j,
    {
        j = j - 1;
        let ghost t = s@.subrange(start + j, start + k);
        assert(t.drop_first() =~= s@.subrange(start + j + 1, start + k));
        let ghost p = pow256((k - j - 1) as nat);
        proof {
            lemma_pow256_monotone((k - j) as nat, 16);
            assert(acc * 256 + 255 < 256 * p) by (nonlinear_arith)
                requires
                    acc < p,
            ;
        }
        acc = s[start + j] as u128 + 256 * acc;
    }
    acc
}

pub proof fn lemma_pow256_monotone(a: nat, b: nat)
    requires
        a <= b,
    ensures
        pow256(a) <= pow256(b),
    decreases b,
{
    if a < b {
        lemma_pow256_monotone(a, (b - 1) as nat);
    }
}

/// The number that `s[start..start + k]` spells, most significant byte first.
pub fn read_be(s: &[u8], start: usize, k: usize) -> (r: u128)
    requires
        start + k <= s@.len(),
        k <= 16,
    ensures
        r as nat == be_value(s@.subrange(start as int, start + k)),
{
    let n: usize = s.len();
    let mut acc: u128 = 0;
    let mut j: usize = 0;
    proof {
        lemma_pow256_values();
    }
    while j < k
        invariant
            j <= k <= 16,
            start + k <= n == s@.len(),
            pow256(16) == 0x1_0000_0000_0000_0000_0000_0000_0000_0000,
            acc as nat == be_value(s@.subrange(start as int, start + j)),
            acc < pow256(j as nat),
        decreases k - j,
    {
        let ghost t = s@.subrange(start as int, start + j + 1);
        assert(t.reverse().drop_first() =~= s@.subrange(start as int, start + j).reverse());
        let ghost p = pow256(j as nat);
        proof {
            lemma_pow256_monotone((j + 1) as nat, 16);
            assert(acc * 256 + 255 < 256 * p) by (nonlinear_arith)
                requires
                    acc < p,
            ;
        }
        acc = s[start + j] as u128 + 256 * acc;
        j = j + 1;
    }
    acc
}

/// The array that holds the bytes of `v`.
pub fn to_array<const N: usize>(v: &Vec<u8>) -> (r: [u8; N])
    requires
        v@.len() == N,
    ensures
        r@ == v@,
{
    let mut r: [u8; N] = [0u8; N];
    let mut i: usize = 0;
    while i < N
        invariant
            i <= N,
            v@.len() == N,
            r@.len() == N,
            forall|j: int| 0 <= j < i ==> r@[j] == v@[j],
        decreases N - i,
    {
        r[i] = v[i];
        i = i + 1;
    }
    assert(r@ =~= v@);
    r
}

} // verus!
