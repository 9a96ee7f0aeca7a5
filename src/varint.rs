//! Self-delimiting, canonical variable-length encoding of `u128` values.
//!
//! Every byte but the last has its high bit set. Each step towards a more
//! significant byte subtracts one after dividing by 128, so that no value has
//! two encodings.
use vstd::prelude::*;

verus! {

/// Failure to read a varint.
#[derive(Debug, PartialEq, Eq, Clone, Copy, Structural)]
pub enum Error {
    /// The buffer ends before a final byte: more input is needed.
    Truncated,
    /// The value exceeds `u128::MAX`.
    Overflow,
}

/// The bytes that encode `n`; `more` marks that a further byte follows.
pub open spec fn encoding_from(n: nat, more: bool) -> Seq<u8>
    decreases n,
{
    let low: nat = n % 128;
    let b: u8 = if more { (low + 128) as u8 } else { low as u8 };
    if n < 128 {
        seq![b]
    } else {
        encoding_from((n / 128 - 1) as nat, true).push(b)
    }
}

/// The canonical encoding of `n`.
pub open spec fn encoding(n: nat) -> Seq<u8> {
    encoding_from(n, false)
}

/// The value that a run of bytes accumulates: a final byte adds its value, a
/// continuation byte adds its low seven bits plus one.
pub open spec fn accumulated(s: Seq<u8>) -> nat
    decreases s.len(),
{
    if s.len() == 0 {
        0
    } else {
        let b = s.last();
        let step: nat = if b < 128 { b as nat } else { (b - 127) as nat };
        accumulated(s.drop_last()) * 128 + step
    }
}

/// Byte `k` of `s` is the first byte without the continuation bit.
pub open spec fn terminates_at(s: Seq<u8>, k: int) -> bool {
    &&& 0 <= k < s.len()
    &&& s[k] < 128
    &&& forall|j: int| 0 <= j < k ==> s[j] >= 128
}

proof fn lemma_encoding_from(n: nat, more: bool)
    ensures
        encoding_from(n, more).len() >= 1,
        forall|j: int|
            0 <= j < encoding_from(n, more).len() - 1 ==> encoding_from(n, more)[j] >= 128,
        (encoding_from(n, more).last() >= 128) == more,
        accumulated(encoding_from(n, more)) == if more { n + 1 } else { n },
    decreases n,
{
    let e = encoding_from(n, more);
    let low: nat = n % 128;
    assert(low < 128);
    assert(e.last() as nat == if more { low + 128 } else { low });
    let step: nat = if e.last() < 128 { e.last() as nat } else { (e.last() - 127) as nat };
    assert(step == if more { low + 1 } else { low });
    assert(accumulated(e) == accumulated(e.drop_last()) * 128 + step);
    if n >= 128 {
        let m = (n / 128 - 1) as nat;
        lemma_encoding_from(m, true);
        let p = encoding_from(m, true);
        assert(e.drop_last() =~= p);
        assert(accumulated(p) == n / 128);
        assert(n / 128 * 128 + n % 128 == n);
    } else {
        assert(e.drop_last() =~= Seq::<u8>::empty());
        assert(n % 128 == n);
    }
}

proof fn lemma_encoding_len(n: nat)
    requires
        n <= u128::MAX,
    ensures
        encoding(n).len() <= 19,
{
    lemma_u128_max_below_pow();
    lemma_encoding_from_len(n, false, 19);
}

proof fn lemma_encoding_from_len(n: nat, more: bool, k: nat)
    requires
        k >= 1,
        n < pow128(k),
    ensures
        encoding_from(n, more).len() <= k,
    decreases n,
{
    if n >= 128 {
        assert(k >= 2) by {
            if k == 1 {
                reveal_with_fuel(pow128, 2);
            }
        }
        assert(pow128(k) == 128 * pow128((k - 1) as nat));
        let m = (n / 128 - 1) as nat;
        assert(m < pow128((k - 1) as nat));
        lemma_encoding_from_len(m, true, (k - 1) as nat);
    }
}

/// `128` raised to the power `k`.
pub open spec fn pow128(k: nat) -> nat
    decreases k,
{
    if k == 0 {
        1
    } else {
        128 * pow128((k - 1) as nat)
    }
}

proof fn lemma_u128_max_below_pow()
    ensures
        u128::MAX < pow128(19),
{
    reveal_with_fuel(pow128, 20);
}

/// Reading a run of bytes further never lowers the accumulated value.
proof fn lemma_accumulated_monotone(s: Seq<u8>, i: int, k: int)
    requires
        0 <= i <= k <= s.len(),
    ensures
        accumulated(s.take(i)) <= accumulated(s.take(k)),
    decreases k - i,
{
    if i < k {
        lemma_accumulated_monotone(s, i, k - 1);
        assert(s.take(k).drop_last() =~= s.take(k - 1));
    }
}

/// Round trip: the encoding of `n`, followed by any bytes, ends at its own last
/// byte and reads back as `n`.
pub proof fn lemma_round_trip(n: u128, rest: Seq<u8>)
    ensures
        encoding(n as nat).len() <= 19,
        terminates_at(encoding(n as nat) + rest, encoding(n as nat).len() - 1),
        accumulated((encoding(n as nat) + rest).take(encoding(n as nat).len() as int))
            == n as nat,
{
    lemma_u128_max_below_pow();
    lemma_encoding_len(n as nat);
    lemma_encoding_from(n as nat, false);
    let e = encoding(n as nat);
    assert((e + rest).take(e.len() as int) =~= e);
}

/// Appends the encoding of `n` to `v`.
pub fn encode_to_vec(n: u128, v: &mut Vec<u8>)
    ensures
        final(v)@ == old(v)@ + encoding(n as nat),
{
    let ghost n0 = n as nat;
    let mut n = n;
    let mut more = false;
    // The bytes from the least significant one up.
    let mut rev: Vec<u8> = Vec::new();
    loop
        invariant_except_break
            encoding(n0) == encoding_from(n as nat, more) + rev@.reverse(),
        ensures
            encoding(n0) == rev@.reverse(),
        decreases n,
    {
        let low: u8 = (n % 128) as u8;
        let byte: u8 = if more { low + 128 } else { low };
        let ghost before = rev@;
        rev.push(byte);
        assert(rev@.reverse() =~= seq![byte] + before.reverse());
        if n < 128 {
            assert(encoding_from(n as nat, more) =~= seq![byte]);
            break;
        }
        let ghost prev = n as nat;
        let ghost prev_more = more;
        n = n / 128 - 1;
        more = true;
        assert(encoding_from(prev, prev_more) == encoding_from(n as nat, true).push(byte));
        assert(encoding_from(n as nat, true).push(byte) + before.reverse() =~= encoding_from(
            n as nat,
            true,
        ) + rev@.reverse());
    }
    let ghost start = v@;
    let mut j: usize = rev.len();
    while j > 0
        invariant
            j <= rev.len(),
            v@ == start + rev@.reverse().take(rev.len() - j),
        decreases j,
    {
        j = j - 1;
        v.push(rev[j]);
    }
}

/// The encoding of `n`.
pub fn encode(n: u128) -> (r: Vec<u8>)
    ensures
        r@ == encoding(n as nat),
{
    let mut v: Vec<u8> = Vec::new();
    encode_to_vec(n, &mut v);
    assert(v@ =~= encoding(n as nat));
    v
}

/// Reads one varint from the front of `buffer`, returning its value and the
/// number of bytes it took.
pub fn decode(buffer: &[u8]) -> (r: Result<(u128, usize), Error>)
    ensures
        match r {
            Ok((n, len)) => {
                &&& terminates_at(buffer@, len - 1)
                &&& n as nat == accumulated(buffer@.take(len as int))
            },
            Err(Error::Truncated) => forall|j: int| 0 <= j < buffer@.len() ==> buffer@[j] >= 128,
            Err(Error::Overflow) => {
                &&& exists|k: int| terminates_at(buffer@, k)
                &&& forall|k: int|
                    terminates_at(buffer@, k) ==> accumulated(buffer@.take(k + 1)) > u128::MAX
            },
        },
{
    // Find the final byte first.
    let mut last: usize = 0;
    loop
        invariant
            last <= buffer@.len(),
            forall|j: int| 0 <= j < last ==> buffer@[j] >= 128,
        ensures
            last < buffer@.len(),
            buffer@[last as int] < 128,
            forall|j: int| 0 <= j < last ==> buffer@[j] >= 128,
        decreases buffer@.len() - last,
    {
        if last == buffer.len() {
            return Err(Error::Truncated);
        }
        if buffer[last] < 128 {
            break;
        }
        last = last + 1;
    }
    assert(terminates_at(buffer@, last as int));
    assert forall|k: int| terminates_at(buffer@, k) implies k == last by {
        if k < last {
            assert(buffer@[k] >= 128);
        } else if k > last {
            assert(buffer@[last as int] >= 128);
        }
    }
    let mut n: u128 = 0;
    let mut i: usize = 0;
    while i <= last
        invariant
            last < buffer@.len(),
            i <= last + 1,
            terminates_at(buffer@, last as int),
            forall|k: int| terminates_at(buffer@, k) ==> k == last,
            n as nat == accumulated(buffer@.take(i as int)),
        decreases last + 1 - i,
    {
        let b: u8 = buffer[i];
        proof {
            assert(buffer@.take(i + 1).drop_last() =~= buffer@.take(i as int));
            assert(buffer@.take(i + 1).last() == b);
            lemma_accumulated_monotone(buffer@, i + 1, last + 1);
        }
        if n > u128::MAX / 128 {
            return Err(Error::Overflow);
        }
        let shifted: u128 = n * 128;
        let step: u128 = if b < 128 { b as u128 } else { (b - 127) as u128 };
        if shifted > u128::MAX - step {
            return Err(Error::Overflow);
        }
        n = shifted + step;
        i = i + 1;
    }
    Ok((n, i))
}

} // verus!
