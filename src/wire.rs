use vstd::prelude::*;

verus! {

/// `256^n`.
pub open spec fn pow256(n: nat) -> nat
    decreases n,
{
    if n == 0 {
        1
    } else {
        256 * pow256((n - 1) as nat)
    }
}

/// The `n` low-order bytes of `x`, least significant first.
pub open spec fn le_bytes(x: nat, n: nat) -> Seq<u8>
    decreases n,
{
    if n == 0 {
        Seq::empty()
    } else {
        seq![(x % 256) as u8] + le_bytes(x / 256, (n - 1) as nat)
    }
}

/// The number that a little-endian byte string denotes.
pub open spec fn le_value(s: Seq<u8>) -> nat
    decreases s.len(),
{
    if s.len() == 0 {
        0
    } else {
        s[0] as nat + 256 * le_value(s.drop_first())
    }
}

/// A 16-bit value in network byte order.
pub open spec fn be16(x: u16) -> Seq<u8> {
    seq![(x / 256) as u8, (x % 256) as u8]
}

/// A 32-bit value in network byte order.
pub open spec fn be32(x: u32) -> Seq<u8> {
    seq![(x / 16777216) as u8, ((x / 65536) % 256) as u8, ((x / 256) % 256) as u8, (x % 256) as u8]
}

pub proof fn lemma_pow256_positive(n: nat)
    ensures
        pow256(n) > 0,
    decreases n,
{
    if n > 0 {
        lemma_pow256_positive((n - 1) as nat);
    }
}

pub proof fn lemma_le_bytes_len(x: nat, n: nat)
    ensures
        le_bytes(x, n).len() == n,
    decreases n,
{
    if n > 0 {
        lemma_le_bytes_len(x / 256, (n - 1) as nat);
    }
}

/// Decoding the `n` little-endian bytes of `x` gives `x` modulo `256^n`.
pub proof fn lemma_le_round_trip(x: nat, n: nat)
    ensures
        le_value(le_bytes(x, n)) == x % pow256(n),
    decreases n,
{
    if n > 0 {
        let rest = le_bytes(x / 256, (n - 1) as nat);
        lemma_le_round_trip(x / 256, (n - 1) as nat);
        let s = seq![(x % 256) as u8] + rest;
        assert(s.drop_first() =~= rest);
        lemma_pow256_positive((n - 1) as nat);
        vstd::arithmetic::div_mod::lemma_mod_breakdown(x as int, 256, pow256((n - 1) as nat) as int);
    }
}

/// A little-endian string of `n` bytes denotes less than `256^n`.
pub proof fn lemma_le_value_bound(s: Seq<u8>)
    ensures
        le_value(s) < pow256(s.len()),
    decreases s.len(),
{
    if s.len() > 0 {
        lemma_le_value_bound(s.drop_first());
        assert(s.drop_first().len() == s.len() - 1);
    }
}

/// Eight bytes hold any `u64`, so a stamp written little-endian reads back unchanged.
pub proof fn lemma_u64_round_trip(x: u64)
    ensures
        le_value(le_bytes(x as nat, 8)) == x,
        le_bytes(x as nat, 8).len() == 8,
{
    lemma_le_round_trip(x as nat, 8);
    lemma_le_bytes_len(x as nat, 8);
    reveal_with_fuel(pow256, 9);
    assert(pow256(8) == 0x1_0000_0000_0000_0000nat);
}

/// Appends the `n` low-order bytes of `x`, least significant first.
pub fn push_le(out: &mut Vec<u8>, x: u64, n: usize)
    requires
        n <= 8,
    ensures
        final(out)@ == old(out)@ + le_bytes(x as nat, n as nat),
{
    let ghost start = old(out)@;
    let mut v: u64 = x;
    let mut i: usize = 0;
    while i < n
        invariant
            i <= n,
            out@ + le_bytes(v as nat, (n - i) as nat) == start + le_bytes(x as nat, n as nat),
        decreases n - i,
    {
        let ghost before = out@;
        assert(le_bytes(v as nat, (n - i) as nat) == seq![(v % 256) as u8] + le_bytes(
            (v / 256) as nat,
            (n - i - 1) as nat,
        ));
        out.push((v % 256) as u8);
        assert(out@ + le_bytes((v / 256) as nat, (n - i - 1) as nat) =~= before + le_bytes(
            v as nat,
            (n - i) as nat,
        ));
        v = v / 256;
        i = i + 1;
    }
    assert(le_bytes(v as nat, 0) =~= Seq::<u8>::empty());
    assert(out@ =~= out@ + le_bytes(v as nat, 0));
}

/// Appends a 16-bit value in network byte order.
pub fn push_be16(out: &mut Vec<u8>, x: u16)
    ensures
        final(out)@ == old(out)@ + be16(x),
{
    out.push((x / 256) as u8);
    out.push((x % 256) as u8);
    assert(out@ =~= old(out)@ + be16(x));
}

/// Appends a 32-bit value in network byte order.
pub fn push_be32(out: &mut Vec<u8>, x: u32)
    ensures
        final(out)@ == old(out)@ + be32(x),
{
    out.push((x / 16777216) as u8);
    out.push(((x / 65536) % 256) as u8);
    out.push(((x / 256) % 256) as u8);
    out.push((x % 256) as u8);
    assert(out@ =~= old(out)@ + be32(x));
}

/// Appends every byte of `b`.
pub fn append_bytes(out: &mut Vec<u8>, b: &[u8])
    ensures
        final(out)@ == old(out)@ + b@,
{
    let ghost start = old(out)@;
    let mut i: usize = 0;
    while i < b.len()
        invariant
            i <= b@.len(),
            out@ == start + b@.subrange(0, i as int),
        decreases b@.len() - i,
    {
        out.push(b[i]);
        i = i + 1;
        assert(out@ =~= start + b@.subrange(0, i as int));
    }
    assert(b@.subrange(0, b@.len() as int) =~= b@);
}

/// Overwrites two bytes at `at` with `x` in network byte order.
pub fn set_be16(frame: &mut Vec<u8>, at: usize, x: u16)
    requires
        at + 2 <= old(frame)@.len(),
    ensures
        final(frame)@ == old(frame)@.update(at as int, (x / 256) as u8).update(
            at + 1,
            (x % 256) as u8,
        ),
{
    let len = frame.len();
    assert(at + 1 < len);
    frame.set(at, (x / 256) as u8);
    frame.set(at + 1, (x % 256) as u8);
}

/// Reads `n` bytes at `at` as a little-endian number.
pub fn read_le(s: &[u8], at: usize, n: usize) -> (r: u64)
    requires
        n <= 8,
        at + n <= s@.len(),
    ensures
        r == le_value(s@.subrange(at as int, at + n)),
{
    let len = s.len();
    let mut acc: u64 = 0;
    let mut j: usize = n;
    proof {
        assert(s@.subrange(at + n, at + n) =~= Seq::<u8>::empty());
    }
    while j > 0
        invariant
            j <= n,
            n <= 8,
            at + n <= s@.len(),
            len == s@.len(),
            acc == le_value(s@.subrange(at + j, at + n)),
        decreases j,
    {
        let ghost tail = s@.subrange(at + j, at + n);
        proof {
            lemma_le_value_bound(tail);
            reveal_with_fuel(pow256, 9);
            assert(tail.len() <= 7);
            if tail.len() == 7 {
                assert(pow256(7) == 0x100_0000_0000_0000nat);
            }
            assert(pow256(tail.len()) <= 0x100_0000_0000_0000nat) by {
                lemma_pow256_mono(tail.len(), 7);
                assert(pow256(7) == 0x100_0000_0000_0000nat);
            }
        }
        j = j - 1;
        acc = s[at + j] as u64 + 256 * acc;
        proof {
            let whole = s@.subrange(at + j, at + n);
            assert(whole.drop_first() =~= tail);
        }
    }
    acc
}

pub proof fn lemma_pow256_mono(a: nat, b: nat)
    requires
        a <= b,
    ensures
        pow256(a) <= pow256(b),
    decreases b,
{
    if a < b {
        lemma_pow256_mono(a, (b - 1) as nat);
        lemma_pow256_positive((b - 1) as nat);
    }
}

} // verus!
