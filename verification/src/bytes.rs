//! Big-endian integers and byte strings.
use vstd::prelude::*;

verus! {

/// The number that a string of bytes denotes, most significant byte first.
pub open spec fn be_nat(s: Seq<u8>) -> nat
    decreases s.len(),
{
    if s.len() == 0 {
        0
    } else {
        be_nat(s.drop_last()) * 256 + s.last() as nat
    }
}

/// The `n` low bytes of `x`, most significant byte first.
pub open spec fn be_bytes(x: nat, n: nat) -> Seq<u8>
    decreases n,
{
    if n == 0 {
        Seq::empty()
    } else {
        be_bytes(x / 256, (n - 1) as nat).push((x % 256) as u8)
    }
}

/// One more than the largest number that fits in `n` bytes.
pub open spec fn be_limit(n: nat) -> nat
    decreases n,
{
    if n == 0 {
        1
    } else {
        256 * be_limit((n - 1) as nat)
    }
}

pub proof fn lemma_be_bytes_len(x: nat, n: nat)
    ensures
        be_bytes(x, n).len() == n,
    decreases n,
{
    if n > 0 {
        lemma_be_bytes_len(x / 256, (n - 1) as nat);
    }
}

/// Writing a number that fits in `n` bytes and reading it back gives the number.
pub proof fn lemma_be_round_trip(x: nat, n: nat)
    requires
        x < be_limit(n),
    ensures
        be_bytes(x, n).len() == n,
        be_nat(be_bytes(x, n)) == x,
    decreases n,
{
    if n > 0 {
        lemma_be_round_trip(x / 256, (n - 1) as nat);
        let rest = be_bytes(x / 256, (n - 1) as nat);
        assert(be_bytes(x, n).drop_last() =~= rest);
    }
}

/// Reading bytes as a number and writing it with the same width gives the bytes.
pub proof fn lemma_be_bytes_of_nat(s: Seq<u8>)
    ensures
        be_nat(s) < be_limit(s.len()),
        be_bytes(be_nat(s), s.len()) == s,
    decreases s.len(),
{
    if s.len() > 0 {
        lemma_be_bytes_of_nat(s.drop_last());
        assert(be_bytes(be_nat(s), s.len()) =~= s);
    }
}

/// The first byte of a number counts most: two hundred and fifty-six times what it would
/// count one place further on.
pub proof fn the_first_byte_counts_most(s: Seq<u8>)
    requires
        s.len() > 0,
    ensures
        be_nat(s) == s[0] * be_limit((s.len() - 1) as nat) + be_nat(s.skip(1)),
        be_limit(0) == 1,
        be_limit(s.len()) == 256 * be_limit((s.len() - 1) as nat),
        s.len() == 1 ==> be_nat(s) == s[0],
        s.len() == 2 ==> be_nat(s) == s[0] * 256 + s[1],
    decreases s.len(),
{
    if s.len() == 1 {
        assert(s.drop_last() =~= Seq::<u8>::empty());
        assert(s.skip(1) =~= Seq::<u8>::empty());
        assert(be_nat(s.drop_last()) == 0);
        assert(be_nat(s.skip(1)) == 0);
        assert(be_nat(s) == s[0]);
        assert(be_limit(0) == 1);
        assert(s[0] * be_limit(0) == s[0]) by (nonlinear_arith)
            requires
                be_limit(0) == 1,
        ;
    } else {
        let front = s.drop_last();
        the_first_byte_counts_most(front);
        assert(front.skip(1) =~= s.skip(1).drop_last());
        assert(s.skip(1).last() == s.last());
        let a = s[0] as nat;
        let l = be_limit((front.len() - 1) as nat);
        let r = be_nat(front.skip(1));
        assert((a * l + r) * 256 == a * (256 * l) + r * 256) by (nonlinear_arith);
        if s.len() == 2 {
            assert(s.skip(1) =~= seq![s[1]]);
            the_first_byte_counts_most(s.skip(1));
        }
    }
}

proof fn lemma_be_limits()
    ensures
        be_limit(2) == 0x1_0000,
        be_limit(4) == 0x1_0000_0000,
        be_limit(8) == 0x1_0000_0000_0000_0000,
{
    reveal_with_fuel(be_limit, 9);
}

/// Every 16-bit number survives a trip through its two bytes.
pub proof fn lemma_u16_round_trip(x: u16)
    ensures
        be_bytes(x as nat, 2).len() == 2,
        be_nat(be_bytes(x as nat, 2)) == x,
{
    lemma_be_limits();
    lemma_be_round_trip(x as nat, 2);
}

/// Every 32-bit number survives a trip through its four bytes.
pub proof fn lemma_u32_round_trip(x: u32)
    ensures
        be_bytes(x as nat, 4).len() == 4,
        be_nat(be_bytes(x as nat, 4)) == x,
{
    lemma_be_limits();
    lemma_be_round_trip(x as nat, 4);
}

/// Every 64-bit number survives a trip through its eight bytes.
pub proof fn lemma_u64_round_trip(x: u64)
    ensures
        be_bytes(x as nat, 8).len() == 8,
        be_nat(be_bytes(x as nat, 8)) == x,
{
    lemma_be_limits();
    lemma_be_round_trip(x as nat, 8);
}

pub fn put_u16(x: u16) -> (r: [u8; 2])
    ensures
        r@ == be_bytes(x as nat, 2),
{
    let r: [u8; 2] = [(x / 256) as u8, (x % 256) as u8];
    proof {
        reveal_with_fuel(be_bytes, 3);
        assert(r@ =~= be_bytes(x as nat, 2));
    }
    r
}

pub fn put_u32(x: u32) -> (r: [u8; 4])
    ensures
        r@ == be_bytes(x as nat, 4),
{
    let x1: u32 = x / 256;
    let x2: u32 = x1 / 256;
    let x3: u32 = x2 / 256;
    let r: [u8; 4] = [x3 as u8, (x2 % 256) as u8, (x1 % 256) as u8, (x % 256) as u8];
    proof {
        reveal_with_fuel(be_bytes, 5);
        assert(r@ =~= be_bytes(x as nat, 4));
    }
    r
}

pub fn put_u64(x: u64) -> (r: [u8; 8])
    ensures
        r@ == be_bytes(x as nat, 8),
{
    let x1: u64 = x / 256;
    let x2: u64 = x1 / 256;
    let x3: u64 = x2 / 256;
    let x4: u64 = x3 / 256;
    let x5: u64 = x4 / 256;
    let x6: u64 = x5 / 256;
    let x7: u64 = x6 / 256;
    let r: [u8; 8] = [
        x7 as u8,
        (x6 % 256) as u8,
        (x5 % 256) as u8,
        (x4 % 256) as u8,
        (x3 % 256) as u8,
        (x2 % 256) as u8,
        (x1 % 256) as u8,
        (x % 256) as u8,
    ];
    proof {
        reveal_with_fuel(be_bytes, 9);
        assert(r@ =~= be_bytes(x as nat, 8));
    }
    r
}

/// The 16-bit number at offset `at`.
pub fn get_u16(s: &[u8], at: usize) -> (r: u16)
    requires
        at + 2 <= s@.len(),
    ensures
        r == be_nat(s@.subrange(at as int, at + 2)),
{
    let r: u16 = s[at] as u16 * 256 + s[at + 1] as u16;
    proof {
        reveal_with_fuel(be_nat, 3);
        let w = s@.subrange(at as int, at + 2);
        assert(w.drop_last().drop_last() =~= Seq::<u8>::empty());
    }
    r
}

/// The 32-bit number at offset `at`.
pub fn get_u32(s: &[u8], at: usize) -> (r: u32)
    requires
        at + 4 <= s@.len(),
    ensures
        r == be_nat(s@.subrange(at as int, at + 4)),
{
    assert(s@.len() == s.len());
    let hi: u32 = get_u16(s, at) as u32;
    let r: u32 = (hi * 256 + s[at + 2] as u32) * 256 + s[at + 3] as u32;
    proof {
        let w = s@.subrange(at as int, at + 4);
        reveal_with_fuel(be_nat, 3);
        assert(w.drop_last().drop_last() =~= s@.subrange(at as int, at + 2));
    }
    r
}

/// The 64-bit number at offset `at`.
pub fn get_u64(s: &[u8], at: usize) -> (r: u64)
    requires
        at + 8 <= s@.len(),
    ensures
        r == be_nat(s@.subrange(at as int, at + 8)),
{
    assert(s@.len() == s.len());
    let hi: u64 = get_u32(s, at) as u64;
    let r: u64 = (((hi * 256 + s[at + 4] as u64) * 256 + s[at + 5] as u64) * 256 + s[at
        + 6] as u64) * 256 + s[at + 7] as u64;
    proof {
        let w = s@.subrange(at as int, at + 8);
        reveal_with_fuel(be_nat, 5);
        assert(w.drop_last().drop_last().drop_last().drop_last() =~= s@.subrange(
            at as int,
            at + 4,
        ));
    }
    r
}

/// Appends a copy of `extra` to `out`.
pub fn push_bytes(out: &mut Vec<u8>, extra: &[u8])
    ensures
        final(out)@ == old(out)@ + extra@,
{
    out.extend_from_slice(extra);
    assert(out@ =~= old(out)@ + extra@);
}

/// A copy of `s`.
pub fn copy_bytes(s: &[u8]) -> (r: Vec<u8>)
    ensures
        r@ == s@,
{
    let mut r: Vec<u8> = Vec::new();
    push_bytes(&mut r, s);
    assert(r@ =~= s@);
    r
}

/// A copy of the bytes from `from` up to and not including `to`.
pub fn slice_bytes(s: &[u8], from: usize, to: usize) -> (r: Vec<u8>)
    requires
        from <= to <= s@.len(),
    ensures
        r@ == s@.subrange(from as int, to as int),
{
    copy_bytes(vstd::slice::slice_subrange(s, from, to))
}

/// Whether two byte strings are equal.
pub fn same_bytes(a: &[u8], b: &[u8]) -> (r: bool)
    ensures
        r == (a@ == b@),
{
    if a.len() != b.len() {
        return false;
    }
    let mut i: usize = 0;
    while i < a.len()
        invariant
            i <= a@.len(),
            a@.len() == b@.len(),
            forall|j: int| 0 <= j < i ==> a@[j] == b@[j],
        decreases a@.len() - i,
    {
        if a[i] != b[i] {
            return false;
        }
        i = i + 1;
    }
    assert(a@ =~= b@);
    true
}

} // verus!
