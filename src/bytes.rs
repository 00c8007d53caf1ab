//! Big-endian integers on the wire.
use vstd::prelude::*;

verus! {

/// `256` to the power `n`: one more than the largest value that `n` bytes hold.
pub open spec fn pow256(n: nat) -> nat
    decreases n,
{
    if n == 0 {
        1
    } else {
        256 * pow256((n - 1) as nat)
    }
}

/// The value of a byte sequence read as a big-endian unsigned integer.
pub open spec fn be_value(s: Seq<u8>) -> nat
    decreases s.len(),
{
    if s.len() == 0 {
        0
    } else {
        (be_value(s.drop_last()) * 256 + s.last()) as nat
    }
}

/// The `n` low-order bytes of `x`, most significant first.
pub open spec fn be_bytes(x: nat, n: nat) -> Seq<u8>
    decreases n,
{
    if n == 0 {
        Seq::empty()
    } else {
        be_bytes(x / 256, (n - 1) as nat).push((x % 256) as u8)
    }
}

/// Writing `x` in `n` bytes and reading them back gives `x`, when `x` fits.
pub proof fn lemma_be_round_trip(x: nat, n: nat)
    requires
        x < pow256(n),
    ensures
        be_bytes(x, n).len() == n,
        be_value(be_bytes(x, n)) == x,
    decreases n,
{
    if n > 0 {
        let m = (n - 1) as nat;
        assert(x / 256 < pow256(m)) by (nonlinear_arith)
            requires
                x < 256 * pow256(m),
        ;
        lemma_be_round_trip(x / 256, m);
        let s = be_bytes(x / 256, m).push((x % 256) as u8);
        assert(s.drop_last() =~= be_bytes(x / 256, m));
    }
}

/// Appends the `n` low-order bytes of `x` to `out`, most significant first.
pub fn push_be(out: &mut Vec<u8>, x: u64, n: usize)
    requires
        n <= 8,
    ensures
        final(out)@ == old(out)@ + be_bytes(x as nat, n as nat),
    decreases n,
{
    if n > 0 {
        push_be(out, x / 256, n - 1);
        out.push((x % 256) as u8);
        proof {
            let head = be_bytes((x / 256) as nat, (n - 1) as nat);
            assert(be_bytes(x as nat, n as nat) == head.push((x % 256) as u8));
            assert(final(out)@ =~= old(out)@ + be_bytes(x as nat, n as nat));
        }
    }
}

/// Reads a big-endian `u16` from the first two bytes.
pub fn u16_from_u8_array(u8_array: &[u8]) -> (r: u16)
    requires
        u8_array@.len() >= 2,
    ensures
        r == be_value(u8_array@.take(2)),
{
    let a = Ghost(u8_array@);
    assert(a@.take(2).drop_last() =~= a@.take(1));
    assert(a@.take(1).drop_last() =~= Seq::<u8>::empty());
    proof {
        reveal_with_fuel(be_value, 3);
    }
    (u8_array[0] as u16) * 256 + (u8_array[1] as u16)
}

/// Reads a big-endian `u32` from the first four bytes.
pub fn u32_from_u8_array(u8_array: &[u8]) -> (r: u32)
    requires
        u8_array@.len() >= 4,
    ensures
        r == be_value(u8_array@.take(4)),
{
    let a = Ghost(u8_array@);
    assert(a@.take(4).drop_last() =~= a@.take(3));
    assert(a@.take(3).drop_last() =~= a@.take(2));
    assert(a@.take(2).drop_last() =~= a@.take(1));
    assert(a@.take(1).drop_last() =~= Seq::<u8>::empty());
    proof {
        reveal_with_fuel(be_value, 5);
    }
    (((u8_array[0] as u32) * 256 + (u8_array[1] as u32)) * 256 + (u8_array[2] as u32)) * 256
        + (u8_array[3] as u32)
}

/// Reads a big-endian `u64` from the first eight bytes.
pub fn u64_from_u8_array(u8_array: &[u8]) -> (r: u64)
    requires
        u8_array@.len() >= 8,
    ensures
        r == be_value(u8_array@.take(8)),
{
    let a = Ghost(u8_array@);
    assert(a@.take(8).drop_last() =~= a@.take(7));
    assert(a@.take(7).drop_last() =~= a@.take(6));
    assert(a@.take(6).drop_last() =~= a@.take(5));
    assert(a@.take(5).drop_last() =~= a@.take(4));
    assert(a@.take(4).drop_last() =~= a@.take(3));
    assert(a@.take(3).drop_last() =~= a@.take(2));
    assert(a@.take(2).drop_last() =~= a@.take(1));
    assert(a@.take(1).drop_last() =~= Seq::<u8>::empty());
    proof {
        reveal_with_fuel(be_value, 9);
    }
    let mut r: u64 = u8_array[0] as u64;
    r = r * 256 + u8_array[1] as u64;
    r = r * 256 + u8_array[2] as u64;
    r = r * 256 + u8_array[3] as u64;
    r = r * 256 + u8_array[4] as u64;
    r = r * 256 + u8_array[5] as u64;
    r = r * 256 + u8_array[6] as u64;
    r = r * 256 + u8_array[7] as u64;
    r
}

} // verus!
