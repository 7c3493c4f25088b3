use vstd::prelude::*;

verus! {

/// The `n` low-order bytes of `v`, most significant first.
pub open spec fn be_bytes(v: nat, n: nat) -> Seq<u8>
    decreases n,
{
    if n == 0 {
        Seq::empty()
    } else {
        be_bytes(v / 256, (n - 1) as nat).push((v % 256) as u8)
    }
}

/// The number that the bytes of `s` spell, most significant first.
pub open spec fn be_value(s: Seq<u8>) -> nat
    decreases s.len(),
{
    if s.len() == 0 {
        0
    } else {
        be_value(s.drop_last()) * 256 + s.last() as nat
    }
}

/// Two hundred fifty-six to the power `n`.
pub open spec fn pow256(n: nat) -> nat
    decreases n,
{
    if n == 0 {
        1
    } else {
        256 * pow256((n - 1) as nat)
    }
}

/// A number spelled by `n` bytes is below `256^n`.
pub proof fn lemma_be_value_bound(s: Seq<u8>)
    ensures
        be_value(s) < pow256(s.len()),
    decreases s.len(),
{
    if s.len() > 0 {
        let p = s.drop_last();
        lemma_be_value_bound(p);
        let v = be_value(p);
        let q = pow256(p.len());
        let b = s.last() as nat;
        assert(v * 256 + b < 256 * q) by (nonlinear_arith)
            requires
                v < q,
                b < 256,
        ;
    }
}

/// The `n` low-order bytes of `x`, most significant first.
fn be_encode(x: u128, n: usize) -> (r: Vec<u8>)
    ensures
        r@ == be_bytes(x as nat, n as nat),
{
    let mut r: Vec<u8> = Vec::new();
    let mut k: usize = 0;
    while k < n
        invariant
            k <= n,
            r@.len() == k,
        decreases n - k,
    {
        r.push(0u8);
        k = k + 1;
    }
    let mut v: u128 = x;
    let mut i: usize = n;
    while i > 0
        invariant
            i <= n,
            r@.len() == n,
            be_bytes(x as nat, n as nat) == be_bytes(v as nat, i as nat) + r@.subrange(
                i as int,
                n as int,
            ),
        decreases i,
    {
        let ghost old_r = r@;
        let ghost old_v = v;
        i = i - 1;
        r.set(i, (v % 256) as u8);
        v = v / 256;
        proof {
            let tail = old_r.subrange(i + 1, n as int);
            assert(r@.subrange(i as int, n as int) =~= seq![(old_v % 256) as u8] + tail);
            assert(be_bytes(old_v as nat, (i + 1) as nat) == be_bytes(v as nat, i as nat).push(
                (old_v % 256) as u8,
            ));
            assert(be_bytes(v as nat, i as nat).push((old_v % 256) as u8) + tail =~= be_bytes(
                v as nat,
                i as nat,
            ) + (seq![(old_v % 256) as u8] + tail));
        }
    }
    assert(r@.subrange(0, n as int) =~= r@);
    assert(be_bytes(v as nat, 0) =~= Seq::empty());
    assert(be_bytes(x as nat, n as nat) =~= r@);
    r
}

/// Four bytes of `x`, most significant first.
pub fn u32_bytes(x: u32) -> (r: Vec<u8>)
    ensures
        r@ == be_bytes(x as nat, 4),
{
    be_encode(x as u128, 4)
}

/// Eight bytes of `x`, most significant first.
pub fn u64_bytes(x: u64) -> (r: Vec<u8>)
    ensures
        r@ == be_bytes(x as nat, 8),
{
    be_encode(x as u128, 8)
}

/// Sixteen bytes of `x`, most significant first.
pub fn u128_bytes(x: u128) -> (r: Vec<u8>)
    ensures
        r@ == be_bytes(x as nat, 16),
{
    be_encode(x, 16)
}

/// The first sixteen bytes of `h`, read as a big-endian number.
pub fn difficulty_bytes_as_u128(h: &Vec<u8>) -> (r: u128)
    requires
        h@.len() >= 16,
    ensures
        r as nat == be_value(h@.subrange(0, 16)),
{
    let mut acc: u128 = 0;
    let mut i: usize = 0;
    while i < 16
        invariant
            i <= 16,
            h@.len() >= 16,
            acc as nat == be_value(h@.subrange(0, i as int)),
        decreases 16 - i,
    {
        let ghost pre = h@.subrange(0, i as int);
        let ghost next = h@.subrange(0, i + 1);
        proof {
            assert(next.drop_last() =~= pre);
            lemma_be_value_bound(pre);
            assert(pow256(i as nat) <= pow256(15)) by {
                lemma_pow256_mono(i as nat, 15);
            }
            assert(pow256(15) == 0x1000000000000000000000000000000) by {
                reveal_with_fuel(pow256, 16);
            }
            assert(acc * 256 + h@[i as int] < 0x100000000000000000000000000000000) by (nonlinear_arith)
                requires
                    acc < 0x1000000000000000000000000000000,
                    h@[i as int] < 256,
            ;
        }
        acc = acc * 256 + h[i] as u128;
        i = i + 1;
    }
    acc
}

/// Powers of 256 grow with the exponent.
pub proof fn lemma_pow256_mono(a: nat, b: nat)
    requires
        a <= b,
    ensures
        pow256(a) <= pow256(b),
    decreases b,
{
    if a < b {
        lemma_pow256_mono(a, (b - 1) as nat);
    }
}

} // verus!
