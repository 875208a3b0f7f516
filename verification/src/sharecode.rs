use vstd::prelude::*;

verus! {

/// The number whose big-endian bytes are `s`.
pub open spec fn be_value(s: Seq<u8>) -> nat
    decreases s.len(),
{
    if s.len() == 0 {
        0
    } else {
        be_value(s.drop_last()) * 256 + s.last() as nat
    }
}

pub open spec fn pow256(n: nat) -> nat
    decreases n,
{
    if n == 0 {
        1
    } else {
        256 * pow256((n - 1) as nat)
    }
}

proof fn lemma_be_value_bound(s: Seq<u8>)
    ensures
        be_value(s) < pow256(s.len()),
    decreases s.len(),
{
    if s.len() > 0 {
        lemma_be_value_bound(s.drop_last());
    }
}

proof fn lemma_pow256_16()
    ensures
        pow256(16) == 0x1_0000_0000_0000_0000_0000_0000_0000_0000,
{
    reveal_with_fuel(pow256, 17);
}

/// The first byte weighs most: a byte in front of `s` adds itself times
/// 256 to the power of `s`'s length.
pub proof fn lemma_be_value_prepend(b: u8, s: Seq<u8>)
    ensures
        be_value(seq![b] + s) == b * pow256(s.len()) + be_value(s),
    decreases s.len(),
{
    if s.len() == 0 {
        assert((seq![b] + s).drop_last() =~= Seq::<u8>::empty());
        assert(be_value(Seq::<u8>::empty()) == 0);
        assert(pow256(0) == 1);
        assert((seq![b] + s).last() == b);
    } else {
        let t = seq![b] + s;
        assert(t.drop_last() =~= seq![b] + s.drop_last());
        assert(t.last() == s.last());
        lemma_be_value_prepend(b, s.drop_last());
        let x = b * pow256((s.len() - 1) as nat);
        assert(be_value(t) == (x + be_value(s.drop_last())) * 256 + s.last());
        assert(be_value(s) == be_value(s.drop_last()) * 256 + s.last());
        assert(b * pow256(s.len()) == 256 * (b * pow256((s.len() - 1) as nat))) by (nonlinear_arith)
            requires
                pow256(s.len()) == 256 * pow256((s.len() - 1) as nat),
        ;
    }
}

/// Two byte strings of the same length with the same big-endian value are
/// the same: a share code determines its sixteen bytes, so laying out the
/// code read from sixteen bytes gives those bytes back.
pub proof fn lemma_be_value_injective(s: Seq<u8>, t: Seq<u8>)
    requires
        s.len() == t.len(),
        be_value(s) == be_value(t),
    ensures
        s == t,
    decreases s.len(),
{
    if s.len() > 0 {
        let (a, b) = (be_value(s.drop_last()), be_value(t.drop_last()));
        vstd::arithmetic::div_mod::lemma_fundamental_div_mod_converse(be_value(s) as int, 256, a as int, s.last() as int);
        vstd::arithmetic::div_mod::lemma_fundamental_div_mod_converse(be_value(t) as int, 256, b as int, t.last() as int);
        lemma_be_value_injective(s.drop_last(), t.drop_last());
        assert(s =~= s.drop_last().push(s.last()));
        assert(t =~= t.drop_last().push(t.last()));
    }
}

/// Reads sixteen bytes as a share code (the `Uuid::from_slice` rule): a
/// code only when there are exactly sixteen bytes, read most significant
/// first.
pub fn code_from_bytes(b: &[u8]) -> (r: Option<u128>)
    ensures
        b@.len() == 16 <==> r is Some,
        r matches Some(c) ==> c == be_value(b@),
{
    if b.len() != 16 {
        return None;
    }
    let mut v: u128 = 0;
    let mut i: usize = 0;
    proof {
        lemma_pow256_16();
    }
    while i < 16
        invariant
            i <= 16,
            b@.len() == 16,
            v == be_value(b@.take(i as int)),
            pow256(16) == 0x1_0000_0000_0000_0000_0000_0000_0000_0000,
        decreases 16 - i,
    {
        proof {
            lemma_be_value_bound(b@.take(i + 1));
            assert(b@.take(i + 1).drop_last() =~= b@.take(i as int));
            assert(b@.take(i + 1).len() == i + 1);
            lemma_pow_mono((i + 1) as nat, 16);
        }
        v = v * 256 + b[i] as u128;
        i = i + 1;
    }
    assert(b@.take(16) =~= b@);
    Some(v)
}

proof fn lemma_pow_mono(m: nat, n: nat)
    requires
        m <= n,
    ensures
        pow256(m) <= pow256(n),
    decreases n,
{
    if m < n {
        lemma_pow_mono(m, (n - 1) as nat);
    }
}

/// The sixteen bytes of a share code, most significant first.
pub fn code_to_bytes(code: u128) -> (r: Vec<u8>)
    ensures
        r@.len() == 16,
        be_value(r@) == code,
{
    let mut bytes: Vec<u8> = Vec::new();
    let mut i: usize = 0;
    while i < 16
        invariant
            i <= 16,
            bytes@.len() == i,
        decreases 16 - i,
    {
        bytes.push(0u8);
        i = i + 1;
    }
    let mut x: u128 = code;
    let mut k: usize = 16;
    assert(bytes@.subrange(16, 16) =~= Seq::<u8>::empty());
    assert(be_value(Seq::<u8>::empty()) == 0);
    assert(pow256(0) == 1);
    assert(pow256((16 - k) as nat) == 1);
    assert(x * pow256((16 - k) as nat) == x);
    while k > 0
        invariant
            k <= 16,
            bytes@.len() == 16,
            code == x * pow256((16 - k) as nat) + be_value(bytes@.subrange(k as int, 16)),
        decreases k,
    {
        let ghost before = bytes@;
        let byte = (x % 256) as u8;
        let rest = x / 256;
        proof {
            let p = pow256((16 - k) as nat);
            let v = be_value(before.subrange(k as int, 16));
            assert(pow256((16 - k + 1) as nat) == 256 * p);
            assert(x == rest * 256 + byte);
            assert(x * p == rest * (256 * p) + byte * p) by (nonlinear_arith)
                requires
                    x == rest * 256 + byte,
            ;
        }
        bytes.set(k - 1, byte);
        proof {
            assert(bytes@.subrange(k - 1, 16) =~= seq![byte] + before.subrange(k as int, 16));
            lemma_be_value_prepend(byte, before.subrange(k as int, 16));
        }
        x = rest;
        k = k - 1;
    }
    assert(bytes@.subrange(0, 16) =~= bytes@);
    proof {
        lemma_pow256_16();
        lemma_be_value_bound(bytes@);
        assert(x == 0) by (nonlinear_arith)
            requires
                code == x * 0x1_0000_0000_0000_0000_0000_0000_0000_0000 + be_value(bytes@),
                code < 0x1_0000_0000_0000_0000_0000_0000_0000_0000,
        ;
    }
    bytes
}

} // verus!
