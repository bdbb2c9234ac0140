//! Small helpers on byte sequences.

use vstd::prelude::*;

verus! {

/// Append all of `src` to `dst`.
pub fn append_bytes(dst: &mut Vec<u8>, src: &[u8])
    ensures
        final(dst)@ == old(dst)@ + src@,
{
    let mut i: usize = 0;
    while i < src.len()
        invariant
            0 <= i <= src@.len(),
            dst@ == old(dst)@ + src@.subrange(0, i as int),
        decreases src@.len() - i,
    {
        dst.push(src[i]);
        assert(src@.subrange(0, i + 1) =~= src@.subrange(0, i as int).push(src@[i as int]));
        i = i + 1;
    }
    assert(src@.subrange(0, src@.len() as int) =~= src@);
}

/// A fresh vector holding `src[start..end]`.
pub fn copy_range(src: &[u8], start: usize, end: usize) -> (r: Vec<u8>)
    requires
        start <= end <= src@.len(),
    ensures
        r@ == src@.subrange(start as int, end as int),
{
    let mut r: Vec<u8> = Vec::new();
    let mut i: usize = start;
    while i < end
        invariant
            start <= i <= end <= src@.len(),
            r@ == src@.subrange(start as int, i as int),
        decreases end - i,
    {
        r.push(src[i]);
        assert(src@.subrange(start as int, i + 1) =~= src@.subrange(start as int, i as int).push(
            src@[i as int],
        ));
        i = i + 1;
    }
    r
}

/// Whether `a[start..start + b.len()]` equals `b`; false where `a` is too short.
pub fn range_equals(a: &[u8], start: usize, b: &[u8]) -> (r: bool)
    ensures
        r <==> start + b@.len() <= a@.len() && a@.subrange(start as int, start + b@.len()) == b@,
{
    if start > a.len() || b.len() > a.len() - start {
        return false;
    }
    let alen = a.len();
    let mut i: usize = 0;
    while i < b.len()
        invariant
            alen == a@.len(),
            start + b@.len() <= a@.len(),
            0 <= i <= b@.len(),
            forall|j: int| 0 <= j < i ==> a@[start + j] == b@[j],
        decreases b@.len() - i,
    {
        if a[start + i] != b[i] {
            assert(a@.subrange(start as int, start + b@.len())[i as int] != b@[i as int]);
            return false;
        }
        i = i + 1;
    }
    assert(a@.subrange(start as int, start + b@.len()) =~= b@);
    true
}

/// The value of eight little-endian bytes starting at `i`.
pub open spec fn le_u64_from(b: Seq<u8>, i: nat) -> nat
    decreases 8 - i,
{
    if i >= 8 {
        0
    } else {
        b[i as int] as nat + 256 * le_u64_from(b, i + 1)
    }
}

/// The little-endian value of the first eight bytes of `b`.
pub open spec fn le_u64_spec(b: Seq<u8>) -> nat {
    le_u64_from(b, 0)
}

/// Eight little-endian bytes for `v`, from byte `i` on.
pub open spec fn le_bytes_from(v: nat, i: nat) -> Seq<u8>
    decreases 8 - i,
{
    if i >= 8 {
        Seq::empty()
    } else {
        seq![(v % 256) as u8] + le_bytes_from(v / 256, i + 1)
    }
}

/// The eight little-endian bytes of `v`.
pub open spec fn le_bytes_spec(v: u64) -> Seq<u8> {
    le_bytes_from(v as nat, 0)
}

pub open spec fn pow256(n: nat) -> nat
    decreases n,
{
    if n == 0 {
        1
    } else {
        256 * pow256((n - 1) as nat)
    }
}

proof fn lemma_le_bound(b: Seq<u8>, i: nat)
    requires
        i <= 8,
        b.len() >= 8,
    ensures
        le_u64_from(b, i) < pow256((8 - i) as nat),
    decreases 8 - i,
{
    if i < 8 {
        lemma_le_bound(b, i + 1);
        assert(pow256((8 - i) as nat) == 256 * pow256((8 - i - 1) as nat));
        assert(b[i as int] as nat + 256 * le_u64_from(b, i + 1) < 256 * pow256((8 - i - 1) as nat))
            by (nonlinear_arith)
            requires
                b[i as int] < 256,
                le_u64_from(b, i + 1) < pow256((8 - i - 1) as nat),
        ;
    }
}

/// Read eight little-endian bytes of `b` starting at `start`.
pub fn read_le_u64(b: &[u8], start: usize) -> (r: u64)
    requires
        start + 8 <= b@.len(),
    ensures
        r == le_u64_spec(b@.subrange(start as int, start + 8)),
{
    let ghost s = b@.subrange(start as int, start + 8);
    proof {
        lemma_le_bound(s, 0);
        reveal_with_fuel(pow256, 9);
    }
    let blen = b.len();
    let mut v: u64 = 0;
    let mut i: usize = 8;
    while i > 0
        invariant
            blen == b@.len(),
            0 <= i <= 8,
            start + 8 <= b@.len(),
            s == b@.subrange(start as int, start + 8),
            v == le_u64_from(s, i as nat),
            le_u64_from(s, 0) < 0x1_0000_0000_0000_0000,
        decreases i,
    {
        i = i - 1;
        proof {
            lemma_le_bound(s, i as nat);
            lemma_pow256_le((8 - i) as nat, 8);
            reveal_with_fuel(pow256, 9);
        }
        assert(s[i as int] == b[start + i]);
        v = b[start + i] as u64 + 256 * v;
    }
    v
}

proof fn lemma_pow256_le(a: nat, b: nat)
    requires
        a <= b,
    ensures
        pow256(a) <= pow256(b),
    decreases b - a,
{
    if a < b {
        lemma_pow256_le(a, (b - 1) as nat);
    }
}

/// Append the eight little-endian bytes of `v`.
pub fn push_le_u64(dst: &mut Vec<u8>, v: u64)
    ensures
        final(dst)@ == old(dst)@ + le_bytes_spec(v),
{
    let mut x: u64 = v;
    let mut i: usize = 0;
    while i < 8
        invariant
            0 <= i <= 8,
            dst@ + le_bytes_from(x as nat, i as nat) == old(dst)@ + le_bytes_spec(v),
        decreases 8 - i,
    {
        let ghost d = dst@;
        dst.push((x % 256) as u8);
        assert(dst@ + le_bytes_from((x / 256) as nat, (i + 1) as nat) =~= d + le_bytes_from(
            x as nat,
            i as nat,
        ));
        x = x / 256;
        i = i + 1;
    }
    assert(dst@ + le_bytes_from(x as nat, 8) =~= dst@);
}

proof fn lemma_pow256_pos(n: nat)
    ensures
        pow256(n) > 0,
    decreases n,
{
    if n > 0 {
        lemma_pow256_pos((n - 1) as nat);
    }
}

proof fn lemma_le_read_write(p: Seq<u8>, w: nat)
    requires
        p.len() <= 8,
    ensures
        le_u64_from(p + le_bytes_from(w, p.len()), p.len()) == w % pow256((8 - p.len()) as nat),
        (p + le_bytes_from(w, p.len())).len() == 8,
    decreases 8 - p.len(),
{
    let i = p.len();
    if i < 8 {
        let b = (w % 256) as u8;
        let p2 = p.push(b);
        assert(p + le_bytes_from(w, i) =~= p2 + le_bytes_from(w / 256, i + 1));
        lemma_le_read_write(p2, w / 256);
        assert((p + le_bytes_from(w, i))[i as int] == b);
        lemma_pow256_pos((8 - i - 1) as nat);
        assert(pow256((8 - i) as nat) == 256 * pow256((8 - i - 1) as nat));
        vstd::arithmetic::div_mod::lemma_mod_breakdown(w as int, 256, pow256((8 - i - 1) as nat) as int);
    } else {
        assert(p + le_bytes_from(w, i) =~= p);
        assert(w % 1 == 0);
    }
}

/// Reading back eight little-endian bytes gives the value written.
pub proof fn lemma_le_u64_round_trip(v: u64)
    ensures
        le_u64_spec(le_bytes_spec(v)) == v,
        le_bytes_spec(v).len() == 8,
{
    let e = Seq::<u8>::empty();
    lemma_le_read_write(e, v as nat);
    assert(e + le_bytes_from(v as nat, 0) =~= le_bytes_spec(v));
    reveal_with_fuel(pow256, 9);
    vstd::arithmetic::div_mod::lemma_small_mod(v as nat, pow256(8));
}

} // verus!
