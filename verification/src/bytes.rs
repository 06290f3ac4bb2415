//! Byte strings: numeric readings, comparison, exclusive or and bits.

use vstd::prelude::*;

verus! {

/// The number that a byte string denotes when read big-endian.
pub open spec fn be_nat(s: Seq<u8>) -> nat
    decreases s.len(),
{
    if s.len() == 0 {
        0
    } else {
        be_nat(s.drop_last()) * 256 + s.last() as nat
    }
}

/// The number that a byte string denotes when read little-endian.
pub open spec fn le_nat(s: Seq<u8>) -> nat
    decreases s.len(),
{
    if s.len() == 0 {
        0
    } else {
        s[0] as nat + 256 * le_nat(s.drop_first())
    }
}

/// Every byte of `s` is zero.
pub open spec fn all_zero(s: Seq<u8>) -> bool {
    forall|i: int| 0 <= i < s.len() ==> s[i] == 0u8
}

/// The bytewise exclusive or of two strings of the same length.
pub open spec fn xor_seq(a: Seq<u8>, b: Seq<u8>) -> Seq<u8> {
    Seq::new(a.len(), |i: int| a[i] ^ b[i])
}

/// The bit `j` (0 is the most significant) of the byte `b`.
pub open spec fn bit_of(b: u8, j: int) -> bool {
    (b >> ((7 - j) as u8)) & 1u8 == 1u8
}

/// The bits of a byte string, most significant bit of each byte first.
pub open spec fn bits_of(s: Seq<u8>) -> Seq<bool> {
    Seq::new(s.len() * 8, |k: int| bit_of(s[k / 8], k % 8))
}

/// The concatenation of `f` applied to each element of `s`, in order.
pub open spec fn concat_map<T>(s: Seq<T>, f: spec_fn(T) -> Seq<u8>) -> Seq<u8>
    decreases s.len(),
{
    if s.len() == 0 {
        Seq::empty()
    } else {
        concat_map(s.drop_last(), f) + f(s.last())
    }
}

/// One more element adds its image at the end.
pub proof fn lemma_concat_map_take<T>(s: Seq<T>, f: spec_fn(T) -> Seq<u8>, i: int)
    requires
        0 <= i < s.len(),
    ensures
        concat_map(s.take(i + 1), f) == concat_map(s.take(i), f) + f(s[i]),
{
    assert(s.take(i + 1).drop_last() =~= s.take(i));
}

/// The image of a concatenation is the concatenation of the images.
pub proof fn lemma_concat_map_add<T>(a: Seq<T>, b: Seq<T>, f: spec_fn(T) -> Seq<u8>)
    ensures
        concat_map(a + b, f) == concat_map(a, f) + concat_map(b, f),
    decreases b.len(),
{
    if b.len() == 0 {
        assert(a + b =~= a);
        assert(concat_map(a, f) + concat_map(b, f) =~= concat_map(a, f));
    } else {
        assert((a + b).drop_last() =~= a + b.drop_last());
        lemma_concat_map_add(a, b.drop_last(), f);
        assert(concat_map(a, f) + concat_map(b, f) =~= concat_map(a, f) + concat_map(b.drop_last(), f) + f(b.last()));
    }
}

/// Mapping rows row by row is mapping their flattening.
pub proof fn lemma_concat_map_rows<T>(rows: Seq<Seq<T>>, f: spec_fn(T) -> Seq<u8>)
    ensures
        concat_map(rows, |row: Seq<T>| concat_map(row, f)) == concat_map(rows.flatten(), f),
    decreases rows.len(),
{
    rows.lemma_flatten_and_flatten_alt_are_equivalent();
    if rows.len() == 0 {
        assert(rows.flatten_alt() =~= Seq::<T>::empty());
    } else {
        lemma_concat_map_rows(rows.drop_last(), f);
        rows.drop_last().lemma_flatten_and_flatten_alt_are_equivalent();
        lemma_concat_map_add(rows.drop_last().flatten_alt(), rows.last(), f);
    }
}

/// Two strings of one length that denote the same number are equal.
pub proof fn lemma_be_nat_injective(a: Seq<u8>, b: Seq<u8>)
    requires
        a.len() == b.len(),
        be_nat(a) == be_nat(b),
    ensures
        a == b,
    decreases a.len(),
{
    if a.len() > 0 {
        let x = be_nat(a.drop_last());
        let y = be_nat(b.drop_last());
        let u = a.last() as int;
        let v = b.last() as int;
        assert(x * 256 + u == y * 256 + v);
        assert(x == y && u == v) by (nonlinear_arith)
            requires
                x * 256 + u == y * 256 + v,
                0 <= u < 256,
                0 <= v < 256,
                x >= 0,
                y >= 0,
        ;
        lemma_be_nat_injective(a.drop_last(), b.drop_last());
        assert(a =~= a.drop_last().push(a.last()));
        assert(b =~= b.drop_last().push(b.last()));
    }
}

/// A string denotes zero exactly when all its bytes are zero.
pub proof fn lemma_be_nat_zero(s: Seq<u8>)
    ensures
        (be_nat(s) == 0) <==> all_zero(s),
    decreases s.len(),
{
    if s.len() > 0 {
        lemma_be_nat_zero(s.drop_last());
        if all_zero(s) {
            assert(all_zero(s.drop_last()));
        }
        if be_nat(s) == 0 {
            assert forall|i: int| 0 <= i < s.len() implies s[i] == 0u8 by {
                if i < s.len() - 1 {
                    assert(s.drop_last()[i] == s[i]);
                }
            }
        }
    }
}

/// Exclusive or with the same pad twice gives the string back.
pub proof fn lemma_xor_twice(a: Seq<u8>, b: Seq<u8>)
    requires
        a.len() == b.len(),
    ensures
        xor_seq(a, xor_seq(a, b)) == b,
{
    assert forall|i: int| 0 <= i < a.len() implies #[trigger] xor_seq(a, xor_seq(a, b))[i] == b[i] by {
        let x = a[i];
        let y = b[i];
        assert(x ^ (x ^ y) == y) by (bit_vector);
    }
    assert(xor_seq(a, xor_seq(a, b)) =~= b);
}

/// Whether two byte strings are equal.
pub fn bytes_eq(a: &[u8], b: &[u8]) -> (r: bool)
    ensures
        r == (a@ == b@),
{
    if a.len() != b.len() {
        return false;
    }
    let n: usize = a.len();
    let mut i: usize = 0;
    while i < n
        invariant
            n == a@.len(),
            n == b@.len(),
            i <= n,
            forall|k: int| 0 <= k < i ==> a@[k] == b@[k],
        decreases n - i,
    {
        if a[i] != b[i] {
            return false;
        }
        i = i + 1;
    }
    assert(a@ =~= b@);
    true
}

/// Whether every byte of `a` is zero.
pub fn is_all_zero(a: &[u8]) -> (r: bool)
    ensures
        r == all_zero(a@),
{
    let n: usize = a.len();
    let mut i: usize = 0;
    while i < n
        invariant
            n == a@.len(),
            i <= n,
            forall|k: int| 0 <= k < i ==> a@[k] == 0u8,
        decreases n - i,
    {
        if a[i] != 0u8 {
            return false;
        }
        i = i + 1;
    }
    true
}

/// The bytewise exclusive or of two 32-byte strings.
pub fn xor32(a: &[u8; 32], b: &[u8; 32]) -> (r: [u8; 32])
    ensures
        r@ == xor_seq(a@, b@),
{
    let mut r: [u8; 32] = *a;
    let mut i: usize = 0;
    while i < 32
        invariant
            i <= 32,
            r@.len() == 32,
            a@.len() == 32,
            b@.len() == 32,
            forall|k: int| 0 <= k < i ==> r@[k] == a@[k] ^ b@[k],
            forall|k: int| i <= k < 32 ==> r@[k] == a@[k],
        decreases 32 - i,
    {
        r[i] = a[i] ^ b[i];
        i = i + 1;
    }
    assert(r@ =~= xor_seq(a@, b@));
    r
}

/// Appends the bytes of `s` to `v`.
pub fn push_all(v: &mut Vec<u8>, s: &[u8])
    ensures
        final(v)@ == old(v)@ + s@,
{
    let n: usize = s.len();
    let mut i: usize = 0;
    while i < n
        invariant
            n == s@.len(),
            i <= n,
            v@ == old(v)@ + s@.take(i as int),
        decreases n - i,
    {
        v.push(s[i]);
        i = i + 1;
        assert(s@.take(i as int) =~= s@.take(i - 1).push(s@[i - 1]));
    }
    assert(s@.take(n as int) =~= s@);
}

/// The bits of `bytes`, eight per byte, most significant bit first.
pub fn bytes_to_bits(bytes: &[u8]) -> (bits: Vec<bool>)
    requires
        bytes@.len() * 8 <= usize::MAX,
    ensures
        bits@ == bits_of(bytes@),
{
    let mut bits: Vec<bool> = Vec::new();
    let n: usize = bytes.len();
    let mut k: usize = 0;
    while k < n
        invariant
            n == bytes@.len(),
            n * 8 <= usize::MAX,
            k <= n,
            bits@.len() == k * 8,
            forall|t: int| 0 <= t < k * 8 ==> bits@[t] == bit_of(bytes@[t / 8], t % 8),
        decreases n - k,
    {
        let byte: u8 = bytes[k];
        let mut i: u8 = 0;
        while i < 8
            invariant
                i <= 8,
                k < n,
                n * 8 <= usize::MAX,
                byte == bytes@[k as int],
                bits@.len() == k * 8 + i,
                forall|t: int| 0 <= t < k * 8 + i ==> bits@[t] == bit_of(bytes@[t / 8], t % 8),
            decreases 8 - i,
        {
            bits.push((byte >> (7 - i)) & 1 == 1);
            proof {
                let t = k * 8 + i;
                assert(t / 8 == k as int && t % 8 == i as int);
            }
            i = i + 1;
        }
        k = k + 1;
    }
    assert(bits@ =~= bits_of(bytes@));
    bits
}

} // verus!
