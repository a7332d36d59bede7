//! The canonical byte encoding of an (identity, amount, salt) triple.
use vstd::prelude::*;

verus! {

/// The amount as exactly 16 bytes, big-endian, two's complement.
pub open spec fn amount_be_bytes(amount: i128) -> Seq<u8> {
    Seq::new(16, |k: int| ((amount as u128) >> ((120 - 8 * k) as u32)) as u8)
}

/// The identity's bytes, then the 16-byte big-endian amount, then the salt,
/// with nothing between the segments.
pub open spec fn canonical_encoding(identity: Seq<u8>, amount: i128, salt: Seq<u8>) -> Seq<u8> {
    identity + amount_be_bytes(amount) + salt
}

/// Two non-negative amounts with the same 16 big-endian bytes are equal.
proof fn lemma_amount_bytes_injective(a: i128, b: i128)
    requires
        a >= 0,
        b >= 0,
        amount_be_bytes(a) == amount_be_bytes(b),
    ensures
        a == b,
{
    let x = a as u128;
    let y = b as u128;
    assert(amount_be_bytes(a)[0] == (x >> 120u32) as u8);
    assert(amount_be_bytes(b)[0] == (y >> 120u32) as u8);
    assert(amount_be_bytes(a)[1] == (x >> 112u32) as u8);
    assert(amount_be_bytes(b)[1] == (y >> 112u32) as u8);
    assert(amount_be_bytes(a)[2] == (x >> 104u32) as u8);
    assert(amount_be_bytes(b)[2] == (y >> 104u32) as u8);
    assert(amount_be_bytes(a)[3] == (x >> 96u32) as u8);
    assert(amount_be_bytes(b)[3] == (y >> 96u32) as u8);
    assert(amount_be_bytes(a)[4] == (x >> 88u32) as u8);
    assert(amount_be_bytes(b)[4] == (y >> 88u32) as u8);
    assert(amount_be_bytes(a)[5] == (x >> 80u32) as u8);
    assert(amount_be_bytes(b)[5] == (y >> 80u32) as u8);
    assert(amount_be_bytes(a)[6] == (x >> 72u32) as u8);
    assert(amount_be_bytes(b)[6] == (y >> 72u32) as u8);
    assert(amount_be_bytes(a)[7] == (x >> 64u32) as u8);
    assert(amount_be_bytes(b)[7] == (y >> 64u32) as u8);
    assert(amount_be_bytes(a)[8] == (x >> 56u32) as u8);
    assert(amount_be_bytes(b)[8] == (y >> 56u32) as u8);
    assert(amount_be_bytes(a)[9] == (x >> 48u32) as u8);
    assert(amount_be_bytes(b)[9] == (y >> 48u32) as u8);
    assert(amount_be_bytes(a)[10] == (x >> 40u32) as u8);
    assert(amount_be_bytes(b)[10] == (y >> 40u32) as u8);
    assert(amount_be_bytes(a)[11] == (x >> 32u32) as u8);
    assert(amount_be_bytes(b)[11] == (y >> 32u32) as u8);
    assert(amount_be_bytes(a)[12] == (x >> 24u32) as u8);
    assert(amount_be_bytes(b)[12] == (y >> 24u32) as u8);
    assert(amount_be_bytes(a)[13] == (x >> 16u32) as u8);
    assert(amount_be_bytes(b)[13] == (y >> 16u32) as u8);
    assert(amount_be_bytes(a)[14] == (x >> 8u32) as u8);
    assert(amount_be_bytes(b)[14] == (y >> 8u32) as u8);
    assert(amount_be_bytes(a)[15] == (x >> 0u32) as u8);
    assert(amount_be_bytes(b)[15] == (y >> 0u32) as u8);
    assert(x == y) by (bit_vector)
        requires
            (x >> 120u32) as u8 == (y >> 120u32) as u8,
            (x >> 112u32) as u8 == (y >> 112u32) as u8,
            (x >> 104u32) as u8 == (y >> 104u32) as u8,
            (x >> 96u32) as u8 == (y >> 96u32) as u8,
            (x >> 88u32) as u8 == (y >> 88u32) as u8,
            (x >> 80u32) as u8 == (y >> 80u32) as u8,
            (x >> 72u32) as u8 == (y >> 72u32) as u8,
            (x >> 64u32) as u8 == (y >> 64u32) as u8,
            (x >> 56u32) as u8 == (y >> 56u32) as u8,
            (x >> 48u32) as u8 == (y >> 48u32) as u8,
            (x >> 40u32) as u8 == (y >> 40u32) as u8,
            (x >> 32u32) as u8 == (y >> 32u32) as u8,
            (x >> 24u32) as u8 == (y >> 24u32) as u8,
            (x >> 16u32) as u8 == (y >> 16u32) as u8,
            (x >> 8u32) as u8 == (y >> 8u32) as u8,
            (x >> 0u32) as u8 == (y >> 0u32) as u8,
    ;
}

/// With identities of one length, the encoding tells triples apart: two
/// valid triples with the same encoding have the same identity, amount and
/// salt.
pub proof fn lemma_encoding_injective(
    identity1: Seq<u8>,
    amount1: i128,
    salt1: Seq<u8>,
    identity2: Seq<u8>,
    amount2: i128,
    salt2: Seq<u8>,
)
    requires
        identity1.len() == identity2.len(),
        amount1 >= 0,
        amount2 >= 0,
        canonical_encoding(identity1, amount1, salt1) == canonical_encoding(identity2, amount2, salt2),
    ensures
        identity1 == identity2,
        amount1 == amount2,
        salt1 == salt2,
{
    let e = canonical_encoding(identity1, amount1, salt1);
    let n = identity1.len() as int;
    assert(e.subrange(0, n) =~= identity1);
    assert(canonical_encoding(identity2, amount2, salt2).subrange(0, n) =~= identity2);
    assert(e.subrange(n, n + 16) =~= amount_be_bytes(amount1));
    assert(canonical_encoding(identity2, amount2, salt2).subrange(n, n + 16) =~= amount_be_bytes(amount2));
    assert(e.subrange(n + 16, e.len() as int) =~= salt1);
    assert(canonical_encoding(identity2, amount2, salt2).subrange(n + 16, e.len() as int) =~= salt2);
    lemma_amount_bytes_injective(amount1, amount2);
}

/// Appends a segment of bytes to the end of a buffer.
pub(crate) fn extend_bytes(buf: &mut Vec<u8>, bytes: &[u8])
    ensures
        final(buf)@ == old(buf)@ + bytes@,
{
    let mut i: usize = 0;
    while i < bytes.len()
        invariant
            i <= bytes@.len(),
            buf@ == old(buf)@ + bytes@.take(i as int),
        decreases bytes@.len() - i,
    {
        buf.push(bytes[i]);
        i = i + 1;
        assert(bytes@.take(i as int) == bytes@.take(i - 1) + seq![bytes@[i - 1]]);
    }
    assert(bytes@.take(bytes@.len() as int) == bytes@);
}

/// Appends the 16 big-endian bytes of `amount` to a buffer.
fn extend_amount(buf: &mut Vec<u8>, amount: i128)
    ensures
        final(buf)@ == old(buf)@ + amount_be_bytes(amount),
{
    let v: u128 = amount as u128;
    let mut k: usize = 0;
    while k < 16
        invariant
            k <= 16,
            v == amount as u128,
            buf@ == old(buf)@ + amount_be_bytes(amount).take(k as int),
        decreases 16 - k,
    {
        let shift: u32 = (120 - 8 * k) as u32;
        buf.push((v >> shift) as u8);
        k = k + 1;
        assert(amount_be_bytes(amount).take(k as int) == amount_be_bytes(amount).take(k - 1) + seq![
            amount_be_bytes(amount)[k - 1],
        ]);
    }
    assert(amount_be_bytes(amount).take(16) == amount_be_bytes(amount));
}

/// Compares two byte strings over their whole length, without stopping at
/// the first difference.
pub fn bytes_equal(a: &[u8], b: &[u8]) -> (r: bool)
    ensures
        r == (a@ == b@),
{
    if a.len() != b.len() {
        return false;
    }
    let mut same = true;
    let mut i: usize = 0;
    assert(a@.take(0) =~= b@.take(0));
    while i < a.len()
        invariant
            a@.len() == b@.len(),
            i <= a@.len(),
            same == (a@.take(i as int) == b@.take(i as int)),
        decreases a@.len() - i,
    {
        if a[i] != b[i] {
            same = false;
        }
        i = i + 1;
        proof {
            let ai = a@.take(i as int);
            let bi = b@.take(i as int);
            assert(ai.take(i - 1) == a@.take(i - 1));
            assert(bi.take(i - 1) == b@.take(i - 1));
            assert(ai[i - 1] == a@[i - 1] && bi[i - 1] == b@[i - 1]);
            if a@.take(i - 1) == b@.take(i - 1) && a@[i - 1] == b@[i - 1] {
                assert(ai =~= bi);
            }
        }
    }
    assert(a@.take(a@.len() as int) == a@);
    assert(b@.take(b@.len() as int) == b@);
    same
}

/// Builds the canonical encoding in one growable buffer.
pub fn encode(identity: &[u8], amount: i128, salt: &[u8]) -> (r: Vec<u8>)
    ensures
        r@ == canonical_encoding(identity@, amount, salt@),
{
    let mut buf: Vec<u8> = Vec::new();
    extend_bytes(&mut buf, identity);
    extend_amount(&mut buf, amount);
    extend_bytes(&mut buf, salt);
    buf
}

} // verus!
