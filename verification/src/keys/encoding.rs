//! The binary form of a public key, as the container format stores it:
//! the 32 seed bytes, the number of coefficients as a little-endian `u64`,
//! then each coefficient as a little-endian `i64` (bincode's fixed-width
//! little-endian layout of `PublicKey`).
use vstd::prelude::*;

verus! {

/// The 8 little-endian bytes of `x`.
pub open spec fn u64_le(x: u64) -> Seq<u8> {
    seq![
        (x & 0xff) as u8,
        ((x >> 8u64) & 0xff) as u8,
        ((x >> 16u64) & 0xff) as u8,
        ((x >> 24u64) & 0xff) as u8,
        ((x >> 32u64) & 0xff) as u8,
        ((x >> 40u64) & 0xff) as u8,
        ((x >> 48u64) & 0xff) as u8,
        ((x >> 56u64) & 0xff) as u8,
    ]
}

/// The `u64` whose little-endian bytes are `bytes[at..at + 8]`.
pub open spec fn u64_from_le(bytes: Seq<u8>, at: int) -> u64 {
    (bytes[at] as u64) | ((bytes[at + 1] as u64) << 8u64) | ((bytes[at + 2] as u64) << 16u64) | ((
    bytes[at + 3] as u64) << 24u64) | ((bytes[at + 4] as u64) << 32u64) | ((bytes[at + 5] as u64)
        << 40u64) | ((bytes[at + 6] as u64) << 48u64) | ((bytes[at + 7] as u64) << 56u64)
}

/// The little-endian bytes of the coefficients, one after the other.
pub open spec fn coeffs_le(b: Seq<i64>) -> Seq<u8>
    decreases b.len(),
{
    if b.len() == 0 {
        Seq::empty()
    } else {
        coeffs_le(b.drop_last()) + u64_le(b.last() as u64)
    }
}

/// The binary form of the public key `(seed, b)`.
pub open spec fn public_key_bytes(seed: Seq<u8>, b: Seq<i64>) -> Seq<u8> {
    seed + u64_le(b.len() as u64) + coeffs_le(b)
}

/// What reading a public key from `bytes` gives: `None` when the bytes end
/// before the seed, the count or the coefficients it announces; bytes after
/// the last coefficient are ignored.
pub open spec fn parsed_public_key(bytes: Seq<u8>) -> Option<(Seq<u8>, Seq<i64>)> {
    if bytes.len() < 40 {
        None
    } else {
        let count = u64_from_le(bytes, 32) as int;
        if bytes.len() < 40 + 8 * count {
            None
        } else {
            Some(
                (
                    bytes.subrange(0, 32),
                    Seq::new(count as nat, |k: int| u64_from_le(bytes, 40 + 8 * k) as i64),
                ),
            )
        }
    }
}

/// Reading back the bytes of a `u64` gives the `u64`.
pub proof fn lemma_u64_le_roundtrip(x: u64, s: Seq<u8>, p: int)
    requires
        0 <= p,
        p + 8 <= s.len(),
        s.subrange(p, p + 8) == u64_le(x),
    ensures
        u64_from_le(s, p) == x,
{
    let w = s.subrange(p, p + 8);
    let b0 = s[p];
    let b1 = s[p + 1];
    let b2 = s[p + 2];
    let b3 = s[p + 3];
    let b4 = s[p + 4];
    let b5 = s[p + 5];
    let b6 = s[p + 6];
    let b7 = s[p + 7];
    assert(b0 == w[0] && b1 == w[1] && b2 == w[2] && b3 == w[3]);
    assert(b4 == w[4] && b5 == w[5] && b6 == w[6] && b7 == w[7]);
    assert((b0 as u64) | ((b1 as u64) << 8u64) | ((b2 as u64) << 16u64) | ((b3 as u64) << 24u64) | ((
    b4 as u64) << 32u64) | ((b5 as u64) << 40u64) | ((b6 as u64) << 48u64) | ((b7 as u64) << 56u64)
        == x) by (bit_vector)
        requires
            b0 == (x & 0xff) as u8,
            b1 == ((x >> 8u64) & 0xff) as u8,
            b2 == ((x >> 16u64) & 0xff) as u8,
            b3 == ((x >> 24u64) & 0xff) as u8,
            b4 == ((x >> 32u64) & 0xff) as u8,
            b5 == ((x >> 40u64) & 0xff) as u8,
            b6 == ((x >> 48u64) & 0xff) as u8,
            b7 == ((x >> 56u64) & 0xff) as u8,
    ;
}

/// Coefficient `k` of `b` occupies bytes `8k .. 8k + 8` of `coeffs_le(b)`.
pub proof fn lemma_coeffs_le_layout(b: Seq<i64>)
    ensures
        coeffs_le(b).len() == 8 * b.len(),
        forall|k: int|
            0 <= k < b.len() ==> #[trigger] coeffs_le(b).subrange(8 * k, 8 * k + 8) == u64_le(
                b[k] as u64,
            ),
    decreases b.len(),
{
    if b.len() > 0 {
        let c = b.drop_last();
        lemma_coeffs_le_layout(c);
        assert forall|k: int| 0 <= k < b.len() implies #[trigger] coeffs_le(b).subrange(
            8 * k,
            8 * k + 8,
        ) == u64_le(b[k] as u64) by {
            if k < c.len() {
                assert(coeffs_le(b).subrange(8 * k, 8 * k + 8) =~= coeffs_le(c).subrange(
                    8 * k,
                    8 * k + 8,
                ));
            } else {
                assert(coeffs_le(b).subrange(8 * k, 8 * k + 8) =~= u64_le(b.last() as u64));
            }
        }
    }
}

/// Reading a public key back from its binary form gives the key.
pub proof fn lemma_public_key_bytes_roundtrip(seed: Seq<u8>, b: Seq<i64>)
    requires
        seed.len() == 32,
        b.len() <= u64::MAX,
    ensures
        parsed_public_key(public_key_bytes(seed, b)) == Some((seed, b)),
{
    let bytes = public_key_bytes(seed, b);
    let n = b.len() as u64;
    lemma_coeffs_le_layout(b);
    assert(bytes.subrange(32, 40) =~= u64_le(n));
    lemma_u64_le_roundtrip(n, bytes, 32);
    assert forall|k: int| 0 <= k < b.len() implies #[trigger] (u64_from_le(bytes, 40 + 8 * k) as i64)
        == b[k] by {
        assert(bytes.subrange(40 + 8 * k, 40 + 8 * k + 8) =~= coeffs_le(b).subrange(8 * k, 8 * k + 8));
        lemma_u64_le_roundtrip(b[k] as u64, bytes, 40 + 8 * k);
        let x = b[k];
        assert((x as u64) as i64 == x) by (bit_vector);
    }
    assert(bytes.subrange(0, 32) =~= seed);
    assert(Seq::new(b.len(), |k: int| u64_from_le(bytes, 40 + 8 * k) as i64) =~= b);
}

/// Appends the little-endian bytes of `x`.
fn push_u64_le(out: &mut Vec<u8>, x: u64)
    ensures
        final(out)@ == old(out)@ + u64_le(x),
{
    let ghost start = out@;
    out.push((x & 0xff) as u8);
    out.push(((x >> 8u64) & 0xff) as u8);
    out.push(((x >> 16u64) & 0xff) as u8);
    out.push(((x >> 24u64) & 0xff) as u8);
    out.push(((x >> 32u64) & 0xff) as u8);
    out.push(((x >> 40u64) & 0xff) as u8);
    out.push(((x >> 48u64) & 0xff) as u8);
    out.push(((x >> 56u64) & 0xff) as u8);
    assert(out@ =~= start + u64_le(x));
}

/// The binary form of the public key `(seed, b)`.
pub fn public_key_to_bytes(seed: &[u8; 32], b: &Vec<i64>) -> (bytes: Vec<u8>)
    ensures
        bytes@ == public_key_bytes(seed@, b@),
{
    let mut bytes: Vec<u8> = Vec::new();
    bytes.extend_from_slice(seed);
    push_u64_le(&mut bytes, b.len() as u64);
    let mut i: usize = 0;
    while i < b.len()
        invariant
            i <= b@.len(),
            bytes@ == seed@ + u64_le(b@.len() as u64) + coeffs_le(b@.subrange(0, i as int)),
        decreases b@.len() - i,
    {
        push_u64_le(&mut bytes, b[i] as u64);
        assert(b@.subrange(0, i + 1).drop_last() =~= b@.subrange(0, i as int));
        i = i + 1;
    }
    assert(b@.subrange(0, b@.len() as int) =~= b@);
    bytes
}

/// Reads the `u64` stored little-endian at `bytes[at..at + 8]`.
fn read_u64_le(bytes: &[u8], at: usize) -> (x: u64)
    requires
        at + 8 <= bytes@.len(),
    ensures
        x == u64_from_le(bytes@, at as int),
{
    (bytes[at] as u64) | ((bytes[at + 1] as u64) << 8u64) | ((bytes[at + 2] as u64) << 16u64) | ((
    bytes[at + 3] as u64) << 24u64) | ((bytes[at + 4] as u64) << 32u64) | ((bytes[at + 5] as u64)
        << 40u64) | ((bytes[at + 6] as u64) << 48u64) | ((bytes[at + 7] as u64) << 56u64)
}

/// Reads a public key from its binary form: `None` when the bytes end too
/// early; bytes after the last coefficient are ignored.
pub fn public_key_from_bytes(bytes: &[u8]) -> (key: Option<([u8; 32], Vec<i64>)>)
    ensures
        match key {
            Some((seed, b)) => parsed_public_key(bytes@) == Some((seed@, b@)),
            None => parsed_public_key(bytes@) is None,
        },
{
    if bytes.len() < 40 {
        return None;
    }
    let count = read_u64_le(bytes, 32);
    let room = (bytes.len() - 40) / 8;
    proof {
        vstd::arithmetic::div_mod::lemma_fundamental_div_mod(bytes@.len() - 40, 8);
    }
    if count > room as u64 {
        return None;
    }
    let count = count as usize;
    let mut seed = [0u8; 32];
    let mut k: usize = 0;
    while k < 32
        invariant
            bytes@.len() >= 40,
            k <= 32,
            forall|t: int| 0 <= t < k ==> seed@[t] == bytes@[t],
        decreases 32 - k,
    {
        seed[k] = bytes[k];
        k = k + 1;
    }
    let mut b: Vec<i64> = Vec::new();
    let mut i: usize = 0;
    while i < count
        invariant
            bytes@.len() >= 40,
            bytes@.len() <= usize::MAX,
            count <= room,
            8 * room <= bytes@.len() - 40,
            i <= count,
            b@.len() == i,
            forall|t: int| 0 <= t < i ==> #[trigger] b@[t] == u64_from_le(bytes@, 40 + 8 * t) as i64,
        decreases count - i,
    {
        b.push(read_u64_le(bytes, 40 + 8 * i) as i64);
        i = i + 1;
    }
    assert(seed@ =~= bytes@.subrange(0, 32));
    assert(b@ =~= Seq::new(count as nat, |t: int| u64_from_le(bytes@, 40 + 8 * t) as i64));
    Some((seed, b))
}

} // verus!
