use vstd::prelude::*;

verus! {

/// Little-endian encoding of a 32-bit value, one byte per element.
pub open spec fn u32_le_bytes(x: u32) -> Seq<u8> {
    seq![
        (x & 0xff) as u8,
        ((x >> 8u32) & 0xff) as u8,
        ((x >> 16u32) & 0xff) as u8,
        ((x >> 24u32) & 0xff) as u8,
    ]
}

/// The 32-bit value read back from four little-endian bytes.
pub open spec fn le_to_u32(s: Seq<u8>) -> u32
    recommends
        s.len() == 4,
{
    (s[0] as u32) | ((s[1] as u32) << 8u32) | ((s[2] as u32) << 16u32) | ((s[3] as u32)
        << 24u32)
}

/// Reading back the four bytes of a value yields the value.
pub proof fn lemma_u32_le_roundtrip(x: u32)
    ensures
        le_to_u32(u32_le_bytes(x)) == x,
{
    assert((((x & 0xff) as u8) as u32) | ((((x >> 8u32) & 0xff) as u8) as u32) << 8u32 | ((((x
        >> 16u32) & 0xff) as u8) as u32) << 16u32 | ((((x >> 24u32) & 0xff) as u8) as u32)
        << 24u32 == x) by (bit_vector);
}

/// Encode a 32-bit value as four little-endian bytes.
pub fn encode_u32(x: u32) -> (r: Vec<u8>)
    ensures
        r@ == u32_le_bytes(x),
{
    let mut v: Vec<u8> = Vec::new();
    v.push((x & 0xff) as u8);
    v.push(((x >> 8u32) & 0xff) as u8);
    v.push(((x >> 16u32) & 0xff) as u8);
    v.push(((x >> 24u32) & 0xff) as u8);
    proof {
        assert(v@ =~= u32_le_bytes(x));
    }
    v
}

/// Decode four little-endian bytes; any other length is rejected.
pub fn decode_u32(v: &Vec<u8>) -> (r: Option<u32>)
    ensures
        v@.len() == 4 ==> r == Some(le_to_u32(v@)),
        v@.len() != 4 ==> r is None,
{
    if v.len() != 4 {
        return None;
    }
    let b0 = v[0] as u32;
    let b1 = v[1] as u32;
    let b2 = v[2] as u32;
    let b3 = v[3] as u32;
    Some(b0 | (b1 << 8u32) | (b2 << 16u32) | (b3 << 24u32))
}

/// Little-endian encoding of a 128-bit value, one byte per element.
pub open spec fn u128_le_bytes(x: u128) -> Seq<u8> {
    seq![
        (x & 0xff) as u8,
        ((x >> 8u128) & 0xff) as u8,
        ((x >> 16u128) & 0xff) as u8,
        ((x >> 24u128) & 0xff) as u8,
        ((x >> 32u128) & 0xff) as u8,
        ((x >> 40u128) & 0xff) as u8,
        ((x >> 48u128) & 0xff) as u8,
        ((x >> 56u128) & 0xff) as u8,
        ((x >> 64u128) & 0xff) as u8,
        ((x >> 72u128) & 0xff) as u8,
        ((x >> 80u128) & 0xff) as u8,
        ((x >> 88u128) & 0xff) as u8,
        ((x >> 96u128) & 0xff) as u8,
        ((x >> 104u128) & 0xff) as u8,
        ((x >> 112u128) & 0xff) as u8,
        ((x >> 120u128) & 0xff) as u8,
    ]
}

/// The 128-bit value read back from sixteen little-endian bytes.
pub open spec fn le_to_u128(s: Seq<u8>) -> u128
    recommends
        s.len() == 16,
{
    (s[0] as u128) | ((s[1] as u128) << 8u128) | ((s[2] as u128) << 16u128) | ((s[3] as u128)
        << 24u128) | ((s[4] as u128) << 32u128) | ((s[5] as u128) << 40u128) | ((s[6] as u128)
        << 48u128) | ((s[7] as u128) << 56u128) | ((s[8] as u128) << 64u128) | ((s[9] as u128)
        << 72u128) | ((s[10] as u128) << 80u128) | ((s[11] as u128) << 88u128) | ((s[12] as u128)
        << 96u128) | ((s[13] as u128) << 104u128) | ((s[14] as u128) << 112u128) | ((s[15] as u128)
        << 120u128)
}

/// Reading back the sixteen bytes of a value yields the value.
pub proof fn lemma_u128_le_roundtrip(x: u128)
    ensures
        le_to_u128(u128_le_bytes(x)) == x,
{
    assert((((x & 0xff) as u8) as u128) | ((((x >> 8u128) & 0xff) as u8) as u128) << 8u128 | ((((x
        >> 16u128) & 0xff) as u8) as u128) << 16u128 | ((((x >> 24u128) & 0xff) as u8) as u128)
        << 24u128 | ((((x >> 32u128) & 0xff) as u8) as u128) << 32u128 | ((((x >> 40u128)
        & 0xff) as u8) as u128) << 40u128 | ((((x >> 48u128) & 0xff) as u8) as u128) << 48u128 | ((((x
        >> 56u128) & 0xff) as u8) as u128) << 56u128 | ((((x >> 64u128) & 0xff) as u8) as u128)
        << 64u128 | ((((x >> 72u128) & 0xff) as u8) as u128) << 72u128 | ((((x >> 80u128)
        & 0xff) as u8) as u128) << 80u128 | ((((x >> 88u128) & 0xff) as u8) as u128) << 88u128 | ((((x
        >> 96u128) & 0xff) as u8) as u128) << 96u128 | ((((x >> 104u128) & 0xff) as u8) as u128)
        << 104u128 | ((((x >> 112u128) & 0xff) as u8) as u128) << 112u128 | ((((x >> 120u128)
        & 0xff) as u8) as u128) << 120u128 == x) by (bit_vector);
}

/// Encode a 128-bit value as sixteen little-endian bytes.
pub fn encode_u128(x: u128) -> (r: Vec<u8>)
    ensures
        r@ == u128_le_bytes(x),
{
    let mut v: Vec<u8> = Vec::new();
    v.push((x & 0xff) as u8);
    v.push(((x >> 8u128) & 0xff) as u8);
    v.push(((x >> 16u128) & 0xff) as u8);
    v.push(((x >> 24u128) & 0xff) as u8);
    v.push(((x >> 32u128) & 0xff) as u8);
    v.push(((x >> 40u128) & 0xff) as u8);
    v.push(((x >> 48u128) & 0xff) as u8);
    v.push(((x >> 56u128) & 0xff) as u8);
    v.push(((x >> 64u128) & 0xff) as u8);
    v.push(((x >> 72u128) & 0xff) as u8);
    v.push(((x >> 80u128) & 0xff) as u8);
    v.push(((x >> 88u128) & 0xff) as u8);
    v.push(((x >> 96u128) & 0xff) as u8);
    v.push(((x >> 104u128) & 0xff) as u8);
    v.push(((x >> 112u128) & 0xff) as u8);
    v.push(((x >> 120u128) & 0xff) as u8);
    proof {
        assert(v@ =~= u128_le_bytes(x));
    }
    v
}

/// Decode sixteen little-endian bytes; any other length is rejected.
pub fn decode_u128(v: &Vec<u8>) -> (r: Option<u128>)
    ensures
        v@.len() == 16 ==> r == Some(le_to_u128(v@)),
        v@.len() != 16 ==> r is None,
{
    if v.len() != 16 {
        return None;
    }
    let r = (v[0] as u128) | ((v[1] as u128) << 8u128) | ((v[2] as u128) << 16u128) | ((
    v[3] as u128) << 24u128) | ((v[4] as u128) << 32u128) | ((v[5] as u128) << 40u128) | ((
    v[6] as u128) << 48u128) | ((v[7] as u128) << 56u128) | ((v[8] as u128) << 64u128) | ((
    v[9] as u128) << 72u128) | ((v[10] as u128) << 80u128) | ((v[11] as u128) << 88u128) | ((
    v[12] as u128) << 96u128) | ((v[13] as u128) << 104u128) | ((v[14] as u128) << 112u128) | ((
    v[15] as u128) << 120u128);
    Some(r)
}

/// Copy a byte vector element by element.
pub fn clone_bytes(v: &Vec<u8>) -> (r: Vec<u8>)
    ensures
        r@ == v@,
{
    let mut r: Vec<u8> = Vec::new();
    let mut i: usize = 0;
    while i < v.len()
        invariant
            i <= v@.len(),
            r@ == v@.subrange(0, i as int),
        decreases v@.len() - i,
    {
        r.push(v[i]);
        proof {
            assert(r@ =~= v@.subrange(0, i + 1));
        }
        i = i + 1;
    }
    proof {
        assert(v@.subrange(0, v@.len() as int) =~= v@);
    }
    r
}

/// Whether two byte vectors hold the same bytes.
pub fn bytes_eq(a: &Vec<u8>, b: &Vec<u8>) -> (r: bool)
    ensures
        r == (a@ == b@),
{
    if a.len() != b.len() {
        return false;
    }
    let mut i: usize = 0;
    while i < a.len()
        invariant
            i <= a@.len(),
            a@.len() == b@.len(),
            forall|j: int| 0 <= j < i ==> a@[j] == b@[j],
        decreases a@.len() - i,
    {
        if a[i] != b[i] {
            return false;
        }
        i = i + 1;
    }
    proof {
        assert(a@ =~= b@);
    }
    true
}

} // verus!
