//! DER encoding of 64-byte compact ECDSA signatures, and validation of the
//! encoded form.
use vstd::prelude::*;

verus! {

/// Longest acceptable DER signature: two 33-byte INTEGER bodies plus six
/// framing bytes.
pub const MAX_DER_SIGNATURE_LEN: usize = 72;

/// Drops the leading zero bytes of a big-endian integer.
pub open spec fn strip_leading_zeros(s: Seq<u8>) -> Seq<u8>
    decreases s.len(),
{
    if s.len() > 0 && s[0] == 0 {
        strip_leading_zeros(s.drop_first())
    } else {
        s
    }
}

/// The body of a DER INTEGER holding the unsigned big-endian value `s`:
/// minimal length, with a single zero byte re-added when the leading byte
/// would otherwise read as a sign bit.
pub open spec fn der_integer_body(s: Seq<u8>) -> Seq<u8> {
    let t = strip_leading_zeros(s);
    if t.len() == 0 {
        seq![0u8]
    } else if t[0] >= 0x80 {
        seq![0u8] + t
    } else {
        t
    }
}

/// The DER encoding of a 64-byte compact signature: a SEQUENCE of the two
/// INTEGERs `r` (first 32 bytes) and `s` (last 32 bytes).
pub open spec fn sec1_der(sig: Seq<u8>) -> Seq<u8>
    recommends
        sig.len() == 64,
{
    let r = der_integer_body(sig.subrange(0, 32));
    let s = der_integer_body(sig.subrange(32, 64));
    seq![0x30u8, (r.len() + s.len() + 4) as u8, 0x02u8, r.len() as u8] + r
        + seq![0x02u8, s.len() as u8] + s
}

/// Holds when `bytes` is exactly one DER SEQUENCE of exactly two INTEGERs,
/// no longer than [`MAX_DER_SIGNATURE_LEN`].
pub open spec fn valid_der_signature(bytes: Seq<u8>) -> bool {
    &&& bytes.len() >= 8
    &&& bytes.len() <= MAX_DER_SIGNATURE_LEN
    &&& bytes[0] == 0x30
    &&& bytes[1] == bytes.len() - 2
    &&& bytes[2] == 0x02
    &&& 1 <= bytes[3]
    &&& 4 + bytes[3] + 2 <= bytes.len()
    &&& bytes[4 + bytes[3]] == 0x02
    &&& 1 <= bytes[5 + bytes[3]]
    &&& 6 + bytes[3] + bytes[5 + bytes[3]] == bytes.len()
}

pub proof fn lemma_strip_leading_zeros_len(s: Seq<u8>)
    ensures
        strip_leading_zeros(s).len() <= s.len(),
        strip_leading_zeros(s).len() > 0 ==> strip_leading_zeros(s)[0] != 0,
    decreases s.len(),
{
    if s.len() > 0 && s[0] == 0 {
        lemma_strip_leading_zeros_len(s.drop_first());
    }
}

/// A validated DER signature derived from a 64-byte compact signature.
#[derive(Clone, Debug, PartialEq, Eq)]
pub struct EncodedSignature(pub Vec<u8>);

/// Strips the leading zero bytes of `sig[lo..lo+32]` and pushes the DER
/// INTEGER body for that value onto `out`.
fn push_der_integer_body(out: &mut Vec<u8>, sig: &[u8], lo: usize)
    requires
        lo + 32 <= sig@.len(),
    ensures
        final(out)@ == old(out)@ + der_integer_body(sig@.subrange(lo as int, lo + 32)),
{
    let ghost full = sig@.subrange(lo as int, lo + 32);
    let n = sig.len();
    let hi = lo + 32;
    let mut start: usize = lo;
    while start < hi && sig[start] == 0
        invariant
            lo <= start <= hi,
            hi == lo + 32,
            hi <= sig@.len(),
            full == sig@.subrange(lo as int, lo + 32),
            strip_leading_zeros(full) == strip_leading_zeros(
                sig@.subrange(start as int, lo + 32),
            ),
        decreases hi - start,
    {
        proof {
            let cur = sig@.subrange(start as int, lo + 32);
            assert(cur.drop_first() =~= sig@.subrange(start + 1, lo + 32));
        }
        start = start + 1;
    }
    let ghost t = strip_leading_zeros(full);
    proof {
        let cur = sig@.subrange(start as int, lo + 32);
        if start < lo + 32 {
            assert(strip_leading_zeros(cur) == cur);
        } else {
            assert(cur =~= Seq::<u8>::empty());
            assert(strip_leading_zeros(cur) == cur);
        }
        assert(t =~= cur);
    }
    if start == hi {
        out.push(0);
        assert(out@ =~= old(out)@ + der_integer_body(full));
        return ;
    }
    if sig[start] >= 0x80 {
        out.push(0);
    }
    let mut k: usize = start;
    let ghost mid = out@;
    while k < hi
        invariant
            start <= k <= hi,
            hi == lo + 32,
            hi <= sig@.len(),
            out@ == mid + sig@.subrange(start as int, k as int),
        decreases hi - k,
    {
        out.push(sig[k]);
        proof {
            assert(sig@.subrange(start as int, k + 1) =~= sig@.subrange(
                start as int,
                k as int,
            ).push(sig@[k as int]));
        }
        k = k + 1;
    }
    assert(out@ =~= old(out)@ + der_integer_body(full));
}

/// Encodes a 64-byte compact signature as a DER SEQUENCE of two INTEGERs.
pub fn sec1_to_der(sig: &[u8]) -> (der: Vec<u8>)
    requires
        sig@.len() == 64,
    ensures
        der@ == sec1_der(sig@),
{
    let mut r: Vec<u8> = Vec::new();
    push_der_integer_body(&mut r, sig, 0);
    let mut s: Vec<u8> = Vec::new();
    push_der_integer_body(&mut s, sig, 32);
    proof {
        lemma_strip_leading_zeros_len(sig@.subrange(0, 32));
        lemma_strip_leading_zeros_len(sig@.subrange(32, 64));
    }
    let mut der: Vec<u8> = Vec::new();
    der.push(0x30);
    der.push((r.len() + s.len() + 4) as u8);
    der.push(0x02);
    der.push(r.len() as u8);
    let mut k: usize = 0;
    let ghost before_r = der@;
    while k < r.len()
        invariant
            k <= r@.len(),
            der@ == before_r + r@.subrange(0, k as int),
        decreases r@.len() - k,
    {
        der.push(r[k]);
        proof {
            assert(r@.subrange(0, k + 1) =~= r@.subrange(0, k as int).push(r@[k as int]));
        }
        k = k + 1;
    }
    assert(r@.subrange(0, r@.len() as int) =~= r@);
    der.push(0x02);
    der.push(s.len() as u8);
    let ghost before_s = der@;
    let mut k2: usize = 0;
    while k2 < s.len()
        invariant
            k2 <= s@.len(),
            der@ == before_s + s@.subrange(0, k2 as int),
        decreases s@.len() - k2,
    {
        der.push(s[k2]);
        proof {
            assert(s@.subrange(0, k2 + 1) =~= s@.subrange(0, k2 as int).push(
                s@[k2 as int],
            ));
        }
        k2 = k2 + 1;
    }
    assert(s@.subrange(0, s@.len() as int) =~= s@);
    assert(der@ =~= sec1_der(sig@));
    der
}

impl EncodedSignature {
    /// Encodes the 64-byte compact signature `sig` (r then s) in DER form.
    pub fn from_sec1(sig: &[u8]) -> (r: Self)
        requires
            sig@.len() == 64,
        ensures
            r.0@ == sec1_der(sig@),
    {
        EncodedSignature(sec1_to_der(sig))
    }

    pub fn as_slice(&self) -> (r: &[u8])
        ensures
            r@ == self.0@,
    {
        self.0.as_slice()
    }
}

/// Checks that `bytes` is exactly one DER SEQUENCE of exactly two INTEGERs
/// and no longer than the standard maximum.
pub fn validate_encoded_signature(bytes: &[u8]) -> (r: Result<(), String>)
    ensures
        r is Ok <==> valid_der_signature(bytes@),
{
    if bytes.len() < 8 || bytes.len() > MAX_DER_SIGNATURE_LEN {
        return Err("signature length out of range".to_string());
    }
    if bytes[0] != 0x30 {
        return Err("expected a DER sequence".to_string());
    }
    if bytes[1] as usize != bytes.len() - 2 {
        return Err("sequence length mismatch".to_string());
    }
    if bytes[2] != 0x02 {
        return Err("expected a DER integer".to_string());
    }
    let r_len = bytes[3] as usize;
    if r_len < 1 || 4 + r_len + 2 > bytes.len() {
        return Err("integer length out of range".to_string());
    }
    if bytes[4 + r_len] != 0x02 {
        return Err("expected a second DER integer".to_string());
    }
    let s_len = bytes[5 + r_len] as usize;
    if s_len < 1 || 6 + r_len + s_len != bytes.len() {
        return Err("trailing bytes after the two integers".to_string());
    }
    Ok(())
}

/// Every DER encoding this library produces from a 64-byte compact signature
/// passes its own validator.
pub proof fn lemma_sec1_der_is_valid(sig: Seq<u8>)
    requires
        sig.len() == 64,
    ensures
        valid_der_signature(sec1_der(sig)),
{
    lemma_strip_leading_zeros_len(sig.subrange(0, 32));
    lemma_strip_leading_zeros_len(sig.subrange(32, 64));
}

} // verus!
