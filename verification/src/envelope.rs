//! The signed envelope: a binary container around an arbitrary
//! payload, carrying a key identifier, an algorithm tag, and a
//! signature over the payload bytes.
//!
//! The envelope is payload-agnostic: PCA and PoC tokens go through
//! exactly the same encoding, signing, and verification path, so the
//! two wire formats cannot drift apart.  On the wire it is a CBOR
//! array `[kid, algorithm, signature, payload]`.

use vstd::prelude::*;
use vstd::utf8::encode_utf8;
use crate::cbor;
use crate::cbor::{fits_u64, lemma_concat_split, lemma_fits_u64_pow256};
use crate::crypto::{ed_sig_of, ed_pk_of, ed_verifies, ed_sign, ed_verify};
use crate::text::str_eq;
use crate::PicError;

verus! {

/// The signature scheme of an envelope.  EdDSA (Ed25519) is the only
/// scheme in use.
#[derive(Debug, Clone, Copy, PartialEq, Eq, Structural)]
pub enum SigningAlgorithm {
    EdDSA,
}

/// The name under which an algorithm appears on the wire.
pub open spec fn spec_alg_name(a: SigningAlgorithm) -> Seq<char> {
    "EdDSA"@
}

/// Wire container: key identifier, algorithm tag, raw signature
/// bytes, and the encoded payload.  The envelope owns its payload
/// bytes.
#[derive(Debug, Clone, PartialEq)]
pub struct SignedEnvelope {
    pub kid: String,
    pub alg: SigningAlgorithm,
    pub signature: Vec<u8>,
    pub payload: Vec<u8>,
}

pub ghost struct SignedEnvelopeV {
    pub kid: Seq<char>,
    pub alg: SigningAlgorithm,
    pub signature: Seq<u8>,
    pub payload: Seq<u8>,
}

impl View for SignedEnvelope {
    type V = SignedEnvelopeV;

    open spec fn view(&self) -> SignedEnvelopeV {
        SignedEnvelopeV {
            kid: self.kid@,
            alg: self.alg,
            signature: self.signature@,
            payload: self.payload@,
        }
    }
}

pub open spec fn env_fits(v: SignedEnvelopeV) -> bool {
    &&& fits_u64(encode_utf8(v.kid).len())
    &&& fits_u64(v.signature.len())
    &&& fits_u64(v.payload.len())
}

/// CBOR encoding of an envelope.
pub open spec fn spec_env_enc(v: SignedEnvelopeV) -> Seq<u8> {
    cbor::spec_enc_array_header(4) + cbor::spec_enc_text(v.kid) + cbor::spec_enc_text(
        spec_alg_name(v.alg),
    ) + cbor::spec_enc_bytes(v.signature) + cbor::spec_enc_bytes(v.payload)
}

/// Parse an envelope at index `i`.
pub open spec fn spec_parse_env(b: Seq<u8>, i: int) -> Option<(SignedEnvelopeV, int)> {
    match cbor::spec_parse_array_header(b, i) {
        Some((c, j)) => if c == 4 {
            match cbor::spec_parse_text(b, j) {
                Some((kid, j2)) => match cbor::spec_parse_text(b, j2) {
                    Some((alg, j3)) => if alg == spec_alg_name(SigningAlgorithm::EdDSA) {
                        match cbor::spec_parse_bytes(b, j3) {
                            Some((sig, j4)) => match cbor::spec_parse_bytes(b, j4) {
                                Some((pl, j5)) => Some(
                                    (
                                        SignedEnvelopeV {
                                            kid,
                                            alg: SigningAlgorithm::EdDSA,
                                            signature: sig,
                                            payload: pl,
                                        },
                                        j5,
                                    ),
                                ),
                                None => None,
                            },
                            None => None,
                        }
                    } else {
                        None
                    },
                    None => None,
                },
                None => None,
            }
        } else {
            None
        },
        None => None,
    }
}

/// Decode a whole byte string as one envelope; trailing bytes are
/// rejected.
pub open spec fn spec_env_dec(b: Seq<u8>) -> Option<SignedEnvelopeV> {
    match spec_parse_env(b, 0) {
        Some((v, j)) => if j == b.len() {
            Some(v)
        } else {
            None
        },
        None => None,
    }
}

pub proof fn lemma_parse_env_of_enc(b: Seq<u8>, i: int, v: SignedEnvelopeV)
    requires
        env_fits(v),
        0 <= i,
        i + spec_env_enc(v).len() <= b.len(),
        b.subrange(i, i + spec_env_enc(v).len()) == spec_env_enc(v),
    ensures
        spec_parse_env(b, i) == Some((v, i + spec_env_enc(v).len())),
{
    let h = cbor::spec_enc_array_header(4);
    let t1 = cbor::spec_enc_text(v.kid);
    let t2 = cbor::spec_enc_text(spec_alg_name(v.alg));
    let d1 = cbor::spec_enc_bytes(v.signature);
    let d2 = cbor::spec_enc_bytes(v.payload);
    assert(spec_env_enc(v) =~= h + (t1 + (t2 + (d1 + d2))));
    lemma_concat_split(b, i, h, t1 + (t2 + (d1 + d2)));
    cbor::lemma_pow256_values();
    cbor::lemma_parse_array_header_of_enc(b, i, 4);
    let p1 = i + h.len();
    lemma_concat_split(b, p1, t1, t2 + (d1 + d2));
    lemma_fits_u64_pow256(encode_utf8(v.kid).len());
    cbor::lemma_parse_text_of_enc(b, p1, v.kid);
    let p2 = p1 + t1.len();
    lemma_concat_split(b, p2, t2, d1 + d2);
    assert(fits_u64(encode_utf8(spec_alg_name(v.alg)).len())) by {
        reveal_strlit("EdDSA");
        vstd::utf8::is_ascii_chars_encode_utf8("EdDSA"@);
    }
    lemma_fits_u64_pow256(encode_utf8(spec_alg_name(v.alg)).len());
    cbor::lemma_parse_text_of_enc(b, p2, spec_alg_name(v.alg));
    let p3 = p2 + t2.len();
    lemma_concat_split(b, p3, d1, d2);
    lemma_fits_u64_pow256(v.signature.len());
    cbor::lemma_parse_bytes_of_enc(b, p3, v.signature);
    let p4 = p3 + d1.len();
    lemma_fits_u64_pow256(v.payload.len());
    cbor::lemma_parse_bytes_of_enc(b, p4, v.payload);
    assert(SignedEnvelopeV {
        kid: v.kid,
        alg: SigningAlgorithm::EdDSA,
        signature: v.signature,
        payload: v.payload,
    } == v);
}

impl SignedEnvelope {
    /// Encode this envelope to its CBOR wire form.
    pub fn encode(&self) -> (r: Vec<u8>)
        ensures
            r@ == spec_env_enc(self@),
    {
        let mut out: Vec<u8> = Vec::new();
        cbor::push_array_header(&mut out, 4);
        cbor::push_text(&mut out, self.kid.as_str());
        cbor::push_text(&mut out, "EdDSA");
        cbor::push_bytes(&mut out, self.signature.as_slice());
        cbor::push_bytes(&mut out, self.payload.as_slice());
        proof {
            assert(out@ =~= spec_env_enc(self@));
        }
        out
    }

    /// Parse an envelope from its CBOR wire form; the whole input
    /// must be one envelope.
    pub fn decode(b: &[u8]) -> (r: Option<SignedEnvelope>)
        ensures
            match r {
                Some(v) => spec_env_dec(b@) == Some(v@),
                None => spec_env_dec(b@) is None,
            },
    {
        let (c, j) = match cbor::parse_array_header(b, 0) {
            Some(x) => x,
            None => {
                return None;
            },
        };
        if c != 4 {
            return None;
        }
        let (kid, j2) = match cbor::parse_text(b, j) {
            Some(x) => x,
            None => {
                return None;
            },
        };
        let (alg, j3) = match cbor::parse_text(b, j2) {
            Some(x) => x,
            None => {
                return None;
            },
        };
        if !str_eq(alg.as_str(), "EdDSA") {
            return None;
        }
        let (sig, j4) = match cbor::parse_bytes(b, j3) {
            Some(x) => x,
            None => {
                return None;
            },
        };
        let (pl, j5) = match cbor::parse_bytes(b, j4) {
            Some(x) => x,
            None => {
                return None;
            },
        };
        if j5 != b.len() {
            return None;
        }
        Some(
            SignedEnvelope {
                kid,
                alg: SigningAlgorithm::EdDSA,
                signature: sig,
                payload: pl,
            },
        )
    }

    /// Wrap payload bytes in an envelope signed with the given
    /// Ed25519 secret key.
    pub fn seal(payload: Vec<u8>, kid: String, seed: &[u8]) -> (r: SignedEnvelope)
        requires
            seed@.len() == 32,
        ensures
            r@.kid == kid@,
            r@.alg == SigningAlgorithm::EdDSA,
            r@.payload == payload@,
            r@.signature == ed_sig_of(seed@, payload@),
            r@.signature.len() == 64,
            ed_verifies(ed_pk_of(seed@), payload@, r@.signature),
    {
        let signature = ed_sign(seed, payload.as_slice());
        SignedEnvelope { kid, alg: SigningAlgorithm::EdDSA, signature, payload }
    }

    /// Check this envelope's signature against a public key.
    pub fn verify_with(&self, pk: &[u8]) -> (r: bool)
        ensures
            r == ed_verifies(pk@, self@.payload, self@.signature),
    {
        ed_verify(pk, self.payload.as_slice(), self.signature.as_slice())
    }
}

// ---------------------------------------------------------------------------
// Key resolution
// ---------------------------------------------------------------------------

/// One known key: a key identifier and the matching Ed25519 public
/// key bytes.
#[derive(Debug, Clone, PartialEq)]
pub struct KeyEntry {
    pub kid: String,
    pub key: Vec<u8>,
}

pub ghost struct KeyEntryV {
    pub kid: Seq<char>,
    pub key: Seq<u8>,
}

impl View for KeyEntry {
    type V = KeyEntryV;

    open spec fn view(&self) -> KeyEntryV {
        KeyEntryV { kid: self.kid@, key: self.key@ }
    }
}

/// Element-wise view of a sequence of key entries.
pub open spec fn keys_view(ks: Seq<KeyEntry>) -> Seq<KeyEntryV> {
    ks.map_values(|k: KeyEntry| k@)
}

/// The read-only set of keys an authority trusts, resolved by key
/// identifier (first match wins).
#[derive(Debug, Clone)]
pub struct KeyRing {
    pub keys: Vec<KeyEntry>,
}

impl View for KeyRing {
    type V = Seq<KeyEntryV>;

    open spec fn view(&self) -> Seq<KeyEntryV> {
        keys_view(self.keys@)
    }
}

/// The key registered for `kid`, if any (first match).
pub open spec fn spec_ring_lookup(ks: Seq<KeyEntryV>, kid: Seq<char>) -> Option<Seq<u8>>
    decreases ks.len(),
{
    if ks.len() == 0 {
        None
    } else if ks[0].kid == kid {
        Some(ks[0].key)
    } else {
        spec_ring_lookup(ks.drop_first(), kid)
    }
}

proof fn lemma_ring_lookup_at(ks: Seq<KeyEntryV>, kid: Seq<char>, j: int)
    requires
        0 <= j <= ks.len(),
        forall|k: int| 0 <= k < j ==> ks[k].kid != kid,
        j == ks.len() || ks[j].kid == kid,
    ensures
        spec_ring_lookup(ks, kid) == (if j < ks.len() {
            Some(ks[j].key)
        } else {
            None::<Seq<u8>>
        }),
    decreases j,
{
    if ks.len() == 0 {
    } else if ks[0].kid == kid {
        assert(j == 0);
    } else {
        assert(j >= 1);
        let t = ks.drop_first();
        assert forall|k: int| 0 <= k < j - 1 implies t[k].kid != kid by {
            assert(t[k] == ks[k + 1]);
        }
        if j < ks.len() {
            assert(t[j - 1] == ks[j]);
        }
        lemma_ring_lookup_at(t, kid, j - 1);
    }
}

impl KeyRing {
    /// An empty key ring.
    pub fn new() -> (r: Self)
        ensures
            r@ == Seq::<KeyEntryV>::empty(),
    {
        let r = KeyRing { keys: Vec::new() };
        proof {
            assert(r@ =~= Seq::<KeyEntryV>::empty());
        }
        r
    }

    /// Register a key for a key identifier.
    pub fn register(&mut self, kid: String, key: Vec<u8>)
        ensures
            final(self)@ == old(self)@.push(KeyEntryV { kid: kid@, key: key@ }),
    {
        let ghost pre = self@;
        self.keys.push(KeyEntry { kid, key });
        proof {
            assert(self@ =~= pre.push(self.keys@.last()@));
        }
    }

    /// The key registered for `kid`, if any.
    pub fn resolve(&self, kid: &str) -> (r: Option<&Vec<u8>>)
        ensures
            match r {
                Some(k) => spec_ring_lookup(self@, kid@) == Some(k@),
                None => spec_ring_lookup(self@, kid@) is None,
            },
    {
        let n = self.keys.len();
        let mut t: usize = 0;
        while t < n
            invariant
                0 <= t <= n,
                n == self.keys@.len(),
                forall|k: int| 0 <= k < t ==> self@[k].kid != kid@,
            decreases n - t,
        {
            if str_eq(self.keys[t].kid.as_str(), kid) {
                proof {
                    assert(self@[t as int].kid == kid@);
                    lemma_ring_lookup_at(self@, kid@, t as int);
                }
                return Some(&self.keys[t].key);
            }
            proof {
                assert(self@[t as int].kid != kid@);
            }
            t += 1;
        }
        proof {
            lemma_ring_lookup_at(self@, kid@, n as int);
        }
        None
    }
}

/// The outcome of opening an envelope against a key ring, stated over
/// the wire bytes alone.
pub open spec fn spec_open_ok(b: Seq<u8>, ks: Seq<KeyEntryV>) -> bool {
    match spec_env_dec(b) {
        Some(v) => match spec_ring_lookup(ks, v.kid) {
            Some(pk) => ed_verifies(pk, v.payload, v.signature),
            None => false,
        },
        None => false,
    }
}

/// Parse an envelope and verify its signature against the key
/// resolved for its key identifier.
///
/// Fails with `MalformedEnvelope` when the bytes do not parse as one
/// envelope, and with `SignatureInvalid` when no key is registered
/// for the embedded key identifier or the signature does not verify.
pub fn open_envelope(b: &[u8], ring: &KeyRing) -> (r: Result<SignedEnvelope, PicError>)
    ensures
        match r {
            Ok(v) => spec_env_dec(b@) == Some(v@) && spec_open_ok(b@, ring@),
            Err(e) => {
                &&& !spec_open_ok(b@, ring@)
                &&& (e matches PicError::MalformedEnvelope <==> spec_env_dec(b@) is None)
                &&& (e matches PicError::MalformedEnvelope || e matches PicError::SignatureInvalid)
            },
        },
{
    let env = match SignedEnvelope::decode(b) {
        Some(v) => v,
        None => {
            return Err(PicError::MalformedEnvelope);
        },
    };
    let pk = match ring.resolve(env.kid.as_str()) {
        Some(k) => k,
        None => {
            return Err(PicError::SignatureInvalid);
        },
    };
    if !env.verify_with(pk.as_slice()) {
        return Err(PicError::SignatureInvalid);
    }
    Ok(env)
}

/// Parse an envelope without verifying its signature.
///
/// The caller must not treat the payload as authoritative for
/// authorization decisions; it is for inspection before a separate
/// authority check.
pub fn decode_unverified(b: &[u8]) -> (r: Result<SignedEnvelope, PicError>)
    ensures
        match r {
            Ok(v) => spec_env_dec(b@) == Some(v@),
            Err(e) => spec_env_dec(b@) is None && e matches PicError::MalformedEnvelope,
        },
{
    match SignedEnvelope::decode(b) {
        Some(v) => Ok(v),
        None => Err(PicError::MalformedEnvelope),
    }
}

} // verus!
