//! Encryption at rest: AES-256-GCM through the `ring` crate, with the
//! on-disk layout `nonce (12 bytes) || ciphertext || tag (16 bytes)`. The
//! key is an XOR-fold of the passphrase bytes — a scaffold derivation, to
//! be replaced by a salted password hash in production.

use vstd::prelude::*;

verus! {

/// A 32-byte key from XOR-folding the passphrase bytes.
pub open spec fn xor_fold_spec(pw: Seq<u8>) -> Seq<u8>
    decreases pw.len(),
{
    if pw.len() == 0 {
        Seq::new(32, |i: int| 0u8)
    } else {
        xor_fold_spec(pw.drop_last()).update(
            ((pw.len() - 1) % 32) as int,
            xor_fold_spec(pw.drop_last())[((pw.len() - 1) % 32) as int] ^ pw.last(),
        )
    }
}

pub proof fn lemma_xor_fold_len(pw: Seq<u8>)
    ensures
        xor_fold_spec(pw).len() == 32,
    decreases pw.len(),
{
    if pw.len() > 0 {
        lemma_xor_fold_len(pw.drop_last());
    }
}

/// What `ring`'s AES-256-GCM seal returns for a key, nonce and plaintext:
/// the ciphertext with its tag appended.
pub uninterp spec fn seal_of(key: Seq<u8>, nonce: Seq<u8>, pt: Seq<u8>) -> Seq<u8>;

/// What `ring`'s AES-256-GCM open returns for a key, nonce and
/// ciphertext-with-tag; `None` when authentication fails.
pub uninterp spec fn open_of(key: Seq<u8>, nonce: Seq<u8>, ct: Seq<u8>) -> Option<Seq<u8>>;

/// Relies on ring's `LessSafeKey::seal_in_place_append_tag` with
/// `AES_256_GCM`: the result is a function of key, nonce and plaintext
/// alone, 16 bytes (the tag) longer than the plaintext, and ring's open
/// under the same key and nonce returns the plaintext again.
#[verifier::external_body]
fn aead_seal(key: &[u8], nonce: &[u8], pt: &[u8]) -> (r: Option<Vec<u8>>)
    requires
        key@.len() == 32,
        nonce@.len() == 12,
    ensures
        match r {
            Some(c) => c@ == seal_of(key@, nonce@, pt@) && c@.len() == pt@.len() + 16 && open_of(
                key@,
                nonce@,
                c@,
            ) == Some(pt@),
            None => true,
        },
{
    let unbound = ring::aead::UnboundKey::new(&ring::aead::AES_256_GCM, key).ok()?;
    let k = ring::aead::LessSafeKey::new(unbound);
    let n = ring::aead::Nonce::try_assume_unique_for_key(nonce).ok()?;
    let mut in_out = pt.to_vec();
    k.seal_in_place_append_tag(n, ring::aead::Aad::empty(), &mut in_out).ok()?;
    Some(in_out)
}

/// Relies on ring's `LessSafeKey::open_in_place` with `AES_256_GCM`:
/// decryption is a function of key, nonce and ciphertext alone, and fails
/// exactly when the tag does not authenticate.
#[verifier::external_body]
fn aead_open(key: &[u8], nonce: &[u8], ct: &[u8]) -> (r: Option<Vec<u8>>)
    requires
        key@.len() == 32,
        nonce@.len() == 12,
    ensures
        match r {
            Some(p) => open_of(key@, nonce@, ct@) == Some(p@),
            None => open_of(key@, nonce@, ct@) is None,
        },
{
    let unbound = ring::aead::UnboundKey::new(&ring::aead::AES_256_GCM, key).ok()?;
    let k = ring::aead::LessSafeKey::new(unbound);
    let n = ring::aead::Nonce::try_assume_unique_for_key(nonce).ok()?;
    let mut in_out = ct.to_vec();
    let pt = k.open_in_place(n, ring::aead::Aad::empty(), &mut in_out).ok()?;
    Some(pt.to_vec())
}

/// Relies on ring's `SystemRandom::fill` for a fresh 96-bit nonce; nothing
/// is assumed of the bytes beyond their count.
#[verifier::external_body]
fn fresh_nonce() -> (r: Option<Vec<u8>>)
    ensures
        match r {
            Some(n) => n@.len() == 12,
            None => true,
        },
{
    let rng = ring::rand::SystemRandom::new();
    let mut buf = [0u8; 12];
    ring::rand::SecureRandom::fill(&rng, &mut buf).ok()?;
    Some(buf.to_vec())
}

/// `blob` is the encryption of `pt` under `key`: a 12-byte nonce followed
/// by the seal of `pt` under that nonce.
pub open spec fn sealed_layout(key: Seq<u8>, blob: Seq<u8>, pt: Seq<u8>) -> bool {
    &&& blob.len() >= 12
    &&& blob.skip(12) == seal_of(key, blob.take(12), pt)
    &&& open_of(key, blob.take(12), blob.skip(12)) == Some(pt)
}

/// What decrypting `data` under `key` yields: split off the nonce and
/// open; too-short data fails.
pub open spec fn decrypt_spec(key: Seq<u8>, data: Seq<u8>) -> Option<Seq<u8>> {
    if data.len() < 12 {
        None
    } else {
        open_of(key, data.take(12), data.skip(12))
    }
}

/// Round trip: decrypting what encryption produced, under the same key,
/// returns the plaintext.
pub proof fn lemma_encrypt_decrypt_round_trip(key: Seq<u8>, blob: Seq<u8>, pt: Seq<u8>)
    requires
        sealed_layout(key, blob, pt),
    ensures
        decrypt_spec(key, blob) == Some(pt),
{
}

/// Authenticated encryption of note content.
pub struct Encryptor {
    key: Vec<u8>,
}

impl Encryptor {
    /// The derived key bytes.
    pub closed spec fn key_view(&self) -> Seq<u8> {
        self.key@
    }

    pub open spec fn wf(&self) -> bool {
        self.key_view().len() == 32
    }

    /// Derive the key from a passphrase by XOR-folding its bytes.
    pub fn new(password: &[u8]) -> (r: Self)
        ensures
            r.key_view() == xor_fold_spec(password@),
            r.wf(),
    {
        let mut key: Vec<u8> = Vec::new();
        let mut z: usize = 0;
        while z < 32
            invariant
                0 <= z <= 32,
                key@.len() == z,
                forall|i: int| 0 <= i < z ==> key@[i] == 0u8,
            decreases 32 - z,
        {
            key.push(0);
            z += 1;
        }
        proof {
            assert(key@ =~= xor_fold_spec(Seq::<u8>::empty()));
        }
        let len = password.len();
        let mut i: usize = 0;
        while i < len
            invariant
                len == password@.len(),
                0 <= i <= len,
                key@ == xor_fold_spec(password@.take(i as int)),
                key@.len() == 32,
            decreases len - i,
        {
            let ghost pre = key@;
            proof {
                assert(password@.take(i + 1).drop_last() =~= password@.take(i as int));
                assert(password@.take(i + 1).last() == password@[i as int]);
            }
            let slot = i % 32;
            let nv = key[slot] ^ password[i];
            key[slot] = nv;
            proof {
                assert(key@ =~= pre.update(
                    ((i as int) % 32) as int,
                    pre[((i as int) % 32) as int] ^ password@[i as int],
                ));
            }
            i += 1;
        }
        proof {
            assert(password@.take(len as int) =~= password@);
            lemma_xor_fold_len(password@);
        }
        Encryptor { key }
    }

    /// Encrypt `data` under a fresh random nonce; the result carries the
    /// layout that `decrypt` reverses. `None` only when the platform's
    /// random source or the cipher fails.
    pub fn encrypt(&self, data: &[u8]) -> (r: Option<Vec<u8>>)
        requires
            self.wf(),
        ensures
            match r {
                Some(b) => sealed_layout(self.key_view(), b@, data@) && b@.len() == data@.len()
                    + 28 && decrypt_spec(self.key_view(), b@) == Some(data@),
                None => true,
            },
    {
        let nonce = match fresh_nonce() {
            Some(n) => n,
            None => {
                return None;
            },
        };
        if nonce.len() != 12 {
            return None;
        }
        let ct = match aead_seal(self.key.as_slice(), nonce.as_slice(), data) {
            Some(c) => c,
            None => {
                return None;
            },
        };
        let mut out: Vec<u8> = Vec::new();
        out.extend_from_slice(nonce.as_slice());
        out.extend_from_slice(ct.as_slice());
        proof {
            assert(out@.take(12) =~= nonce@);
            assert(out@.skip(12) =~= ct@);
        }
        Some(out)
    }

    /// Decrypt `data`: split off the 12-byte nonce and authenticate.
    /// `None` exactly when the data is too short or does not authenticate
    /// under this key.
    pub fn decrypt(&self, data: &[u8]) -> (r: Option<Vec<u8>>)
        requires
            self.wf(),
        ensures
            match r {
                Some(p) => decrypt_spec(self.key_view(), data@) == Some(p@),
                None => decrypt_spec(self.key_view(), data@) is None,
            },
    {
        let len = data.len();
        if len < 12 {
            return None;
        }
        let mut nonce: Vec<u8> = Vec::new();
        let mut i: usize = 0;
        while i < 12
            invariant
                data@.len() >= 12,
                0 <= i <= 12,
                nonce@ == data@.subrange(0, i as int),
            decreases 12 - i,
        {
            nonce.push(data[i]);
            proof {
                assert(data@.subrange(0, i + 1) =~= data@.subrange(0, i as int).push(
                    data@[i as int],
                ));
            }
            i += 1;
        }
        let mut ct: Vec<u8> = Vec::new();
        let mut j: usize = 12;
        while j < len
            invariant
                len == data@.len(),
                12 <= j <= len,
                ct@ == data@.subrange(12, j as int),
            decreases len - j,
        {
            ct.push(data[j]);
            proof {
                assert(data@.subrange(12, j + 1) =~= data@.subrange(12, j as int).push(
                    data@[j as int],
                ));
            }
            j += 1;
        }
        proof {
            assert(nonce@ =~= data@.take(12));
            assert(ct@ =~= data@.skip(12));
        }
        aead_open(self.key.as_slice(), nonce.as_slice(), ct.as_slice())
    }
}

} // verus!
