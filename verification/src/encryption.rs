//! Key derivation and authenticated encryption of the container.
//!
//! A container is `nonce || ciphertext || tag`: a fresh random 12-byte nonce,
//! then AES-256-GCM output with its 16-byte integrity tag appended.  The key
//! is derived deterministically from the master passphrase, with no salt, so
//! the same passphrase always opens the same container; this is a documented
//! limitation of the format, not an accident.
use vstd::prelude::*;
use vstd::slice::slice_subrange;
use aes_gcm::aead::generic_array::GenericArray;
use aes_gcm::aead::Aead;
use aes_gcm::KeyInit;
use rand::RngCore;
use crate::codec::le_bytes8;

verus! {

/// Key length in bytes: AES-256 uses a 256-bit key.
pub const KEY_SIZE: usize = 32;

/// Nonce length in bytes, the recommended size for AES-GCM.
pub const NONCE_SIZE: usize = 12;

/// Longest plaintext AES-GCM accepts, in bytes.
pub const MAX_PLAINTEXT_LEN: u64 = 0x10_0000_0000;

/// What AES-256-GCM makes of a plaintext under a key and nonce: the
/// ciphertext with its tag appended.  The function of the three arguments is
/// fixed by the cipher; it is not spelled out here, only named.
pub uninterp spec fn gcm_ciphertext(key: Seq<u8>, nonce: Seq<u8>, plaintext: Seq<u8>) -> Seq<u8>;

/// A whole container: the nonce in clear, then the tagged ciphertext.
pub open spec fn sealed_container(key: Seq<u8>, nonce: Seq<u8>, plaintext: Seq<u8>) -> Seq<u8> {
    nonce + gcm_ciphertext(key, nonce, plaintext)
}

#[verifier::external_type_specification]
#[verifier::external_body]
pub struct ExAeadError(aes_gcm::Error);

/// Relies on `Aes256Gcm::encrypt` (aes-gcm): AES-256-GCM of the plaintext
/// with the 16-byte tag appended, a pure function of key, nonce and
/// plaintext.  The cipher refuses exactly the plaintexts longer than its
/// `P_MAX`, which is `MAX_PLAINTEXT_LEN` bytes.
#[verifier::external_body]
fn aes256_gcm_encrypt(key: &[u8], nonce: &[u8], plaintext: &[u8]) -> (r: Result<Vec<u8>, aes_gcm::Error>)
    requires
        key@.len() == KEY_SIZE,
        nonce@.len() == NONCE_SIZE,
    ensures
        plaintext@.len() <= MAX_PLAINTEXT_LEN ==> r is Ok,
        r is Ok ==> plaintext@.len() <= MAX_PLAINTEXT_LEN,
        r matches Ok(c) ==> c@ == gcm_ciphertext(key@, nonce@, plaintext@) && c@.len()
            == plaintext@.len() + 16,
{
    let cipher = aes_gcm::Aes256Gcm::new(GenericArray::from_slice(key));
    cipher.encrypt(GenericArray::from_slice(nonce), plaintext)
}

/// Relies on `Aes256Gcm::decrypt` (aes-gcm): authenticated decryption.  It
/// accepts every output of `Aes256Gcm::encrypt` under the same key and nonce
/// and returns that plaintext, and anything it accepts is such an output.
/// The counter-mode keystream makes a ciphertext the encryption of at most
/// one plaintext under a fixed key and nonce, so that plaintext is unique.
/// The tag is split off first and the remaining body is bounded by the
/// cipher's `C_MAX`, sixteen bytes more than `P_MAX`, so an accepted
/// plaintext can be up to `MAX_PLAINTEXT_LEN + 16` bytes long.
#[verifier::external_body]
fn aes256_gcm_decrypt(key: &[u8], nonce: &[u8], ciphertext: &[u8]) -> (r: Result<Vec<u8>, aes_gcm::Error>)
    requires
        key@.len() == KEY_SIZE,
        nonce@.len() == NONCE_SIZE,
    ensures
        r is Err ==> (forall|p: Seq<u8>|
            p.len() <= MAX_PLAINTEXT_LEN + 16 ==> ciphertext@ != gcm_ciphertext(key@, nonce@, p)),
        r matches Ok(q) ==> ciphertext@.len() >= 16 && q@.len() == ciphertext@.len() - 16
            && q@.len() <= MAX_PLAINTEXT_LEN + 16 && ciphertext@ == gcm_ciphertext(
            key@,
            nonce@,
            q@,
        ),
        r matches Ok(q) ==> (forall|p: Seq<u8>|
            p.len() <= MAX_PLAINTEXT_LEN + 16 && ciphertext@ == gcm_ciphertext(key@, nonce@, p)
                ==> q@ == p),
{
    let cipher = aes_gcm::Aes256Gcm::new(GenericArray::from_slice(key));
    cipher.decrypt(GenericArray::from_slice(nonce), ciphertext)
}

/// Relies on `OsRng::fill_bytes` (rand): bytes from the operating system's
/// random source, which aborts the process if that source is unavailable.
/// Nothing can be promised about the values drawn.
#[verifier::external_body]
fn random_bytes(n: usize) -> (r: Vec<u8>)
    ensures
        r@.len() == n,
{
    let mut buf = vec![0u8; n];
    rand::rngs::OsRng.fill_bytes(&mut buf);
    buf
}

/// Relies on `aes_gcm::Error` being a unit struct: the single authentication
/// failure value, carrying no information.
#[verifier::external_body]
fn auth_failure() -> aes_gcm::Error {
    aes_gcm::Error
}

/// Seals `data` under `key`: draws a fresh random nonce and returns
/// `nonce || ciphertext || tag`.  Succeeds for every plaintext the cipher
/// accepts, the empty one included.
pub fn encrypt(data: &[u8], key: &[u8; KEY_SIZE]) -> (r: Result<Vec<u8>, aes_gcm::Error>)
    ensures
        data@.len() <= MAX_PLAINTEXT_LEN ==> r is Ok,
        r is Ok ==> data@.len() <= MAX_PLAINTEXT_LEN,
        r matches Ok(c) ==> c@.len() == data@.len() + NONCE_SIZE + 16 && c@ == sealed_container(
            key@,
            c@.subrange(0, NONCE_SIZE as int),
            data@,
        ),
{
    let nonce = random_bytes(NONCE_SIZE);
    match aes256_gcm_encrypt(key.as_slice(), nonce.as_slice(), data) {
        Ok(ct) => {
            let mut out = nonce;
            let mut tail = ct;
            out.append(&mut tail);
            proof {
                assert(out@.subrange(0, NONCE_SIZE as int) =~= nonce@);
                assert(out@ =~= sealed_container(key@, nonce@, data@));
            }
            Ok(out)
        },
        Err(e) => Err(e),
    }
}

/// Opens a container with `key`: splits off the nonce and runs authenticated
/// decryption.  A container sealed under the same key opens to its plaintext;
/// anything this accepts is such a container; a container too short to hold
/// a nonce is rejected outright.
pub fn decrypt(data: &[u8], key: &[u8; KEY_SIZE]) -> (r: Result<Vec<u8>, aes_gcm::Error>)
    ensures
        forall|n: Seq<u8>, p: Seq<u8>|
            n.len() == NONCE_SIZE && p.len() <= MAX_PLAINTEXT_LEN + 16 && data@
                == sealed_container(key@, n, p) ==> (r matches Ok(q) && q@ == p),
        r matches Ok(q) ==> data@.len() >= NONCE_SIZE + 16 && q@.len() == data@.len() - (
        NONCE_SIZE + 16) && q@.len() <= MAX_PLAINTEXT_LEN + 16 && data@ == sealed_container(
            key@,
            data@.subrange(0, NONCE_SIZE as int),
            q@,
        ),
        r is Err ==> (forall|n: Seq<u8>, p: Seq<u8>|
            n.len() == NONCE_SIZE && p.len() <= MAX_PLAINTEXT_LEN + 16 ==> data@
                != sealed_container(key@, n, p)),
        data@.len() < NONCE_SIZE ==> r is Err,
{
    if data.len() < NONCE_SIZE {
        return Err(auth_failure());
    }
    let nonce = slice_subrange(data, 0, NONCE_SIZE);
    let ct = slice_subrange(data, NONCE_SIZE, data.len());
    let r = aes256_gcm_decrypt(key.as_slice(), nonce, ct);
    proof {
        assert forall|n: Seq<u8>, p: Seq<u8>|
            n.len() == NONCE_SIZE && p.len() <= MAX_PLAINTEXT_LEN + 16 && data@
                == sealed_container(key@, n, p) implies (r matches Ok(q) && q@ == p) by {
            assert(n =~= data@.subrange(0, NONCE_SIZE as int));
            assert(ct@ =~= gcm_ciphertext(key@, n, p));
        }
        if r is Ok {
            let q = r->Ok_0;
            assert(data@ =~= sealed_container(key@, nonce@, q@));
        } else {
            assert forall|n: Seq<u8>, p: Seq<u8>|
                n.len() == NONCE_SIZE && p.len() <= MAX_PLAINTEXT_LEN + 16 implies data@
                != sealed_container(key@, n, p) by {
                if data@ == sealed_container(key@, n, p) {
                    assert(n =~= data@.subrange(0, NONCE_SIZE as int));
                    assert(ct@ =~= gcm_ciphertext(key@, n, p));
                }
            }
        }
    }
    r
}

/// Law, run end to end: opening a sealed container with the key that sealed
/// it returns the plaintext bit for bit, whatever nonce was drawn.
pub fn seal_open_roundtrip(data: &[u8], key: &[u8; KEY_SIZE]) -> (r: Vec<u8>)
    requires
        data@.len() <= MAX_PLAINTEXT_LEN,
    ensures
        r@ == data@,
{
    let sealed = match encrypt(data, key) {
        Ok(c) => c,
        Err(_) => {
            proof {
                assert(false);
            }
            Vec::new()
        },
    };
    match decrypt(sealed.as_slice(), key) {
        Ok(p) => p,
        Err(_) => {
            proof {
                assert(false);
            }
            Vec::new()
        },
    }
}

/// Initial FNV-1a offset basis, varied per lane.
pub const FNV_OFFSET_BASIS: u64 = 0xcbf29ce484222325;

/// FNV-1a multiplier.
pub const FNV_PRIME: u64 = 0x100000001b3;

/// One step of a lane: fold a byte in, then multiply.
pub open spec fn fnv_step(h: u64, b: u8) -> u64 {
    (h ^ (b as u64)).wrapping_mul(FNV_PRIME)
}

/// Lane `k` of the derivation after the first `n` passphrase bytes: it starts
/// from a lane-specific offset and folds in the bytes at positions congruent
/// to `k` modulo four.
pub open spec fn lane_after(pass: Seq<u8>, k: int, n: int) -> u64
    decreases n,
{
    if n <= 0 {
        FNV_OFFSET_BASIS ^ (k as u64)
    } else {
        let prev = lane_after(pass, k, n - 1);
        if (n - 1) % 4 == k {
            fnv_step(prev, pass[n - 1])
        } else {
            prev
        }
    }
}

/// The derived key: four mixing lanes run over the whole passphrase, each
/// written out as eight little-endian bytes.  The derivation is a pure
/// function of the passphrase bytes — no salt — so the same passphrase
/// always yields the same key.
pub open spec fn derived_key(pass: Seq<u8>) -> Seq<u8> {
    le_bytes8(lane_after(pass, 0, pass.len() as int)) + le_bytes8(
        lane_after(pass, 1, pass.len() as int),
    ) + le_bytes8(lane_after(pass, 2, pass.len() as int)) + le_bytes8(
        lane_after(pass, 3, pass.len() as int),
    )
}

/// Writes the eight little-endian bytes of `v` into `key` at `base`.
fn write_lane(key: &mut [u8; KEY_SIZE], base: usize, v: u64)
    requires
        base + 8 <= KEY_SIZE,
    ensures
        forall|q: int|
            0 <= q < KEY_SIZE ==> final(key)@[q] == (if base <= q < base + 8 {
                le_bytes8(v)[q - base]
            } else {
                old(key)@[q]
            }),
{
    key[base] = (v & 0xff) as u8;
    key[base + 1] = ((v >> 8) & 0xff) as u8;
    key[base + 2] = ((v >> 16) & 0xff) as u8;
    key[base + 3] = ((v >> 24) & 0xff) as u8;
    key[base + 4] = ((v >> 32) & 0xff) as u8;
    key[base + 5] = ((v >> 40) & 0xff) as u8;
    key[base + 6] = ((v >> 48) & 0xff) as u8;
    key[base + 7] = ((v >> 56) & 0xff) as u8;
}

/// Derives the symmetric key from the master passphrase.  Deterministic, and
/// defined for every input, the empty passphrase included.
pub fn generate_key_from_password(pass: &[u8]) -> (r: [u8; KEY_SIZE])
    ensures
        r@ == derived_key(pass@),
{
    let mut h0: u64 = FNV_OFFSET_BASIS ^ 0;
    let mut h1: u64 = FNV_OFFSET_BASIS ^ 1;
    let mut h2: u64 = FNV_OFFSET_BASIS ^ 2;
    let mut h3: u64 = FNV_OFFSET_BASIS ^ 3;
    let n = pass.len();
    for i in 0..n
        invariant
            n == pass@.len(),
            h0 == lane_after(pass@, 0, i as int),
            h1 == lane_after(pass@, 1, i as int),
            h2 == lane_after(pass@, 2, i as int),
            h3 == lane_after(pass@, 3, i as int),
    {
        let b = pass[i];
        let r = i % 4;
        if r == 0 {
            h0 = (h0 ^ (b as u64)).wrapping_mul(FNV_PRIME);
        } else if r == 1 {
            h1 = (h1 ^ (b as u64)).wrapping_mul(FNV_PRIME);
        } else if r == 2 {
            h2 = (h2 ^ (b as u64)).wrapping_mul(FNV_PRIME);
        } else {
            h3 = (h3 ^ (b as u64)).wrapping_mul(FNV_PRIME);
        }
        proof {
            assert((i as int) % 4 == r as int);
        }
    }
    let mut key = [0u8; KEY_SIZE];
    write_lane(&mut key, 0, h0);
    write_lane(&mut key, 8, h1);
    write_lane(&mut key, 16, h2);
    write_lane(&mut key, 24, h3);
    proof {
        assert(key@ =~= derived_key(pass@));
    }
    key
}

/// Draws a fresh random 256-bit key from the operating system.  Nothing is
/// known of the value; a caller that wants a key tied to a passphrase uses
/// [`generate_key_from_password`].
pub fn generate_key() -> [u8; KEY_SIZE] {
    let v = random_bytes(KEY_SIZE);
    let mut key = [0u8; KEY_SIZE];
    for i in 0..KEY_SIZE
        invariant
            v@.len() == KEY_SIZE,
    {
        key[i] = v[i];
    }
    key
}

} // verus!
