//! Framing of the encrypted host vault: AES-256-GCM with a fresh 12-byte
//! nonce stored in front of the ciphertext.

use vstd::prelude::*;
use aes_gcm::aead::{Aead, AeadCore, KeyInit, OsRng};

verus! {

/// What `Aes256Gcm::encrypt` gives for a key, nonce and plaintext (no
/// associated data): the ciphertext with its 16-byte tag appended, or
/// nothing when the plaintext is too long.
pub uninterp spec fn aes_gcm_seal(key: Seq<u8>, nonce: Seq<u8>, plaintext: Seq<u8>) -> Option<Seq<u8>>;

/// What `Aes256Gcm::decrypt` gives for a key, nonce and ciphertext: the
/// plaintext, or nothing when the tag does not authenticate it.
pub uninterp spec fn aes_gcm_open(key: Seq<u8>, nonce: Seq<u8>, ciphertext: Seq<u8>) -> Option<Seq<u8>>;

/// Calls `Aes256Gcm::encrypt` (aes-gcm).  Its result is named
/// `aes_gcm_seal`; the source shows that it fails only for plaintexts
/// longer than 2^36 bytes, and that the ciphertext is the plaintext's
/// length plus the 16-byte tag.
#[verifier::external_body]
fn aes_seal(key: &[u8; 32], nonce: &[u8; 12], plaintext: &Vec<u8>) -> (r: Option<Vec<u8>>)
    ensures
        match r {
            Some(v) => aes_gcm_seal(key@, nonce@, plaintext@) == Some(v@),
            None => aes_gcm_seal(key@, nonce@, plaintext@) is None,
        },
        plaintext@.len() <= 0x10_0000_0000 ==> r is Some,
        r matches Some(v) ==> v@.len() == plaintext@.len() + 16,
{
    let cipher = aes_gcm::Aes256Gcm::new(aes_gcm::Key::<aes_gcm::Aes256Gcm>::from_slice(key));
    cipher.encrypt(aes_gcm::Nonce::from_slice(nonce), plaintext.as_slice()).ok()
}

/// Calls `Aes256Gcm::decrypt` (aes-gcm).  Its result is named
/// `aes_gcm_open`; as for any AEAD, decrypting what `encrypt` produced with
/// the same key and nonce gives the plaintext back.
#[verifier::external_body]
fn aes_open(key: &[u8; 32], nonce: &[u8; 12], ciphertext: &Vec<u8>) -> (r: Option<Vec<u8>>)
    ensures
        match r {
            Some(v) => aes_gcm_open(key@, nonce@, ciphertext@) == Some(v@)
                && forall|p: Seq<u8>| #[trigger] aes_gcm_seal(key@, nonce@, p) == Some(ciphertext@) ==> v@ == p,
            None => aes_gcm_open(key@, nonce@, ciphertext@) is None
                && forall|p: Seq<u8>| #[trigger] aes_gcm_seal(key@, nonce@, p) != Some(ciphertext@),
        },
{
    let cipher = aes_gcm::Aes256Gcm::new(aes_gcm::Key::<aes_gcm::Aes256Gcm>::from_slice(key));
    cipher.decrypt(aes_gcm::Nonce::from_slice(nonce), ciphertext.as_slice()).ok()
}

/// Calls `Aes256Gcm::generate_nonce` with the operating system's random
/// source: a random nonce, of which nothing is stated.
#[verifier::external_body]
fn random_nonce() -> (n: [u8; 12]) {
    let nonce = aes_gcm::Aes256Gcm::generate_nonce(&mut OsRng);
    let mut out = [0u8; 12];
    out.copy_from_slice(nonce.as_slice());
    out
}

/// The stored form of `plaintext` under `key` with `nonce`: the nonce, then
/// the ciphertext.
pub fn seal_framed(key: &[u8; 32], nonce: &[u8; 12], plaintext: &Vec<u8>) -> (r: Result<Vec<u8>, String>)
    ensures
        match aes_gcm_seal(key@, nonce@, plaintext@) {
            Some(ct) => r matches Ok(d) && d@ == nonce@ + ct,
            None => r matches Err(e) && e@ == "Erro de criptografia: Error"@,
        },
        plaintext@.len() <= 0x10_0000_0000 ==> r is Ok,
        r matches Ok(d) ==> d@.len() == plaintext@.len() + 28,
{
    match aes_seal(key, nonce, plaintext) {
        Some(ct) => {
            let mut out: Vec<u8> = Vec::new();
            let mut i: usize = 0;
            while i < 12
                invariant
                    i <= 12,
                    out@ == nonce@.take(i as int),
                decreases 12 - i,
            {
                out.push(nonce[i]);
                i = i + 1;
                assert(out@ =~= nonce@.take(i as int));
            }
            let mut j: usize = 0;
            while j < ct.len()
                invariant
                    j <= ct@.len(),
                    out@ == nonce@ + ct@.take(j as int),
                decreases ct@.len() - j,
            {
                out.push(ct[j]);
                j = j + 1;
                assert(out@ =~= nonce@ + ct@.take(j as int));
            }
            assert(ct@.take(ct@.len() as int) =~= ct@);
            Ok(out)
        },
        None => Err("Erro de criptografia: Error".to_owned()),
    }
}

/// Encrypts `plaintext` under `key` with a fresh random nonce (see
/// `seal_framed`): the stored form is the 12-byte nonce, then the
/// ciphertext with its 16-byte tag, 28 bytes more than the plaintext.
pub fn encrypt_data(key: &[u8; 32], plaintext: &Vec<u8>) -> (r: Result<Vec<u8>, String>)
    ensures
        r matches Ok(d) ==> d@.len() >= 12 && aes_gcm_seal(key@, d@.take(12), plaintext@) == Some(d@.skip(12)),
        r matches Ok(d) ==> d@.len() == plaintext@.len() + 28,
        plaintext@.len() <= 0x10_0000_0000 ==> r is Ok,
{
    let nonce = random_nonce();
    let r = seal_framed(key, &nonce, plaintext);
    proof {
        if r is Ok {
            let d = r->Ok_0;
            assert(d@.take(12) =~= nonce@);
            assert(d@.skip(12) =~= aes_gcm_seal(key@, nonce@, plaintext@)->0);
        }
    }
    r
}

/// Decrypts stored data (nonce, then ciphertext) with `key`.  Data shorter
/// than a nonce is corrupt; data that does not authenticate under the key
/// is refused.  What `encrypt_data` stored under the same key comes back
/// unchanged.
pub fn decrypt_data(key: &[u8; 32], data: &Vec<u8>) -> (r: Result<Vec<u8>, String>)
    ensures
        data@.len() < 12 ==> (r matches Err(e) && e@ == "Dados corrompidos ou inválidos."@),
        data@.len() >= 12 ==> match aes_gcm_open(key@, data@.take(12), data@.skip(12)) {
            Some(p) => r matches Ok(v) && v@ == p,
            None => r matches Err(e)
                && e@ == "Falha na descriptografia! A chave mestra não foi encontrada ou o arquivo está corrompido."@,
        },
        forall|p: Seq<u8>| data@.len() >= 12 && #[trigger] aes_gcm_seal(key@, data@.take(12), p) == Some(data@.skip(12))
            ==> (r matches Ok(v) && v@ == p),
{
    if data.len() < 12 {
        return Err("Dados corrompidos ou inválidos.".to_owned());
    }
    let mut nonce = [0u8; 12];
    let mut i: usize = 0;
    while i < 12
        invariant
            i <= 12,
            12 <= data@.len(),
            forall|k: int| 0 <= k < i ==> nonce@[k] == data@[k],
        decreases 12 - i,
    {
        nonce[i] = data[i];
        i = i + 1;
    }
    assert(nonce@ =~= data@.take(12));
    let mut ct: Vec<u8> = Vec::new();
    let mut j: usize = 12;
    while j < data.len()
        invariant
            12 <= j <= data@.len(),
            ct@ == data@.subrange(12, j as int),
        decreases data@.len() - j,
    {
        ct.push(data[j]);
        j = j + 1;
        assert(ct@ =~= data@.subrange(12, j as int));
    }
    assert(ct@ =~= data@.skip(12));
    match aes_open(key, &nonce, &ct) {
        Some(p) => Ok(p),
        None => Err("Falha na descriptografia! A chave mestra não foi encontrada ou o arquivo está corrompido.".to_owned()),
    }
}

} // verus!
