//! AES-256-CBC encryption with PKCS#7 padding, and random keys for it.

use vstd::prelude::*;
use cbc::cipher::{BlockEncryptMut, KeyIvInit};

verus! {

/// What AES-256 in CBC mode with PKCS#7 padding makes of a plaintext under
/// a 32-byte key and a 16-byte IV; the block cipher takes pages to state.
pub uninterp spec fn aes256_cbc_pkcs7(key: Seq<u8>, iv: Seq<u8>, plaintext: Seq<u8>) -> Seq<u8>;

/// `cbc::Encryptor::<aes::Aes256>::new_from_slices` followed by
/// `encrypt_padded_vec_mut::<Pkcs7>`. The constructor fails only on a key
/// that is not 32 bytes or an IV that is not 16 bytes, which `requires`
/// rules out. The ciphertext is `aes256_cbc_pkcs7` of the arguments; its
/// length is the plaintext's rounded up to the next whole 16-byte block
/// (a full block of padding when it is already whole), as the source's
/// `allocate_out_vec` and PKCS#7 padding give.
#[verifier::external_body]
fn aes256_cbc_encrypt(key: &[u8], iv: &[u8], data: &[u8]) -> (r: Vec<u8>)
    requires
        key@.len() == 32,
        iv@.len() == 16,
    ensures
        r@ == aes256_cbc_pkcs7(key@, iv@, data@),
        r@.len() == (data@.len() / 16 + 1) * 16,
{
    cbc::Encryptor::<aes::Aes256>::new_from_slices(key, iv).unwrap().encrypt_padded_vec_mut::<
        cbc::cipher::block_padding::Pkcs7,
    >(data)
}

/// Encrypts `data` with AES-256-CBC and PKCS#7 padding.
pub fn encrypt(data: &[u8], key: &[u8], iv: &[u8]) -> (r: Vec<u8>)
    requires
        key@.len() == 32,
        iv@.len() == 16,
    ensures
        r@ == aes256_cbc_pkcs7(key@, iv@, data@),
        r@.len() == (data@.len() / 16 + 1) * 16,
{
    aes256_cbc_encrypt(key, iv, data)
}

/// `rand::random::<u8>()`: a random byte. Nothing is stated of it.
#[verifier::external_body]
fn random_byte() -> (r: u8) {
    rand::random::<u8>()
}

fn random_bytes(n: usize) -> (r: Vec<u8>)
    ensures
        r@.len() == n,
{
    let mut out: Vec<u8> = Vec::new();
    let mut i: usize = 0;
    while i < n
        invariant
            i <= n,
            out@.len() == i,
        decreases n - i,
    {
        out.push(random_byte());
        i = i + 1;
    }
    out
}

/// A random 32-byte key and a random 16-byte IV.
pub fn generate_key_iv() -> (r: (Vec<u8>, Vec<u8>))
    ensures
        r.0@.len() == 32,
        r.1@.len() == 16,
{
    let key = random_bytes(32);
    let iv = random_bytes(16);
    (key, iv)
}

} // verus!
