//! AES-256-CBC with PKCS#7 padding, performed by the `aes` and `cbc` crates.

use vstd::prelude::*;
use cipher::{BlockDecryptMut, BlockEncryptMut, KeyIvInit};
use crate::derive::{IV_LEN, KEY_LEN};

verus! {

/// Why the block cipher refused to run.
#[derive(Debug, Clone, Copy, PartialEq, Eq, Structural)]
pub enum CipherError {
    /// The key is not 32 bytes long or the IV is not 16 bytes long.
    InvalidLength,
    /// The output buffer cannot hold the padded message.
    Pad,
    /// The ciphertext is not a whole number of blocks, or its padding is malformed.
    Unpad,
}

impl CipherError {
    /// A human-readable description of the error.
    pub fn message(&self) -> (r: String)
        ensures
            r@ == cipher_error_text(*self),
    {
        match self {
            CipherError::InvalidLength => String::from_str("Error creating cipher: Invalid Length"),
            CipherError::Pad => String::from_str("Error during encryption: Padding error"),
            CipherError::Unpad => String::from_str("Error during decryption: Unpad Error"),
        }
    }
}

/// The description of each cipher error.
pub open spec fn cipher_error_text(e: CipherError) -> Seq<char> {
    match e {
        CipherError::InvalidLength => "Error creating cipher: Invalid Length"@,
        CipherError::Pad => "Error during encryption: Padding error"@,
        CipherError::Unpad => "Error during decryption: Unpad Error"@,
    }
}

/// The AES-256-CBC/PKCS#7 encryption of `plain` under `key` and `iv`.
pub uninterp spec fn cbc_encrypted(key: Seq<u8>, iv: Seq<u8>, plain: Seq<u8>) -> Seq<u8>;

/// The AES-256-CBC/PKCS#7 decryption of `ct` under `key` and `iv`; `None` where
/// the ciphertext is not whole blocks or its padding is malformed.
pub uninterp spec fn cbc_decrypted(key: Seq<u8>, iv: Seq<u8>, ct: Seq<u8>) -> Option<Seq<u8>>;

/// Length of the PKCS#7-padded form of a message of `n` bytes: always one to
/// sixteen bytes longer, a whole number of blocks.
pub open spec fn padded_len(n: nat) -> nat {
    (n / 16) * 16 + 16
}

/// True when `key` and `iv` have the lengths that AES-256-CBC takes.
pub open spec fn lengths_ok(key: Seq<u8>, iv: Seq<u8>) -> bool {
    key.len() == KEY_LEN && iv.len() == IV_LEN
}

/// Relies on `cbc::Encryptor::<aes::Aes256>::new_from_slices`, which refuses a key
/// of other than 32 bytes or an IV of other than 16, and on its
/// `encrypt_padded_mut::<Pkcs7>`, which pads the first `msg_len` bytes of the
/// buffer and encrypts them in place, refusing a buffer that cannot hold the
/// padded message. CBC decryption under the same key and IV gives the message back.
#[verifier::external_body]
fn aes256_cbc_encrypt(key: &[u8], iv: &[u8], buf: Vec<u8>, msg_len: usize) -> (r: Result<Vec<u8>, CipherError>)
    ensures
        !lengths_ok(key@, iv@) ==> (r matches Err(CipherError::InvalidLength)),
        lengths_ok(key@, iv@) ==> (r is Ok) == (buf@.len() >= msg_len && buf@.len() >= padded_len(msg_len as nat)),
        lengths_ok(key@, iv@) && r is Err ==> (r matches Err(CipherError::Pad)),
        r matches Ok(ct) ==> ct@ == cbc_encrypted(key@, iv@, buf@.subrange(0, msg_len as int))
            && ct@.len() == padded_len(msg_len as nat)
            && cbc_decrypted(key@, iv@, ct@) == Some(buf@.subrange(0, msg_len as int)),
{
    let enc = match cbc::Encryptor::<aes::Aes256>::new_from_slices(key, iv) {
        Ok(c) => c,
        Err(_) => return Err(CipherError::InvalidLength),
    };
    let mut buf = buf;
    match enc.encrypt_padded_mut::<cipher::block_padding::Pkcs7>(&mut buf, msg_len) {
        Ok(ct) => Ok(ct.to_vec()),
        Err(_) => Err(CipherError::Pad),
    }
}

/// Relies on `cbc::Decryptor::<aes::Aes256>::new_from_slices`, which refuses a key
/// of other than 32 bytes or an IV of other than 16, and on its
/// `decrypt_padded_mut::<Pkcs7>`, which decrypts in place and strips the padding,
/// refusing a buffer that is empty or not whole blocks, or whose padding is malformed.
#[verifier::external_body]
fn aes256_cbc_decrypt(key: &[u8], iv: &[u8], buf: Vec<u8>) -> (r: Result<Vec<u8>, CipherError>)
    ensures
        !lengths_ok(key@, iv@) ==> (r matches Err(CipherError::InvalidLength)),
        lengths_ok(key@, iv@) ==> match cbc_decrypted(key@, iv@, buf@) {
            Some(p) => r matches Ok(v) && v@ == p,
            None => (r matches Err(CipherError::Unpad)),
        },
        lengths_ok(key@, iv@) && (buf@.len() % 16 != 0 || buf@.len() == 0)
            ==> (r matches Err(CipherError::Unpad)),
        r matches Ok(v) ==> buf@.len() > v@.len() && v@.len() + 16 >= buf@.len(),
{
    let dec = match cbc::Decryptor::<aes::Aes256>::new_from_slices(key, iv) {
        Ok(c) => c,
        Err(_) => return Err(CipherError::InvalidLength),
    };
    let mut buf = buf;
    match dec.decrypt_padded_mut::<cipher::block_padding::Pkcs7>(&mut buf) {
        Ok(p) => Ok(p.to_vec()),
        Err(_) => Err(CipherError::Unpad),
    }
}

/// Encrypts `data` with AES-256-CBC under `key` and `iv`, PKCS#7-padded: a
/// message already a whole number of blocks still gains a full block.
pub fn encrypt_data(data: &[u8], key: &[u8], iv: &[u8]) -> (r: Result<Vec<u8>, CipherError>)
    requires
        data@.len() + 16 <= usize::MAX,
    ensures
        !lengths_ok(key@, iv@) ==> (r matches Err(CipherError::InvalidLength)),
        lengths_ok(key@, iv@) ==> (r matches Ok(ct) && ct@ == cbc_encrypted(key@, iv@, data@)
            && ct@.len() == padded_len(data@.len())
            && cbc_decrypted(key@, iv@, ct@) == Some(data@)),
{
    let block_size: usize = 16;
    let padding_len: usize = block_size - (data.len() % block_size);
    let buffer_len: usize = data.len() + padding_len;
    let mut buffer: Vec<u8> = Vec::new();
    let mut i: usize = 0;
    while i < buffer_len
        invariant
            i <= buffer_len,
            buffer@.len() == i,
            forall|j: int| 0 <= j < i && j < data@.len() ==> buffer@[j] == data@[j],
        decreases buffer_len - i,
    {
        if i < data.len() {
            buffer.push(data[i]);
        } else {
            buffer.push(0u8);
        }
        i = i + 1;
    }
    assert(buffer@.subrange(0, data@.len() as int) =~= data@);
    assert(padded_len(data@.len()) == buffer_len) by {
        assert(data@.len() == (data@.len() / 16) * 16 + data@.len() % 16);
    }
    aes256_cbc_encrypt(key, iv, buffer, data.len())
}

/// Decrypts AES-256-CBC ciphertext under `key` and `iv` and strips its PKCS#7 padding.
pub fn decrypt_data(encrypted_data: &[u8], key: &[u8], iv: &[u8]) -> (r: Result<Vec<u8>, CipherError>)
    ensures
        !lengths_ok(key@, iv@) ==> (r matches Err(CipherError::InvalidLength)),
        lengths_ok(key@, iv@) ==> match cbc_decrypted(key@, iv@, encrypted_data@) {
            Some(p) => r matches Ok(v) && v@ == p,
            None => (r matches Err(CipherError::Unpad)),
        },
        lengths_ok(key@, iv@) && (encrypted_data@.len() % 16 != 0 || encrypted_data@.len() == 0)
            ==> (r matches Err(CipherError::Unpad)),
        r matches Ok(v) ==> encrypted_data@.len() > v@.len() && v@.len() + 16 >= encrypted_data@.len(),
{
    let buffer = vstd::slice::slice_to_vec(encrypted_data);
    aes256_cbc_decrypt(key, iv, buffer)
}

} // verus!
