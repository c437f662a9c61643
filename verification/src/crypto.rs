//! A node's Curve25519 key pair and the encryption of output shares for
//! users (crypto_box: X25519 with XSalsa20-Poly1305).

use vstd::prelude::*;
use vstd::string::StringExecFns;
use crate::codec::{base64_decode, base64_decoded, base64_encode, base64_text};
use crate::text::{decimal, usize_to_decimal};
use crypto_box::aead::{Aead, AeadCore, OsRng};

verus! {

/// What opening the box `ct` under `nonce` gives for the key pair
/// (`pk`, `sk`): the plaintext, or `None` when it does not authenticate.
pub uninterp spec fn box_open(pk: Seq<u8>, sk: Seq<u8>, nonce: Seq<u8>, ct: Seq<u8>) -> Option<Seq<u8>>;

/// The public key of the secret key `sk`.
pub uninterp spec fn public_key_of(sk: Seq<u8>) -> Seq<u8>;

/// `SalsaBox::new(pk, sk)` and `encrypt` under a nonce from `OsRng`.
/// Claimed: it succeeds (the box refuses only non-empty associated data,
/// and a plain message carries none), the nonce has 24 bytes (the box's
/// nonce size), and opening the result with the same key pair gives `msg`
/// back. Which nonce is drawn is left unsaid.
#[verifier::external_body]
fn salsa_seal(pk: [u8; 32], sk: [u8; 32], msg: &[u8]) -> (r: Result<(Vec<u8>, Vec<u8>), String>)
    ensures
        r is Ok,
        r matches Ok((n, c)) ==> n@.len() == 24 && box_open(pk@, sk@, n@, c@) == Some(msg@),
{
    let b = crypto_box::SalsaBox::new(&crypto_box::PublicKey::from(pk), &crypto_box::SecretKey::from(sk));
    let nonce = crypto_box::SalsaBox::generate_nonce(&mut OsRng);
    match b.encrypt(&nonce, msg) {
        Ok(c) => Ok((nonce.to_vec(), c)),
        Err(e) => Err(e.to_string()),
    }
}

/// `SalsaBox::new(pk, sk)` and `decrypt`. Claimed: the result is the named
/// one, and a failure reads `aead::Error` (its `Display`).
#[verifier::external_body]
fn salsa_open(pk: [u8; 32], sk: [u8; 32], nonce: [u8; 24], ct: &[u8]) -> (r: Result<Vec<u8>, String>)
    ensures
        match r {
            Ok(m) => box_open(pk@, sk@, nonce@, ct@) == Some(m@),
            Err(e) => box_open(pk@, sk@, nonce@, ct@) is None && e@ == "aead::Error"@,
        },
{
    let b = crypto_box::SalsaBox::new(&crypto_box::PublicKey::from(pk), &crypto_box::SecretKey::from(sk));
    match b.decrypt(crypto_box::Nonce::from_slice(&nonce), ct) {
        Ok(m) => Ok(m),
        Err(e) => Err(e.to_string()),
    }
}

/// `SecretKey::generate(&mut OsRng)` and its public key. Claimed: the
/// public key is that of the secret key.
#[verifier::external_body]
fn fresh_keypair() -> (r: ([u8; 32], [u8; 32]))
    ensures
        r.0@ == public_key_of(r.1@),
{
    let sk = crypto_box::SecretKey::generate(&mut OsRng);
    (sk.public_key().to_bytes(), sk.to_bytes())
}

#[derive(Debug)]
pub enum CryptoError {
    KeyGenerationError(String),
    EncryptionError(String),
    DecryptionError(String),
    KeyNotInitialized,
}

pub open spec fn crypto_error_text(e: CryptoError) -> Seq<char> {
    match e {
        CryptoError::KeyGenerationError(m) => "Key generation failed: "@ + m@,
        CryptoError::EncryptionError(m) => "Encryption failed: "@ + m@,
        CryptoError::DecryptionError(m) => "Decryption failed: "@ + m@,
        CryptoError::KeyNotInitialized => "Key not initialized"@,
    }
}

impl CryptoError {
    /// The error's text.
    pub fn to_string(&self) -> (s: String)
        ensures
            s@ == crypto_error_text(*self),
    {
        match self {
            CryptoError::KeyGenerationError(m) => "Key generation failed: ".to_owned().concat(m.as_str()),
            CryptoError::EncryptionError(m) => "Encryption failed: ".to_owned().concat(m.as_str()),
            CryptoError::DecryptionError(m) => "Decryption failed: ".to_owned().concat(m.as_str()),
            CryptoError::KeyNotInitialized => "Key not initialized".to_owned(),
        }
    }
}

/// A key pair as Base64 text.
#[derive(Debug)]
pub struct NodeKeys {
    pub public_key: String,
    pub secret_key: String,
}

impl Clone for NodeKeys {
    fn clone(&self) -> (r: Self)
        ensures
            r == *self,
    {
        NodeKeys { public_key: self.public_key.clone(), secret_key: self.secret_key.clone() }
    }
}

/// What a key file holds: the public key only.
#[derive(Debug)]
pub struct KeyFile {
    pub public_key: String,
}

/// The 32 bytes a Base64 key text decodes to, if it decodes to 32 bytes.
pub open spec fn key_bytes(text: Seq<char>) -> Option<Seq<u8>> {
    match base64_decoded(text) {
        Ok(b) => if b.len() == 32 {
            Some(b)
        } else {
            None
        },
        Err(_) => None,
    }
}

fn to_key(bytes: &Vec<u8>) -> (r: [u8; 32])
    requires
        bytes@.len() == 32,
    ensures
        r@ == bytes@,
{
    let mut out = [0u8; 32];
    let mut i: usize = 0;
    while i < 32
        invariant
            bytes@.len() == 32,
            i <= 32,
            forall|j: int| 0 <= j < i ==> out@[j] == bytes@[j],
        decreases 32 - i,
    {
        out[i] = bytes[i];
        i += 1;
    }
    assert(out@ =~= bytes@);
    out
}

fn to_nonce(bytes: &[u8]) -> (r: [u8; 24])
    requires
        bytes@.len() >= 24,
    ensures
        r@ == bytes@.take(24),
{
    let mut out = [0u8; 24];
    let mut i: usize = 0;
    while i < 24
        invariant
            bytes@.len() >= 24,
            i <= 24,
            forall|j: int| 0 <= j < i ==> out@[j] == bytes@[j],
        decreases 24 - i,
    {
        out[i] = bytes[i];
        i += 1;
    }
    assert(out@ =~= bytes@.take(24));
    out
}

/// Holds the node's key pair once generated or loaded.
#[derive(Debug)]
pub struct KeyManager {
    pub keys: Option<NodeKeys>,
}

impl KeyManager {
    pub fn new() -> (m: Self)
        ensures
            m.keys is None,
    {
        KeyManager { keys: None }
    }

    /// Uses `keys` from now on (keys read from a file or the environment).
    pub fn set_keys(&mut self, keys: NodeKeys)
        ensures
            final(self).keys == Some(keys),
    {
        self.keys = Some(keys);
    }

    /// Makes a fresh key pair, keeps it and returns it as Base64 text.
    pub fn generate_keypair(&mut self) -> (k: NodeKeys)
        ensures
            final(self).keys == Some(k),
            base64_decoded(k.secret_key@) is Ok,
            key_bytes(k.secret_key@) is Some,
            key_bytes(k.public_key@) == Some(public_key_of(key_bytes(k.secret_key@)->Some_0)),
    {
        let (pk, sk) = fresh_keypair();
        let keys = NodeKeys {
            public_key: base64_encode(pk.as_slice()),
            secret_key: base64_encode(sk.as_slice()),
        };
        self.keys = Some(keys.clone());
        keys
    }

    pub fn get_public_key(&self) -> (r: Result<String, CryptoError>)
        ensures
            match self.keys {
                Some(k) => r is Ok && r->Ok_0 == k.public_key,
                None => r matches Err(CryptoError::KeyNotInitialized),
            },
    {
        match &self.keys {
            Some(k) => Ok(k.public_key.clone()),
            None => Err(CryptoError::KeyNotInitialized),
        }
    }

    pub fn get_secret_key(&self) -> (r: Result<String, CryptoError>)
        ensures
            match self.keys {
                Some(k) => r is Ok && r->Ok_0 == k.secret_key,
                None => r matches Err(CryptoError::KeyNotInitialized),
            },
    {
        match &self.keys {
            Some(k) => Ok(k.secret_key.clone()),
            None => Err(CryptoError::KeyNotInitialized),
        }
    }

    /// Encrypts `share` for the holder of `recipient_public_key` (Base64):
    /// the result is the 24-byte nonce followed by the ciphertext.
    pub fn encrypt_share(&self, share: &[u8], recipient_public_key: &str) -> (r: Result<Vec<u8>, CryptoError>)
        ensures
            r is Err ==> crypto_error_text(r->Err_0) == encrypt_error_text(
                self.keys,
                recipient_public_key@,
            ),
            encrypt_failure(self.keys, recipient_public_key@) is Some ==> r is Err,
            encrypt_failure(self.keys, recipient_public_key@) is None ==> r is Ok,
            r matches Ok(c) ==> sealed_for(self.keys, recipient_public_key@, share@, c@),
    {
        let k = match &self.keys {
            Some(k) => k,
            None => return Err(CryptoError::KeyNotInitialized),
        };
        let sk_bytes = match base64_decode(k.secret_key.as_str()) {
            Ok(b) => b,
            Err(e) => return Err(CryptoError::EncryptionError(e)),
        };
        if sk_bytes.len() != 32 {
            return Err(CryptoError::EncryptionError("Invalid secret key".to_owned()));
        }
        let pk_bytes = match base64_decode(recipient_public_key) {
            Ok(b) => b,
            Err(e) => return Err(CryptoError::EncryptionError(e)),
        };
        if pk_bytes.len() != 32 {
            return Err(CryptoError::EncryptionError("Invalid recipient public key".to_owned()));
        }
        match salsa_seal(to_key(&pk_bytes), to_key(&sk_bytes), share) {
            Ok((nonce, ct)) => {
                let mut out: Vec<u8> = Vec::new();
                crate::support::extend_bytes(&mut out, nonce.as_slice());
                crate::support::extend_bytes(&mut out, ct.as_slice());
                assert(out@.take(24) =~= nonce@);
                assert(out@.skip(24) =~= ct@);
                Ok(out)
            },
            Err(e) => Err(CryptoError::EncryptionError(e)),
        }
    }

    /// Decrypts a share encrypted for this node (nonce, then ciphertext).
    pub fn decrypt_share(&self, encrypted_share: &[u8]) -> (r: Result<Vec<u8>, CryptoError>)
        ensures
            match decrypt_outcome(self.keys, encrypted_share@) {
                Ok(m) => r is Ok && r->Ok_0@ == m,
                Err(t) => r is Err && crypto_error_text(r->Err_0) == t,
            },
    {
        let k = match &self.keys {
            Some(k) => k,
            None => return Err(CryptoError::KeyNotInitialized),
        };
        let sk_bytes = match base64_decode(k.secret_key.as_str()) {
            Ok(b) => b,
            Err(e) => return Err(CryptoError::DecryptionError(e)),
        };
        if sk_bytes.len() != 32 {
            return Err(CryptoError::DecryptionError("Invalid secret key".to_owned()));
        }
        let pk_bytes = match base64_decode(k.public_key.as_str()) {
            Ok(b) => b,
            Err(e) => return Err(CryptoError::DecryptionError(e)),
        };
        if pk_bytes.len() != 32 {
            return Err(CryptoError::DecryptionError("Invalid public key".to_owned()));
        }
        if encrypted_share.len() < 24 {
            return Err(CryptoError::DecryptionError("Invalid encrypted data length".to_owned()));
        }
        let nonce = to_nonce(encrypted_share);
        let ct = vstd::slice::slice_subrange(encrypted_share, 24, encrypted_share.len());
        match salsa_open(to_key(&pk_bytes), to_key(&sk_bytes), nonce, ct) {
            Ok(m) => Ok(m),
            Err(e) => Err(CryptoError::DecryptionError(e)),
        }
    }
}

/// The error `encrypt_share` gives before it seals anything, if any.
pub open spec fn encrypt_failure(keys: Option<NodeKeys>, recipient: Seq<char>) -> Option<Seq<char>> {
    match keys {
        None => Some("Key not initialized"@),
        Some(k) => match base64_decoded(k.secret_key@) {
            Err(e) => Some("Encryption failed: "@ + e),
            Ok(sk) => if sk.len() != 32 {
                Some("Encryption failed: "@ + "Invalid secret key"@)
            } else {
                match base64_decoded(recipient) {
                    Err(e) => Some("Encryption failed: "@ + e),
                    Ok(pk) => if pk.len() != 32 {
                        Some("Encryption failed: "@ + "Invalid recipient public key"@)
                    } else {
                        None
                    },
                }
            },
        },
    }
}

/// The text of the error `encrypt_share` gives: the one found before
/// sealing, or the box's own.
pub open spec fn encrypt_error_text(keys: Option<NodeKeys>, recipient: Seq<char>) -> Seq<char> {
    match encrypt_failure(keys, recipient) {
        Some(t) => t,
        None => "Encryption failed: "@ + "aead::Error"@,
    }
}

/// `c` is `share` sealed with the node's secret key for `recipient`: a
/// 24-byte nonce, then a ciphertext that opens to `share`.
pub open spec fn sealed_for(keys: Option<NodeKeys>, recipient: Seq<char>, share: Seq<u8>, c: Seq<u8>) -> bool {
    &&& keys is Some
    &&& key_bytes(keys->Some_0.secret_key@) is Some
    &&& key_bytes(recipient) is Some
    &&& c.len() >= 24
    &&& box_open(
        key_bytes(recipient)->Some_0,
        key_bytes(keys->Some_0.secret_key@)->Some_0,
        c.take(24),
        c.skip(24),
    ) == Some(share)
}

/// What `decrypt_share` gives for `c`: the plaintext, or the error's text.
pub open spec fn decrypt_outcome(keys: Option<NodeKeys>, c: Seq<u8>) -> Result<Seq<u8>, Seq<char>> {
    match keys {
        None => Err("Key not initialized"@),
        Some(k) => match base64_decoded(k.secret_key@) {
            Err(e) => Err("Decryption failed: "@ + e),
            Ok(sk) => if sk.len() != 32 {
                Err("Decryption failed: "@ + "Invalid secret key"@)
            } else {
                match base64_decoded(k.public_key@) {
                    Err(e) => Err("Decryption failed: "@ + e),
                    Ok(pk) => if pk.len() != 32 {
                        Err("Decryption failed: "@ + "Invalid public key"@)
                    } else if c.len() < 24 {
                        Err("Decryption failed: "@ + "Invalid encrypted data length"@)
                    } else {
                        match box_open(pk, sk, c.take(24), c.skip(24)) {
                            Some(m) => Ok(m),
                            None => Err("Decryption failed: "@ + "aead::Error"@),
                        }
                    }
                }
            },
        },
    }
}

/// What a node encrypts for its own public key, it decrypts back.
pub proof fn lemma_share_roundtrip(keys: Option<NodeKeys>, share: Seq<u8>, c: Seq<u8>)
    requires
        keys is Some,
        sealed_for(keys, keys->Some_0.public_key@, share, c),
    ensures
        decrypt_outcome(keys, c) == Ok::<Seq<u8>, Seq<char>>(share),
{
}

/// The name of the environment variable that holds node `id`'s public key.
pub open spec fn public_key_var(id: u32) -> Seq<char> {
    "MPC_NODE_"@ + decimal(id as nat) + "_PUBLIC_KEY"@
}

/// The key pair a node takes from its environment: `MPC_PRIVATE_KEY` and
/// `MPC_NODE_<id>_PUBLIC_KEY`, both Base64. Refused when the public key is
/// not set or either text is not Base64; otherwise the decoded keys,
/// written again as Base64.
pub fn keys_from_environment(id: u32, private_key: &str, public_key: Option<&str>) -> (r: Result<NodeKeys, String>)
    ensures
        public_key is None ==> r is Err && r->Err_0@ == "Environment variable "@ + public_key_var(id)
            + " not found. Please set both MPC_PRIVATE_KEY and "@ + public_key_var(id),
        public_key matches Some(p) ==> match (base64_decoded(private_key@), base64_decoded(p@)) {
            (Err(_), _) => r is Err && r->Err_0@ == "Failed to decode MPC_PRIVATE_KEY from base64"@,
            (Ok(_), Err(_)) => r is Err && r->Err_0@ == "Failed to decode "@ + public_key_var(id) + " from base64"@,
            (Ok(sk), Ok(pk)) => r is Ok && r->Ok_0.secret_key@ == base64_text(sk) && r->Ok_0.public_key@
                == base64_text(pk),
        },
{
    let var = "MPC_NODE_".to_owned().concat(usize_to_decimal(id as usize).as_str()).concat("_PUBLIC_KEY");
    let public_key = match public_key {
        Some(p) => p,
        None => {
            return Err(
                "Environment variable ".to_owned().concat(var.as_str()).concat(
                    " not found. Please set both MPC_PRIVATE_KEY and ",
                ).concat(var.as_str()),
            );
        },
    };
    let sk = match base64_decode(private_key) {
        Ok(b) => b,
        Err(_) => return Err("Failed to decode MPC_PRIVATE_KEY from base64".to_owned()),
    };
    let pk = match base64_decode(public_key) {
        Ok(b) => b,
        Err(_) => return Err("Failed to decode ".to_owned().concat(var.as_str()).concat(" from base64")),
    };
    Ok(NodeKeys { public_key: base64_encode(pk.as_slice()), secret_key: base64_encode(sk.as_slice()) })
}

} // verus!
