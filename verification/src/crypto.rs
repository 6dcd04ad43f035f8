//! Sealing and opening of data under a key: authenticated encryption with
//! XChaCha20-Poly1305, keys drawn at random or derived from a password.

use vstd::prelude::*;
use vstd::utf8::{decode_utf8, encode_utf8, encode_utf8_decode_utf8, encode_utf8_valid_utf8, valid_utf8};
use vstd::string::StringSliceAdditionalSpecFns;
use crate::json::{from_json, json_of_text, text_of_json, to_json};
use crate::net::{decimal, decimal_text};

verus! {

/// The length of a key in bytes.
pub const KEY_LENGTH: usize = 32;

/// By how many bytes sealed data is longer than what was sealed: a nonce of
/// 24 bytes in front, a tag of 16 bytes behind.
pub const SEAL_OVERHEAD: usize = 40;

/// The most bytes that can be sealed at once.
pub const MAX_PLAINTEXT: u64 = 274877906880;

/// The version of the sealed form that is written, and the only one read.
pub const SEALED_VERSION: u8 = 1;

/// The cost of deriving a key from a password: passes over the memory.
pub const DERIVE_ITERATIONS: u32 = 3;

/// The cost of deriving a key from a password: memory in kibibytes.
pub const DERIVE_MEMORY: u32 = 8192;

/// What `orion::aead::open` gives for a key and sealed data: the bytes that
/// were sealed, or nothing where the key or the data is not right.
pub uninterp spec fn aead_open(key: Seq<u8>, sealed: Seq<u8>) -> Option<Seq<u8>>;

/// What `orion::kdf::derive_key` gives for a password, a salt, the two costs
/// and a length: the derived key, or nothing where it refuses.
pub uninterp spec fn argon2i(
    password: Seq<u8>,
    salt: Seq<u8>,
    iterations: u32,
    memory: u32,
    length: u32,
) -> Option<Seq<u8>>;

/// `orion::aead::seal` under the key made of `key` by
/// `SecretKey::from_slice`. It refuses a key that is not 32 bytes long and
/// an empty plaintext, and seals anything else that fits in memory. The
/// nonce is drawn at random, so two calls differ; but whatever comes out is
/// 40 bytes longer than the plaintext, and `orion::aead::open` under the
/// same key gives the plaintext back. More than `MAX_PLAINTEXT` bytes are
/// not handed to it.
#[verifier::external_body]
fn seal(key: &[u8], plaintext: &[u8]) -> (r: Option<Vec<u8>>)
    requires
        plaintext@.len() <= MAX_PLAINTEXT,
    ensures
        r is Some <==> can_seal(key@.len(), plaintext@.len()),
        r matches Some(sealed) ==> sealed@.len() == plaintext@.len() + SEAL_OVERHEAD,
        r matches Some(sealed) ==> aead_open(key@, sealed@) == Some(plaintext@),
{
    let secret = orion::aead::SecretKey::from_slice(key).ok()?;
    orion::aead::seal(&secret, plaintext).ok()
}

/// `orion::aead::open` under the key made of `key` by
/// `SecretKey::from_slice`. The result depends on the key and the sealed
/// data alone. Where it gives anything, the key is 32 bytes long and the
/// result is not empty and 40 bytes shorter than the sealed data. More
/// than `MAX_PLAINTEXT` bytes with their 40 are not handed to it.
#[verifier::external_body]
fn open(key: &[u8], sealed: &[u8]) -> (r: Option<Vec<u8>>)
    requires
        sealed@.len() <= MAX_PLAINTEXT + SEAL_OVERHEAD,
    ensures
        match aead_open(key@, sealed@) {
            Some(plaintext) => r matches Some(bytes) && bytes@ == plaintext,
            None => r is None,
        },
        r matches Some(bytes) ==> key@.len() == KEY_LENGTH && bytes@.len() > 0,
        r matches Some(bytes) ==> sealed@.len() == bytes@.len() + SEAL_OVERHEAD,
{
    let secret = orion::aead::SecretKey::from_slice(key).ok()?;
    orion::aead::open(&secret, sealed).ok()
}

/// `orion::aead::SecretKey::default`: 32 bytes drawn at random.
#[verifier::external_body]
fn random_key() -> (r: Vec<u8>)
    ensures
        r@.len() == KEY_LENGTH,
{
    orion::aead::SecretKey::default().unprotected_as_bytes().to_vec()
}

/// `orion::kdf::derive_key` (Argon2i) on the password and salt made of the
/// bytes by `from_slice`. The result depends on the arguments alone; a key
/// that comes out has the length asked for.
#[verifier::external_body]
fn derive(password: &[u8], salt: &[u8], iterations: u32, memory: u32, length: u32) -> (r: Option<
    Vec<u8>,
>)
    ensures
        match argon2i(password@, salt@, iterations, memory, length) {
            Some(key) => r matches Some(bytes) && bytes@ == key,
            None => r is None,
        },
        r matches Some(bytes) ==> bytes@.len() == length,
{
    let password = orion::kdf::Password::from_slice(password).ok()?;
    let salt = orion::kdf::Salt::from_slice(salt).ok()?;
    let key = orion::kdf::derive_key(&password, &salt, iterations, memory, length).ok()?;
    Some(key.unprotected_as_bytes().to_vec())
}

/// `String::from_utf8`: the string that the bytes encode, where they are
/// UTF-8.
#[verifier::external_body]
pub(crate) fn utf8_text(bytes: Vec<u8>) -> (r: Option<String>)
    ensures
        match r {
            Some(s) => valid_utf8(bytes@) && s@ == decode_utf8(bytes@),
            None => !valid_utf8(bytes@),
        },
{
    String::from_utf8(bytes).ok()
}

/// What can go wrong with keys and sealed data.
#[derive(Debug, PartialEq, Eq)]
pub enum CryptoError {
    /// The sealed data is of a version that is not read.
    UnsupportedVersion(String),
    /// The key is not a key: it has the wrong length, or none could be
    /// derived.
    BadKey(String),
    /// Sealing was refused, or the sealed data did not open under the key.
    Aead(String),
    /// What was opened is not text.
    Utf8(String),
    /// The text is not the JSON expected.
    Json(String),
}

impl CryptoError {
    /// The message the error carries.
    pub fn message(&self) -> (r: &str)
        ensures
            r@ == self.text(),
    {
        match self {
            CryptoError::UnsupportedVersion(m) => m.as_str(),
            CryptoError::BadKey(m) => m.as_str(),
            CryptoError::Aead(m) => m.as_str(),
            CryptoError::Utf8(m) => m.as_str(),
            CryptoError::Json(m) => m.as_str(),
        }
    }

    /// The message as a sequence of characters.
    pub open spec fn text(&self) -> Seq<char> {
        match self {
            CryptoError::UnsupportedVersion(m) => m@,
            CryptoError::BadKey(m) => m@,
            CryptoError::Aead(m) => m@,
            CryptoError::Utf8(m) => m@,
            CryptoError::Json(m) => m@,
        }
    }
}

/// Sealed data: the version of the form, and nonce, ciphertext and tag in
/// one run of bytes. It is shown by its length and version only.
#[derive(PartialEq, Eq)]
pub struct EncryptedData {
    pub data: Vec<u8>,
    pub version: u8,
}

impl Clone for EncryptedData {
    fn clone(&self) -> (r: Self)
        ensures
            r.data@ == self.data@,
            r.version == self.version,
    {
        EncryptedData { data: copy_bytes(&self.data), version: self.version }
    }
}

/// A secret key. It is never shown: it cannot be printed.
#[derive(PartialEq, Eq)]
pub struct Key {
    pub data: Vec<u8>,
}

impl Clone for Key {
    fn clone(&self) -> (r: Self)
        ensures
            r.data@ == self.data@,
    {
        Key { data: copy_bytes(&self.data) }
    }
}

/// A copy of the bytes.
fn copy_bytes(bytes: &Vec<u8>) -> (r: Vec<u8>)
    ensures
        r@ == bytes@,
{
    let mut r: Vec<u8> = Vec::new();
    let mut i: usize = 0;
    while i < bytes.len()
        invariant
            i <= bytes.len(),
            r@ == bytes@.take(i as int),
        decreases bytes.len() - i,
    {
        r.push(bytes[i]);
        proof {
            assert(bytes@.take(i + 1) =~= bytes@.take(i as int).push(bytes@[i as int]));
        }
        i += 1;
    }
    proof {
        assert(bytes@.take(bytes.len() as int) =~= bytes@);
    }
    r
}

/// Sealed data as it is shown: its length and its version, not its bytes.
pub open spec fn sealed_text(length: nat, version: u8) -> Seq<char> {
    "EncryptedData { data: [REDACTED] length "@ + decimal(length) + " bytes, version: "@
        + decimal(version as nat) + " }"@
}

impl EncryptedData {
    /// The sealed data as it is shown: its length and its version, not its
    /// bytes.
    pub fn to_string(&self) -> (r: String)
        ensures
            r@ == sealed_text(self.data@.len(), self.version),
    {
        let mut r = "EncryptedData { data: [REDACTED] length ".to_owned();
        r.append(decimal_text(self.data.len() as u64).as_str());
        r.append(" bytes, version: ");
        r.append(decimal_text(self.version as u64).as_str());
        r.append(" }");
        r
    }
}

/// Whether `n` bytes can be sealed under a key of `key_length` bytes.
pub open spec fn can_seal(key_length: nat, n: nat) -> bool {
    key_length == KEY_LENGTH && 0 < n <= MAX_PLAINTEXT && n + SEAL_OVERHEAD <= usize::MAX
}

/// The text that sealed data of the given version holds under `key`:
/// nothing where the version is not read, the data is too long, does not
/// open under the key, or does not hold text.
pub open spec fn opened_text(key: Seq<u8>, data: Seq<u8>, version: u8) -> Option<Seq<char>> {
    if version != SEALED_VERSION || data.len() > MAX_PLAINTEXT + SEAL_OVERHEAD {
        None
    } else {
        match aead_open(key, data) {
            Some(bytes) => if valid_utf8(bytes) {
                Some(decode_utf8(bytes))
            } else {
                None
            },
            None => None,
        }
    }
}

/// The bytes that sealed data of the given version holds under `key`:
/// nothing where the version is not read, the data is too long, or does
/// not open under the key.
pub open spec fn opened_bytes(key: Seq<u8>, data: Seq<u8>, version: u8) -> Option<Seq<u8>> {
    if version != SEALED_VERSION || data.len() > MAX_PLAINTEXT + SEAL_OVERHEAD {
        None
    } else {
        aead_open(key, data)
    }
}

/// The key derived from `secret` under `salt`, where one can be derived.
pub open spec fn derived_key(secret: Seq<u8>, salt: Seq<u8>) -> Option<Seq<u8>> {
    argon2i(secret, salt, DERIVE_ITERATIONS, DERIVE_MEMORY, 32)
}

/// The salt under which keys are derived from passwords.
pub open spec fn password_salt() -> Seq<u8> {
    encode_utf8("openportal.paddington"@)
}

/// The key derived from `password`, where one can be derived.
pub open spec fn password_key(password: Seq<char>) -> Option<Seq<u8>> {
    argon2i(encode_utf8(password), password_salt(), DERIVE_ITERATIONS, DERIVE_MEMORY, 32)
}

impl Key {
    /// A new key, drawn at random.
    pub fn generate() -> (r: Key)
        ensures
            r.data@.len() == KEY_LENGTH,
    {
        Key { data: random_key() }
    }

    /// The key that is no key: it holds no bytes, and nothing can be sealed
    /// or opened under it.
    pub fn null() -> (r: Key)
        ensures
            r.data@.len() == 0,
    {
        Key { data: Vec::new() }
    }

    /// Whether this is the key that is no key.
    pub fn is_null(&self) -> (r: bool)
        ensures
            r == (self.data@.len() == 0),
    {
        self.data.len() == 0
    }

    /// The key derived from `password`: the same key for the same password,
    /// always. Refused with `BadKey` where none can be derived, as from the
    /// empty password.
    pub fn from_password(password: &str) -> (r: Result<Key, CryptoError>)
        ensures
            match password_key(password@) {
                Some(key) => r matches Ok(k) && k.data@ == key && key.len() == KEY_LENGTH,
                None => r matches Err(CryptoError::BadKey(_)),
            },
    {
        let salt = "openportal.paddington";
        match derive(password.as_bytes(), salt.as_bytes(), DERIVE_ITERATIONS, DERIVE_MEMORY, 32) {
            Some(data) => Ok(Key { data }),
            None => Err(CryptoError::BadKey("No key can be derived from the password".to_owned())),
        }
    }

    /// Seals bytes under this key. They are sealed exactly where the key is
    /// 32 bytes long and the bytes are neither none nor too many; what
    /// comes out then is of version 1 and opens under the key to the bytes.
    pub fn seal_bytes(&self, bytes: &[u8]) -> (r: Result<EncryptedData, CryptoError>)
        ensures
            match r {
                Ok(sealed) => {
                    &&& can_seal(self.data@.len(), bytes@.len())
                    &&& sealed.version == SEALED_VERSION
                    &&& sealed.data@.len() == bytes@.len() + SEAL_OVERHEAD
                    &&& opened_bytes(self.data@, sealed.data@, sealed.version) == Some(bytes@)
                },
                Err(e) => {
                    &&& !can_seal(self.data@.len(), bytes@.len())
                    &&& e is BadKey <==> self.data@.len() != KEY_LENGTH
                    &&& e is BadKey || e is Aead
                },
            },
    {
        if self.data.len() != KEY_LENGTH {
            return Err(CryptoError::BadKey("A key must be 32 bytes long".to_owned()));
        }
        if bytes.len() as u64 > MAX_PLAINTEXT {
            return Err(CryptoError::Aead("Too much data to seal at once".to_owned()));
        }
        match seal(self.data.as_slice(), bytes) {
            Some(data) => Ok(EncryptedData { data, version: SEALED_VERSION }),
            None => Err(CryptoError::Aead("The data could not be sealed".to_owned())),
        }
    }

    /// Opens sealed data under this key and hands back the bytes in it.
    /// Refused with `UnsupportedVersion` where the version is not 1, with
    /// `Aead` where the data does not open under the key.
    pub fn open_bytes(&self, data: &EncryptedData) -> (r: Result<Vec<u8>, CryptoError>)
        ensures
            match opened_bytes(self.data@, data.data@, data.version) {
                Some(bytes) => r matches Ok(b) && b@ == bytes,
                None => r is Err,
            },
            data.version != SEALED_VERSION <==> r matches Err(CryptoError::UnsupportedVersion(_)),
            r matches Err(e) ==> e is UnsupportedVersion || e is Aead,
    {
        if data.version != SEALED_VERSION {
            return Err(
                CryptoError::UnsupportedVersion("Only version 1 of sealed data is read".to_owned()),
            );
        }
        if data.data.len() as u64 > MAX_PLAINTEXT + SEAL_OVERHEAD as u64 {
            return Err(CryptoError::Aead("Too much data to open at once".to_owned()));
        }
        match open(self.data.as_slice(), data.data.as_slice()) {
            Some(bytes) => Ok(bytes),
            None => Err(CryptoError::Aead("The data does not open under this key".to_owned())),
        }
    }

    /// The key derived from a secret under a salt: the same key for the
    /// same two, always. Refused with `BadKey` where none can be derived,
    /// as from no secret at all.
    pub fn from_secret(secret: &[u8], salt: &[u8]) -> (r: Result<Key, CryptoError>)
        ensures
            match derived_key(secret@, salt@) {
                Some(key) => r matches Ok(k) && k.data@ == key && key.len() == KEY_LENGTH,
                None => r matches Err(CryptoError::BadKey(_)),
            },
    {
        match derive(secret, salt, DERIVE_ITERATIONS, DERIVE_MEMORY, 32) {
            Some(data) => Ok(Key { data }),
            None => Err(CryptoError::BadKey("No key can be derived from the secret".to_owned())),
        }
    }

    /// Seals JSON text under this key. It is sealed exactly where the key
    /// is 32 bytes long and the text is neither empty nor too long; what
    /// comes out then is of version 1 and opens under the key to the text.
    pub fn encrypt_json(&self, json: &str) -> (r: Result<EncryptedData, CryptoError>)
        ensures
            match r {
                Ok(sealed) => {
                    &&& can_seal(self.data@.len(), json.spec_bytes().len())
                    &&& sealed.version == SEALED_VERSION
                    &&& sealed.data@.len() == json.spec_bytes().len() + SEAL_OVERHEAD
                    &&& opened_text(self.data@, sealed.data@, sealed.version) == Some(json@)
                },
                Err(e) => {
                    &&& !can_seal(self.data@.len(), json.spec_bytes().len())
                    &&& e is BadKey <==> self.data@.len() != KEY_LENGTH
                    &&& e is BadKey || e is Aead
                },
            },
    {
        if self.data.len() != KEY_LENGTH {
            return Err(CryptoError::BadKey("A key must be 32 bytes long".to_owned()));
        }
        let bytes = json.as_bytes();
        if bytes.len() as u64 > MAX_PLAINTEXT {
            return Err(CryptoError::Aead("Too much data to seal at once".to_owned()));
        }
        match seal(self.data.as_slice(), bytes) {
            Some(data) => {
                proof {
                    encode_utf8_valid_utf8(json@);
                    encode_utf8_decode_utf8(json@);
                }
                Ok(EncryptedData { data, version: SEALED_VERSION })
            },
            None => Err(CryptoError::Aead("The data could not be sealed".to_owned())),
        }
    }

    /// Opens sealed data under this key and hands back the JSON text in
    /// it. Refused with `UnsupportedVersion` where the version is not 1,
    /// with `Aead` where the data does not open under the key, with `Utf8`
    /// where what it holds is not text.
    pub fn decrypt_json(&self, data: &EncryptedData) -> (r: Result<String, CryptoError>)
        ensures
            match opened_text(self.data@, data.data@, data.version) {
                Some(json) => r matches Ok(s) && s@ == json,
                None => r is Err,
            },
            data.version != SEALED_VERSION <==> r matches Err(CryptoError::UnsupportedVersion(_)),
            r matches Err(CryptoError::Utf8(_)) ==> aead_open(self.data@, data.data@) is Some,
            r matches Err(e) ==> e is UnsupportedVersion || e is Aead || e is Utf8,
    {
        if data.version != SEALED_VERSION {
            return Err(
                CryptoError::UnsupportedVersion("Only version 1 of sealed data is read".to_owned()),
            );
        }
        if data.data.len() as u64 > MAX_PLAINTEXT + SEAL_OVERHEAD as u64 {
            return Err(CryptoError::Aead("Too much data to open at once".to_owned()));
        }
        match open(self.data.as_slice(), data.data.as_slice()) {
            Some(bytes) => match utf8_text(bytes) {
                Some(json) => Ok(json),
                None => Err(CryptoError::Utf8("The sealed data holds no text".to_owned())),
            },
            None => Err(CryptoError::Aead("The data does not open under this key".to_owned())),
        }
    }

    /// Into an error of the configuration.
    pub fn into_error(e: CryptoError) -> (r: crate::error::Error)
        ensures
            r matches crate::error::Error::Crypto(m) && m@ == e.text(),
    {
        crate::error::Error::Crypto(e.message().to_owned())
    }

    /// Seals a string under this key: its JSON text is sealed, as by
    /// `encrypt_json`.
    pub fn encrypt(&self, data: &str) -> (r: Result<EncryptedData, CryptoError>)
        ensures
            match r {
                Ok(sealed) => {
                    &&& can_seal(self.data@.len(), encode_utf8(json_of_text(data@)).len())
                    &&& sealed.version == SEALED_VERSION
                    &&& opened_text(self.data@, sealed.data@, sealed.version) == Some(
                        json_of_text(data@),
                    )
                },
                Err(e) => {
                    &&& !can_seal(self.data@.len(), encode_utf8(json_of_text(data@)).len())
                    &&& e is BadKey <==> self.data@.len() != KEY_LENGTH
                    &&& e is BadKey || e is Aead
                },
            },
    {
        let json = to_json(data);
        self.encrypt_json(json.as_str())
    }

    /// Opens sealed data under this key and hands back the string whose
    /// JSON text it holds. Refused as by `decrypt_json`, and with `Json`
    /// where the text is not that of a string.
    pub fn decrypt(&self, data: &EncryptedData) -> (r: Result<String, CryptoError>)
        ensures
            match opened_text(self.data@, data.data@, data.version) {
                Some(json) => match text_of_json(json) {
                    Some(text) => r matches Ok(s) && s@ == text,
                    None => r matches Err(CryptoError::Json(_)),
                },
                None => r matches Err(e) && !(e is Json),
            },
            data.version != SEALED_VERSION <==> r matches Err(CryptoError::UnsupportedVersion(_)),
    {
        match self.decrypt_json(data) {
            Ok(json) => match from_json(json.as_str()) {
                Ok(text) => Ok(text),
                Err(e) => Err(CryptoError::Json(e)),
            },
            Err(e) => Err(e),
        }
    }
}

} // verus!
