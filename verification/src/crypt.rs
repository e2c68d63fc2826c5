//! The ciphers that protect spilled stripes and their keys.

use vstd::prelude::*;
use vstd::slice::slice_subrange;
use crate::SECTOR_SIZE;

verus! {

/// Bytes of an AES-256 key.
pub const KEY_LEN: usize = 32;

/// Bytes of an AES-GCM nonce.
pub const NONCE_LEN: usize = 12;

/// Bytes of an AES-GCM tag.
pub const TAG_LEN: usize = 16;

/// Data of at most this many bytes can be sealed.
pub const SEAL_MAX: u64 = 0x10_0000_0000;

/// What a key, or something encrypted under one, is missing.
#[derive(Debug, Clone, Copy, PartialEq, Eq, Structural)]
pub enum CryptError {
    /// A key does not have 32 bytes.
    KeyLength { len: usize },
    /// The key encryption cipher has no key.
    MissingKey,
    /// The key encryption cipher has no authenticated data.
    MissingAuthData,
    /// The data is too long to be sealed.
    TooLong,
    /// The data is too short to hold a nonce and a tag.
    TooShort { len: usize },
    /// The data was not sealed under this key and this authenticated data.
    NotAuthentic,
    /// Unsealed key data does not hold two keys.
    KeyDataLength { len: usize },
    /// No random bytes could be had.
    NoRandomness,
}

/// What AES-256-XTS makes of `data` under the two keys, in sectors of
/// `sector_size` bytes numbered from `first_sector`.
pub uninterp spec fn xts_encrypted(
    key1: Seq<u8>,
    key2: Seq<u8>,
    data: Seq<u8>,
    sector_size: usize,
    first_sector: u64,
) -> Seq<u8>;

/// What AES-256-XTS decryption makes of `data`.
pub uninterp spec fn xts_decrypted(
    key1: Seq<u8>,
    key2: Seq<u8>,
    data: Seq<u8>,
    sector_size: usize,
    first_sector: u64,
) -> Seq<u8>;

/// Calls `xts_mode::Xts128::encrypt_area` over `aes::Aes256` with
/// `get_tweak_default`. Each whole sector is encrypted in place, so the length
/// stays; decrypting with the same keys and sector number gives the data back.
#[verifier::external_body]
fn xts_encrypt(
    key1: &[u8],
    key2: &[u8],
    data: &mut Vec<u8>,
    sector_size: usize,
    first_sector: u64,
)
    requires
        key1@.len() == KEY_LEN,
        key2@.len() == KEY_LEN,
        sector_size >= 16,
        old(data)@.len() % sector_size as nat == 0,
    ensures
        final(data)@ == xts_encrypted(key1@, key2@, old(data)@, sector_size, first_sector),
        final(data)@.len() == old(data)@.len(),
        xts_decrypted(key1@, key2@, final(data)@, sector_size, first_sector) == old(data)@,
{
    let cipher1 = <aes::Aes256 as aes::cipher::KeyInit>::new_from_slice(key1).unwrap();
    let cipher2 = <aes::Aes256 as aes::cipher::KeyInit>::new_from_slice(key2).unwrap();
    let xts = xts_mode::Xts128::<aes::Aes256>::new(cipher1, cipher2);
    xts.encrypt_area(
        data.as_mut_slice(),
        sector_size,
        first_sector as u128,
        xts_mode::get_tweak_default,
    );
}

/// Calls `xts_mode::Xts128::decrypt_area` over `aes::Aes256` with
/// `get_tweak_default`. Each whole sector is decrypted in place, so the length
/// stays.
#[verifier::external_body]
fn xts_decrypt(
    key1: &[u8],
    key2: &[u8],
    data: &mut Vec<u8>,
    sector_size: usize,
    first_sector: u64,
)
    requires
        key1@.len() == KEY_LEN,
        key2@.len() == KEY_LEN,
        sector_size >= 16,
        old(data)@.len() % sector_size as nat == 0,
    ensures
        final(data)@ == xts_decrypted(key1@, key2@, old(data)@, sector_size, first_sector),
        final(data)@.len() == old(data)@.len(),
{
    let cipher1 = <aes::Aes256 as aes::cipher::KeyInit>::new_from_slice(key1).unwrap();
    let cipher2 = <aes::Aes256 as aes::cipher::KeyInit>::new_from_slice(key2).unwrap();
    let xts = xts_mode::Xts128::<aes::Aes256>::new(cipher1, cipher2);
    xts.decrypt_area(
        data.as_mut_slice(),
        sector_size,
        first_sector as u128,
        xts_mode::get_tweak_default,
    );
}

/// What AES-256-GCM makes of `data`: the ciphertext and its tag.
pub uninterp spec fn gcm_sealed(
    key: Seq<u8>,
    nonce: Seq<u8>,
    auth_data: Seq<u8>,
    data: Seq<u8>,
) -> Seq<u8>;

/// What AES-256-GCM unseals `data` to, if it is authentic.
pub uninterp spec fn gcm_opened(
    key: Seq<u8>,
    nonce: Seq<u8>,
    auth_data: Seq<u8>,
    data: Seq<u8>,
) -> Option<Seq<u8>>;

/// Calls `aes_gcm::Aes256Gcm` through `Aead::encrypt`. The result is the
/// ciphertext, as long as the data, with a 16-byte tag behind it; it opens to
/// the data under the same key, nonce and authenticated data. It fails only
/// for data or authenticated data over 2^36 bytes.
#[verifier::external_body]
fn gcm_seal(key: &[u8], nonce: &[u8], auth_data: &[u8], data: &[u8]) -> (r: Option<Vec<u8>>)
    requires
        key@.len() == KEY_LEN,
        nonce@.len() == NONCE_LEN,
    ensures
        (r is Some) == (data@.len() <= SEAL_MAX && auth_data@.len() <= SEAL_MAX),
        r is Some ==> r->Some_0@ == gcm_sealed(key@, nonce@, auth_data@, data@),
        r is Some ==> r->Some_0@.len() == data@.len() + TAG_LEN,
        r is Some ==> gcm_opened(key@, nonce@, auth_data@, r->Some_0@) == Some(data@),
{
    let cipher = <aes_gcm::Aes256Gcm as aes_gcm::KeyInit>::new_from_slice(key).unwrap();
    let payload = aes_gcm::aead::Payload { msg: data, aad: auth_data };
    aes_gcm::aead::Aead::encrypt(&cipher, aes_gcm::Nonce::from_slice(nonce), payload).ok()
}

/// Calls `aes_gcm::Aes256Gcm` through `Aead::decrypt`. What comes back, and
/// whether anything does, depends on the arguments alone; it is 16 bytes
/// shorter than the data. Which data is authentic is left unsaid.
#[verifier::external_body]
fn gcm_open(key: &[u8], nonce: &[u8], auth_data: &[u8], data: &[u8]) -> (r: Option<Vec<u8>>)
    requires
        key@.len() == KEY_LEN,
        nonce@.len() == NONCE_LEN,
    ensures
        r is Some <==> gcm_opened(key@, nonce@, auth_data@, data@) is Some,
        r is Some ==> gcm_opened(key@, nonce@, auth_data@, data@) == Some(r->Some_0@),
        r is Some ==> r->Some_0@.len() + TAG_LEN == data@.len(),
{
    let cipher = <aes_gcm::Aes256Gcm as aes_gcm::KeyInit>::new_from_slice(key).unwrap();
    let payload = aes_gcm::aead::Payload { msg: data, aad: auth_data };
    aes_gcm::aead::Aead::decrypt(&cipher, aes_gcm::Nonce::from_slice(nonce), payload).ok()
}

/// Calls `RngCore::try_fill_bytes` of `aes_gcm::aead::OsRng`. The bytes are
/// whatever the operating system gives, if it gives any; only their number is
/// known.
#[verifier::external_body]
fn random_bytes(len: usize) -> (r: Option<Vec<u8>>)
    ensures
        r matches Some(v) ==> v@.len() == len,
{
    let mut bytes = vec![0u8; len];
    match aes_gcm::aead::rand_core::RngCore::try_fill_bytes(&mut aes_gcm::aead::OsRng, &mut bytes) {
        Ok(_) => Some(bytes),
        Err(_) => None,
    }
}

/// A copy of `bytes`.
pub fn copy_bytes(bytes: &[u8]) -> (r: Vec<u8>)
    ensures
        r@ == bytes@,
{
    let mut out: Vec<u8> = Vec::new();
    let mut i: usize = 0;
    while i < bytes.len()
        invariant
            i <= bytes@.len(),
            out@ == bytes@.subrange(0, i as int),
        decreases bytes@.len() - i,
    {
        out.push(bytes[i]);
        i = i + 1;
        assert(out@ =~= bytes@.subrange(0, i as int));
    }
    assert(out@ =~= bytes@);
    out
}

/// AES-256-XTS over device sectors.
#[derive(Debug, Clone, PartialEq, Eq)]
pub struct XtsBlockCipher {
    /// The key that encrypts blocks.
    pub key1: Vec<u8>,
    /// The key that encrypts tweaks.
    pub key2: Vec<u8>,
}

impl XtsBlockCipher {
    /// Both keys have 32 bytes.
    pub open spec fn wf(self) -> bool {
        self.key1@.len() == KEY_LEN && self.key2@.len() == KEY_LEN
    }

    /// A cipher with the given keys.
    pub fn new(key1: Vec<u8>, key2: Vec<u8>) -> (r: Result<XtsBlockCipher, CryptError>)
        ensures
            match r {
                Ok(c) => key1@.len() == KEY_LEN && key2@.len() == KEY_LEN && c.key1@ == key1@
                    && c.key2@ == key2@ && c.wf(),
                Err(e) => if key1@.len() != KEY_LEN {
                    e == (CryptError::KeyLength { len: key1@.len() as usize })
                } else {
                    key2@.len() != KEY_LEN && e == (CryptError::KeyLength {
                        len: key2@.len() as usize,
                    })
                },
            },
    {
        if key1.len() != KEY_LEN {
            return Err(CryptError::KeyLength { len: key1.len() });
        }
        if key2.len() != KEY_LEN {
            return Err(CryptError::KeyLength { len: key2.len() });
        }
        Ok(XtsBlockCipher { key1, key2 })
    }

    /// A cipher with fresh keys.
    pub fn random() -> (r: Result<XtsBlockCipher, CryptError>)
        ensures
            match r {
                Ok(c) => c.wf(),
                Err(e) => e == CryptError::NoRandomness,
            },
    {
        match (random_bytes(KEY_LEN), random_bytes(KEY_LEN)) {
            (Some(key1), Some(key2)) => Ok(XtsBlockCipher { key1, key2 }),
            _ => Err(CryptError::NoRandomness),
        }
    }

    /// Encrypt whole sectors in place; the first is number `sector_start`.
    pub fn encrypt(&self, data: &mut Vec<u8>, sector_start: u64)
        requires
            self.wf(),
            old(data)@.len() % SECTOR_SIZE as nat == 0,
        ensures
            final(data)@ == xts_encrypted(
                self.key1@,
                self.key2@,
                old(data)@,
                SECTOR_SIZE,
                sector_start,
            ),
            final(data)@.len() == old(data)@.len(),
            xts_decrypted(self.key1@, self.key2@, final(data)@, SECTOR_SIZE, sector_start) == old(
                data,
            )@,
    {
        xts_encrypt(self.key1.as_slice(), self.key2.as_slice(), data, SECTOR_SIZE, sector_start);
    }

    /// Decrypt whole sectors in place; the first is number `sector_start`.
    pub fn decrypt(&self, data: &mut Vec<u8>, sector_start: u64)
        requires
            self.wf(),
            old(data)@.len() % SECTOR_SIZE as nat == 0,
        ensures
            final(data)@ == xts_decrypted(
                self.key1@,
                self.key2@,
                old(data)@,
                SECTOR_SIZE,
                sector_start,
            ),
            final(data)@.len() == old(data)@.len(),
    {
        xts_decrypt(self.key1.as_slice(), self.key2.as_slice(), data, SECTOR_SIZE, sector_start);
    }

    /// The two keys, sealed under `kek`.
    pub fn encrypted_key(&self, kek: &KeyEncryptionCipher) -> (r: Result<Vec<u8>, CryptError>)
        requires
            self.wf(),
        ensures
            match r {
                Ok(v) => kek.usable() is None && kek.opens_to(v@, self.key1@ + self.key2@),
                Err(e) => Some(e) == kek.usable() || e == CryptError::NoRandomness,
            },
            kek.usable() matches Some(e) ==> r == Err::<Vec<u8>, CryptError>(e),
            kek.method == CipherMethod::Plain ==> r is Ok,
            kek.method == CipherMethod::Aes256Gcm && r is Ok ==> r->Ok_0@.len() == NONCE_LEN + 2
                * KEY_LEN + TAG_LEN,
    {
        let mut data: Vec<u8> = copy_bytes(self.key1.as_slice());
        let mut second = copy_bytes(self.key2.as_slice());
        data.append(&mut second);
        kek.encrypt_key_data(&data)
    }

    /// The cipher whose keys were sealed under `kek`.
    pub fn from_encrypted_key(wrapped: Vec<u8>, kek: &KeyEncryptionCipher) -> (r: Result<
        XtsBlockCipher,
        CryptError,
    >)
        ensures
            match r {
                Ok(c) => c.wf() && kek.opens_to(wrapped@, c.key1@ + c.key2@),
                Err(e) => match kek.opened(wrapped@) {
                    Ok(data) => data.len() != 2 * KEY_LEN && e == (CryptError::KeyDataLength {
                        len: data.len() as usize,
                    }),
                    Err(f) => e == f,
                },
            },
            kek.method == CipherMethod::Aes256Gcm && r is Ok ==> wrapped@.len() == NONCE_LEN + 2
                * KEY_LEN + TAG_LEN,
    {
        let data = match kek.decrypt_key_data(&wrapped) {
            Ok(data) => data,
            Err(e) => {
                return Err(e);
            },
        };
        if data.len() != 2 * KEY_LEN {
            return Err(CryptError::KeyDataLength { len: data.len() });
        }
        let key1 = copy_bytes(slice_subrange(data.as_slice(), 0, KEY_LEN));
        let key2 = copy_bytes(slice_subrange(data.as_slice(), KEY_LEN, 2 * KEY_LEN));
        assert(key1@ + key2@ =~= data@);
        Ok(XtsBlockCipher { key1, key2 })
    }
}

/// How keys are encrypted.
#[derive(Debug, Clone, Copy, PartialEq, Eq, Structural)]
pub enum CipherMethod {
    /// Not at all.
    Plain,
    /// AES-256-GCM: a nonce, the ciphertext, a tag.
    Aes256Gcm,
}

/// Encrypts keys.
#[derive(Debug, Clone, PartialEq, Eq)]
pub struct KeyEncryptionCipher {
    /// How.
    pub method: CipherMethod,
    /// With which key.
    pub key: Option<Vec<u8>>,
    /// Bound to which data.
    pub auth_data: Option<Vec<u8>>,
}

impl KeyEncryptionCipher {
    /// Why this cipher cannot seal anything, if it cannot.
    pub open spec fn usable(self) -> Option<CryptError> {
        match self.method {
            CipherMethod::Plain => None,
            CipherMethod::Aes256Gcm => match self.key {
                None => Some(CryptError::MissingKey),
                Some(key) => if key@.len() != KEY_LEN {
                    Some(CryptError::KeyLength { len: key@.len() as usize })
                } else {
                    match self.auth_data {
                        None => Some(CryptError::MissingAuthData),
                        Some(auth) => if auth@.len() > SEAL_MAX {
                            Some(CryptError::TooLong)
                        } else {
                            None
                        },
                    }
                },
            },
        }
    }

    /// What `wrapped` opens to under this cipher.
    pub open spec fn opened(self, wrapped: Seq<u8>) -> Result<Seq<u8>, CryptError> {
        match self.usable() {
            Some(e) => Err(e),
            None => match self.method {
                CipherMethod::Plain => Ok(wrapped),
                CipherMethod::Aes256Gcm => if wrapped.len() < NONCE_LEN + TAG_LEN {
                    Err(CryptError::TooShort { len: wrapped.len() as usize })
                } else {
                    match gcm_opened(
                        self.key->Some_0@,
                        wrapped.subrange(0, NONCE_LEN as int),
                        self.auth_data->Some_0@,
                        wrapped.subrange(NONCE_LEN as int, wrapped.len() as int),
                    ) {
                        Some(data) => Ok(data),
                        None => Err(CryptError::NotAuthentic),
                    }
                },
            },
        }
    }

    /// `wrapped` opens to `data` under this cipher.
    pub open spec fn opens_to(self, wrapped: Seq<u8>, data: Seq<u8>) -> bool {
        self.opened(wrapped) == Ok::<Seq<u8>, CryptError>(data)
    }

    /// Why this cipher cannot seal anything, if it cannot.
    fn check(&self) -> (r: Option<CryptError>)
        ensures
            r == self.usable(),
    {
        match self.method {
            CipherMethod::Plain => None,
            CipherMethod::Aes256Gcm => match &self.key {
                None => Some(CryptError::MissingKey),
                Some(key) => if key.len() != KEY_LEN {
                    Some(CryptError::KeyLength { len: key.len() })
                } else {
                    match &self.auth_data {
                        None => Some(CryptError::MissingAuthData),
                        Some(auth) => if auth.len() as u64 > SEAL_MAX {
                            Some(CryptError::TooLong)
                        } else {
                            None
                        },
                    }
                },
            },
        }
    }

    /// Seal key data under a fresh nonce. What comes out opens to the data.
    pub fn encrypt_key_data(&self, data: &Vec<u8>) -> (r: Result<Vec<u8>, CryptError>)
        requires
            data@.len() <= SEAL_MAX,
        ensures
            match r {
                Ok(v) => self.usable() is None && self.opens_to(v@, data@),
                Err(e) => Some(e) == self.usable() || e == CryptError::NoRandomness,
            },
            self.usable() matches Some(e) ==> r == Err::<Vec<u8>, CryptError>(e),
            self.method == CipherMethod::Plain ==> r is Ok,
            self.method == CipherMethod::Aes256Gcm && r is Ok ==> r->Ok_0@.len() == NONCE_LEN
                + data@.len() + TAG_LEN,
    {
        match self.check() {
            Some(e) => {
                return Err(e);
            },
            None => {},
        }
        match self.method {
            CipherMethod::Plain => Ok(copy_bytes(data.as_slice())),
            CipherMethod::Aes256Gcm => match random_bytes(NONCE_LEN) {
                None => Err(CryptError::NoRandomness),
                Some(nonce) => Ok(self.seal_with(&nonce, data)),
            },
        }
    }

    /// The nonce, and behind it the data sealed under it.
    pub fn seal_with(&self, nonce: &Vec<u8>, data: &Vec<u8>) -> (r: Vec<u8>)
        requires
            self.method == CipherMethod::Aes256Gcm,
            self.usable() is None,
            nonce@.len() == NONCE_LEN,
            data@.len() <= SEAL_MAX,
        ensures
            r@ == nonce@ + gcm_sealed(
                self.key->Some_0@,
                nonce@,
                self.auth_data->Some_0@,
                data@,
            ),
            r@.len() == NONCE_LEN + data@.len() + TAG_LEN,
            self.opens_to(r@, data@),
    {
        let mut out = copy_bytes(nonce.as_slice());
        match (&self.key, &self.auth_data) {
            (Some(key), Some(auth)) => {
                match gcm_seal(
                    key.as_slice(),
                    nonce.as_slice(),
                    auth.as_slice(),
                    data.as_slice(),
                ) {
                    Some(sealed) => {
                        let ghost tail = sealed@;
                        let mut sealed = sealed;
                        out.append(&mut sealed);
                        assert(out@.subrange(0, NONCE_LEN as int) =~= nonce@);
                        assert(out@.subrange(NONCE_LEN as int, out@.len() as int) =~= tail);
                    },
                    None => {},
                }
            },
            _ => {},
        }
        out
    }

    /// Unseal key data. Sealed data is longer than what comes out by the nonce
    /// and the tag, so data that was cut does not open to what was sealed.
    pub fn decrypt_key_data(&self, wrapped: &Vec<u8>) -> (r: Result<Vec<u8>, CryptError>)
        ensures
            match r {
                Ok(v) => self.opened(wrapped@) == Ok::<Seq<u8>, CryptError>(v@),
                Err(e) => self.opened(wrapped@) == Err::<Seq<u8>, CryptError>(e),
            },
            self.method == CipherMethod::Aes256Gcm && r is Ok ==> wrapped@.len() == NONCE_LEN
                + r->Ok_0@.len() + TAG_LEN,
    {
        match self.check() {
            Some(e) => {
                return Err(e);
            },
            None => {},
        }
        match self.method {
            CipherMethod::Plain => Ok(copy_bytes(wrapped.as_slice())),
            CipherMethod::Aes256Gcm => {
                if wrapped.len() < NONCE_LEN + TAG_LEN {
                    return Err(CryptError::TooShort { len: wrapped.len() });
                }
                let nonce = slice_subrange(wrapped.as_slice(), 0, NONCE_LEN);
                let sealed = slice_subrange(wrapped.as_slice(), NONCE_LEN, wrapped.len());
                match (&self.key, &self.auth_data) {
                    (Some(key), Some(auth)) => match gcm_open(
                        key.as_slice(),
                        nonce,
                        auth.as_slice(),
                        sealed,
                    ) {
                        Some(data) => Ok(data),
                        None => Err(CryptError::NotAuthentic),
                    },
                    _ => Err(CryptError::MissingKey),
                }
            },
        }
    }
}

/// Sealed data opens only under a cipher with a key of 32 bytes and
/// authenticated data, and only to what the bytes behind the 12-byte nonce are
/// under that nonce; without a cipher it is the data itself. A cipher that
/// lacks something says what.
pub proof fn law_what_a_key_cipher_opens(c: KeyEncryptionCipher, wrapped: Seq<u8>)
    ensures
        c.method == CipherMethod::Plain ==> c.opened(wrapped) == Ok::<Seq<u8>, CryptError>(
            wrapped,
        ),
        c.method == CipherMethod::Aes256Gcm ==> ({
            &&& c.key is None ==> c.opened(wrapped) == Err::<Seq<u8>, CryptError>(
                CryptError::MissingKey,
            )
            &&& c.key matches Some(key) ==> ({
                &&& key@.len() != 32 ==> c.opened(wrapped) == Err::<Seq<u8>, CryptError>(
                    CryptError::KeyLength { len: key@.len() as usize },
                )
                &&& key@.len() == 32 && c.auth_data is None ==> c.opened(wrapped) == Err::<
                    Seq<u8>,
                    CryptError,
                >(CryptError::MissingAuthData)
                &&& c.auth_data matches Some(auth) ==> (key@.len() == 32 && auth@.len()
                    <= 0x10_0000_0000 ==> c.opened(wrapped) == (if wrapped.len() < 28 {
                    Err(CryptError::TooShort { len: wrapped.len() as usize })
                } else {
                    match gcm_opened(key@, wrapped.take(12), auth@, wrapped.skip(12)) {
                        Some(data) => Ok(data),
                        None => Err(CryptError::NotAuthentic),
                    }
                }))
            })
        }),
{
    if wrapped.len() >= 12 {
        assert(wrapped.take(12) =~= wrapped.subrange(0, NONCE_LEN as int));
        assert(wrapped.skip(12) =~= wrapped.subrange(NONCE_LEN as int, wrapped.len() as int));
    }
}

} // verus!
