//! Envelope encryption of files: each file is encrypted with AES-256-GCM
//! under a symmetric key of its own, and that key is stored wrapped under
//! the process-wide key-encryption key.

use crate::clock::unix_now;
use crate::entropy::{fresh_id, random_bytes};
use crate::models::{File, FileView};
use aes_gcm::aead::{Aead, KeyInit};
use aes_gcm::{Aes256Gcm, Nonce};
use vstd::prelude::*;

verus! {

/// Bytes of an AES-256 key.
pub const KEY_LENGTH: usize = 32;

/// Bytes of an AES-GCM initialization vector.
pub const IV_LENGTH: usize = 12;

/// Bytes of the authentication tag that AES-GCM appends to a ciphertext.
pub const TAG_LENGTH: usize = 16;

/// Bytes of a wrapped file key: the wrapping IV, the encrypted key, its tag.
pub const WRAPPED_KEY_LENGTH: usize = 60;

/// Longest plaintext that AES-GCM encrypts under one key and IV.
pub const MAX_PLAINTEXT_LENGTH: u64 = 0x10_0000_0000;

/// Why a file could not be sealed.
#[derive(Debug, Clone, Copy, PartialEq, Eq, Structural)]
pub enum SealError {
    /// The operating system's random source gave no key, IV or identifier.
    RandomnessUnavailable,
    /// The cipher refused the plaintext.
    EncryptionFailure,
}

/// Why an envelope could not be opened.
#[derive(Debug, Clone, Copy, PartialEq, Eq, Structural)]
pub enum DecryptError {
    /// The wrapped key is damaged or was wrapped under another key.
    KeyUnwrapFailure,
    /// The ciphertext or the IV is damaged, or the key is not the file's.
    DecryptionFailure,
}

/// The AES-256-GCM ciphertext, tag appended, of `plaintext` under `key` and
/// `nonce` with no associated data; `None` where the cipher refuses.
pub uninterp spec fn aes_gcm_sealed(key: Seq<u8>, nonce: Seq<u8>, plaintext: Seq<u8>) -> Option<
    Seq<u8>,
>;

/// The plaintext that AES-256-GCM recovers from `ciphertext` under `key` and
/// `nonce`; `None` where authentication fails.
pub uninterp spec fn aes_gcm_opened(key: Seq<u8>, nonce: Seq<u8>, ciphertext: Seq<u8>) -> Option<
    Seq<u8>,
>;

/// The bytes of an optional buffer.
pub open spec fn bytes_of(buffer: Option<Vec<u8>>) -> Option<Seq<u8>> {
    match buffer {
        Some(bytes) => Some(bytes@),
        None => None,
    }
}

/// Encrypts with `Aes256Gcm::encrypt`. Trusted: the outcome is determined by
/// the three byte strings; the cipher refuses exactly the plaintexts longer
/// than `MAX_PLAINTEXT_LENGTH`; a ciphertext is the plaintext's length plus
/// the tag.
#[verifier::external_body]
fn aes_gcm_encrypt(key: &[u8], nonce: &[u8], plaintext: &[u8]) -> (res: Option<Vec<u8>>)
    requires
        key@.len() == KEY_LENGTH,
        nonce@.len() == IV_LENGTH,
    ensures
        bytes_of(res) == aes_gcm_sealed(key@, nonce@, plaintext@),
        res is Some <==> plaintext@.len() <= MAX_PLAINTEXT_LENGTH,
        res matches Some(ciphertext) ==> ciphertext@.len() == plaintext@.len() + TAG_LENGTH,
{
    match Aes256Gcm::new_from_slice(key) {
        Ok(cipher) => match cipher.encrypt(Nonce::from_slice(nonce), plaintext) {
            Ok(ciphertext) => Some(ciphertext),
            Err(_) => None,
        },
        Err(_) => None,
    }
}

/// Decrypts with `Aes256Gcm::decrypt`. Trusted: the outcome is determined by
/// the three byte strings, and a ciphertext that encryption produced under
/// the same key and nonce decrypts to the plaintext it was produced from.
#[verifier::external_body]
fn aes_gcm_decrypt(key: &[u8], nonce: &[u8], ciphertext: &[u8]) -> (res: Option<Vec<u8>>)
    requires
        key@.len() == KEY_LENGTH,
        nonce@.len() == IV_LENGTH,
    ensures
        bytes_of(res) == aes_gcm_opened(key@, nonce@, ciphertext@),
        forall|plaintext: Seq<u8>| #[trigger]
            aes_gcm_sealed(key@, nonce@, plaintext) == Some(ciphertext@) ==> bytes_of(res) == Some(
                plaintext,
            ),
{
    match Aes256Gcm::new_from_slice(key) {
        Ok(cipher) => match cipher.decrypt(Nonce::from_slice(nonce), ciphertext) {
            Ok(plaintext) => Some(plaintext),
            Err(_) => None,
        },
        Err(_) => None,
    }
}

/// The stored form of a file key: the wrapping IV followed by the key's
/// ciphertext under the key-encryption key.
pub open spec fn wrapped_key(kek: Seq<u8>, nonce: Seq<u8>, key: Seq<u8>) -> Option<Seq<u8>> {
    if key.len() != KEY_LENGTH || nonce.len() != IV_LENGTH {
        None
    } else {
        match aes_gcm_sealed(kek, nonce, key) {
            Some(ciphertext) => Some(nonce + ciphertext),
            None => None,
        }
    }
}

/// The file key that a stored blob yields under the key-encryption key.
pub open spec fn unwrapped_key(kek: Seq<u8>, wrapped: Seq<u8>) -> Option<Seq<u8>> {
    if wrapped.len() < IV_LENGTH {
        None
    } else {
        match aes_gcm_opened(
            kek,
            wrapped.subrange(0, IV_LENGTH as int),
            wrapped.subrange(IV_LENGTH as int, wrapped.len() as int),
        ) {
            Some(key) => if key.len() == KEY_LENGTH {
                Some(key)
            } else {
                None
            },
            None => None,
        }
    }
}

/// What opening an envelope yields once the key has been unwrapped, or has
/// failed to unwrap.
pub open spec fn opened_with_key(file: FileView, key: Option<Seq<u8>>) -> Result<
    Seq<u8>,
    DecryptError,
> {
    match key {
        None => Err(DecryptError::KeyUnwrapFailure),
        Some(k) => if k.len() != KEY_LENGTH {
            Err(DecryptError::KeyUnwrapFailure)
        } else if file.iv.len() != IV_LENGTH {
            Err(DecryptError::DecryptionFailure)
        } else {
            match aes_gcm_opened(k, file.iv, file.encrypted_file) {
                Some(plaintext) => Ok(plaintext),
                None => Err(DecryptError::DecryptionFailure),
            }
        },
    }
}

/// What opening an envelope under a key-encryption key yields.
pub open spec fn open_result(file: FileView, kek: Seq<u8>) -> Result<Seq<u8>, DecryptError> {
    opened_with_key(file, unwrapped_key(kek, file.encrypted_aes_key))
}

/// The bytes of a decryption result.
pub open spec fn plaintext_of(res: Result<Vec<u8>, DecryptError>) -> Result<Seq<u8>, DecryptError> {
    match res {
        Ok(bytes) => Ok(bytes@),
        Err(e) => Err(e),
    }
}

/// The content of a sealing result.
pub open spec fn envelope_of(res: Result<File, SealError>) -> Result<FileView, SealError> {
    match res {
        Ok(file) => Ok(file@),
        Err(e) => Err(e),
    }
}

/// Mathematical content of a [`SealMaterial`].
pub struct SealMaterialView {
    pub key: Seq<u8>,
    pub iv: Seq<u8>,
    pub wrap_nonce: Seq<u8>,
}

impl SealMaterialView {
    /// Key and IVs have the lengths the cipher takes.
    pub open spec fn is_valid(self) -> bool {
        &&& self.key.len() == KEY_LENGTH
        &&& self.iv.len() == IV_LENGTH
        &&& self.wrap_nonce.len() == IV_LENGTH
    }
}

impl FileView {
    /// Ciphertext, wrapped key and IV are all present, in the sizes that
    /// sealing gives them.
    pub open spec fn is_complete(self) -> bool {
        &&& self.iv.len() == IV_LENGTH
        &&& self.encrypted_aes_key.len() == WRAPPED_KEY_LENGTH
        &&& self.encrypted_file.len() >= TAG_LENGTH
    }

    /// The envelope holds `plaintext` encrypted under some file key and its
    /// own IV, and that key wrapped under `kek`.
    pub open spec fn is_sealing_of(self, plaintext: Seq<u8>, kek: Seq<u8>) -> bool {
        exists|key: Seq<u8>, wrap_nonce: Seq<u8>|
            {
                &&& self.iv.len() == IV_LENGTH
                &&& aes_gcm_sealed(key, self.iv, plaintext) == Some(self.encrypted_file)
                &&& #[trigger] wrapped_key(kek, wrap_nonce, key) == Some(self.encrypted_aes_key)
            }
    }
}

/// The envelope that sealing produces from a plaintext, its metadata, and
/// the identifier, instant, key and IVs drawn for it.
pub open spec fn sealed_file(
    plaintext: Seq<u8>,
    file_name: Seq<char>,
    owner_id: Option<u128>,
    kek: Seq<u8>,
    id: u128,
    created_at: i64,
    material: SealMaterialView,
) -> Result<FileView, SealError> {
    match (
        aes_gcm_sealed(material.key, material.iv, plaintext),
        wrapped_key(kek, material.wrap_nonce, material.key),
    ) {
        (Some(ciphertext), Some(wrapped)) => Ok(
            FileView {
                id,
                user_id: owner_id,
                file_name,
                file_size: plaintext.len() as i64,
                encrypted_aes_key: wrapped,
                encrypted_file: ciphertext,
                iv: material.iv,
                created_at,
            },
        ),
        _ => Err(SealError::EncryptionFailure),
    }
}

/// What sealing produces is a sealing of the plaintext under the
/// key-encryption key it was given.
pub proof fn lemma_sealed_file_is_sealing(
    plaintext: Seq<u8>,
    file_name: Seq<char>,
    owner_id: Option<u128>,
    kek: Seq<u8>,
    id: u128,
    created_at: i64,
    material: SealMaterialView,
)
    requires
        material.is_valid(),
        sealed_file(plaintext, file_name, owner_id, kek, id, created_at, material) is Ok,
    ensures
        sealed_file(
            plaintext,
            file_name,
            owner_id,
            kek,
            id,
            created_at,
            material,
        ).unwrap().is_sealing_of(plaintext, kek),
{
    let file = sealed_file(plaintext, file_name, owner_id, kek, id, created_at, material).unwrap();
    assert(wrapped_key(kek, material.wrap_nonce, material.key) == Some(file.encrypted_aes_key));
}

/// Envelopes sealed with different IVs hold different IVs, and envelopes
/// whose keys were wrapped with different IVs hold different wrapped keys,
/// whatever the plaintexts and keys are.
pub proof fn lemma_distinct_draws_distinct_envelopes(
    first: FileView,
    second: FileView,
    first_plaintext: Seq<u8>,
    second_plaintext: Seq<u8>,
    kek: Seq<u8>,
    first_material: SealMaterialView,
    second_material: SealMaterialView,
)
    requires
        first_material.is_valid(),
        second_material.is_valid(),
        sealed_file(
            first_plaintext,
            first.file_name,
            first.user_id,
            kek,
            first.id,
            first.created_at,
            first_material,
        ) == Ok::<FileView, SealError>(first),
        sealed_file(
            second_plaintext,
            second.file_name,
            second.user_id,
            kek,
            second.id,
            second.created_at,
            second_material,
        ) == Ok::<FileView, SealError>(second),
    ensures
        first_material.iv != second_material.iv ==> first.iv != second.iv,
        first_material.wrap_nonce != second_material.wrap_nonce ==> first.encrypted_aes_key
            != second.encrypted_aes_key,
{
    let first_sealed = aes_gcm_sealed(kek, first_material.wrap_nonce, first_material.key).unwrap();
    let second_sealed = aes_gcm_sealed(
        kek,
        second_material.wrap_nonce,
        second_material.key,
    ).unwrap();
    assert(first.encrypted_aes_key == first_material.wrap_nonce + first_sealed);
    assert(second.encrypted_aes_key == second_material.wrap_nonce + second_sealed);
    assert(first.encrypted_aes_key.subrange(0, IV_LENGTH as int) =~= first_material.wrap_nonce);
    assert(second.encrypted_aes_key.subrange(0, IV_LENGTH as int) =~= second_material.wrap_nonce);
}

/// Joins two byte strings.
fn concat_bytes(head: &[u8], tail: &[u8]) -> (joined: Vec<u8>)
    ensures
        joined@ == head@ + tail@,
{
    let mut joined: Vec<u8> = Vec::new();
    let mut i: usize = 0;
    while i < head.len()
        invariant
            i <= head@.len(),
            joined@ == head@.subrange(0, i as int),
        decreases head@.len() - i,
    {
        joined.push(head[i]);
        i += 1;
    }
    let mut j: usize = 0;
    while j < tail.len()
        invariant
            j <= tail@.len(),
            joined@ == head@ + tail@.subrange(0, j as int),
        decreases tail@.len() - j,
    {
        joined.push(tail[j]);
        j += 1;
    }
    joined
}

/// The process-wide key under which file keys are wrapped. The bytes cannot
/// be read back, printed or compared.
pub struct KeyEncryptionKey {
    bytes: Vec<u8>,
}

impl View for KeyEncryptionKey {
    type V = Seq<u8>;

    closed spec fn view(&self) -> Seq<u8> {
        self.bytes@
    }
}

impl KeyEncryptionKey {
    #[verifier::type_invariant]
    spec fn has_key_length(self) -> bool {
        self.bytes@.len() == KEY_LENGTH
    }

    /// Takes the key material supplied at startup; `None` unless it is
    /// exactly `KEY_LENGTH` bytes.
    pub fn new(bytes: Vec<u8>) -> (res: Option<KeyEncryptionKey>)
        ensures
            res is Some <==> bytes@.len() == KEY_LENGTH,
            res matches Some(kek) ==> kek@ == bytes@,
    {
        if bytes.len() == KEY_LENGTH {
            Some(KeyEncryptionKey { bytes })
        } else {
            None
        }
    }

    /// Wraps a file key under this key with the given IV; `None` where key
    /// or IV have the wrong length.
    pub fn wrap_key(&self, key: &[u8], nonce: &[u8]) -> (res: Option<Vec<u8>>)
        ensures
            bytes_of(res) == wrapped_key(self@, nonce@, key@),
            res is Some <==> key@.len() == KEY_LENGTH && nonce@.len() == IV_LENGTH,
            res matches Some(wrapped) ==> wrapped@.len() == WRAPPED_KEY_LENGTH,
    {
        proof {
            use_type_invariant(self);
        }
        if key.len() != KEY_LENGTH || nonce.len() != IV_LENGTH {
            return None;
        }
        match aes_gcm_encrypt(self.bytes.as_slice(), nonce, key) {
            Some(ciphertext) => Some(concat_bytes(nonce, ciphertext.as_slice())),
            None => None,
        }
    }

    /// Recovers a file key from its stored form; `None` where the blob is
    /// damaged or was wrapped under another key. A blob that `wrap_key`
    /// produced under this key yields the key that was wrapped.
    pub fn unwrap_key(&self, wrapped: &[u8]) -> (res: Option<Vec<u8>>)
        ensures
            bytes_of(res) == unwrapped_key(self@, wrapped@),
            forall|key: Seq<u8>, nonce: Seq<u8>| #[trigger]
                wrapped_key(self@, nonce, key) == Some(wrapped@) ==> bytes_of(res) == Some(key),
    {
        proof {
            use_type_invariant(self);
        }
        if wrapped.len() < IV_LENGTH {
            return None;
        }
        let (nonce, ciphertext) = wrapped.split_at(IV_LENGTH);
        let opened = aes_gcm_decrypt(self.bytes.as_slice(), nonce, ciphertext);
        let res = match opened {
            Some(key) => if key.len() == KEY_LENGTH {
                Some(key)
            } else {
                None
            },
            None => None,
        };
        proof {
            assert forall|key: Seq<u8>, n: Seq<u8>| #[trigger]
                wrapped_key(self@, n, key) == Some(wrapped@) implies bytes_of(res) == Some(
                key,
            ) by {
                let sealed = aes_gcm_sealed(self@, n, key).unwrap();
                assert(wrapped@ == n + sealed);
                assert(nonce@ =~= n);
                assert(ciphertext@ =~= sealed);
            }
        }
        res
    }
}

/// The key and IVs drawn for sealing one file. Every sealing takes its own.
pub struct SealMaterial {
    key: Vec<u8>,
    iv: Vec<u8>,
    wrap_nonce: Vec<u8>,
}

impl View for SealMaterial {
    type V = SealMaterialView;

    closed spec fn view(&self) -> SealMaterialView {
        SealMaterialView { key: self.key@, iv: self.iv@, wrap_nonce: self.wrap_nonce@ }
    }
}

impl SealMaterial {
    #[verifier::type_invariant]
    spec fn has_cipher_lengths(self) -> bool {
        self@.is_valid()
    }

    /// Takes a key, the file's IV and the IV for wrapping the key; `None`
    /// unless each has the length the cipher takes.
    pub fn new(key: Vec<u8>, iv: Vec<u8>, wrap_nonce: Vec<u8>) -> (res: Option<SealMaterial>)
        ensures
            res is Some <==> key@.len() == KEY_LENGTH && iv@.len() == IV_LENGTH
                && wrap_nonce@.len() == IV_LENGTH,
            res matches Some(material) ==> material@ == (SealMaterialView {
                key: key@,
                iv: iv@,
                wrap_nonce: wrap_nonce@,
            }),
    {
        if key.len() == KEY_LENGTH && iv.len() == IV_LENGTH && wrap_nonce.len() == IV_LENGTH {
            Some(SealMaterial { key, iv, wrap_nonce })
        } else {
            None
        }
    }

    /// Draws a key and two IVs from the operating system's random source,
    /// each independently; `None` where the source fails.
    pub fn generate() -> (res: Option<SealMaterial>)
        ensures
            res matches Some(material) ==> material@.is_valid(),
    {
        let key = random_bytes(KEY_LENGTH);
        let iv = random_bytes(IV_LENGTH);
        let wrap_nonce = random_bytes(IV_LENGTH);
        SealMaterial::from_draws(key, iv, wrap_nonce)
    }

    /// Assembles the material from three draws of the random source, each
    /// of which may have failed: there is material exactly where every draw
    /// came back, with the length the cipher takes, and it holds the bytes
    /// that were drawn.
    pub fn from_draws(key: Option<Vec<u8>>, iv: Option<Vec<u8>>, wrap_nonce: Option<Vec<u8>>) -> (res:
        Option<SealMaterial>)
        ensures
            material_of(res) == drawn_material(bytes_of(key), bytes_of(iv), bytes_of(wrap_nonce)),
    {
        match (key, iv, wrap_nonce) {
            (Some(key), Some(iv), Some(wrap_nonce)) => SealMaterial::new(key, iv, wrap_nonce),
            _ => None,
        }
    }
}

/// The content of optional sealing material.
pub open spec fn material_of(material: Option<SealMaterial>) -> Option<SealMaterialView> {
    match material {
        Some(material) => Some(material@),
        None => None,
    }
}

/// The material that three draws give: none where a draw failed or came
/// back with another length than the cipher takes.
pub open spec fn drawn_material(
    key: Option<Seq<u8>>,
    iv: Option<Seq<u8>>,
    wrap_nonce: Option<Seq<u8>>,
) -> Option<SealMaterialView> {
    match (key, iv, wrap_nonce) {
        (Some(key), Some(iv), Some(wrap_nonce)) => {
            let material = SealMaterialView { key, iv, wrap_nonce };
            if material.is_valid() {
                Some(material)
            } else {
                None
            }
        },
        _ => None,
    }
}

/// Turns the cipher's answer into the result of opening: no plaintext is a
/// `DecryptionFailure`, and nothing of a failed decryption is handed out.
pub fn plaintext_or_failure(opened: Option<Vec<u8>>) -> (res: Result<Vec<u8>, DecryptError>)
    ensures
        match opened {
            Some(plaintext) => res == Ok::<Vec<u8>, DecryptError>(plaintext),
            None => res == Err::<Vec<u8>, DecryptError>(DecryptError::DecryptionFailure),
        },
{
    match opened {
        Some(plaintext) => Ok(plaintext),
        None => Err(DecryptError::DecryptionFailure),
    }
}

impl File {
    /// Whether ciphertext, wrapped key and IV are all present, in the sizes
    /// that sealing gives them.
    pub fn is_complete(&self) -> (complete: bool)
        ensures
            complete == self@.is_complete(),
    {
        self.iv.len() == IV_LENGTH && self.encrypted_aes_key.len() == WRAPPED_KEY_LENGTH
            && self.encrypted_file.len() >= TAG_LENGTH
    }

    /// Seals a plaintext into an envelope with the identifier, creation
    /// instant, key and IVs given.
    ///
    /// The plaintext is encrypted under the material's key and IV, the key
    /// is wrapped under `kek`, and the size recorded is the plaintext's
    /// length. Name and size take no part in the encryption. Sealing fails
    /// exactly when the plaintext is longer than the cipher takes.
    pub fn seal_with(
        plaintext: &[u8],
        file_name: String,
        owner_id: Option<u128>,
        kek: &KeyEncryptionKey,
        id: u128,
        created_at: i64,
        material: SealMaterial,
    ) -> (res: Result<File, SealError>)
        ensures
            envelope_of(res) == sealed_file(
                plaintext@,
                file_name@,
                owner_id,
                kek@,
                id,
                created_at,
                material@,
            ),
            res is Ok <==> plaintext@.len() <= MAX_PLAINTEXT_LENGTH,
            res matches Ok(file) ==> file@.is_complete() && file@.is_sealing_of(plaintext@, kek@),
    {
        proof {
            use_type_invariant(&material);
        }
        let ciphertext = match aes_gcm_encrypt(
            material.key.as_slice(),
            material.iv.as_slice(),
            plaintext,
        ) {
            Some(bytes) => bytes,
            None => {
                return Err(SealError::EncryptionFailure);
            },
        };
        let wrapped = match kek.wrap_key(material.key.as_slice(), material.wrap_nonce.as_slice()) {
            Some(bytes) => bytes,
            None => {
                return Err(SealError::EncryptionFailure);
            },
        };
        let file_size: i64 = plaintext.len() as i64;
        let file = File {
            id,
            user_id: owner_id,
            file_name,
            file_size,
            encrypted_aes_key: wrapped,
            encrypted_file: ciphertext,
            iv: material.iv,
            created_at,
        };
        proof {
            assert(wrapped_key(kek@, material@.wrap_nonce, material@.key) == Some(
                file@.encrypted_aes_key,
            ));
        }
        Ok(file)
    }

    /// Seals a plaintext into a new envelope under a key and IVs drawn
    /// afresh for this call, with a fresh identifier and the current instant.
    ///
    /// Whatever is drawn, an envelope that comes back holds the plaintext
    /// encrypted under its own key and IV and that key wrapped under `kek`,
    /// and records the owner, the name and the plaintext's length.
    pub fn seal(
        plaintext: &[u8],
        file_name: String,
        owner_id: Option<u128>,
        kek: &KeyEncryptionKey,
    ) -> (res: Result<File, SealError>)
        ensures
            res matches Ok(file) ==> {
                &&& file@.user_id == owner_id
                &&& file@.file_name == file_name@
                &&& file@.file_size == plaintext@.len()
                &&& file@.is_complete()
                &&& file@.is_sealing_of(plaintext@, kek@)
            },
            res is Ok ==> plaintext@.len() <= MAX_PLAINTEXT_LENGTH,
            res matches Err(e) ==> e == SealError::RandomnessUnavailable || plaintext@.len()
                > MAX_PLAINTEXT_LENGTH,
            res == Err::<File, SealError>(SealError::RandomnessUnavailable) || exists|
                id: u128,
                created_at: i64,
                material: SealMaterialView,
            |
                material.is_valid() && envelope_of(res) == #[trigger] sealed_file(
                    plaintext@,
                    file_name@,
                    owner_id,
                    kek@,
                    id,
                    created_at,
                    material,
                ),
    {
        let material = match SealMaterial::generate() {
            Some(material) => material,
            None => {
                return Err(SealError::RandomnessUnavailable);
            },
        };
        let id = match fresh_id() {
            Some(id) => id,
            None => {
                return Err(SealError::RandomnessUnavailable);
            },
        };
        let created_at = unix_now();
        let ghost drawn = material@;
        let ghost name = file_name@;
        let res = File::seal_with(plaintext, file_name, owner_id, kek, id, created_at, material);
        assert(drawn.is_valid() && envelope_of(res) == sealed_file(
            plaintext@,
            name,
            owner_id,
            kek@,
            id,
            created_at,
            drawn,
        ));
        res
    }

    /// Opens the envelope with a file key that has already been unwrapped,
    /// or has failed to unwrap.
    ///
    /// A missing key, or one of the wrong length, is a `KeyUnwrapFailure`;
    /// an IV of the wrong length or a ciphertext that does not authenticate
    /// is a `DecryptionFailure`.
    pub fn open_with_key(&self, key: Option<Vec<u8>>) -> (res: Result<Vec<u8>, DecryptError>)
        ensures
            plaintext_of(res) == opened_with_key(self@, bytes_of(key)),
            forall|file_key: Seq<u8>, plaintext: Seq<u8>|
                bytes_of(key) == Some(file_key) && file_key.len() == KEY_LENGTH && self@.iv.len()
                    == IV_LENGTH && #[trigger] aes_gcm_sealed(file_key, self@.iv, plaintext)
                    == Some(self@.encrypted_file) ==> plaintext_of(res) == Ok::<
                    Seq<u8>,
                    DecryptError,
                >(plaintext),
    {
        let key = match key {
            Some(key) => key,
            None => {
                return Err(DecryptError::KeyUnwrapFailure);
            },
        };
        if key.len() != KEY_LENGTH {
            return Err(DecryptError::KeyUnwrapFailure);
        }
        if self.iv.len() != IV_LENGTH {
            return Err(DecryptError::DecryptionFailure);
        }
        plaintext_or_failure(
            aes_gcm_decrypt(key.as_slice(), self.iv.as_slice(), self.encrypted_file.as_slice()),
        )
    }

    /// Opens the envelope: unwraps the file key under `kek`, then decrypts
    /// the ciphertext with the stored IV.
    ///
    /// Opening an envelope that holds a sealing of a plaintext under the
    /// same key-encryption key returns that plaintext exactly.
    pub fn open(&self, kek: &KeyEncryptionKey) -> (res: Result<Vec<u8>, DecryptError>)
        ensures
            plaintext_of(res) == open_result(self@, kek@),
            forall|plaintext: Seq<u8>| #[trigger]
                self@.is_sealing_of(plaintext, kek@) ==> plaintext_of(res) == Ok::<
                    Seq<u8>,
                    DecryptError,
                >(plaintext),
    {
        let key = kek.unwrap_key(self.encrypted_aes_key.as_slice());
        let res = self.open_with_key(key);
        proof {
            assert forall|plaintext: Seq<u8>| #[trigger]
                self@.is_sealing_of(plaintext, kek@) implies plaintext_of(res) == Ok::<
                Seq<u8>,
                DecryptError,
            >(plaintext) by {
                let (file_key, wrap_nonce) = choose|file_key: Seq<u8>, wrap_nonce: Seq<u8>|
                    {
                        &&& self@.iv.len() == IV_LENGTH
                        &&& aes_gcm_sealed(file_key, self@.iv, plaintext) == Some(
                            self@.encrypted_file,
                        )
                        &&& #[trigger] wrapped_key(kek@, wrap_nonce, file_key) == Some(
                            self@.encrypted_aes_key,
                        )
                    };
                assert(bytes_of(key) == Some(file_key));
            }
        }
        res
    }
}

} // verus!
