//! Records of the storage core. Identifiers are 128-bit numbers; instants
//! are whole seconds since the Unix epoch.

use vstd::prelude::*;

verus! {

/// A registered account.
#[derive(Debug, Clone)]
pub struct User {
    pub id: u128,
    pub name: String,
    pub email: String,
    /// PHC string of the account's password.
    pub password: String,
    pub public_key: Option<String>,
    pub created_at: i64,
    pub updated_at: i64,
}

/// One encrypted file: the ciphertext, the file's symmetric key wrapped
/// under the key-encryption key, the initialization vector, and metadata.
#[derive(Debug, Clone)]
pub struct File {
    pub id: u128,
    pub user_id: Option<u128>,
    pub file_name: String,
    pub file_size: i64,
    pub encrypted_aes_key: Vec<u8>,
    pub encrypted_file: Vec<u8>,
    pub iv: Vec<u8>,
    pub created_at: i64,
}

/// A time-bounded, password-gated capability on one file for one recipient.
#[derive(Debug, Clone)]
pub struct SharedLink {
    pub id: u128,
    pub file_id: Option<u128>,
    pub recipient_user_id: u128,
    /// PHC string of the link password.
    pub password: String,
    pub expiration_date: i64,
    pub created_at: i64,
}

/// A file as its sender sees it in a listing.
#[derive(Debug, Clone)]
pub struct SentFileDetails {
    pub file_id: u128,
    pub file_name: String,
    pub file_size: i64,
    pub recipient_email: String,
    pub created_at: i64,
    pub expiration_date: i64,
}

/// A file as its recipient sees it in a listing.
#[derive(Debug, Clone)]
pub struct ReceiveFileDetails {
    pub file_id: u128,
    pub file_name: String,
    pub file_size: i64,
    pub sender_email: String,
    pub created_at: i64,
}

/// Mathematical content of a [`File`].
pub struct FileView {
    pub id: u128,
    pub user_id: Option<u128>,
    pub file_name: Seq<char>,
    pub file_size: i64,
    pub encrypted_aes_key: Seq<u8>,
    pub encrypted_file: Seq<u8>,
    pub iv: Seq<u8>,
    pub created_at: i64,
}

/// Mathematical content of a [`SharedLink`].
pub struct SharedLinkView {
    pub id: u128,
    pub file_id: Option<u128>,
    pub recipient_user_id: u128,
    pub password: Seq<char>,
    pub expiration_date: i64,
    pub created_at: i64,
}

impl View for File {
    type V = FileView;

    open spec fn view(&self) -> FileView {
        FileView {
            id: self.id,
            user_id: self.user_id,
            file_name: self.file_name@,
            file_size: self.file_size,
            encrypted_aes_key: self.encrypted_aes_key@,
            encrypted_file: self.encrypted_file@,
            iv: self.iv@,
            created_at: self.created_at,
        }
    }
}

impl View for SharedLink {
    type V = SharedLinkView;

    open spec fn view(&self) -> SharedLinkView {
        SharedLinkView {
            id: self.id,
            file_id: self.file_id,
            recipient_user_id: self.recipient_user_id,
            password: self.password@,
            expiration_date: self.expiration_date,
            created_at: self.created_at,
        }
    }
}

impl SharedLinkView {
    /// A link is live strictly before its expiration instant.
    pub open spec fn is_live(self, now: i64) -> bool {
        now < self.expiration_date
    }

    /// Whether the link points at the file `file_id`.
    pub open spec fn references(self, file_id: u128) -> bool {
        self.file_id == Some(file_id)
    }
}

impl SharedLink {
    /// Whether the link is live at `now`: strictly before its expiration
    /// instant. At the instant itself it is already expired.
    pub fn is_live(&self, now: i64) -> (live: bool)
        ensures
            live == self@.is_live(now),
    {
        now < self.expiration_date
    }
}

} // verus!
