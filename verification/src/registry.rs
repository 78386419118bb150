//! The shared-link registry: the stored envelopes and the links issued on
//! them, found by identifier. Links are password-gated and time-bounded;
//! redeeming one never consumes it.

use crate::clock::unix_now;
use crate::entropy::fresh_id;
use crate::keyed::{
    keyed_map, lemma_keyed_len, lemma_keyed_lookup, lemma_keyed_position, lemma_keyed_push,
    lemma_keyed_remove, lemma_push_contains, lemma_push_no_duplicates,
};
use crate::models::{File, FileView, SharedLink, SharedLinkView};
use crate::utils::password::{
    compare_password, compare_result, hash_password, hash_rejection, hashed_under, policy_check,
    validate_password, HashError, PolicyError, VerifyError,
};
use vstd::prelude::*;

verus! {

/// No record with the identifier given.
#[derive(Debug, Clone, Copy, PartialEq, Eq, Structural)]
pub struct NotFound;

/// Why an envelope was not stored.
#[derive(Debug, Clone, Copy, PartialEq, Eq, Structural)]
pub enum StoreError {
    /// An envelope with this identifier is already stored.
    DuplicateId,
    /// Ciphertext, wrapped key and IV are not all present.
    IncompleteEnvelope,
    /// The link points at no stored envelope.
    UnknownFile,
    /// The link does not expire after it was created.
    InvalidExpiration,
}

/// Why a link was not created.
#[derive(Debug, Clone, Copy, PartialEq, Eq, Structural)]
pub enum CreateLinkError {
    /// The link password could not be hashed.
    Credential(HashError),
    /// The time to live is not positive, or the expiration instant cannot be
    /// represented.
    InvalidTtl,
    /// No envelope with the file identifier is stored.
    FileNotFound,
    /// A link with this identifier already exists.
    DuplicateId,
    /// The operating system's random source gave no identifier.
    RandomnessUnavailable,
}

/// Why a link was not redeemed.
#[derive(Debug, Clone, Copy, PartialEq, Eq, Structural)]
pub enum RedeemError {
    /// No link with this identifier exists.
    NotFound,
    /// The link's expiration instant has been reached.
    Expired,
    /// The password was compared with the link's and does not match.
    WrongPassword,
    /// The password could not be compared at all.
    Credential(VerifyError),
}

/// The identifiers of a sequence of envelopes, in order.
spec fn file_ids(files: Seq<File>) -> Seq<u128> {
    Seq::new(files.len(), |i: int| files[i].id)
}

/// The contents of a sequence of envelopes, in order.
spec fn file_views(files: Seq<File>) -> Seq<FileView> {
    Seq::new(files.len(), |i: int| files[i]@)
}

/// The identifiers of a sequence of links, in order.
spec fn link_ids(links: Seq<SharedLink>) -> Seq<u128> {
    Seq::new(links.len(), |i: int| links[i].id)
}

/// The contents of a sequence of links, in order.
spec fn link_views(links: Seq<SharedLink>) -> Seq<SharedLinkView> {
    Seq::new(links.len(), |i: int| links[i]@)
}

/// What must hold of the stored records: each is filed under its own
/// identifier, every envelope is complete, and every link expires after it
/// was created and points at a stored envelope.
pub open spec fn store_consistent(
    files: Map<u128, FileView>,
    links: Map<u128, SharedLinkView>,
) -> bool {
    &&& files.dom().finite()
    &&& links.dom().finite()
    &&& forall|id: u128| #[trigger]
        files.dom().contains(id) ==> files[id].id == id && files[id].is_complete()
    &&& forall|id: u128| #[trigger]
        links.dom().contains(id) ==> {
            &&& links[id].id == id
            &&& links[id].created_at < links[id].expiration_date
            &&& links[id].file_id matches Some(file_id) && files.dom().contains(file_id)
        }
}

/// The envelopes and the links issued on them.
pub struct SharedLinkRegistry {
    files: Vec<File>,
    links: Vec<SharedLink>,
}

impl SharedLinkRegistry {
    /// The stored envelopes by identifier.
    pub closed spec fn files(&self) -> Map<u128, FileView> {
        files_map(self.files@)
    }

    /// The links by identifier.
    pub closed spec fn links(&self) -> Map<u128, SharedLinkView> {
        links_map(self.links@)
    }

    /// No identifier is held twice.
    pub closed spec fn ids_distinct(&self) -> bool {
        &&& file_ids(self.files@).no_duplicates()
        &&& link_ids(self.links@).no_duplicates()
    }

    /// Well-formedness: established by `new`, preserved by every method.
    pub open spec fn wf(&self) -> bool {
        &&& self.ids_distinct()
        &&& store_consistent(self.files(), self.links())
    }

    /// An empty registry.
    pub fn new() -> (registry: SharedLinkRegistry)
        ensures
            registry.wf(),
            registry.files() == Map::<u128, FileView>::empty(),
            registry.links() == Map::<u128, SharedLinkView>::empty(),
    {
        let registry = SharedLinkRegistry { files: Vec::new(), links: Vec::new() };
        proof {
            lemma_keyed_len(file_ids(registry.files@), file_views(registry.files@));
            lemma_keyed_len(link_ids(registry.links@), link_views(registry.links@));
            assert(registry.files() =~= Map::<u128, FileView>::empty());
            assert(registry.links() =~= Map::<u128, SharedLinkView>::empty());
        }
        registry
    }

    /// Position of the envelope with the identifier given.
    fn find_file(&self, id: u128) -> (found: Option<usize>)
        requires
            self.wf(),
        ensures
            match found {
                Some(i) => i < self.files@.len() && self.files@[i as int].id == id
                    && self.files().dom().contains(id) && self.files()[id]
                    == self.files@[i as int]@,
                None => !self.files().dom().contains(id),
            },
    {
        let mut i: usize = 0;
        while i < self.files.len()
            invariant
                i <= self.files@.len(),
                self.wf(),
                forall|j: int| 0 <= j < i ==> self.files@[j].id != id,
            decreases self.files@.len() - i,
        {
            if self.files[i].id == id {
                proof {
                    lemma_keyed_lookup(file_ids(self.files@), file_views(self.files@), i as int);
                }
                return Some(i);
            }
            i += 1;
        }
        proof {
            if self.files().dom().contains(id) {
                let p = lemma_keyed_position(file_ids(self.files@), file_views(self.files@), id);
                assert(self.files@[p].id == id);
            }
        }
        None
    }

    /// Position of the link with the identifier given.
    fn find_link(&self, id: u128) -> (found: Option<usize>)
        requires
            self.wf(),
        ensures
            match found {
                Some(i) => i < self.links@.len() && self.links@[i as int].id == id
                    && self.links().dom().contains(id) && self.links()[id]
                    == self.links@[i as int]@,
                None => !self.links().dom().contains(id),
            },
    {
        let mut i: usize = 0;
        while i < self.links.len()
            invariant
                i <= self.links@.len(),
                self.wf(),
                forall|j: int| 0 <= j < i ==> self.links@[j].id != id,
            decreases self.links@.len() - i,
        {
            if self.links[i].id == id {
                proof {
                    lemma_keyed_lookup(link_ids(self.links@), link_views(self.links@), i as int);
                }
                return Some(i);
            }
            i += 1;
        }
        proof {
            if self.links().dom().contains(id) {
                let p = lemma_keyed_position(link_ids(self.links@), link_views(self.links@), id);
                assert(self.links@[p].id == id);
            }
        }
        None
    }

    /// The stored envelope with the identifier given.
    pub fn file(&self, id: u128) -> (found: Option<&File>)
        requires
            self.wf(),
        ensures
            match found {
                Some(file) => self.files().dom().contains(id) && file@ == self.files()[id],
                None => !self.files().dom().contains(id),
            },
    {
        match self.find_file(id) {
            Some(i) => Some(&self.files[i]),
            None => None,
        }
    }

    /// The link with the identifier given, expired or not.
    pub fn link(&self, id: u128) -> (found: Option<&SharedLink>)
        requires
            self.wf(),
        ensures
            match found {
                Some(link) => self.links().dom().contains(id) && link@ == self.links()[id],
                None => !self.links().dom().contains(id),
            },
    {
        match self.find_link(id) {
            Some(i) => Some(&self.links[i]),
            None => None,
        }
    }

    /// Number of stored envelopes.
    pub fn file_count(&self) -> (count: usize)
        requires
            self.wf(),
        ensures
            count == self.files().dom().len(),
    {
        proof {
            lemma_keyed_len(file_ids(self.files@), file_views(self.files@));
        }
        self.files.len()
    }

    /// Number of links, expired ones that were not yet swept included.
    pub fn link_count(&self) -> (count: usize)
        requires
            self.wf(),
        ensures
            count == self.links().dom().len(),
    {
        proof {
            lemma_keyed_len(link_ids(self.links@), link_views(self.links@));
        }
        self.links.len()
    }

    /// Stores an envelope under its identifier.
    ///
    /// An envelope whose ciphertext, wrapped key and IV are not all present
    /// is never stored, nor is one whose identifier is taken. Links are not
    /// touched.
    pub fn store_file(&mut self, file: File) -> (res: Result<(), StoreError>)
        requires
            old(self).wf(),
        ensures
            final(self).wf(),
            final(self).links() == old(self).links(),
            res == store_outcome(old(self).files(), file@),
            match res {
                Ok(_) => final(self).files() == old(self).files().insert(file@.id, file@),
                Err(_) => final(self).files() == old(self).files(),
            },
    {
        if !file.is_complete() {
            return Err(StoreError::IncompleteEnvelope);
        }
        if self.find_file(file.id).is_some() {
            return Err(StoreError::DuplicateId);
        }
        proof {
            lemma_keyed_push(file_ids(self.files@), file_views(self.files@), file.id, file@);
            assert(file_ids(self.files@.push(file)) =~= file_ids(self.files@).push(file.id));
            assert(file_views(self.files@.push(file)) =~= file_views(self.files@).push(file@));
        }
        self.files.push(file);
        Ok(())
    }

    /// Stores a link record as it stands, under its identifier.
    ///
    /// A link is stored only where its identifier is free, it points at a
    /// stored envelope, and it expires after it was created. Envelopes are
    /// not touched.
    pub fn store_link(&mut self, link: SharedLink) -> (res: Result<(), StoreError>)
        requires
            old(self).wf(),
        ensures
            final(self).wf(),
            final(self).files() == old(self).files(),
            res == link_store_outcome(old(self).files(), old(self).links(), link@),
            match res {
                Ok(_) => final(self).links() == old(self).links().insert(link@.id, link@),
                Err(_) => final(self).links() == old(self).links(),
            },
    {
        if self.find_link(link.id).is_some() {
            return Err(StoreError::DuplicateId);
        }
        let known = match link.file_id {
            Some(file_id) => self.find_file(file_id).is_some(),
            None => false,
        };
        if !known {
            return Err(StoreError::UnknownFile);
        }
        if link.expiration_date <= link.created_at {
            return Err(StoreError::InvalidExpiration);
        }
        proof {
            lemma_keyed_push(link_ids(self.links@), link_views(self.links@), link.id, link@);
            assert(link_ids(self.links@.push(link)) =~= link_ids(self.links@).push(link.id));
            assert(link_views(self.links@.push(link)) =~= link_views(self.links@).push(link@));
        }
        self.links.push(link);
        Ok(())
    }

    /// Records a link whose password has already been hashed.
    ///
    /// The link expires `ttl` seconds after `now`. Nothing is recorded where
    /// the time to live is not positive or the expiration instant cannot be
    /// represented, where the file is not stored, or where the identifier is
    /// taken. Envelopes are not touched.
    pub fn register_link(
        &mut self,
        id: u128,
        file_id: u128,
        recipient_id: u128,
        password_hash: String,
        ttl: i64,
        now: i64,
    ) -> (res: Result<SharedLink, CreateLinkError>)
        requires
            old(self).wf(),
        ensures
            final(self).wf(),
            final(self).files() == old(self).files(),
            link_of(res) == registration(
                old(self).files(),
                old(self).links(),
                id,
                file_id,
                recipient_id,
                password_hash@,
                ttl,
                now,
            ),
            match res {
                Ok(link) => final(self).links() == old(self).links().insert(id, link@),
                Err(_) => final(self).links() == old(self).links(),
            },
    {
        if ttl <= 0 || now > i64::MAX - ttl {
            return Err(CreateLinkError::InvalidTtl);
        }
        if self.find_file(file_id).is_none() {
            return Err(CreateLinkError::FileNotFound);
        }
        if self.find_link(id).is_some() {
            return Err(CreateLinkError::DuplicateId);
        }
        let expiration_date: i64 = now + ttl;
        let stored = SharedLink {
            id,
            file_id: Some(file_id),
            recipient_user_id: recipient_id,
            password: password_hash.clone(),
            expiration_date,
            created_at: now,
        };
        let issued = SharedLink {
            id,
            file_id: Some(file_id),
            recipient_user_id: recipient_id,
            password: password_hash,
            expiration_date,
            created_at: now,
        };
        proof {
            lemma_keyed_push(link_ids(self.links@), link_views(self.links@), id, stored@);
            assert(link_ids(self.links@.push(stored)) =~= link_ids(self.links@).push(id));
            assert(link_views(self.links@.push(stored)) =~= link_views(self.links@).push(stored@));
        }
        self.links.push(stored);
        Ok(issued)
    }

    /// Creates a link under the identifier and at the instant given: hashes
    /// the link password, then records the link as `register_link` does.
    ///
    /// A password outside the length policy is rejected before anything
    /// else is looked at. The hash that is stored verifies against the
    /// password.
    pub fn create_link_at(
        &mut self,
        id: u128,
        file_id: u128,
        recipient_id: u128,
        link_password: &str,
        ttl: i64,
        now: i64,
    ) -> (res: Result<SharedLink, CreateLinkError>)
        requires
            old(self).wf(),
        ensures
            final(self).wf(),
            final(self).files() == old(self).files(),
            match res {
                Ok(link) => final(self).links() == old(self).links().insert(id, link@),
                Err(_) => final(self).links() == old(self).links(),
            },
            policy_check(link_password@) matches Err(e) ==> res == Err::<
                SharedLink,
                CreateLinkError,
            >(CreateLinkError::Credential(hash_rejection(e))),
            policy_check(link_password@) is Ok ==> res == Err::<SharedLink, CreateLinkError>(
                CreateLinkError::Credential(HashError::HashingFailure),
            ) || exists|hash: Seq<char>, salt: Seq<char>|
                #[trigger] hashed_under(link_password@, salt) == Ok::<Seq<char>, HashError>(hash)
                    && hash != link_password@ && compare_result(link_password@, hash) == Ok::<
                    bool,
                    VerifyError,
                >(true) && link_of(res) == #[trigger] registration(
                    old(self).files(),
                    old(self).links(),
                    id,
                    file_id,
                    recipient_id,
                    hash,
                    ttl,
                    now,
                ),
    {
        match hash_password(link_password) {
            Err(e) => Err(CreateLinkError::Credential(e)),
            Ok(password_hash) => {
                let ghost hash = password_hash@;
                let ghost salt = choose|salt: Seq<char>|
                    Ok::<Seq<char>, HashError>(hash) == #[trigger] hashed_under(
                        link_password@,
                        salt,
                    );
                let res = self.register_link(id, file_id, recipient_id, password_hash, ttl, now);
                assert(hashed_under(link_password@, salt) == Ok::<Seq<char>, HashError>(hash)
                    && link_of(res) == registration(
                    old(self).files(),
                    old(self).links(),
                    id,
                    file_id,
                    recipient_id,
                    hash,
                    ttl,
                    now,
                ));
                res
            },
        }
    }

    /// Creates a link on a stored file for a recipient, gated by a password
    /// and expiring `ttl` seconds from now, under a fresh identifier.
    ///
    /// A password outside the length policy is rejected before anything is
    /// drawn. Whatever identifier and instant are drawn, a link that comes
    /// back is recorded, points at the file, expires `ttl` seconds after it
    /// was created, and holds a hash that verifies against the password.
    pub fn create_link(
        &mut self,
        file_id: u128,
        recipient_id: u128,
        link_password: &str,
        ttl: i64,
    ) -> (res: Result<SharedLink, CreateLinkError>)
        requires
            old(self).wf(),
        ensures
            final(self).wf(),
            final(self).files() == old(self).files(),
            match res {
                Ok(link) => {
                    &&& !old(self).links().dom().contains(link.id)
                    &&& final(self).links() == old(self).links().insert(link.id, link@)
                    &&& link@.file_id == Some(file_id)
                    &&& old(self).files().dom().contains(file_id)
                    &&& link@.recipient_user_id == recipient_id
                    &&& ttl > 0
                    &&& link@.expiration_date == link@.created_at + ttl
                    &&& compare_result(link_password@, link@.password) == Ok::<bool, VerifyError>(
                        true,
                    )
                    &&& link@.password != link_password@
                },
                Err(_) => final(self).links() == old(self).links(),
            },
            policy_check(link_password@) matches Err(e) ==> res == Err::<
                SharedLink,
                CreateLinkError,
            >(CreateLinkError::Credential(hash_rejection(e))),
            policy_check(link_password@) is Ok ==> res == Err::<SharedLink, CreateLinkError>(
                CreateLinkError::RandomnessUnavailable,
            ) || res == Err::<SharedLink, CreateLinkError>(
                CreateLinkError::Credential(HashError::HashingFailure),
            ) || exists|id: u128, now: i64, hash: Seq<char>, salt: Seq<char>|
                #[trigger] hashed_under(link_password@, salt) == Ok::<Seq<char>, HashError>(hash)
                    && hash != link_password@ && compare_result(link_password@, hash) == Ok::<
                    bool,
                    VerifyError,
                >(true) && link_of(res) == #[trigger] registration(
                    old(self).files(),
                    old(self).links(),
                    id,
                    file_id,
                    recipient_id,
                    hash,
                    ttl,
                    now,
                ),
    {
        match validate_password(link_password) {
            Err(PolicyError::TooLong) => {
                return Err(CreateLinkError::Credential(HashError::TooLong));
            },
            Err(PolicyError::TooShort) => {
                return Err(CreateLinkError::Credential(HashError::TooShort));
            },
            Ok(()) => {},
        }
        let id = match fresh_id() {
            Some(id) => id,
            None => {
                return Err(CreateLinkError::RandomnessUnavailable);
            },
        };
        let now = unix_now();
        self.create_link_at(id, file_id, recipient_id, link_password, ttl, now)
    }

    /// The link with the identifier given, provided it is live at `now`.
    ///
    /// At its expiration instant a link is already expired, swept or not.
    pub fn live_link(&self, link_id: u128, now: i64) -> (res: Result<&SharedLink, RedeemError>)
        requires
            self.wf(),
        ensures
            live_link_of(res) == live_link_result(self.links(), link_id, now),
    {
        match self.find_link(link_id) {
            None => Err(RedeemError::NotFound),
            Some(i) => {
                let link = &self.links[i];
                if link.is_live(now) {
                    Ok(link)
                } else {
                    Err(RedeemError::Expired)
                }
            },
        }
    }

    /// Decides a redemption once the supplied password has been compared
    /// with the link's.
    ///
    /// A missing link is `NotFound` and an expired one `Expired`, whatever
    /// the comparison gave. On a live link a comparison that could not be
    /// made is handed on as it is, a mismatch is `WrongPassword`, and a match
    /// releases the envelope the link points at.
    pub fn release(&self, link_id: u128, now: i64, verdict: Result<bool, VerifyError>) -> (res:
        Result<&File, RedeemError>)
        requires
            self.wf(),
        ensures
            released_of(res) == release_result(self.files(), self.links(), link_id, now, verdict),
    {
        let link = match self.live_link(link_id, now) {
            Ok(link) => link,
            Err(e) => {
                return Err(e);
            },
        };
        match verdict {
            Err(e) => Err(RedeemError::Credential(e)),
            Ok(false) => Err(RedeemError::WrongPassword),
            Ok(true) => match link.file_id {
                Some(file_id) => match self.file(file_id) {
                    Some(file) => Ok(file),
                    None => Err(RedeemError::NotFound),
                },
                None => Err(RedeemError::NotFound),
            },
        }
    }

    /// Redeems a link at the instant given.
    ///
    /// Expiry is checked on every attempt, before the password is looked
    /// at. The registry is not changed: a link can be redeemed any number of
    /// times until it expires or is revoked.
    pub fn redeem_at(&self, link_id: u128, supplied_password: &str, now: i64) -> (res: Result<
        &File,
        RedeemError,
    >)
        requires
            self.wf(),
        ensures
            released_of(res) == redeem_result(
                self.files(),
                self.links(),
                link_id,
                supplied_password@,
                now,
            ),
    {
        match self.live_link(link_id, now) {
            Err(e) => Err(e),
            Ok(link) => {
                let verdict = compare_password(supplied_password, link.password.as_str());
                self.release(link_id, now, verdict)
            },
        }
    }

    /// Redeems a link now.
    ///
    /// Whatever instant the clock gives, a missing link is `NotFound`, and
    /// an envelope that comes back is the one the link points at, released
    /// because the password matches the link's.
    pub fn redeem(&self, link_id: u128, supplied_password: &str) -> (res: Result<
        &File,
        RedeemError,
    >)
        requires
            self.wf(),
        ensures
            exists|now: i64|
                released_of(res) == #[trigger] redeem_result(
                    self.files(),
                    self.links(),
                    link_id,
                    supplied_password@,
                    now,
                ),
            !self.links().dom().contains(link_id) ==> res == Err::<&File, RedeemError>(
                RedeemError::NotFound,
            ),
            res matches Ok(file) ==> {
                &&& self.links().dom().contains(link_id)
                &&& self.links()[link_id].file_id matches Some(file_id) && file@
                    == self.files()[file_id]
                &&& compare_result(supplied_password@, self.links()[link_id].password) == Ok::<
                    bool,
                    VerifyError,
                >(true)
            },
    {
        let now = unix_now();
        let res = self.redeem_at(link_id, supplied_password, now);
        assert(released_of(res) == redeem_result(
            self.files(),
            self.links(),
            link_id,
            supplied_password@,
            now,
        ));
        res
    }

    /// Deletes a link at once, expired or not. Envelopes are not touched.
    pub fn revoke(&mut self, link_id: u128) -> (res: Result<(), NotFound>)
        requires
            old(self).wf(),
        ensures
            final(self).wf(),
            final(self).files() == old(self).files(),
            final(self).links() == old(self).links().remove(link_id),
            res is Ok <==> old(self).links().dom().contains(link_id),
    {
        match self.find_link(link_id) {
            None => {
                assert(self.links().remove(link_id) =~= self.links());
                Err(NotFound)
            },
            Some(i) => {
                proof {
                    lemma_keyed_remove(link_ids(self.links@), link_views(self.links@), i as int);
                    assert(link_ids(self.links@.remove(i as int)) =~= link_ids(self.links@).remove(
                        i as int,
                    ));
                    assert(link_views(self.links@.remove(i as int)) =~= link_views(
                        self.links@,
                    ).remove(i as int));
                }
                self.links.remove(i);
                Ok(())
            },
        }
    }

    /// The identifiers of the links whose expiration instant is at or
    /// before `now`, each once.
    pub fn expired_links(&self, now: i64) -> (ids: Vec<u128>)
        requires
            self.wf(),
        ensures
            ids@.no_duplicates(),
            forall|id: u128| #[trigger]
                ids@.contains(id) <==> self.links().dom().contains(id) && !self.links()[id].is_live(
                    now,
                ),
    {
        let mut ids: Vec<u128> = Vec::new();
        let mut i: usize = 0;
        while i < self.links.len()
            invariant
                i <= self.links@.len(),
                self.wf(),
                ids@.no_duplicates(),
                forall|id: u128| #[trigger]
                    ids@.contains(id) <==> exists|j: int|
                        0 <= j < i && (#[trigger] self.links@[j]).id == id
                            && !self.links@[j]@.is_live(now),
            decreases self.links@.len() - i,
        {
            if !self.links[i].is_live(now) {
                let id = self.links[i].id;
                proof {
                    if ids@.contains(id) {
                        let j = choose|j: int|
                            0 <= j < i && (#[trigger] self.links@[j]).id == id
                                && !self.links@[j]@.is_live(now);
                        assert(link_ids(self.links@)[j] == link_ids(self.links@)[i as int]);
                    }
                    lemma_push_no_duplicates(ids@, id);
                    lemma_push_contains(ids@, id);
                }
                ids.push(id);
            }
            i += 1;
        }
        proof {
            assert forall|id: u128| #[trigger]
                ids@.contains(id) <==> self.links().dom().contains(id) && !self.links()[id].is_live(
                    now,
                ) by {
                if ids@.contains(id) {
                    let j = choose|j: int|
                        0 <= j < i && (#[trigger] self.links@[j]).id == id
                            && !self.links@[j]@.is_live(now);
                    lemma_keyed_lookup(link_ids(self.links@), link_views(self.links@), j);
                }
                if self.links().dom().contains(id) && !self.links()[id].is_live(now) {
                    let p = lemma_keyed_position(
                        link_ids(self.links@),
                        link_views(self.links@),
                        id,
                    );
                    assert(self.links@[p].id == id && !self.links@[p]@.is_live(now));
                }
            }
        }
        ids
    }

    /// The identifiers of the envelopes that a sweep at `now` reclaims:
    /// those with an expired link and no live one, each once.
    pub fn reclaimable_files(&self, now: i64) -> (ids: Vec<u128>)
        requires
            self.wf(),
        ensures
            ids@.no_duplicates(),
            forall|id: u128| #[trigger]
                ids@.contains(id) <==> self.files().dom().contains(id) && file_reclaimed(
                    self.links(),
                    id,
                    now,
                ),
    {
        let mut ids: Vec<u128> = Vec::new();
        let mut i: usize = 0;
        while i < self.files.len()
            invariant
                i <= self.files@.len(),
                self.wf(),
                ids@.no_duplicates(),
                forall|id: u128| #[trigger]
                    ids@.contains(id) <==> exists|j: int|
                        0 <= j < i && (#[trigger] self.files@[j]).id == id && file_reclaimed(
                            self.links(),
                            id,
                            now,
                        ),
            decreases self.files@.len() - i,
        {
            let id = self.files[i].id;
            let expired = any_link(&self.links, id, now, false);
            let live = any_link(&self.links, id, now, true);
            proof {
                let links = self.links();
                assert(links == links_map(self.links@));
                assert(expired == has_expired_link(links, id, now)) by {
                    if has_expired_link(links, id, now) {
                        let l = choose|l: u128| #[trigger]
                            links.dom().contains(l) && links[l].references(id)
                                && !links[l].is_live(now);
                        assert(links.dom().contains(l) && links[l].references(id)
                            && links[l].is_live(now) == false);
                    }
                }
                assert(live == has_live_link(links, id, now)) by {
                    if has_live_link(links, id, now) {
                        let l = choose|l: u128| #[trigger]
                            links.dom().contains(l) && links[l].references(id) && links[l].is_live(
                                now,
                            );
                        assert(links.dom().contains(l) && links[l].references(id)
                            && links[l].is_live(now) == true);
                    }
                }
            }
            if expired && !live {
                proof {
                    if ids@.contains(id) {
                        let j = choose|j: int|
                            0 <= j < i && (#[trigger] self.files@[j]).id == id && file_reclaimed(
                                self.links(),
                                id,
                                now,
                            );
                        assert(file_ids(self.files@)[j] == file_ids(self.files@)[i as int]);
                    }
                    lemma_push_no_duplicates(ids@, id);
                    lemma_push_contains(ids@, id);
                }
                ids.push(id);
            }
            i += 1;
        }
        proof {
            assert forall|id: u128| #[trigger]
                ids@.contains(id) <==> self.files().dom().contains(id) && file_reclaimed(
                    self.links(),
                    id,
                    now,
                ) by {
                if ids@.contains(id) {
                    let j = choose|j: int|
                        0 <= j < i && (#[trigger] self.files@[j]).id == id && file_reclaimed(
                            self.links(),
                            id,
                            now,
                        );
                    lemma_keyed_lookup(file_ids(self.files@), file_views(self.files@), j);
                }
                if self.files().dom().contains(id) && file_reclaimed(self.links(), id, now) {
                    let p = lemma_keyed_position(
                        file_ids(self.files@),
                        file_views(self.files@),
                        id,
                    );
                    assert(self.files@[p].id == id);
                }
            }
        }
        ids
    }

    /// Deletes a stored envelope and, with it, every link that points at it.
    pub fn delete_file(&mut self, file_id: u128) -> (res: Result<(), NotFound>)
        requires
            old(self).wf(),
        ensures
            final(self).wf(),
            final(self).files() == old(self).files().remove(file_id),
            final(self).links() == links_without_file(old(self).links(), file_id),
            res is Ok <==> old(self).files().dom().contains(file_id),
    {
        let position = match self.find_file(file_id) {
            Some(i) => i,
            None => {
                assert(self.files().remove(file_id) =~= self.files());
                assert(links_without_file(self.links(), file_id) =~= self.links());
                return Err(NotFound);
            },
        };
        let filter = LinkFilter::Referencing(file_id);
        let _ = remove_selected(&mut self.links, &filter);
        proof {
            assert forall|l: u128|
                links_map(self.links@).dom().contains(l) <==> #[trigger] links_without_file(
                    old(self).links(),
                    file_id,
                ).dom().contains(l) by {}
            lemma_keyed_remove(file_ids(self.files@), file_views(self.files@), position as int);
            assert(file_ids(self.files@.remove(position as int)) =~= file_ids(self.files@).remove(
                position as int,
            ));
            assert(file_views(self.files@.remove(position as int)) =~= file_views(
                self.files@,
            ).remove(position as int));
            assert(self.links() =~= links_without_file(old(self).links(), file_id));
            lemma_keyed_len(link_ids(self.links@), link_views(self.links@));
        }
        self.files.remove(position);
        Ok(())
    }

    /// Deletes every link whose expiration instant is at or before `now`,
    /// and every envelope that had such a link and has no live link left.
    ///
    /// Live links and the envelopes they point at are not touched, nor are
    /// envelopes that were never shared. The report counts what was deleted.
    pub fn delete_expired_files(&mut self, now: i64) -> (report: SweepReport)
        requires
            old(self).wf(),
        ensures
            final(self).wf(),
            final(self).links() == links_after_sweep(old(self).links(), now),
            final(self).files() == files_after_sweep(old(self).files(), old(self).links(), now),
            report.removed_links == old(self).links().dom().len() - final(self).links().dom().len(),
            report.removed_files == old(self).files().dom().len() - final(self).files().dom().len(),
    {
        let ghost old_links = self.links();
        let ghost old_files = self.files();
        let ghost old_file_seq = self.files@;
        let stored: usize = self.files.len();
        proof {
            lemma_keyed_len(link_ids(self.links@), link_views(self.links@));
            lemma_keyed_len(file_ids(self.files@), file_views(self.files@));
        }
        let filter = LinkFilter::ExpiredAt(now);
        let targets = remove_selected(&mut self.links, &filter);
        let ghost kept_links = self.links@;
        proof {
            assert forall|l: u128|
                links_map(self.links@).dom().contains(l) <==> #[trigger] links_after_sweep(
                    old_links,
                    now,
                ).dom().contains(l) by {}
            assert(self.links() =~= links_after_sweep(old_links, now));
            assert forall|file_id: u128|
                targets@.contains(Some(file_id)) <==> #[trigger] has_expired_link(
                    old_links,
                    file_id,
                    now,
                ) by {
                if has_expired_link(old_links, file_id, now) {
                    let l = choose|l: u128| #[trigger]
                        old_links.dom().contains(l) && old_links[l].references(file_id)
                            && !old_links[l].is_live(now);
                    assert(old_links.dom().contains(l) && filter.selects(old_links[l])
                        && old_links[l].file_id == Some(file_id));
                    assert(selected_target(old_links, filter, Some(file_id)));
                }
                if targets@.contains(Some(file_id)) {
                    assert(selected_target(old_links, filter, Some(file_id)));
                    let l = choose|l: u128| #[trigger]
                        old_links.dom().contains(l) && filter.selects(old_links[l])
                            && old_links[l].file_id == Some(file_id);
                    assert(old_links.dom().contains(l) && old_links[l].references(file_id)
                        && !old_links[l].is_live(now));
                }
            }
        }
        let mut removed_files: usize = 0;
        let mut i: usize = 0;
        while i < self.files.len()
            invariant
                i <= self.files@.len(),
                self.links@ == kept_links,
                link_ids(kept_links).no_duplicates(),
                self.links() == links_after_sweep(old_links, now),
                file_ids(self.files@).no_duplicates(),
                removed_files + self.files@.len() == old_file_seq.len(),
                old_file_seq.len() == stored,
                forall|file_id: u128|
                    targets@.contains(Some(file_id)) <==> #[trigger] has_expired_link(
                        old_links,
                        file_id,
                        now,
                    ),
                forall|j: int| 0 <= j < i ==> !file_reclaimed(old_links, self.files@[j].id, now),
                forall|f: u128| #[trigger]
                    self.files().dom().contains(f) ==> old_files.dom().contains(f)
                        && self.files()[f] == old_files[f],
                forall|f: u128| #[trigger]
                    old_files.dom().contains(f) && !file_reclaimed(old_links, f, now)
                        ==> self.files().dom().contains(f),
            decreases self.files@.len() - i,
        {
            let file_id = self.files[i].id;
            let expired = contains_target(&targets, file_id);
            let live = any_link(&self.links, file_id, now, true);
            proof {
                assert(live == has_live_link(old_links, file_id, now)) by {
                    let kept = links_map(self.links@);
                    assert(kept == links_after_sweep(old_links, now));
                    if has_live_link(old_links, file_id, now) {
                        let l = choose|l: u128| #[trigger]
                            old_links.dom().contains(l) && old_links[l].references(file_id)
                                && old_links[l].is_live(now);
                        assert(kept.dom().contains(l) && kept[l].references(file_id)
                            && kept[l].is_live(now) == true);
                    }
                    if live {
                        let l = choose|l: u128| #[trigger]
                            kept.dom().contains(l) && kept[l].references(file_id)
                                && kept[l].is_live(now) == true;
                        assert(old_links.dom().contains(l) && old_links[l].references(file_id)
                            && old_links[l].is_live(now));
                    }
                }
                lemma_keyed_lookup(file_ids(self.files@), file_views(self.files@), i as int);
            }
            if expired && !live {
                let ghost current = self.files();
                proof {
                    lemma_keyed_remove(file_ids(self.files@), file_views(self.files@), i as int);
                    assert(file_ids(self.files@.remove(i as int)) =~= file_ids(
                        self.files@,
                    ).remove(i as int));
                    assert(file_views(self.files@.remove(i as int)) =~= file_views(
                        self.files@,
                    ).remove(i as int));
                }
                self.files.remove(i);
                removed_files += 1;
                assert(self.files() == current.remove(file_id));
            } else {
                i += 1;
            }
        }
        proof {
            assert forall|f: u128| #[trigger] self.files().dom().contains(f) implies !file_reclaimed(
                old_links,
                f,
                now,
            ) by {
                let p = lemma_keyed_position(file_ids(self.files@), file_views(self.files@), f);
                assert(self.files@[p].id == f);
            }
            assert(self.files() =~= files_after_sweep(old_files, old_links, now));
            lemma_keyed_len(link_ids(self.links@), link_views(self.links@));
            lemma_keyed_len(file_ids(self.files@), file_views(self.files@));
            assert forall|l: u128| #[trigger] self.links().dom().contains(l) implies ({
                &&& self.links()[l].file_id matches Some(file_id) && self.files().dom().contains(
                    file_id,
                )
            }) by {
                let file_id = old_links[l].file_id.unwrap();
                assert(old_links.dom().contains(l) && old_links[l].references(file_id)
                    && old_links[l].is_live(now));
                assert(has_live_link(old_links, file_id, now));
            }
        }
        SweepReport { removed_links: targets.len(), removed_files }
    }
}

/// Whether an envelope is accepted into a store holding `files`.
pub open spec fn store_outcome(files: Map<u128, FileView>, file: FileView) -> Result<
    (),
    StoreError,
> {
    if !file.is_complete() {
        Err(StoreError::IncompleteEnvelope)
    } else if files.dom().contains(file.id) {
        Err(StoreError::DuplicateId)
    } else {
        Ok(())
    }
}

/// Whether a link record is accepted into a store holding `files` and
/// `links`.
pub open spec fn link_store_outcome(
    files: Map<u128, FileView>,
    links: Map<u128, SharedLinkView>,
    link: SharedLinkView,
) -> Result<(), StoreError> {
    if links.dom().contains(link.id) {
        Err(StoreError::DuplicateId)
    } else if !(link.file_id matches Some(file_id) && files.dom().contains(file_id)) {
        Err(StoreError::UnknownFile)
    } else if link.expiration_date <= link.created_at {
        Err(StoreError::InvalidExpiration)
    } else {
        Ok(())
    }
}

/// The content of a link-creation result.
pub open spec fn link_of(res: Result<SharedLink, CreateLinkError>) -> Result<
    SharedLinkView,
    CreateLinkError,
> {
    match res {
        Ok(link) => Ok(link@),
        Err(e) => Err(e),
    }
}

/// The content of a looked-up link.
pub open spec fn live_link_of(res: Result<&SharedLink, RedeemError>) -> Result<
    SharedLinkView,
    RedeemError,
> {
    match res {
        Ok(link) => Ok(link@),
        Err(e) => Err(e),
    }
}

/// The content of a redemption result.
pub open spec fn released_of(res: Result<&File, RedeemError>) -> Result<FileView, RedeemError> {
    match res {
        Ok(file) => Ok(file@),
        Err(e) => Err(e),
    }
}

/// The link that registration records, or why it records none.
pub open spec fn registration(
    files: Map<u128, FileView>,
    links: Map<u128, SharedLinkView>,
    id: u128,
    file_id: u128,
    recipient_id: u128,
    password_hash: Seq<char>,
    ttl: i64,
    now: i64,
) -> Result<SharedLinkView, CreateLinkError> {
    if ttl <= 0 || now + ttl > i64::MAX {
        Err(CreateLinkError::InvalidTtl)
    } else if !files.dom().contains(file_id) {
        Err(CreateLinkError::FileNotFound)
    } else if links.dom().contains(id) {
        Err(CreateLinkError::DuplicateId)
    } else {
        Ok(
            SharedLinkView {
                id,
                file_id: Some(file_id),
                recipient_user_id: recipient_id,
                password: password_hash,
                expiration_date: (now + ttl) as i64,
                created_at: now,
            },
        )
    }
}

/// The live link under an identifier: a missing one is `NotFound`, one whose
/// expiration instant has been reached is `Expired`.
pub open spec fn live_link_result(
    links: Map<u128, SharedLinkView>,
    link_id: u128,
    now: i64,
) -> Result<SharedLinkView, RedeemError> {
    if !links.dom().contains(link_id) {
        Err(RedeemError::NotFound)
    } else if !links[link_id].is_live(now) {
        Err(RedeemError::Expired)
    } else {
        Ok(links[link_id])
    }
}

/// The outcome of a redemption, given what comparing the passwords gave.
pub open spec fn release_result(
    files: Map<u128, FileView>,
    links: Map<u128, SharedLinkView>,
    link_id: u128,
    now: i64,
    verdict: Result<bool, VerifyError>,
) -> Result<FileView, RedeemError> {
    match live_link_result(links, link_id, now) {
        Err(e) => Err(e),
        Ok(link) => match verdict {
            Err(e) => Err(RedeemError::Credential(e)),
            Ok(matched) => if matched {
                Ok(files[link.file_id.unwrap()])
            } else {
                Err(RedeemError::WrongPassword)
            },
        },
    }
}

/// The outcome of a redemption with a supplied password.
pub open spec fn redeem_result(
    files: Map<u128, FileView>,
    links: Map<u128, SharedLinkView>,
    link_id: u128,
    supplied_password: Seq<char>,
    now: i64,
) -> Result<FileView, RedeemError> {
    release_result(
        files,
        links,
        link_id,
        now,
        compare_result(supplied_password, links[link_id].password),
    )
}

/// What one sweep deleted.
#[derive(Debug, Clone, Copy, PartialEq, Eq, Structural)]
pub struct SweepReport {
    pub removed_links: usize,
    pub removed_files: usize,
}

/// Some link on the file has reached its expiration instant.
pub open spec fn has_expired_link(
    links: Map<u128, SharedLinkView>,
    file_id: u128,
    now: i64,
) -> bool {
    exists|l: u128| #[trigger]
        links.dom().contains(l) && links[l].references(file_id) && !links[l].is_live(now)
}

/// Some link on the file is still live.
pub open spec fn has_live_link(links: Map<u128, SharedLinkView>, file_id: u128, now: i64) -> bool {
    exists|l: u128| #[trigger]
        links.dom().contains(l) && links[l].references(file_id) && links[l].is_live(now)
}

/// A sweep reclaims a file once a link on it has expired and none is live.
pub open spec fn file_reclaimed(
    links: Map<u128, SharedLinkView>,
    file_id: u128,
    now: i64,
) -> bool {
    has_expired_link(links, file_id, now) && !has_live_link(links, file_id, now)
}

/// The links that a sweep at `now` leaves: the live ones, unchanged.
pub open spec fn links_after_sweep(links: Map<u128, SharedLinkView>, now: i64) -> Map<
    u128,
    SharedLinkView,
> {
    Map::new(|l: u128| links.dom().contains(l) && links[l].is_live(now), |l: u128| links[l])
}

/// The envelopes that a sweep at `now` leaves: those not reclaimed,
/// unchanged.
pub open spec fn files_after_sweep(
    files: Map<u128, FileView>,
    links: Map<u128, SharedLinkView>,
    now: i64,
) -> Map<u128, FileView> {
    Map::new(
        |f: u128| files.dom().contains(f) && !file_reclaimed(links, f, now),
        |f: u128| files[f],
    )
}

/// The links that deleting a file leaves: those that point elsewhere.
pub open spec fn links_without_file(links: Map<u128, SharedLinkView>, file_id: u128) -> Map<
    u128,
    SharedLinkView,
> {
    Map::new(
        |l: u128| links.dom().contains(l) && !links[l].references(file_id),
        |l: u128| links[l],
    )
}

/// Which links an operation removes.
enum LinkFilter {
    ExpiredAt(i64),
    Referencing(u128),
}

impl LinkFilter {
    spec fn selects(self, link: SharedLinkView) -> bool {
        match self {
            LinkFilter::ExpiredAt(now) => !link.is_live(now),
            LinkFilter::Referencing(file_id) => link.references(file_id),
        }
    }

    fn test(&self, link: &SharedLink) -> (selected: bool)
        ensures
            selected == self.selects(link@),
    {
        match self {
            LinkFilter::ExpiredAt(now) => !link.is_live(*now),
            LinkFilter::Referencing(file_id) => match link.file_id {
                Some(target) => target == *file_id,
                None => false,
            },
        }
    }
}

spec fn links_map(links: Seq<SharedLink>) -> Map<u128, SharedLinkView> {
    keyed_map(link_ids(links), link_views(links))
}

spec fn files_map(files: Seq<File>) -> Map<u128, FileView> {
    keyed_map(file_ids(files), file_views(files))
}

/// A link that `before` holds and `after` lacks pointed at `target`.
spec fn dropped_target(
    before: Map<u128, SharedLinkView>,
    after: Map<u128, SharedLinkView>,
    target: Option<u128>,
) -> bool {
    exists|l: u128| #[trigger]
        before.dom().contains(l) && !after.dom().contains(l) && before[l].file_id == target
}

/// A link that the filter selects points at `target`.
spec fn selected_target(
    links: Map<u128, SharedLinkView>,
    filter: LinkFilter,
    target: Option<u128>,
) -> bool {
    exists|l: u128| #[trigger]
        links.dom().contains(l) && filter.selects(links[l]) && links[l].file_id == target
}

/// Removes the links that the filter selects, keeping the others in order,
/// and returns what each removed link pointed at.
fn remove_selected(links: &mut Vec<SharedLink>, filter: &LinkFilter) -> (targets: Vec<Option<u128>>)
    requires
        link_ids(old(links)@).no_duplicates(),
    ensures
        link_ids(final(links)@).no_duplicates(),
        targets@.len() + final(links)@.len() == old(links)@.len(),
        forall|l: u128| #[trigger]
            links_map(final(links)@).dom().contains(l) <==> links_map(old(links)@).dom().contains(l)
                && !filter.selects(links_map(old(links)@)[l]),
        forall|l: u128| #[trigger]
            links_map(final(links)@).dom().contains(l) ==> links_map(final(links)@)[l] == links_map(
                old(links)@,
            )[l],
        forall|t: Option<u128>|
            #![trigger targets@.contains(t)]
            #![trigger selected_target(links_map(old(links)@), *filter, t)]
            targets@.contains(t) <==> selected_target(links_map(old(links)@), *filter, t),
{
    let ghost before = links_map(links@);
    let mut targets: Vec<Option<u128>> = Vec::new();
    let mut i: usize = 0;
    while i < links.len()
        invariant
            i <= links@.len(),
            before == links_map(old(links)@),
            link_ids(links@).no_duplicates(),
            targets@.len() + links@.len() == old(links)@.len(),
            forall|j: int| 0 <= j < i ==> !filter.selects(links@[j]@),
            forall|l: u128| #[trigger]
                links_map(links@).dom().contains(l) ==> before.dom().contains(l) && links_map(
                    links@,
                )[l] == before[l],
            forall|l: u128| #[trigger]
                before.dom().contains(l) && !filter.selects(before[l]) ==> links_map(
                    links@,
                ).dom().contains(l),
            forall|l: u128| #[trigger]
                before.dom().contains(l) && !links_map(links@).dom().contains(l)
                    ==> filter.selects(before[l]),
            forall|t: Option<u128>|
                #![trigger targets@.contains(t)]
                #![trigger dropped_target(before, links_map(links@), t)]
                targets@.contains(t) <==> dropped_target(before, links_map(links@), t),
        decreases links@.len() - i,
    {
        proof {
            lemma_keyed_lookup(link_ids(links@), link_views(links@), i as int);
        }
        if filter.test(&links[i]) {
            let ghost current = links_map(links@);
            let ghost collected = targets@;
            let ghost gone = links@[i as int];
            proof {
                lemma_keyed_remove(link_ids(links@), link_views(links@), i as int);
                assert(link_ids(links@.remove(i as int)) =~= link_ids(links@).remove(i as int));
                assert(link_views(links@.remove(i as int)) =~= link_views(links@).remove(i as int));
            }
            let removed = links.remove(i);
            targets.push(removed.file_id);
            proof {
                let after = links_map(links@);
                assert(after == current.remove(gone.id));
                assert forall|t: Option<u128>| targets@.contains(t) <==> dropped_target(
                    before,
                    after,
                    t,
                ) by {
                    if targets@.contains(t) {
                        let k = choose|k: int| 0 <= k < targets@.len() && targets@[k] == t;
                        if k < collected.len() {
                            assert(collected[k] == t);
                            assert(collected.contains(t));
                            let l = choose|l: u128| #[trigger]
                                before.dom().contains(l) && !current.dom().contains(l)
                                    && before[l].file_id == t;
                            assert(before.dom().contains(l) && !after.dom().contains(l));
                        } else {
                            assert(before.dom().contains(gone.id) && !after.dom().contains(
                                gone.id,
                            ));
                        }
                    }
                    if dropped_target(before, after, t) {
                        let l = choose|l: u128| #[trigger]
                            before.dom().contains(l) && !after.dom().contains(l)
                                && before[l].file_id == t;
                        if l == gone.id {
                            assert(targets@[collected.len() as int] == t);
                        } else {
                            assert(before.dom().contains(l) && !current.dom().contains(l));
                            assert(dropped_target(before, current, t));
                            assert(collected.contains(t));
                            let k = choose|k: int| 0 <= k < collected.len() && collected[k] == t;
                            assert(targets@[k] == t);
                        }
                    }
                }
            }
        } else {
            i += 1;
        }
    }
    proof {
        let after = links_map(links@);
        assert forall|l: u128| #[trigger] after.dom().contains(l) implies !filter.selects(
            before[l],
        ) by {
            let p = lemma_keyed_position(link_ids(links@), link_views(links@), l);
            assert(links@[p]@ == after[l]);
        }
        assert forall|t: Option<u128>| targets@.contains(t) <==> selected_target(
            before,
            *filter,
            t,
        ) by {
            if dropped_target(before, after, t) {
                let l = choose|l: u128| #[trigger]
                    before.dom().contains(l) && !after.dom().contains(l) && before[l].file_id == t;
                assert(before.dom().contains(l) && filter.selects(before[l]));
            }
            if selected_target(before, *filter, t) {
                let l = choose|l: u128| #[trigger]
                    before.dom().contains(l) && filter.selects(before[l]) && before[l].file_id
                        == t;
                assert(before.dom().contains(l) && !after.dom().contains(l));
            }
        }
    }
    targets
}

/// Whether one of the links points at the file and is live, or expired, as
/// asked.
fn any_link(links: &Vec<SharedLink>, file_id: u128, now: i64, live: bool) -> (found: bool)
    requires
        link_ids(links@).no_duplicates(),
    ensures
        found <==> exists|l: u128| #[trigger]
            links_map(links@).dom().contains(l) && links_map(links@)[l].references(file_id)
                && links_map(links@)[l].is_live(now) == live,
{
    let mut i: usize = 0;
    while i < links.len()
        invariant
            i <= links@.len(),
            link_ids(links@).no_duplicates(),
            forall|j: int|
                0 <= j < i ==> !(links@[j]@.references(file_id) && links@[j]@.is_live(now)
                    == live),
        decreases links@.len() - i,
    {
        let points_here = match links[i].file_id {
            Some(target) => target == file_id,
            None => false,
        };
        if points_here && links[i].is_live(now) == live {
            proof {
                lemma_keyed_lookup(link_ids(links@), link_views(links@), i as int);
                assert(links_map(links@).dom().contains(links@[i as int].id));
            }
            return true;
        }
        i += 1;
    }
    proof {
        assert forall|l: u128| #[trigger] links_map(links@).dom().contains(l) implies !(links_map(
            links@,
        )[l].references(file_id) && links_map(links@)[l].is_live(now) == live) by {
            let p = lemma_keyed_position(link_ids(links@), link_views(links@), l);
            assert(links@[p]@ == links_map(links@)[l]);
        }
    }
    false
}

/// Whether one of the removed links pointed at the file.
fn contains_target(targets: &Vec<Option<u128>>, file_id: u128) -> (found: bool)
    ensures
        found == targets@.contains(Some(file_id)),
{
    let mut i: usize = 0;
    while i < targets.len()
        invariant
            i <= targets@.len(),
            forall|j: int| 0 <= j < i ==> targets@[j] != Some(file_id),
        decreases targets@.len() - i,
    {
        let hit = match targets[i] {
            Some(target) => target == file_id,
            None => false,
        };
        if hit {
            return true;
        }
        i += 1;
    }
    false
}

} // verus!
