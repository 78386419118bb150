//! Accounts: created on registration with a hashed password, which a
//! password change replaces. Nothing here deletes an account.

use crate::models::User;
use crate::utils::password::{
    compare_password, compare_result, hash_password, hash_rejection, policy_check, HashError,
    VerifyError,
};
use vstd::prelude::*;

verus! {

/// Mathematical content of a [`User`].
pub struct UserView {
    pub id: u128,
    pub name: Seq<char>,
    pub email: Seq<char>,
    pub password: Seq<char>,
    pub public_key: Option<Seq<char>>,
    pub created_at: i64,
    pub updated_at: i64,
}

impl View for User {
    type V = UserView;

    open spec fn view(&self) -> UserView {
        UserView {
            id: self.id,
            name: self.name@,
            email: self.email@,
            password: self.password@,
            public_key: match self.public_key {
                Some(key) => Some(key@),
                None => None,
            },
            created_at: self.created_at,
            updated_at: self.updated_at,
        }
    }
}

impl User {
    /// Registers an account at the instant given: the password is hashed,
    /// never kept as it was typed. No public key is set.
    ///
    /// A password outside the length policy is rejected before any hashing.
    /// The hash of an account that comes back verifies against the password.
    pub fn register(id: u128, name: String, email: String, password: &str, now: i64) -> (res:
        Result<User, HashError>)
        ensures
            policy_check(password@) matches Err(e) ==> res matches Err(rejection) && rejection
                == hash_rejection(e),
            policy_check(password@) is Ok ==> res is Ok || (res matches Err(failure) && failure
                == HashError::HashingFailure),
            res matches Ok(user) ==> {
                &&& user@.id == id
                &&& user@.name == name@
                &&& user@.email == email@
                &&& user@.public_key == None::<Seq<char>>
                &&& user@.created_at == now
                &&& user@.updated_at == now
                &&& compare_result(password@, user@.password) == Ok::<bool, VerifyError>(true)
                &&& user@.password != password@
            },
    {
        match hash_password(password) {
            Err(e) => Err(e),
            Ok(hash) => Ok(
                User {
                    id,
                    name,
                    email,
                    password: hash,
                    public_key: None,
                    created_at: now,
                    updated_at: now,
                },
            ),
        }
    }

    /// Compares a candidate password with the account's.
    pub fn verify_password(&self, candidate: &str) -> (res: Result<bool, VerifyError>)
        ensures
            res == compare_result(candidate@, self@.password),
    {
        compare_password(candidate, self.password.as_str())
    }

    /// Replaces the account's password hash at the instant given. Where the
    /// new password cannot be hashed the account stays as it was.
    ///
    /// After a change the account's hash verifies against the new password;
    /// nothing but the hash and the instant of the update is touched.
    pub fn change_password(&mut self, new_password: &str, now: i64) -> (res: Result<(), HashError>)
        ensures
            policy_check(new_password@) matches Err(e) ==> res == Err::<(), HashError>(
                hash_rejection(e),
            ),
            policy_check(new_password@) is Ok ==> res is Ok || res == Err::<(), HashError>(
                HashError::HashingFailure,
            ),
            res is Err ==> *final(self) == *old(self),
            res is Ok ==> {
                &&& final(self)@ == (UserView {
                    password: final(self)@.password,
                    updated_at: now,
                    ..old(self)@
                })
                &&& compare_result(new_password@, final(self)@.password) == Ok::<
                    bool,
                    VerifyError,
                >(true)
                &&& final(self)@.password != new_password@
            },
    {
        match hash_password(new_password) {
            Err(e) => Err(e),
            Ok(hash) => {
                self.password = hash;
                self.updated_at = now;
                Ok(())
            },
        }
    }
}

} // verus!
