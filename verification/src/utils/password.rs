//! Credential policy: length rules, Argon2 hashing and verification.

use argon2::password_hash::{PasswordHash, PasswordHasher, PasswordVerifier, Salt, SaltString};
use argon2::Argon2;
use rand::rngs::OsRng;
use rand::RngCore;
use crate::config::{digits_value, is_digit};
use vstd::prelude::*;
use vstd::utf8::encode_utf8;

verus! {

/// Longest credential accepted, in bytes of its UTF-8 encoding.
pub const MAX_PASSWORD_LENGTH: usize = 64;

/// Shortest credential accepted, in bytes of its UTF-8 encoding.
pub const MIN_PASSWORD_LENGTH: usize = 8;

/// A credential whose shape the policy rejects.
#[derive(Debug, Clone, Copy, PartialEq, Eq, Structural)]
pub enum PolicyError {
    TooShort,
    TooLong,
}

impl PolicyError {
    /// What to tell the user.
    pub fn message(&self) -> (text: &'static str)
        ensures
            text@ == match *self {
                PolicyError::TooShort => "Password is too short"@,
                PolicyError::TooLong => "Password is too long"@,
            },
    {
        match self {
            PolicyError::TooShort => "Password is too short",
            PolicyError::TooLong => "Password is too long",
        }
    }
}

/// Length of a credential as the policy measures it: the number of bytes of
/// its UTF-8 encoding.
pub open spec fn credential_len(password: Seq<char>) -> nat {
    encode_utf8(password).len()
}

/// The policy's verdict on a credential: nothing but its length is examined.
pub open spec fn policy_check(password: Seq<char>) -> Result<(), PolicyError> {
    if credential_len(password) > MAX_PASSWORD_LENGTH {
        Err(PolicyError::TooLong)
    } else if credential_len(password) < MIN_PASSWORD_LENGTH {
        Err(PolicyError::TooShort)
    } else {
        Ok(())
    }
}

/// Checks a credential against the length policy.
pub fn validate_password(password: &str) -> (res: Result<(), PolicyError>)
    ensures
        res == policy_check(password@),
{
    let length: usize = password.as_bytes().len();
    if length > MAX_PASSWORD_LENGTH {
        return Err(PolicyError::TooLong);
    }
    if length < MIN_PASSWORD_LENGTH {
        return Err(PolicyError::TooShort);
    }
    Ok(())
}

/// Why a credential could not be hashed.
#[derive(Debug, Clone, Copy, PartialEq, Eq, Structural)]
pub enum HashError {
    TooShort,
    TooLong,
    /// The hashing primitive itself reported a fault.
    HashingFailure,
}

/// Why a credential could not be compared with a stored hash. A credential
/// that simply does not match is no error.
#[derive(Debug, Clone, Copy, PartialEq, Eq, Structural)]
pub enum VerifyError {
    TooShort,
    TooLong,
    /// The stored hash is not a well-formed PHC string.
    MalformedHash,
}

/// The parameter field that `PasswordHash::new` reads from a PHC string, as
/// bytes; `None` where it does not accept the string.
pub uninterp spec fn phc_params(hash: Seq<char>) -> Option<Seq<u8>>;

/// Whether `PasswordHash::new` accepts a string as a PHC string.
pub open spec fn phc_parses(hash: Seq<char>) -> bool {
    phc_params(hash) is Some
}

/// Whether Argon2, run on a candidate password with the algorithm,
/// parameters and salt that a PHC string records, reproduces the digest that
/// the string records.
pub uninterp spec fn argon2_matches(password: Seq<char>, hash: Seq<char>) -> bool;

/// The PHC string that Argon2 with its default parameters makes of a
/// password under a salt given as text; `None` where it reports an error.
pub uninterp spec fn argon2_hashed(password: Seq<char>, salt: Seq<char>) -> Option<Seq<char>>;

/// The least parallelism that Argon2 cannot take: it multiplies the value
/// by eight in 32 bits before it tests its range.
pub const PARALLELISM_LIMIT: u64 = 0x2000_0000;

/// The parameter field of the strings that hashing makes: `m=19456,t=2,p=1`.
pub open spec fn default_params() -> Seq<u8> {
    seq![
        0x6du8, 0x3du8, 0x31u8, 0x39u8, 0x34u8, 0x35u8, 0x36u8, 0x2cu8, 0x74u8, 0x3du8, 0x32u8,
        0x2cu8, 0x70u8, 0x3du8, 0x31u8,
    ]
}

/// Position of the last comma of a text; -1 where it has none.
pub open spec fn last_comma(text: Seq<u8>) -> int
    decreases text.len(),
{
    if text.len() == 0 {
        -1
    } else if text.last() == 0x2c {
        text.len() - 1
    } else {
        last_comma(text.drop_last())
    }
}

/// The value of the last pair named `p` among the comma-separated
/// `name=value` pairs of a parameter field: the parallelism that Argon2 ends
/// up with, where it reads the field to its end. `None` where no pair is
/// named `p`.
pub open spec fn recorded_parallelism(params: Seq<u8>) -> Option<Seq<u8>>
    decreases params.len(),
{
    let cut = last_comma(params);
    let pair = params.skip(cut + 1);
    if pair.len() >= 2 && pair[0] == 0x70 && pair[1] == 0x3d {
        Some(pair.skip(2))
    } else if 0 <= cut < params.len() {
        recorded_parallelism(params.take(cut))
    } else {
        None
    }
}

/// Whether a text is made of decimal digits that write `limit` or more.
pub open spec fn writes_at_least(text: Seq<u8>, limit: nat) -> bool {
    &&& forall|i: int| 0 <= i < text.len() ==> is_digit(#[trigger] text[i])
    &&& digits_value(text) >= limit
}

/// Whether a parameter field records a parallelism of `PARALLELISM_LIMIT`
/// or more.
pub open spec fn parallelism_out_of_range(params: Seq<u8>) -> bool {
    recorded_parallelism(params) matches Some(value) && writes_at_least(
        value,
        PARALLELISM_LIMIT as nat,
    )
}

/// What comparing a candidate password with a stored string gives: `None`
/// where the string does not parse; no match where it records a parallelism
/// that Argon2 cannot take; otherwise whether Argon2 finds a match.
pub open spec fn argon2_verdict(password: Seq<char>, hash: Seq<char>) -> Option<bool> {
    match phc_params(hash) {
        None => None,
        Some(params) => if parallelism_out_of_range(params) {
            Some(false)
        } else {
            Some(argon2_matches(password, hash))
        },
    }
}

/// The text of an optional string.
pub open spec fn text_of_hash(hashed: Option<String>) -> Option<Seq<char>> {
    match hashed {
        Some(text) => Some(text@),
        None => None,
    }
}

/// Draws a salt of the recommended length with `OsRng::try_fill_bytes` and
/// writes it as text with `SaltString::encode_b64`; `None` where the random
/// source or the encoding reports an error. Nothing is claimed of the value
/// drawn.
#[verifier::external_body]
fn fresh_salt() -> Option<String> {
    let mut bytes = [0u8; Salt::RECOMMENDED_LENGTH];
    match OsRng.try_fill_bytes(&mut bytes) {
        Ok(()) => match SaltString::encode_b64(&bytes) {
            Ok(salt) => Some(salt.as_str().to_string()),
            Err(_) => None,
        },
        Err(_) => None,
    }
}

/// Reads the salt with `Salt::from_b64`, runs
/// `Argon2::default().hash_password` and renders the outcome as a PHC
/// string; `None` where either reports an error. Trusted: the outcome is
/// determined by the two strings; a string that comes back begins with `$`
/// and records the algorithm, its version, the parameters, the salt and the
/// digest of 32 bytes, so that it is longer than 64 characters, that it
/// parses with `m=19456,t=2,p=1` for its parameter field, that the same
/// password matches it, and that no other salt gives the same string.
#[verifier::external_body]
fn argon2_hash(password: &str, salt: &str) -> (res: Option<String>)
    ensures
        text_of_hash(res) == argon2_hashed(password@, salt@),
        res matches Some(h) ==> phc_params(h@) == Some(default_params()) && argon2_matches(
            password@,
            h@,
        ),
        res matches Some(h) ==> h@.len() > 64 && h@[0] == '$',
        forall|other_password: Seq<char>, other_salt: Seq<char>|
            res is Some && #[trigger] argon2_hashed(other_password, other_salt) == text_of_hash(res)
                ==> other_salt == salt@,
{
    match Salt::from_b64(salt) {
        Ok(salt) => match Argon2::default().hash_password(password.as_bytes(), salt) {
            Ok(hash) => Some(hash.to_string()),
            Err(_) => None,
        },
        Err(_) => None,
    }
}

/// Parses `hash` with `PasswordHash::new` and hands out its parameter field
/// as bytes; `None` where the string does not parse. Trusted: the outcome is
/// determined by the string.
#[verifier::external_body]
fn phc_parameters(hash: &str) -> (res: Option<Vec<u8>>)
    ensures
        match res {
            Some(params) => phc_params(hash@) == Some(params@),
            None => phc_params(hash@) is None,
        },
{
    match PasswordHash::new(hash) {
        Ok(parsed) => Some(parsed.params.as_bytes().to_vec()),
        Err(_) => None,
    }
}

/// Parses `hash` with `PasswordHash::new` and, where that succeeds, runs
/// `Argon2::default().verify_password` on it. A string that records a
/// parallelism of `PARALLELISM_LIMIT` or more is left out: Argon2 takes the
/// value of the last pair named `p` and multiplies it by eight in 32 bits.
/// Trusted: whether the string parses is determined by the string, and
/// whether the password matches by the two strings.
#[verifier::external_body]
fn argon2_verify(password: &str, hash: &str) -> (res: Option<bool>)
    requires
        phc_params(hash@) matches Some(params) ==> !parallelism_out_of_range(params),
    ensures
        res == if phc_params(hash@) is Some {
            Some(argon2_matches(password@, hash@))
        } else {
            None
        },
{
    match PasswordHash::new(hash) {
        Ok(parsed) => Some(Argon2::default().verify_password(password.as_bytes(), &parsed).is_ok()),
        Err(_) => None,
    }
}

/// The last comma of a text is a comma, and no comma follows it; a position
/// of which both hold is the last comma.
proof fn lemma_last_comma(text: Seq<u8>, cut: int)
    ensures
        -1 <= last_comma(text) < text.len(),
        last_comma(text) >= 0 ==> text[last_comma(text)] == 0x2c,
        forall|j: int| last_comma(text) < j < text.len() ==> #[trigger] text[j] != 0x2c,
        -1 <= cut < text.len() && (cut >= 0 ==> text[cut] == 0x2c) && (forall|j: int|
            cut < j < text.len() ==> #[trigger] text[j] != 0x2c) ==> cut == last_comma(text),
    decreases text.len(),
{
    if text.len() > 0 && text.last() != 0x2c {
        lemma_last_comma(text.drop_last(), cut);
        assert forall|j: int| last_comma(text) < j < text.len() implies #[trigger] text[j]
            != 0x2c by {
            if j < text.len() - 1 {
                assert(text.drop_last()[j] == text[j]);
            }
        }
        if -1 <= cut < text.len() && (cut >= 0 ==> text[cut] == 0x2c) && (forall|j: int|
            cut < j < text.len() ==> #[trigger] text[j] != 0x2c) {
            assert(cut < text.len() - 1);
            assert forall|j: int| cut < j < text.drop_last().len() implies #[trigger] text.drop_last()[j]
                != 0x2c by {
                assert(text[j] != 0x2c);
            }
        }
    } else if text.len() > 0 {
        if -1 <= cut < text.len() && (cut >= 0 ==> text[cut] == 0x2c) && (forall|j: int|
            cut < j < text.len() ==> #[trigger] text[j] != 0x2c) {
            if cut < text.len() - 1 {
                assert(text[text.len() - 1] != 0x2c);
            }
        }
    }
}

/// The parameters of the strings that hashing makes record a parallelism of
/// one.
pub proof fn lemma_default_params_in_range()
    ensures
        !parallelism_out_of_range(default_params()),
{
    let params = default_params();
    lemma_last_comma(params, 11);
    assert(params[11] == 0x2c);
    assert(last_comma(params) == 11);
    let pair = params.skip(12);
    assert(pair.len() == 3 && pair[0] == 0x70 && pair[1] == 0x3d);
    let value = pair.skip(2);
    assert(recorded_parallelism(params) == Some(value));
    assert(value.len() == 1 && value[0] == 0x31);
    assert(value.drop_last().len() == 0);
    reveal_with_fuel(digits_value, 3);
    assert(digits_value(value) == 1);
}

/// Whether the text between two positions is made of decimal digits that
/// write `limit` or more.
fn digits_reach(text: &[u8], start: usize, end: usize, limit: u64) -> (reached: bool)
    requires
        start <= end <= text@.len(),
        limit <= 0x1000_0000_0000_0000,
    ensures
        reached == writes_at_least(text@.subrange(start as int, end as int), limit as nat),
{
    let ghost value = text@.subrange(start as int, end as int);
    let mut written: u64 = 0;
    let mut reached = limit == 0;
    let mut i: usize = start;
    while i < end
        invariant
            start <= i <= end <= text@.len(),
            value == text@.subrange(start as int, end as int),
            limit <= 0x1000_0000_0000_0000,
            forall|j: int| 0 <= j < i - start ==> is_digit(#[trigger] value[j]),
            reached <==> digits_value(value.subrange(0, i - start)) >= limit,
            !reached ==> written == digits_value(value.subrange(0, i - start)),
        decreases end - i,
    {
        let byte = text[i];
        if byte < 0x30 || byte > 0x39 {
            assert(!is_digit(value[i - start]));
            return false;
        }
        proof {
            let next = value.subrange(0, i - start + 1);
            assert(next.drop_last() =~= value.subrange(0, i - start));
            assert(next.last() == byte);
        }
        if !reached {
            written = written * 10 + (byte - 0x30) as u64;
            reached = written >= limit;
        }
        i += 1;
    }
    proof {
        assert(value.subrange(0, i - start) =~= value);
    }
    reached
}

/// Whether a parameter field records a parallelism that Argon2 cannot take.
pub fn parallelism_is_out_of_range(params: &[u8]) -> (out: bool)
    ensures
        out == parallelism_out_of_range(params@),
{
    let mut end: usize = params.len();
    proof {
        assert(params@.take(end as int) =~= params@);
    }
    loop
        invariant
            end <= params@.len(),
            parallelism_out_of_range(params@) == parallelism_out_of_range(
                params@.take(end as int),
            ),
        decreases end,
    {
        let ghost field = params@.take(end as int);
        let mut start: usize = end;
        while start > 0 && params[start - 1] != 0x2c
            invariant
                start <= end <= params@.len(),
                forall|j: int| start <= j < end ==> #[trigger] params@[j] != 0x2c,
            decreases start,
        {
            start -= 1;
        }
        proof {
            lemma_last_comma(field, start - 1);
            assert(last_comma(field) == start - 1);
            assert(field.skip(start as int) =~= params@.subrange(start as int, end as int));
        }
        if end - start >= 2 && params[start] == 0x70 && params[start + 1] == 0x3d {
            proof {
                assert(field.skip(start as int).skip(2) =~= params@.subrange(
                    start + 2,
                    end as int,
                ));
            }
            return digits_reach(params, start + 2, end, PARALLELISM_LIMIT);
        }
        if start == 0 {
            return false;
        }
        proof {
            assert(field.take(start - 1) =~= params@.take(start - 1));
        }
        end = start - 1;
    }
}

/// The policy's rejection as `hash_password` reports it.
pub open spec fn hash_rejection(e: PolicyError) -> HashError {
    match e {
        PolicyError::TooShort => HashError::TooShort,
        PolicyError::TooLong => HashError::TooLong,
    }
}

/// The policy's rejection as `compare_password` reports it.
pub open spec fn verify_rejection(e: PolicyError) -> VerifyError {
    match e {
        PolicyError::TooShort => VerifyError::TooShort,
        PolicyError::TooLong => VerifyError::TooLong,
    }
}

/// What `compare_password` returns: the policy is applied first, then the
/// stored hash must parse, and only then does a mismatch yield `Ok(false)`.
pub open spec fn compare_result(password: Seq<char>, hash: Seq<char>) -> Result<bool, VerifyError> {
    match policy_check(password) {
        Err(e) => Err(verify_rejection(e)),
        Ok(_) => match argon2_verdict(password, hash) {
            Some(matched) => Ok(matched),
            None => Err(VerifyError::MalformedHash),
        },
    }
}

/// Turns the primitive's answer on a credential that passed the policy into
/// the result of hashing: a missing hash is a `HashingFailure`.
pub fn hashed_or_failure(hashed: Option<String>) -> (res: Result<String, HashError>)
    ensures
        match hashed {
            Some(h) => res == Ok::<String, HashError>(h),
            None => res == Err::<String, HashError>(HashError::HashingFailure),
        },
{
    match hashed {
        Some(h) => Ok(h),
        None => Err(HashError::HashingFailure),
    }
}

/// Turns the primitive's answer on a credential that passed the policy into
/// the result of verification: an unparsable hash is an error, a mismatch is
/// `Ok(false)`.
pub fn verdict_or_malformed(verdict: Option<bool>) -> (res: Result<bool, VerifyError>)
    ensures
        res == match verdict {
            Some(matched) => Ok::<bool, VerifyError>(matched),
            None => Err::<bool, VerifyError>(VerifyError::MalformedHash),
        },
{
    match verdict {
        Some(matched) => Ok(matched),
        None => Err(VerifyError::MalformedHash),
    }
}

/// A text takes at least as many bytes as it has characters.
pub proof fn lemma_a_byte_or_more_per_char(text: Seq<char>)
    ensures
        credential_len(text) >= text.len(),
    decreases text.len(),
{
    if text.len() > 0 {
        lemma_a_byte_or_more_per_char(text.drop_first());
        assert(vstd::utf8::encode_scalar(text[0] as u32).len() >= 1);
    }
}

/// The text of a hashing result.
pub open spec fn hash_view(res: Result<String, HashError>) -> Result<Seq<char>, HashError> {
    match res {
        Ok(hash) => Ok(hash@),
        Err(e) => Err(e),
    }
}

/// What hashing a credential under a given salt yields: the policy is
/// applied first, and only a credential inside it is hashed.
pub open spec fn hashed_under(password: Seq<char>, salt: Seq<char>) -> Result<
    Seq<char>,
    HashError,
> {
    match policy_check(password) {
        Err(e) => Err(hash_rejection(e)),
        Ok(_) => match argon2_hashed(password, salt) {
            Some(hash) => Ok(hash),
            None => Err(HashError::HashingFailure),
        },
    }
}

/// Hashes a credential under the salt given, as text, into a
/// self-describing PHC string.
///
/// A credential outside the length policy is rejected before any hashing.
/// The hash verifies against the credential it was made from, begins with
/// `$`, is never the credential itself, and holds the salt: no other salt
/// gives the same string.
pub fn hash_password_with(password: &str, salt: &str) -> (res: Result<String, HashError>)
    ensures
        hash_view(res) == hashed_under(password@, salt@),
        res matches Ok(h) ==> compare_result(password@, h@) == Ok::<bool, VerifyError>(true),
        res matches Ok(h) ==> h@.len() > 64 && h@[0] == '$' && h@ != password@,
        forall|other_password: Seq<char>, other_salt: Seq<char>|
            res is Ok && #[trigger] hashed_under(other_password, other_salt) == hash_view(res)
                ==> other_salt == salt@,
{
    match validate_password(password) {
        Err(PolicyError::TooLong) => Err(HashError::TooLong),
        Err(PolicyError::TooShort) => Err(HashError::TooShort),
        Ok(()) => {
            let hashed = argon2_hash(password, salt);
            let res = hashed_or_failure(hashed);
            proof {
                lemma_a_byte_or_more_per_char(password@);
                lemma_default_params_in_range();
                assert forall|other_password: Seq<char>, other_salt: Seq<char>|
                    res is Ok && #[trigger] hashed_under(other_password, other_salt) == hash_view(
                        res,
                    ) implies other_salt == salt@ by {
                    assert(argon2_hashed(other_password, other_salt) == text_of_hash(hashed));
                }
            }
            res
        },
    }
}

/// Hashes a credential under a fresh random salt into a self-describing PHC
/// string.
///
/// A credential outside the length policy is rejected before a salt is
/// drawn or anything hashed. One inside it yields `HashingFailure` where no
/// salt could be drawn, and otherwise what hashing under the drawn salt
/// yields; a hash that is returned verifies against the credential it was
/// made from and is never the credential itself.
pub fn hash_password(password: &str) -> (res: Result<String, HashError>)
    ensures
        policy_check(password@) matches Err(e) ==> res == Err::<String, HashError>(hash_rejection(e)),
        policy_check(password@) is Ok ==> (res is Ok || res == Err::<String, HashError>(
            HashError::HashingFailure,
        )),
        policy_check(password@) is Ok ==> res == Err::<String, HashError>(
            HashError::HashingFailure,
        ) || exists|salt: Seq<char>| hash_view(res) == #[trigger] hashed_under(password@, salt),
        res matches Ok(h) ==> compare_result(password@, h@) == Ok::<bool, VerifyError>(true),
        res matches Ok(h) ==> h@.len() > 64 && h@[0] == '$' && h@ != password@,
{
    match validate_password(password) {
        Err(PolicyError::TooLong) => Err(HashError::TooLong),
        Err(PolicyError::TooShort) => Err(HashError::TooShort),
        Ok(()) => match fresh_salt() {
            None => Err(HashError::HashingFailure),
            Some(salt) => {
                let res = hash_password_with(password, salt.as_str());
                assert(hash_view(res) == hashed_under(password@, salt@));
                res
            },
        },
    }
}

/// What Argon2 makes of a candidate password and a stored string, with the
/// strings left out that it cannot take.
///
/// A string that records a parallelism of `PARALLELISM_LIMIT` or more
/// matches no password, and Argon2 is not run on it.
pub fn verdict(password: &str, hash: &str) -> (res: Option<bool>)
    ensures
        res == argon2_verdict(password@, hash@),
{
    match phc_parameters(hash) {
        None => None,
        Some(params) => if parallelism_is_out_of_range(params.as_slice()) {
            Some(false)
        } else {
            argon2_verify(password, hash)
        },
    }
}

/// Compares a credential with a stored hash.
///
/// A credential outside the length policy is rejected before the hash is
/// looked at; a hash that does not parse is `MalformedHash`; otherwise the
/// call succeeds and says whether the credential matches. A hash that
/// records a parallelism that Argon2 cannot take matches nothing.
pub fn compare_password(password: &str, hash: &str) -> (res: Result<bool, VerifyError>)
    ensures
        res == compare_result(password@, hash@),
{
    match validate_password(password) {
        Err(PolicyError::TooLong) => Err(VerifyError::TooLong),
        Err(PolicyError::TooShort) => Err(VerifyError::TooShort),
        Ok(()) => verdict_or_malformed(verdict(password, hash)),
    }
}

/// Comparing any credential inside the policy with a hash that some
/// credential verifies against is never an error: the hash parses, so the
/// call succeeds and says whether Argon2 finds a match. A credential that
/// does not match gets `Ok(false)`.
pub proof fn lemma_mismatch_is_no_error(password: Seq<char>, hash: Seq<char>, other: Seq<char>)
    requires
        compare_result(password, hash) == Ok::<bool, VerifyError>(true),
        policy_check(other) is Ok,
    ensures
        compare_result(other, hash) == Ok::<bool, VerifyError>(argon2_matches(other, hash)),
        !argon2_matches(other, hash) ==> compare_result(other, hash) == Ok::<bool, VerifyError>(
            false,
        ),
{
}

/// A credential outside the policy is refused by validation, by hashing
/// under whatever salt, and by comparison with whatever hash, with the same
/// verdict.
pub proof fn lemma_policy_rejects_everywhere(password: Seq<char>, salt: Seq<char>, hash: Seq<char>)
    ensures
        policy_check(password) matches Err(e) ==> hashed_under(password, salt) == Err::<
            Seq<char>,
            HashError,
        >(hash_rejection(e)) && compare_result(password, hash) == Err::<bool, VerifyError>(
            verify_rejection(e),
        ),
        policy_check(password) is Err <==> credential_len(password) < MIN_PASSWORD_LENGTH
            || credential_len(password) > MAX_PASSWORD_LENGTH,
{
}

} // verus!
