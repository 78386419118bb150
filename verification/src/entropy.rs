//! Fresh random material: byte strings and record identifiers.

use rand::rngs::OsRng;
use rand::RngCore;
use uuid::Builder;
use vstd::prelude::*;

verus! {

/// Fills a buffer of `count` bytes with `OsRng::try_fill_bytes`; `None` where
/// the operating system's random source reports an error. Trusted: a buffer
/// that comes back has the length asked for. Nothing is claimed of its
/// contents.
#[verifier::external_body]
pub(crate) fn random_bytes(count: usize) -> (res: Option<Vec<u8>>)
    ensures
        res matches Some(bytes) ==> bytes@.len() == count,
{
    let mut bytes = vec![0u8; count];
    match OsRng.try_fill_bytes(&mut bytes) {
        Ok(()) => Some(bytes),
        Err(_) => None,
    }
}

/// Draws sixteen bytes with `OsRng::try_fill_bytes` and builds a random
/// identifier from them with `Builder::from_random_bytes`, taken as its
/// 128-bit number; `None` where the operating system's random source reports
/// an error. Nothing is claimed of the value drawn.
#[verifier::external_body]
pub(crate) fn fresh_id() -> Option<u128> {
    let mut bytes = [0u8; 16];
    match OsRng.try_fill_bytes(&mut bytes) {
        Ok(()) => Some(Builder::from_random_bytes(bytes).into_uuid().as_u128()),
        Err(_) => None,
    }
}

} // verus!
