//! The life of a shared link: active until its expiration instant, expired
//! from then until it is swept, deleted for good after a sweep or a
//! revocation.

use crate::models::{FileView, SharedLinkView};
use crate::registry::{
    links_after_sweep, live_link_result, redeem_result, registration, store_consistent,
    RedeemError, SharedLinkRegistry,
};
use crate::utils::password::{compare_result, VerifyError};
use vstd::prelude::*;

verus! {

/// Where a link stands in its life.
#[derive(Debug, Clone, Copy, PartialEq, Eq, Structural)]
pub enum LinkState {
    /// Created, and the expiration instant not yet reached.
    Active,
    /// The expiration instant reached, the link not yet swept.
    Expired,
    /// Swept, revoked, or never created.
    Deleted,
}

/// The state of the link under an identifier at an instant.
pub open spec fn link_state(links: Map<u128, SharedLinkView>, link_id: u128, now: i64) -> LinkState {
    if !links.dom().contains(link_id) {
        LinkState::Deleted
    } else if links[link_id].is_live(now) {
        LinkState::Active
    } else {
        LinkState::Expired
    }
}

impl SharedLinkRegistry {
    /// The state of the link under an identifier at an instant.
    pub fn link_state(&self, link_id: u128, now: i64) -> (state: LinkState)
        requires
            self.wf(),
        ensures
            state == link_state(self.links(), link_id, now),
    {
        match self.live_link(link_id, now) {
            Ok(_) => LinkState::Active,
            Err(RedeemError::Expired) => LinkState::Expired,
            Err(_) => LinkState::Deleted,
        }
    }
}

/// Time alone never revives a link: an expired link stays expired, a
/// deleted one deleted, and an active one is active or expired later on.
pub proof fn lemma_time_only_expires(
    links: Map<u128, SharedLinkView>,
    link_id: u128,
    now: i64,
    later: i64,
)
    requires
        now <= later,
    ensures
        link_state(links, link_id, now) == LinkState::Deleted ==> link_state(links, link_id, later)
            == LinkState::Deleted,
        link_state(links, link_id, now) == LinkState::Expired ==> link_state(links, link_id, later)
            == LinkState::Expired,
        link_state(links, link_id, now) == LinkState::Active ==> link_state(links, link_id, later)
            != LinkState::Deleted,
{
}

/// A sweep deletes the expired links and leaves every other link in the
/// state it was in.
pub proof fn lemma_sweep_moves_expired_to_deleted(
    links: Map<u128, SharedLinkView>,
    link_id: u128,
    now: i64,
)
    ensures
        link_state(links_after_sweep(links, now), link_id, now) == match link_state(
            links,
            link_id,
            now,
        ) {
            LinkState::Active => LinkState::Active,
            LinkState::Expired => LinkState::Deleted,
            LinkState::Deleted => LinkState::Deleted,
        },
{
}

/// A revocation deletes the link, active or expired, and leaves every other
/// link in the state it was in.
pub proof fn lemma_revoke_moves_to_deleted(
    links: Map<u128, SharedLinkView>,
    revoked: u128,
    link_id: u128,
    now: i64,
)
    ensures
        link_state(links.remove(revoked), revoked, now) == LinkState::Deleted,
        link_id != revoked ==> link_state(links.remove(revoked), link_id, now) == link_state(
            links,
            link_id,
            now,
        ),
{
}

/// What a redeemer sees follows the state: a deleted link is not found, an
/// expired one is refused as expired whether swept or not, and only an
/// active one has its password looked at.
pub proof fn lemma_redeem_follows_state(
    files: Map<u128, FileView>,
    links: Map<u128, SharedLinkView>,
    link_id: u128,
    supplied_password: Seq<char>,
    now: i64,
)
    ensures
        link_state(links, link_id, now) == LinkState::Deleted <==> redeem_result(
            files,
            links,
            link_id,
            supplied_password,
            now,
        ) == Err::<FileView, RedeemError>(RedeemError::NotFound),
        link_state(links, link_id, now) == LinkState::Expired <==> redeem_result(
            files,
            links,
            link_id,
            supplied_password,
            now,
        ) == Err::<FileView, RedeemError>(RedeemError::Expired),
        link_state(links, link_id, now) == LinkState::Active <==> live_link_result(
            links,
            link_id,
            now,
        ) is Ok,
{
}

/// Redeeming a link that was revoked finds nothing, whatever the password
/// and the instant.
pub proof fn lemma_revoked_link_not_found(
    files: Map<u128, FileView>,
    links: Map<u128, SharedLinkView>,
    link_id: u128,
    supplied_password: Seq<char>,
    now: i64,
)
    ensures
        redeem_result(files, links.remove(link_id), link_id, supplied_password, now) == Err::<
            FileView,
            RedeemError,
        >(RedeemError::NotFound),
{
}

/// A link that was created with a password releases its file to that
/// password from the instant of its creation until just before `ttl` seconds
/// have passed, is refused as expired from that instant on, and refuses a
/// password that does not match.
pub proof fn lemma_created_link_redeems(
    files: Map<u128, FileView>,
    links: Map<u128, SharedLinkView>,
    link: SharedLinkView,
    file_id: u128,
    recipient_id: u128,
    password: Seq<char>,
    hash: Seq<char>,
    other_password: Seq<char>,
    ttl: i64,
    now: i64,
    at: i64,
)
    requires
        store_consistent(files, links),
        compare_result(password, hash) == Ok::<bool, VerifyError>(true),
        registration(files, links, link.id, file_id, recipient_id, hash, ttl, now) == Ok::<
            SharedLinkView,
            crate::registry::CreateLinkError,
        >(link),
    ensures
        link.expiration_date == now + ttl,
        store_consistent(files, links.insert(link.id, link)),
        now <= at < now + ttl ==> redeem_result(
            files,
            links.insert(link.id, link),
            link.id,
            password,
            at,
        ) == Ok::<FileView, RedeemError>(files[file_id]),
        now <= at < now + ttl && compare_result(other_password, hash) == Ok::<bool, VerifyError>(
            false,
        ) ==> redeem_result(files, links.insert(link.id, link), link.id, other_password, at)
            == Err::<FileView, RedeemError>(RedeemError::WrongPassword),
        at >= now + ttl ==> redeem_result(files, links.insert(link.id, link), link.id, password, at)
            == Err::<FileView, RedeemError>(RedeemError::Expired),
{
}

} // verus!
