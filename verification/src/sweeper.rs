//! The expiry sweep: a recurring task that deletes what has expired, never
//! overlaps itself, and finds nothing left to do when run again.

use crate::clock::unix_now;
use crate::models::{FileView, SharedLinkView};
use crate::registry::{
    file_reclaimed, files_after_sweep, has_expired_link, has_live_link, links_after_sweep,
    redeem_result, release_result, store_consistent, RedeemError, SharedLinkRegistry, SweepReport,
};
use crate::utils::password::VerifyError;
use vstd::prelude::*;

verus! {

/// What the sweeper does with a tick of its schedule.
#[derive(Debug, Clone, Copy, PartialEq, Eq, Structural)]
pub enum TickAction {
    /// No sweep is under way: start one.
    Sweep,
    /// The previous sweep has not finished: let this tick pass.
    Skip,
}

/// The sweeper's own state: whether a sweep is under way.
pub struct ExpirySweeper {
    running: bool,
}

impl ExpirySweeper {
    /// Whether a sweep has been started and not yet finished.
    pub closed spec fn running(&self) -> bool {
        self.running
    }

    /// A sweeper with no sweep under way.
    pub fn new() -> (sweeper: ExpirySweeper)
        ensures
            !sweeper.running(),
    {
        ExpirySweeper { running: false }
    }

    /// Whether a sweep is under way.
    pub fn is_running(&self) -> (running: bool)
        ensures
            running == self.running(),
    {
        self.running
    }

    /// A tick of the schedule: a sweep starts unless one is under way, in
    /// which case the tick is skipped. Either way a sweep is under way
    /// afterwards.
    pub fn on_tick(&mut self) -> (action: TickAction)
        ensures
            final(self).running(),
            action == if old(self).running() {
                TickAction::Skip
            } else {
                TickAction::Sweep
            },
    {
        if self.running {
            TickAction::Skip
        } else {
            self.running = true;
            TickAction::Sweep
        }
    }

    /// The sweep under way has ended, well or badly: the next tick starts a
    /// new one.
    pub fn on_finished(&mut self)
        ensures
            !final(self).running(),
    {
        self.running = false;
    }

    /// One sweep of the registry at the instant given, unless a sweep is
    /// under way, in which case nothing is touched and `None` returned.
    pub fn run_once_at(&mut self, registry: &mut SharedLinkRegistry, now: i64) -> (res: Option<
        SweepReport,
    >)
        requires
            old(registry).wf(),
        ensures
            final(registry).wf(),
            final(self).running() == old(self).running(),
            res is None <==> old(self).running(),
            old(self).running() ==> final(registry).links() == old(registry).links() && final(registry).files() == old(registry).files(),
            res matches Some(report) ==> {
                &&& final(registry).links() == links_after_sweep(old(registry).links(), now)
                &&& final(registry).files() == files_after_sweep(
                    old(registry).files(),
                    old(registry).links(),
                    now,
                )
                &&& report.removed_links == old(registry).links().dom().len() - final(registry).links().dom().len()
                &&& report.removed_files == old(registry).files().dom().len() - final(registry).files().dom().len()
            },
    {
        match self.on_tick() {
            TickAction::Skip => None,
            TickAction::Sweep => {
                let report = registry.delete_expired_files(now);
                self.on_finished();
                Some(report)
            },
        }
    }

    /// One sweep of the registry now, unless a sweep is under way.
    ///
    /// Whatever instant the clock gives, the registry stays well-formed and
    /// what is left is what a sweep at that instant leaves.
    pub fn run_once(&mut self, registry: &mut SharedLinkRegistry) -> (res: Option<SweepReport>)
        requires
            old(registry).wf(),
        ensures
            final(registry).wf(),
            final(self).running() == old(self).running(),
            res is None <==> old(self).running(),
            old(self).running() ==> final(registry).links() == old(registry).links() && final(registry).files() == old(registry).files(),
            res matches Some(report) ==> exists|now: i64|
                {
                    &&& final(registry).links() == #[trigger] links_after_sweep(
                        old(registry).links(),
                        now,
                    )
                    &&& final(registry).files() == files_after_sweep(
                        old(registry).files(),
                        old(registry).links(),
                        now,
                    )
                    &&& report.removed_links == old(registry).links().dom().len() - final(registry).links().dom().len()
                    &&& report.removed_files == old(registry).files().dom().len() - final(registry).files().dom().len()
                },
    {
        let now = unix_now();
        let res = self.run_once_at(registry, now);
        proof {
            if res is Some {
                assert(final(registry).links() == links_after_sweep(old(registry).links(), now));
            }
        }
        res
    }
}

/// A sweep leaves every link live.
pub proof fn lemma_sweep_leaves_live_links(links: Map<u128, SharedLinkView>, now: i64)
    ensures
        forall|l: u128| #[trigger]
            links_after_sweep(links, now).dom().contains(l) ==> links_after_sweep(
                links,
                now,
            )[l].is_live(now),
{
}

/// Where no link that a sweep left has expired by a later instant, a second
/// sweep at that instant deletes nothing: links and envelopes stay as the
/// first sweep left them.
pub proof fn lemma_sweep_idempotent(
    files: Map<u128, FileView>,
    links: Map<u128, SharedLinkView>,
    now: i64,
    later: i64,
)
    requires
        forall|l: u128| #[trigger]
            links_after_sweep(links, now).dom().contains(l) ==> links_after_sweep(
                links,
                now,
            )[l].is_live(later),
    ensures
        links_after_sweep(links_after_sweep(links, now), later) == links_after_sweep(links, now),
        files_after_sweep(
            files_after_sweep(files, links, now),
            links_after_sweep(links, now),
            later,
        ) == files_after_sweep(files, links, now),
{
    let swept_links = links_after_sweep(links, now);
    let swept_files = files_after_sweep(files, links, now);
    assert(links_after_sweep(swept_links, later) =~= swept_links);
    assert forall|f: u128| !has_expired_link(swept_links, f, later) by {
        if has_expired_link(swept_links, f, later) {
            let l = choose|l: u128| #[trigger]
                swept_links.dom().contains(l) && swept_links[l].references(f)
                    && !swept_links[l].is_live(later);
            assert(swept_links[l].is_live(later));
        }
    }
    assert forall|f: u128| !file_reclaimed(swept_links, f, later) by {
        assert(!has_expired_link(swept_links, f, later));
    }
    assert(files_after_sweep(swept_files, swept_links, later) =~= swept_files);
}

/// Two sweeps at the same instant leave what one leaves.
pub proof fn lemma_sweep_twice_at_once(
    files: Map<u128, FileView>,
    links: Map<u128, SharedLinkView>,
    now: i64,
)
    ensures
        links_after_sweep(links_after_sweep(links, now), now) == links_after_sweep(links, now),
        files_after_sweep(files_after_sweep(files, links, now), links_after_sweep(links, now), now)
            == files_after_sweep(files, links, now),
{
    lemma_sweep_idempotent(files, links, now, now);
}

/// A sweep keeps the records consistent.
pub proof fn lemma_sweep_keeps_consistency(
    files: Map<u128, FileView>,
    links: Map<u128, SharedLinkView>,
    now: i64,
)
    requires
        store_consistent(files, links),
    ensures
        store_consistent(files_after_sweep(files, links, now), links_after_sweep(links, now)),
{
    let swept_links = links_after_sweep(links, now);
    let swept_files = files_after_sweep(files, links, now);
    assert(swept_links.dom().subset_of(links.dom()));
    assert(swept_files.dom().subset_of(files.dom()));
    vstd::set_lib::lemma_len_subset(swept_links.dom(), links.dom());
    vstd::set_lib::lemma_len_subset(swept_files.dom(), files.dom());
    assert forall|l: u128| #[trigger] swept_links.dom().contains(l) implies ({
        &&& swept_links[l].file_id matches Some(file_id) && swept_files.dom().contains(file_id)
    }) by {
        let file_id = links[l].file_id.unwrap();
        assert(links.dom().contains(l) && links[l].references(file_id) && links[l].is_live(now));
        assert(has_live_link(links, file_id, now));
    }
}

/// A sweep touches neither a live link nor the envelope it points at: the
/// link is redeemed after the sweep exactly as before it.
pub proof fn lemma_sweep_spares_live_link(
    files: Map<u128, FileView>,
    links: Map<u128, SharedLinkView>,
    link_id: u128,
    supplied_password: Seq<char>,
    now: i64,
    at: i64,
)
    requires
        store_consistent(files, links),
        links.dom().contains(link_id),
        links[link_id].is_live(now),
    ensures
        links_after_sweep(links, now).dom().contains(link_id),
        links_after_sweep(links, now)[link_id] == links[link_id],
        files_after_sweep(files, links, now).dom().contains(links[link_id].file_id.unwrap()),
        redeem_result(
            files_after_sweep(files, links, now),
            links_after_sweep(links, now),
            link_id,
            supplied_password,
            at,
        ) == redeem_result(files, links, link_id, supplied_password, at),
{
    let file_id = links[link_id].file_id.unwrap();
    assert(links.dom().contains(link_id) && links[link_id].references(file_id)
        && links[link_id].is_live(now));
    assert(has_live_link(links, file_id, now));
}

/// A sweep deletes every expired link: redeeming one afterwards finds
/// nothing, at whatever instant and with whatever password.
pub proof fn lemma_sweep_deletes_expired_link(
    files: Map<u128, FileView>,
    links: Map<u128, SharedLinkView>,
    link_id: u128,
    supplied_password: Seq<char>,
    now: i64,
    at: i64,
)
    requires
        links.dom().contains(link_id),
        !links[link_id].is_live(now),
    ensures
        !links_after_sweep(links, now).dom().contains(link_id),
        redeem_result(
            files_after_sweep(files, links, now),
            links_after_sweep(links, now),
            link_id,
            supplied_password,
            at,
        ) == Err::<FileView, RedeemError>(RedeemError::NotFound),
{
}

/// A sweep reclaims an envelope exactly when one of its links has expired
/// and none is live; an envelope that was never shared stays.
pub proof fn lemma_sweep_reclaims(
    files: Map<u128, FileView>,
    links: Map<u128, SharedLinkView>,
    file_id: u128,
    now: i64,
)
    requires
        files.dom().contains(file_id),
    ensures
        files_after_sweep(files, links, now).dom().contains(file_id) <==> !(has_expired_link(
            links,
            file_id,
            now,
        ) && !has_live_link(links, file_id, now)),
        (forall|l: u128| #[trigger] links.dom().contains(l) ==> !links[l].references(file_id))
            ==> files_after_sweep(files, links, now).dom().contains(file_id),
{
    if forall|l: u128| #[trigger] links.dom().contains(l) ==> !links[l].references(file_id) {
        assert(!has_expired_link(links, file_id, now));
    }
}

/// What a sweep deletes is what the registry lists beforehand: the links
/// that have expired, and the envelopes that are reclaimed.
pub proof fn lemma_sweep_deletes_what_is_listed(
    files: Map<u128, FileView>,
    links: Map<u128, SharedLinkView>,
    now: i64,
)
    ensures
        forall|l: u128| #[trigger]
            links.dom().contains(l) ==> (!links_after_sweep(links, now).dom().contains(l)
                <==> !links[l].is_live(now)),
        forall|f: u128| #[trigger]
            files.dom().contains(f) ==> (!files_after_sweep(files, links, now).dom().contains(f)
                <==> file_reclaimed(links, f, now)),
{
}

/// Whatever the password comparison gives, redeeming a link at its
/// expiration instant or later fails as expired, and before that instant it
/// does not.
pub proof fn lemma_expired_at_expiration(
    files: Map<u128, FileView>,
    links: Map<u128, SharedLinkView>,
    link_id: u128,
    verdict: Result<bool, VerifyError>,
    at: i64,
)
    requires
        links.dom().contains(link_id),
    ensures
        at >= links[link_id].expiration_date ==> release_result(files, links, link_id, at, verdict)
            == Err::<FileView, RedeemError>(RedeemError::Expired),
        at < links[link_id].expiration_date ==> release_result(files, links, link_id, at, verdict)
            != Err::<FileView, RedeemError>(RedeemError::Expired),
{
}

} // verus!
