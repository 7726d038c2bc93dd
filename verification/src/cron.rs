use vstd::prelude::*;
use crate::capabilities::{
    FetchItems, FetchList, FetchUpdates, LoadConfigValue, LoadLatestItemRank, PortError,
    ReplaceList, StoreConfigValue, StoreItemRanks, StoreItems, StoreList,
};
use crate::world::{Request, World};
use crate::use_cases::backfill_items;
use crate::use_cases::backfill_items::{
    backfilled, cursor_key, lemma_backfill_touches_items_and_cursor_only,
};
use crate::use_cases::download_lists;
use crate::use_cases::download_lists::{
    lemma_run_asks_for_every_list, lemma_run_keeps_config_and_history, lists_synced,
};
use crate::use_cases::poll_for_updates;
use crate::use_cases::poll_for_updates::{
    lemma_poll_asks_and_stores_items_only, poll_requests, polled,
};

verus! {

/// How many identifiers above the cursor one cycle backfills.
pub const BACKFILL_BATCH: u32 = 10;

/// How long the scheduler rests between two cycles, in seconds.
pub const CYCLE_PAUSE_SECS: u64 = 20;

/// What became of the three tasks of one cycle.
#[derive(Debug, PartialEq, Eq)]
pub struct CycleReport {
    pub lists: Result<(), PortError>,
    pub backfill: Result<(), PortError>,
    pub updates: Result<(), PortError>,
}

impl CycleReport {
    /// Whether every task of the cycle succeeded.
    pub fn is_ok(&self) -> (r: bool)
        ensures
            r == (self.lists is Ok && self.backfill is Ok && self.updates is Ok),
    {
        self.lists.is_ok() && self.backfill.is_ok() && self.updates.is_ok()
    }
}

/// How one cycle may take the world from `pre` to `post`: the list
/// synchronization, then the backfill of [`BACKFILL_BATCH`] identifiers, then
/// the poll for updates, each starting from the world its predecessor left
/// and each run whatever became of the others.
pub open spec fn cycled(pre: World, post: World, report: CycleReport) -> bool {
    exists|after_lists: World, after_backfill: World|
        {
            &&& #[trigger] lists_synced(pre, after_lists, report.lists)
            &&& #[trigger] backfilled(after_lists, after_backfill, BACKFILL_BATCH, report.backfill)
            &&& polled(after_backfill, post, report.updates)
        }
}

/// Runs one cycle of the scheduler: the list synchronization, the backfill
/// and the poll for updates, in that order. A task that fails is reported
/// and does not keep the tasks after it from running.
pub fn run_once<A>(app: &mut A) -> (report: CycleReport)
    where
        A: StoreList + ReplaceList + StoreItems + StoreItemRanks + LoadLatestItemRank,
        A: LoadConfigValue + StoreConfigValue,
        A: FetchList + FetchItems + FetchUpdates,
    ensures
        cycled(old(app).world(), final(app).world(), report),
{
    let lists = download_lists::run(app);
    let ghost after_lists = app.world();
    let backfill = backfill_items::run(app, BACKFILL_BATCH);
    let ghost after_backfill = app.world();
    let updates = poll_for_updates::run(app);
    let report = CycleReport { lists, backfill, updates };
    assert(lists_synced(old(app).world(), after_lists, report.lists));
    assert(backfilled(after_lists, after_backfill, BACKFILL_BATCH, report.backfill));
    report
}

/// Whatever became of the list synchronization, also where it failed, the
/// backfill and the poll for updates ran in the same cycle: the poll, which
/// always asks the remote source for its report, left the world as the cycle
/// leaves it.
pub proof fn lemma_cycle_runs_every_task(pre: World, post: World, report: CycleReport)
    requires
        cycled(pre, post, report),
    ensures
        exists|before: World, after: World|
            {
                &&& #[trigger] backfilled(before, after, BACKFILL_BATCH, report.backfill)
                &&& polled(after, post, report.updates)
            },
        post.asked.len() > pre.asked.len(),
        post.asked.contains(Request::Updates),
{
    let (after_lists, after_backfill) = choose|after_lists: World, after_backfill: World|
        {
            &&& #[trigger] lists_synced(pre, after_lists, report.lists)
            &&& #[trigger] backfilled(after_lists, after_backfill, BACKFILL_BATCH, report.backfill)
            &&& polled(after_backfill, post, report.updates)
        };
    assert(backfilled(after_lists, after_backfill, BACKFILL_BATCH, report.backfill));
    lemma_run_asks_for_every_list(pre, after_lists, report.lists);
    lemma_backfill_touches_items_and_cursor_only(
        after_lists,
        after_backfill,
        BACKFILL_BATCH,
        report.backfill,
    );
    lemma_poll_asks_and_stores_items_only(after_backfill, post, report.updates);
    let asked = after_backfill.asked.push(Request::Updates);
    assert(asked[asked.len() - 1] == Request::Updates);
    if post.asked != asked {
        let ids = choose|ids: Seq<u32>| post.asked == after_backfill.asked + #[trigger] poll_requests(ids);
        assert(post.asked[after_backfill.asked.len() as int] == Request::Updates);
    }
}

/// A cycle only ever appends to the rank history, and it touches no
/// configuration key but the backfill cursor's.
pub proof fn lemma_cycle_keeps_history_and_config(
    pre: World,
    post: World,
    report: CycleReport,
)
    requires
        cycled(pre, post, report),
    ensures
        pre.ranks.is_prefix_of(post.ranks),
        forall|key: Seq<char>|
            key != cursor_key() ==> #[trigger] post.config_value(key) == pre.config_value(key),
{
    let (after_lists, after_backfill) = choose|after_lists: World, after_backfill: World|
        {
            &&& #[trigger] lists_synced(pre, after_lists, report.lists)
            &&& #[trigger] backfilled(after_lists, after_backfill, BACKFILL_BATCH, report.backfill)
            &&& polled(after_backfill, post, report.updates)
        };
    lemma_run_keeps_config_and_history(pre, after_lists, report.lists);
    lemma_backfill_touches_items_and_cursor_only(
        after_lists,
        after_backfill,
        BACKFILL_BATCH,
        report.backfill,
    );
    lemma_poll_asks_and_stores_items_only(after_backfill, post, report.updates);
}

} // verus!
