use vstd::prelude::*;
use crate::capabilities::{
    fetched_for, FetchItems, FetchList, LoadLatestItemRank, PortError, ReplaceList, StoreItemRanks,
    StoreItems, StoreList,
};
use crate::clock::now;
use crate::domain::{
    all_categories, lemma_all_categories_exhaustive, ItemRank, ListCategory, Timestamp,
};
use crate::item::{item_views, ItemView};
use crate::rank_delta::{
    lemma_rank_deltas_record_the_changes, rank_delta, rank_deltas, rank_deltas_upto,
    records_the_changes,
};
use crate::world::{store_all, Answer, Request, World};

verus! {

/// How many positions of a ranked list are followed, counted from the top.
pub const WINDOW: usize = 30;

/// The followed part of a ranked list: its first [`WINDOW`] identifiers.
pub open spec fn window(ids: Seq<u32>) -> Seq<u32> {
    if ids.len() <= WINDOW {
        ids
    } else {
        ids.take(WINDOW as int)
    }
}

/// Cuts a ranked list down to its window.
pub fn top_window(ids: Vec<u32>) -> (r: Vec<u32>)
    ensures
        r@ == window(ids@),
{
    let mut ids = ids;
    if ids.len() > WINDOW {
        ids.truncate(WINDOW);
    }
    ids
}

/// The records to append for the snapshot `input` of `category` observed at
/// `ts`: the rank of position `p` is `p + 1`, and an item is recorded where
/// the store has no record of it in the category or its most recent record
/// has another rank. Fails where a lookup of a most recent record fails.
pub fn item_ranks_from_vec<A: LoadLatestItemRank>(
    app: &A,
    category: &ListCategory,
    input: &[u32],
    ts: &Timestamp,
) -> (r: Result<Vec<ItemRank>, PortError>)
    requires
        input@.len() <= u32::MAX,
    ensures
        r matches Ok(records) ==> records@ == rank_deltas(
            app.world().ranks,
            *category,
            input@,
            *ts,
        ),
        r matches Ok(records) ==> records_the_changes(
            records@,
            app.world().ranks,
            *category,
            input@,
            *ts,
        ),
        input@.len() == 0 ==> r is Ok,
{
    proof {
        lemma_rank_deltas_record_the_changes(app.world().ranks, *category, input@, *ts);
    }
    let mut results: Vec<ItemRank> = Vec::new();
    let mut position: usize = 0;
    while position < input.len()
        invariant
            position <= input@.len() <= u32::MAX,
            results@ == rank_deltas_upto(
                app.world().ranks,
                *category,
                input@,
                *ts,
                position as nat,
            ),
        decreases input@.len() - position,
    {
        let id = input[position];
        let previous = match app.load_latest_item_rank(id, *category) {
            Ok(previous) => previous,
            Err(fault) => {
                return Err(fault);
            },
        };
        let rank = position as u32 + 1;
        match rank_delta(previous, id, rank, *category, *ts) {
            Some(record) => {
                results.push(record);
            },
            None => {},
        }
        position += 1;
    }
    Ok(results)
}

/// How the storing of the window `top` of `category`, with the rank records
/// `deltas` to append, may take the world from `pre` to `post`.
///
/// The remote source is asked for exactly the window, also where the window
/// is empty. On success the snapshot of the category is the window, the
/// bodies the remote source gave, and no others, are stored and `deltas`
/// appended; nothing else has changed. On a fault the history is as before,
/// and the store is at one of the steps on the way: untouched, the snapshot
/// replaced, or the snapshot replaced and the bodies stored.
pub open spec fn window_stored(
    pre: World,
    post: World,
    category: ListCategory,
    top: Seq<u32>,
    deltas: Seq<ItemRank>,
    r: Result<(), PortError>,
) -> bool {
    let asked = pre.asking(Request::Items(top));
    ||| r is Err && post == asked
    ||| exists|items: Seq<ItemView>| #[trigger]
        fetched_for(items, top) && {
            let got = asked.answered(Answer::Items(items));
            let replaced = got.with_list(category, top);
            match r {
                Ok(_) => post == replaced.with_items(items).with_ranks(deltas),
                Err(_) => post == got || post == replaced || post == replaced.with_items(items),
            }
        }
}

/// How one synchronization of `category` with the fetched list `ids`,
/// observed at `ts`, may take the world from `pre` to `post`.
///
/// Where a lookup of a latest rank fails, nothing is asked or stored; that
/// can only be where the window of `ids` holds an item to look up. Else the
/// window is stored, with its rank deltas against the history as it was.
pub open spec fn list_synced(
    pre: World,
    post: World,
    category: ListCategory,
    ids: Seq<u32>,
    ts: Timestamp,
    r: Result<(), PortError>,
) -> bool {
    let top = window(ids);
    ||| r is Err && top.len() > 0 && post == pre
    ||| window_stored(pre, post, category, top, rank_deltas(pre.ranks, category, top, ts), r)
}

/// Synchronizes one category with the list `ids` fetched for it, taking `ts`
/// as the moment of the observation: computes the rank deltas of the window,
/// fetches the bodies, replaces the snapshot, stores the bodies and appends
/// the deltas. The first fault ends it.
pub fn fetch_and_store_at<
    A: StoreList + ReplaceList + StoreItems + FetchItems + StoreItemRanks + LoadLatestItemRank,
>(app: &mut A, ids: Vec<u32>, category: ListCategory, ts: Timestamp) -> (r: Result<(), PortError>)
    ensures
        list_synced(old(app).world(), final(app).world(), category, ids@, ts, r),
{
    let top = top_window(ids);
    let item_ranks = match item_ranks_from_vec(&*app, &category, top.as_slice(), &ts) {
        Ok(item_ranks) => item_ranks,
        Err(fault) => {
            return Err(fault);
        },
    };
    store_window(app, top, category, item_ranks)
}

/// Stores the window `top` of `category`: fetches the bodies of its items,
/// replaces the snapshot of the category by the window, stores the bodies
/// and appends the rank records `item_ranks` to the history. The first fault
/// ends it.
pub fn store_window<A: ReplaceList + StoreItems + FetchItems + StoreItemRanks>(
    app: &mut A,
    top: Vec<u32>,
    category: ListCategory,
    item_ranks: Vec<ItemRank>,
) -> (r: Result<(), PortError>)
    ensures
        window_stored(old(app).world(), final(app).world(), category, top@, item_ranks@, r),
{
    let items = match app.fetch_items(top.clone()) {
        Ok(items) => items,
        Err(fault) => {
            return Err(fault);
        },
    };
    let ghost fetched = item_views(items@);
    assert(fetched_for(fetched, top@));
    match app.replace_list(category, top.as_slice()) {
        Ok(_) => {},
        Err(fault) => {
            return Err(fault);
        },
    }
    match app.store_items(items) {
        Ok(_) => {},
        Err(fault) => {
            return Err(fault);
        },
    }
    app.store_item_ranks(item_ranks)
}

/// Synchronizes one category with the list `ids` fetched for it, observed
/// now.
pub fn fetch_and_store<
    A: StoreList + ReplaceList + StoreItems + FetchItems + StoreItemRanks + LoadLatestItemRank,
>(app: &mut A, ids: Vec<u32>, category: ListCategory) -> (r: Result<(), PortError>)
    ensures
        exists|ts: Timestamp| #[trigger]
            list_synced(old(app).world(), final(app).world(), category, ids@, ts, r),
{
    let ts = now();
    fetch_and_store_at(app, ids, category, ts)
}

/// How the synchronization of one category may take the world from `pre` to
/// `post`: the remote source is asked for the list of the category, and the
/// category is synchronized with exactly the list it gave, whenever that is
/// observed. Where the list cannot be had, nothing more happens.
pub open spec fn category_synced(
    pre: World,
    post: World,
    category: ListCategory,
    r: Result<(), PortError>,
) -> bool {
    let asked = pre.asking(Request::List(category));
    ||| r is Err && post == asked
    ||| exists|ids: Seq<u32>, ts: Timestamp| #[trigger]
        list_synced(asked.answered(Answer::List(ids)), post, category, ids, ts, r)
}

/// The first fault among `outcomes`, or success where there is none.
pub open spec fn first_failure(outcomes: Seq<Result<(), PortError>>) -> Result<(), PortError>
    decreases outcomes.len(),
{
    if outcomes.len() == 0 {
        Ok(())
    } else if first_failure(outcomes.drop_last()) is Err {
        first_failure(outcomes.drop_last())
    } else {
        outcomes.last()
    }
}

/// Whether the world went along `trail` by `steps` category
/// synchronizations, one for each of the first `steps` categories in
/// declaration order, with the given outcomes: `trail[i]` is the world before
/// the synchronization of category `i`.
pub open spec fn synced_along(
    trail: Seq<World>,
    outcomes: Seq<Result<(), PortError>>,
    steps: int,
) -> bool {
    &&& 0 <= steps <= all_categories().len()
    &&& trail.len() == steps + 1
    &&& outcomes.len() == steps
    &&& forall|i: int|
        0 <= i < steps ==> category_synced(
            trail[i],
            trail[i + 1],
            all_categories()[i],
            #[trigger] outcomes[i],
        )
}

/// How one run over all categories may take the world from `pre` to `post`:
/// every category is synchronized in declaration order, each starting from
/// the world its predecessor left, whether or not that one failed. The run
/// reports the first fault, or success where every category succeeded.
pub open spec fn lists_synced(pre: World, post: World, r: Result<(), PortError>) -> bool {
    exists|trail: Seq<World>, outcomes: Seq<Result<(), PortError>>|
        {
            &&& #[trigger] synced_along(trail, outcomes, all_categories().len() as int)
            &&& trail.first() == pre
            &&& trail.last() == post
            &&& r == first_failure(outcomes)
        }
}

/// Synchronizes every category: fetches its ranked list and hands it to
/// [`fetch_and_store`]. A fault ends the work on that category only; the
/// others are still synchronized. Reports the first fault met.
pub fn run<
    A: StoreList + StoreItems + FetchItems + FetchList + StoreItemRanks + LoadLatestItemRank + ReplaceList,
>(app: &mut A) -> (r: Result<(), PortError>)
    ensures
        lists_synced(old(app).world(), final(app).world(), r),
{
    let categories = ListCategory::all();
    let ghost mut trail: Seq<World> = seq![app.world()];
    let ghost mut outcomes: Seq<Result<(), PortError>> = Seq::empty();
    let mut result: Result<(), PortError> = Ok(());
    let mut i: usize = 0;
    while i < categories.len()
        invariant
            categories@ == all_categories(),
            i <= categories@.len(),
            synced_along(trail, outcomes, i as int),
            trail.first() == old(app).world(),
            trail.last() == app.world(),
            result == first_failure(outcomes),
        decreases categories@.len() - i,
    {
        let category = categories[i];
        let ghost before = app.world();
        let outcome = match app.fetch_list(category) {
            Ok(ids) => {
                let ghost listed = ids@;
                let ghost got = app.world();
                let outcome = fetch_and_store(app, ids, category);
                proof {
                    let ts = choose|ts: Timestamp| #[trigger]
                        list_synced(got, app.world(), category, listed, ts, outcome);
                    assert(list_synced(
                        before.asking(Request::List(category)).answered(Answer::List(listed)),
                        app.world(),
                        category,
                        listed,
                        ts,
                        outcome,
                    ));
                }
                outcome
            },
            Err(fault) => Err(fault),
        };
        proof {
            assert(category_synced(before, app.world(), category, outcome));
            assert(outcomes.push(outcome).drop_last() =~= outcomes);
            let longer_trail = trail.push(app.world());
            let longer_outcomes = outcomes.push(outcome);
            assert forall|k: int| 0 <= k < i + 1 implies category_synced(
                longer_trail[k],
                longer_trail[k + 1],
                all_categories()[k],
                #[trigger] longer_outcomes[k],
            ) by {
                if k < i {
                    assert(longer_outcomes[k] == outcomes[k]);
                    assert(longer_trail[k] == trail[k]);
                    assert(longer_trail[k + 1] == trail[k + 1]);
                }
            }
            trail = longer_trail;
            outcomes = longer_outcomes;
        }
        if result.is_ok() {
            result = outcome;
        }
        i += 1;
    }
    result
}

/// A successful synchronization has asked the remote source for exactly the
/// window of the fetched list and stored exactly the bodies it gave; the
/// snapshot of the category is exactly that window (the whole list where it
/// has at most [`WINDOW`] identifiers), the snapshot of every other category
/// is as it was, the rank deltas of the window, all with the timestamp of
/// the observation, are appended to the history, and the configuration is
/// untouched.
pub proof fn lemma_sync_replaces_only_its_list(
    pre: World,
    post: World,
    category: ListCategory,
    ids: Seq<u32>,
    ts: Timestamp,
)
    requires
        list_synced(pre, post, category, ids, ts, Ok(())),
    ensures
        post.asked == pre.asked.push(Request::Items(window(ids))),
        post.answers == pre.answers.push(Answer::Items(post.last_bodies())),
        fetched_for(post.last_bodies(), window(ids)),
        post.items == store_all(pre.items, post.last_bodies()),
        post.lists.contains_key(category),
        post.list(category) == window(ids),
        ids.len() <= WINDOW ==> post.list(category) == ids,
        forall|other: ListCategory|
            other != category ==> post.lists.contains_key(other) == pre.lists.contains_key(other)
                && #[trigger] post.list(other) == pre.list(other),
        post.ranks == pre.ranks + rank_deltas(pre.ranks, category, window(ids), ts),
        post.config == pre.config,
{
    let top = window(ids);
    let deltas = rank_deltas(pre.ranks, category, top, ts);
    let asked = pre.asking(Request::Items(top));
    let items = choose|items: Seq<ItemView>| #[trigger]
        fetched_for(items, top) && post == asked.answered(Answer::Items(items)).with_list(
            category,
            top,
        ).with_items(items).with_ranks(deltas);
    assert(post.answers.last() == Answer::Items(items));
}

/// Whatever becomes of a synchronization, the snapshots are either all as
/// before or as before with the category's snapshot replaced by the whole
/// window: no mixture of old and new membership is ever stored. The
/// configuration is untouched, and where the synchronization fails the rank
/// history is as before. The remote source is asked for nothing or for the
/// window.
pub proof fn lemma_sync_swaps_snapshot_whole(
    pre: World,
    post: World,
    category: ListCategory,
    ids: Seq<u32>,
    ts: Timestamp,
    r: Result<(), PortError>,
)
    requires
        list_synced(pre, post, category, ids, ts, r),
    ensures
        post.lists == pre.lists || post.lists == pre.lists.insert(category, window(ids)),
        post.config == pre.config,
        pre.ranks.is_prefix_of(post.ranks),
        r is Err ==> post.ranks == pre.ranks,
        post.asked == pre.asked || post.asked == pre.asked.push(Request::Items(window(ids))),
{
    let deltas = rank_deltas(pre.ranks, category, window(ids), ts);
    assert(pre.ranks.is_prefix_of(pre.ranks));
    assert(pre.ranks.is_prefix_of(pre.ranks + deltas));
}

/// The list that the remote source gave: it is the answer before the last
/// one.
pub open spec fn listed(world: World) -> Seq<u32> {
    if world.answers.len() > 1 {
        match world.answers[world.answers.len() - 2] {
            Answer::List(ids) => ids,
            _ => Seq::empty(),
        }
    } else {
        Seq::empty()
    }
}

/// A successful synchronization of a category asked the remote source for
/// the list of the category and then for exactly the window of the list it
/// gave. The snapshot of the category is that window, and the bodies stored
/// are exactly those that the remote source gave for it.
pub proof fn lemma_category_syncs_the_list_it_got(pre: World, post: World, category: ListCategory)
    requires
        category_synced(pre, post, category, Ok(())),
    ensures
        post.asked == pre.asked + seq![
            Request::List(category),
            Request::Items(window(listed(post))),
        ],
        post.answers == pre.answers + seq![
            Answer::List(listed(post)),
            Answer::Items(post.last_bodies()),
        ],
        post.list(category) == window(listed(post)),
        fetched_for(post.last_bodies(), window(listed(post))),
        post.items == store_all(pre.items, post.last_bodies()),
{
    let asked = pre.asking(Request::List(category));
    let (ids, ts) = choose|ids: Seq<u32>, ts: Timestamp| #[trigger]
        list_synced(asked.answered(Answer::List(ids)), post, category, ids, ts, Ok(()));
    let got = asked.answered(Answer::List(ids));
    lemma_sync_replaces_only_its_list(got, post, category, ids, ts);
    assert(post.answers[post.answers.len() - 2] == Answer::List(ids));
    assert(post.asked =~= pre.asked + seq![Request::List(category), Request::Items(window(ids))]);
    assert(post.answers =~= pre.answers + seq![
        Answer::List(ids),
        Answer::Items(post.last_bodies()),
    ]);
}

/// Where no outcome is a fault, every outcome is a success.
pub proof fn lemma_first_failure_ok(outcomes: Seq<Result<(), PortError>>)
    requires
        first_failure(outcomes) is Ok,
    ensures
        forall|i: int| 0 <= i < outcomes.len() ==> #[trigger] outcomes[i] is Ok,
    decreases outcomes.len(),
{
    if outcomes.len() > 0 {
        lemma_first_failure_ok(outcomes.drop_last());
        assert forall|i: int| 0 <= i < outcomes.len() implies #[trigger] outcomes[i] is Ok by {
            if i < outcomes.len() - 1 {
                assert(outcomes.drop_last()[i] == outcomes[i]);
            }
        }
    }
}

proof fn lemma_synced_along(
    trail: Seq<World>,
    outcomes: Seq<Result<(), PortError>>,
    steps: int,
    upto: int,
)
    requires
        synced_along(trail, outcomes, steps),
        0 <= upto <= steps,
    ensures
        trail[upto].config == trail[0].config,
        trail[0].ranks.is_prefix_of(trail[upto].ranks),
        (forall|i: int| 0 <= i < upto ==> #[trigger] outcomes[i] is Ok) ==> forall|i: int|
            0 <= i < upto ==> trail[upto].lists.contains_key(#[trigger] all_categories()[i])
                && trail[upto].lists[all_categories()[i]].len() <= WINDOW,
    decreases upto,
{
    if upto > 0 {
        let k = upto - 1;
        lemma_synced_along(trail, outcomes, steps, k);
        let category = all_categories()[k];
        assert(category_synced(trail[k], trail[k + 1], category, outcomes[k]));
        let asked = trail[k].asking(Request::List(category));
        if outcomes[k] is Err && trail[k + 1] == asked {
            assert(trail[k].ranks.is_prefix_of(trail[k].ranks));
        } else {
            let (ids, ts) = choose|ids: Seq<u32>, ts: Timestamp| #[trigger]
                list_synced(
                    asked.answered(Answer::List(ids)),
                    trail[k + 1],
                    category,
                    ids,
                    ts,
                    outcomes[k],
                );
            let got = asked.answered(Answer::List(ids));
            lemma_sync_swaps_snapshot_whole(got, trail[k + 1], category, ids, ts, outcomes[k]);
            if outcomes[k] is Ok {
                lemma_sync_replaces_only_its_list(got, trail[k + 1], category, ids, ts);
            }
        }
        if forall|i: int| 0 <= i < upto ==> #[trigger] outcomes[i] is Ok {
            assert(outcomes[k] is Ok);
            assert forall|i: int| 0 <= i < upto implies trail[upto].lists.contains_key(
                #[trigger] all_categories()[i],
            ) && trail[upto].lists[all_categories()[i]].len() <= WINDOW by {
                let other = all_categories()[i];
                if other != category {
                    assert(outcomes[i] is Ok);
                    assert(trail[upto].list(other) == trail[k].list(other));
                }
            }
        }
    } else {
        assert(trail[0].ranks.is_prefix_of(trail[0].ranks));
    }
}

proof fn lemma_asked_along(
    trail: Seq<World>,
    outcomes: Seq<Result<(), PortError>>,
    steps: int,
    upto: int,
)
    requires
        synced_along(trail, outcomes, steps),
        0 <= upto <= steps,
    ensures
        trail[0].asked.is_prefix_of(trail[upto].asked),
        trail[upto].asked.len() >= trail[0].asked.len() + upto,
        forall|i: int| 0 <= i < upto ==> trail[upto].asked_list(#[trigger] all_categories()[i]),
    decreases upto,
{
    if upto > 0 {
        let k = upto - 1;
        lemma_asked_along(trail, outcomes, steps, k);
        let category = all_categories()[k];
        assert(category_synced(trail[k], trail[k + 1], category, outcomes[k]));
        let asked = trail[k].asking(Request::List(category));
        assert(asked.asked[trail[k].asked.len() as int] == Request::List(category));
        assert(trail[k].asked.is_prefix_of(asked.asked));
        if !(outcomes[k] is Err && trail[k + 1] == asked) {
            let (ids, ts) = choose|ids: Seq<u32>, ts: Timestamp| #[trigger]
                list_synced(
                    asked.answered(Answer::List(ids)),
                    trail[k + 1],
                    category,
                    ids,
                    ts,
                    outcomes[k],
                );
            lemma_sync_swaps_snapshot_whole(
                asked.answered(Answer::List(ids)),
                trail[k + 1],
                category,
                ids,
                ts,
                outcomes[k],
            );
        }
        assert(asked.asked.is_prefix_of(trail[upto].asked));
        assert(trail[upto].asked[trail[k].asked.len() as int] == Request::List(category));
        assert forall|i: int| 0 <= i < upto implies trail[upto].asked_list(
            #[trigger] all_categories()[i],
        ) by {
            if i < k {
                let at = choose|at: int|
                    0 <= at < trail[k].asked.len() && trail[k].asked[at] == Request::List(
                        all_categories()[i],
                    );
                assert(trail[upto].asked[at] == trail[k].asked[at]);
            }
        }
    } else {
        assert(trail[0].asked.is_prefix_of(trail[0].asked));
    }
}

/// A run over all categories asks the remote source for the list of every
/// category, whatever becomes of the categories before it, and takes back no
/// request made earlier.
pub proof fn lemma_run_asks_for_every_list(pre: World, post: World, r: Result<(), PortError>)
    requires
        lists_synced(pre, post, r),
    ensures
        pre.asked.is_prefix_of(post.asked),
        post.asked.len() >= pre.asked.len() + all_categories().len(),
        forall|category: ListCategory| #[trigger] post.asked_list(category),
{
    let steps = all_categories().len() as int;
    let (trail, outcomes) = choose|trail: Seq<World>, outcomes: Seq<Result<(), PortError>>|
        {
            &&& #[trigger] synced_along(trail, outcomes, steps)
            &&& trail.first() == pre
            &&& trail.last() == post
            &&& r == first_failure(outcomes)
        };
    lemma_asked_along(trail, outcomes, steps, steps);
    lemma_all_categories_exhaustive();
    assert forall|category: ListCategory| #[trigger] post.asked_list(category) by {
        let i = choose|i: int| 0 <= i < all_categories().len() && all_categories()[i] == category;
        assert(post.asked_list(all_categories()[i]));
    }
}

/// A run over all categories never touches the configuration and only ever
/// appends to the rank history. Where it succeeds, every category has a
/// snapshot of at most [`WINDOW`] identifiers.
pub proof fn lemma_run_keeps_config_and_history(
    pre: World,
    post: World,
    r: Result<(), PortError>,
)
    requires
        lists_synced(pre, post, r),
    ensures
        post.config == pre.config,
        pre.ranks.is_prefix_of(post.ranks),
        r is Ok ==> forall|category: ListCategory|
            post.lists.contains_key(category) && (#[trigger] post.list(category)).len() <= WINDOW,
{
    let steps = all_categories().len() as int;
    let (trail, outcomes) = choose|
        trail: Seq<World>,
        outcomes: Seq<Result<(), PortError>>,
    |
        {
            &&& #[trigger] synced_along(trail, outcomes, steps)
            &&& trail.first() == pre
            &&& trail.last() == post
            &&& r == first_failure(outcomes)
        };
    lemma_synced_along(trail, outcomes, steps, steps);
    if r is Ok {
        lemma_first_failure_ok(outcomes);
        lemma_all_categories_exhaustive();
        assert forall|category: ListCategory|
            post.lists.contains_key(category) && (#[trigger] post.list(category)).len()
                <= WINDOW by {
            let i = choose|i: int| 0 <= i < all_categories().len() && all_categories()[i] == category;
            assert(post.lists.contains_key(all_categories()[i]));
        }
    }
}

} // verus!
