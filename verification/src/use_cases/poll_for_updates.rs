use vstd::prelude::*;
use crate::capabilities::{
    fetched_for, FetchItems, FetchUpdates, PortError, StoreItems,
};
use crate::item::{item_views, ItemView};
use crate::world::{lemma_store_all_frame, store_all, Answer, Request, World};

verus! {

/// How a refresh of the items `ids` may take the world from `pre` to `post`.
///
/// The remote source is asked for exactly `ids`. Where it answers, the
/// bodies it gave, and no others, are written over the stored ones; nothing
/// else changes. Where the request or the write meets a fault, the store is
/// untouched.
pub open spec fn refreshed(pre: World, post: World, ids: Seq<u32>, r: Result<(), PortError>) -> bool {
    let asked = pre.asking(Request::Items(ids));
    ||| r is Err && post == asked
    ||| exists|items: Seq<ItemView>| #[trigger]
        fetched_for(items, ids) && match r {
            Ok(_) => post == asked.answered(Answer::Items(items)).with_items(items),
            Err(_) => post == asked.answered(Answer::Items(items)),
        }
}

/// Fetches the bodies of exactly the items `ids` and stores what was
/// fetched.
pub fn refresh<A: StoreItems + FetchItems>(app: &mut A, ids: Vec<u32>) -> (r: Result<
    (),
    PortError,
>)
    ensures
        refreshed(old(app).world(), final(app).world(), ids@, r),
{
    let items = match app.fetch_items(ids) {
        Ok(items) => items,
        Err(fault) => {
            return Err(fault);
        },
    };
    let ghost fetched = item_views(items@);
    assert(fetched_for(fetched, ids@));
    app.store_items(items)
}

/// How one poll for updates may take the world from `pre` to `post`: the
/// remote source is asked for its report of recent changes, and exactly the
/// items that the report names are refreshed. Where the report cannot be
/// had, nothing more happens.
pub open spec fn polled(pre: World, post: World, r: Result<(), PortError>) -> bool {
    let asked = pre.asking(Request::Updates);
    ||| r is Err && post == asked
    ||| exists|ids: Seq<u32>| #[trigger]
        refreshed(asked.answered(Answer::Updates(ids)), post, ids, r)
}

/// Asks the remote source which items changed recently and refreshes exactly
/// those. The first fault ends the run.
pub fn run<A: StoreItems + FetchItems + FetchUpdates>(app: &mut A) -> (r: Result<(), PortError>)
    ensures
        polled(old(app).world(), final(app).world(), r),
{
    let updated_item_ids = match app.fetch_updates() {
        Ok(ids) => ids,
        Err(fault) => {
            return Err(fault);
        },
    };
    let ghost reported = updated_item_ids@;
    let ghost asked = app.world();
    let r = refresh(app, updated_item_ids);
    assert(refreshed(asked, app.world(), reported, r));
    r
}

/// A refresh asks the remote source for exactly the requested items and
/// touches the bodies of those only: every other stored body, every
/// snapshot, the rank history and the configuration are as they were. A
/// refresh that fails leaves the whole store untouched.
pub proof fn lemma_refresh_touches_only_requested(
    pre: World,
    post: World,
    ids: Seq<u32>,
    r: Result<(), PortError>,
)
    requires
        refreshed(pre, post, ids, r),
    ensures
        post.asked == pre.asked.push(Request::Items(ids)),
        post.lists == pre.lists,
        post.ranks == pre.ranks,
        post.config == pre.config,
        forall|id: u32| !ids.contains(id) ==> post.item(id) == pre.item(id),
        r is Err ==> post.items == pre.items,
{
    let asked = pre.asking(Request::Items(ids));
    if r is Ok {
        let items = choose|items: Seq<ItemView>| #[trigger]
            fetched_for(items, ids) && post == asked.answered(Answer::Items(items)).with_items(
                items,
            );
        assert forall|id: u32| !ids.contains(id) implies post.item(id) == pre.item(id) by {
            lemma_store_all_frame(pre.items, items, ids, id);
        }
    }
}

/// A successful refresh stores exactly what the remote source answered: its
/// one answer is a batch of bodies, each of a requested item, and the item
/// table is the table before with that batch written over it.
pub proof fn lemma_refresh_stores_the_answer(pre: World, post: World, ids: Seq<u32>)
    requires
        refreshed(pre, post, ids, Ok(())),
    ensures
        post.answers == pre.answers.push(Answer::Items(post.last_bodies())),
        fetched_for(post.last_bodies(), ids),
        post.items == store_all(pre.items, post.last_bodies()),
{
    let asked = pre.asking(Request::Items(ids));
    let items = choose|items: Seq<ItemView>| #[trigger]
        fetched_for(items, ids) && post == asked.answered(Answer::Items(items)).with_items(items);
    assert(post.answers.last() == Answer::Items(items));
}

/// The items that the remote source's report names: the report is the
/// answer before the last one.
pub open spec fn reported(world: World) -> Seq<u32> {
    if world.answers.len() > 1 {
        match world.answers[world.answers.len() - 2] {
            Answer::Updates(ids) => ids,
            _ => Seq::empty(),
        }
    } else {
        Seq::empty()
    }
}

/// A successful poll asked for the report and then for exactly the items
/// that the report named, and stored exactly the bodies that the remote
/// source gave for them; it touched no snapshot, no rank record and no
/// configuration key.
pub proof fn lemma_poll_stores_what_was_fetched_for_the_report(pre: World, post: World)
    requires
        polled(pre, post, Ok(())),
    ensures
        post.asked == pre.asked + seq![Request::Updates, Request::Items(reported(post))],
        post.answers == pre.answers + seq![
            Answer::Updates(reported(post)),
            Answer::Items(post.last_bodies()),
        ],
        fetched_for(post.last_bodies(), reported(post)),
        post.items == store_all(pre.items, post.last_bodies()),
        post.lists == pre.lists,
        post.ranks == pre.ranks,
        post.config == pre.config,
{
    let asked = pre.asking(Request::Updates);
    let ids = choose|ids: Seq<u32>| #[trigger]
        refreshed(asked.answered(Answer::Updates(ids)), post, ids, Ok(()));
    let got = asked.answered(Answer::Updates(ids));
    lemma_refresh_stores_the_answer(got, post, ids);
    lemma_refresh_touches_only_requested(got, post, ids, Ok(()));
    assert(post.answers[post.answers.len() - 2] == Answer::Updates(ids));
    assert(post.asked =~= pre.asked + seq![Request::Updates, Request::Items(ids)]);
    assert(post.answers =~= pre.answers + seq![
        Answer::Updates(ids),
        Answer::Items(post.last_bodies()),
    ]);
}

/// The requests of a poll that got its report: for the report, then for the
/// items `ids` that it names.
pub open spec fn poll_requests(ids: Seq<u32>) -> Seq<Request> {
    seq![Request::Updates, Request::Items(ids)]
}

/// A poll asks the remote source for its report and, where it gets one, for
/// the items reported, and for nothing else; it touches no snapshot, no rank
/// record and no configuration key.
pub proof fn lemma_poll_asks_and_stores_items_only(pre: World, post: World, r: Result<(), PortError>)
    requires
        polled(pre, post, r),
    ensures
        post.asked == pre.asked.push(Request::Updates) || exists|ids: Seq<u32>|
            post.asked == pre.asked + #[trigger] poll_requests(ids),
        post.lists == pre.lists,
        post.ranks == pre.ranks,
        post.config == pre.config,
{
    let asked = pre.asking(Request::Updates);
    if !(r is Err && post == asked) {
        let ids = choose|ids: Seq<u32>| #[trigger]
            refreshed(asked.answered(Answer::Updates(ids)), post, ids, r);
        lemma_refresh_touches_only_requested(asked.answered(Answer::Updates(ids)), post, ids, r);
        assert(post.asked =~= pre.asked + poll_requests(ids));
    }
}

} // verus!
