use vstd::prelude::*;
use crate::capabilities::{
    fetched_for, FetchItems, LoadConfigValue, PortError, StoreConfigValue, StoreItems,
};
use crate::config::{load_number, store_number};
use crate::decimal::decimal;
use crate::item::{item_views, ItemView};
use crate::json::{lemma_read_number_of_numeral, read_number};
use crate::world::{lemma_store_all_idempotent, store_all, Answer, Request, World};

verus! {

/// The configuration key under which the backfill cursor is kept.
pub open spec fn cursor_key() -> Seq<char> {
    "backfill_ptr"@
}

/// The cursor that the store holds: the lowest identifier not yet swept. It
/// is 0 where none was ever stored, and `None` where the stored payload does
/// not read as a number.
pub open spec fn cursor_of(world: World) -> Option<u32> {
    match world.config_value(cursor_key()) {
        None => Some(0u32),
        Some(payload) => read_number(payload),
    }
}

/// The highest identifier of the batch that starts at `cursor`: `count`
/// above it, or the end of the identifier space where that comes first.
pub open spec fn batch_end(cursor: u32, count: u32) -> u32 {
    if cursor + count <= u32::MAX {
        (cursor + count) as u32
    } else {
        u32::MAX
    }
}

/// The identifiers of the batch that starts at `cursor`: every one from the
/// cursor up to the batch's end, both included.
pub open spec fn batch_ids(cursor: u32, count: u32) -> Seq<u32> {
    Seq::new((batch_end(cursor, count) - cursor + 1) as nat, |i: int| (cursor + i) as u32)
}

/// Lists the identifiers of the batch that starts at `cursor`.
pub fn backfill_range(cursor: u32, count: u32) -> (r: Vec<u32>)
    ensures
        r@ == batch_ids(cursor, count),
{
    let end = cursor.saturating_add(count);
    let mut ids: Vec<u32> = Vec::new();
    let mut id = cursor;
    loop
        invariant_except_break
            cursor <= id <= end,
            end == batch_end(cursor, count),
            ids@ == Seq::new((id - cursor) as nat, |i: int| (cursor + i) as u32),
        ensures
            ids@ == batch_ids(cursor, count),
        decreases end - id,
    {
        ids.push(id);
        if id == end {
            assert(ids@ =~= batch_ids(cursor, count));
            break ;
        }
        id += 1;
        assert(ids@ =~= Seq::new((id - cursor) as nat, |i: int| (cursor + i) as u32));
    }
    ids
}

/// Reads the backfill cursor: 0 where none is stored. Fails where the port
/// fails or the stored payload does not read as a number.
pub fn load_cursor<A: LoadConfigValue>(app: &A) -> (r: Result<u32, PortError>)
    ensures
        r matches Ok(cursor) ==> cursor_of(app.world()) == Some(cursor),
        cursor_of(app.world()) is None ==> r is Err,
{
    match load_number(app, "backfill_ptr") {
        Ok(Some(cursor)) => Ok(cursor),
        Ok(None) => Ok(0),
        Err(fault) => Err(fault),
    }
}

/// How the sweep of the batch that starts at `cursor` may take the world
/// from `pre` to `post`.
///
/// The remote source is asked for exactly the batch. On success the bodies
/// it gave, and no others, are stored and the cursor is the batch's end;
/// nothing else has changed. On a fault the cursor is as before, so the same
/// batch is swept again: the store is untouched, or holds the fetched bodies
/// and is otherwise as before.
pub open spec fn swept(
    pre: World,
    post: World,
    cursor: u32,
    count: u32,
    r: Result<(), PortError>,
) -> bool {
    let asked = pre.asking(Request::Items(batch_ids(cursor, count)));
    ||| r is Err && post == asked
    ||| exists|items: Seq<ItemView>| #[trigger]
        fetched_for(items, batch_ids(cursor, count)) && {
            let got = asked.answered(Answer::Items(items));
            match r {
                Ok(_) => post == got.with_items(items).with_config(
                    cursor_key(),
                    decimal(batch_end(cursor, count) as nat),
                ),
                Err(_) => post == got || post == got.with_items(items),
            }
        }
}

/// How one backfill of `count` identifiers may take the world from `pre` to
/// `post`: as the sweep of the batch at the stored cursor. Where the cursor
/// cannot be had, nothing is asked or stored; and it cannot be had where the
/// stored payload does not read as a number.
pub open spec fn backfilled(pre: World, post: World, count: u32, r: Result<(), PortError>) -> bool {
    ||| r is Err && post == pre
    ||| cursor_of(pre) matches Some(cursor) && swept(pre, post, cursor, count, r)
}

/// Sweeps one batch of the identifier space: reads the cursor and sweeps the
/// batch that starts there (see [`sweep`]). The first fault ends the run
/// without moving the cursor.
pub fn run<A: StoreItems + FetchItems + LoadConfigValue + StoreConfigValue>(
    app: &mut A,
    fetch_count: u32,
) -> (r: Result<(), PortError>)
    ensures
        backfilled(old(app).world(), final(app).world(), fetch_count, r),
{
    let cursor = match load_cursor(&*app) {
        Ok(cursor) => cursor,
        Err(fault) => {
            return Err(fault);
        },
    };
    sweep(app, cursor, fetch_count)
}

/// Sweeps the batch that starts at `cursor`: fetches and stores the items
/// from the cursor to `fetch_count` above it, both included, and puts the
/// cursor at the highest identifier of the batch. The first fault ends it
/// without moving the cursor.
pub fn sweep<A: StoreItems + FetchItems + StoreConfigValue>(
    app: &mut A,
    cursor: u32,
    fetch_count: u32,
) -> (r: Result<(), PortError>)
    ensures
        swept(old(app).world(), final(app).world(), cursor, fetch_count, r),
{
    let ids = backfill_range(cursor, fetch_count);
    let new_cursor = cursor.saturating_add(fetch_count);
    let items = match app.fetch_items(ids) {
        Ok(items) => items,
        Err(fault) => {
            return Err(fault);
        },
    };
    let ghost fetched = item_views(items@);
    assert(fetched_for(fetched, batch_ids(cursor, fetch_count)));
    match app.store_items(items) {
        Ok(_) => {},
        Err(fault) => {
            return Err(fault);
        },
    }
    store_number(app, "backfill_ptr", new_cursor)
}

/// A batch holds every identifier from its cursor to its end, each once and
/// in ascending order: `count + 1` of them unless the identifier space ends
/// before.
pub proof fn lemma_batch_ids(cursor: u32, count: u32)
    ensures
        batch_ids(cursor, count).len() == batch_end(cursor, count) - cursor + 1,
        forall|i: int|
            0 <= i < batch_ids(cursor, count).len() ==> #[trigger] batch_ids(cursor, count)[i]
                == cursor + i,
        batch_ids(cursor, count).first() == cursor,
        batch_ids(cursor, count).last() == batch_end(cursor, count),
        cursor + count <= u32::MAX ==> batch_ids(cursor, count).len() == count + 1
            && batch_ids(cursor, count).last() == cursor + count,
{
}

/// A successful sweep stores exactly what the remote source answered: its
/// one request is for the batch, its one answer a batch of bodies, each of
/// an item of the batch, and the item table is the table before with those
/// bodies written over it. The cursor's payload is the numeral of the
/// batch's end; nothing else has changed.
pub proof fn lemma_sweep_stores_the_answer(pre: World, post: World, cursor: u32, count: u32)
    requires
        swept(pre, post, cursor, count, Ok(())),
    ensures
        post.asked == pre.asked.push(Request::Items(batch_ids(cursor, count))),
        post.answers == pre.answers.push(Answer::Items(post.last_bodies())),
        fetched_for(post.last_bodies(), batch_ids(cursor, count)),
        post.items == store_all(pre.items, post.last_bodies()),
        post.config == pre.config.insert(cursor_key(), decimal(batch_end(cursor, count) as nat)),
        post.lists == pre.lists,
        post.ranks == pre.ranks,
{
    let asked = pre.asking(Request::Items(batch_ids(cursor, count)));
    let items = choose|items: Seq<ItemView>| #[trigger]
        fetched_for(items, batch_ids(cursor, count)) && post == asked.answered(
            Answer::Items(items),
        ).with_items(items).with_config(cursor_key(), decimal(batch_end(cursor, count) as nat));
    assert(post.answers.last() == Answer::Items(items));
}

/// Sweeping the same batch twice, with the same answer of the remote source
/// both times, stores the same: after the second sweep the item table, the
/// cursor and everything else in the store are as the first sweep left them.
pub proof fn lemma_same_sweep_twice(
    pre: World,
    once: World,
    twice: World,
    cursor: u32,
    count: u32,
)
    requires
        swept(pre, once, cursor, count, Ok(())),
        swept(once, twice, cursor, count, Ok(())),
        twice.last_bodies() == once.last_bodies(),
    ensures
        twice.items == once.items,
        twice.config == once.config,
        twice.lists == once.lists,
        twice.ranks == once.ranks,
{
    lemma_sweep_stores_the_answer(pre, once, cursor, count);
    lemma_sweep_stores_the_answer(once, twice, cursor, count);
    lemma_store_all_idempotent(pre.items, once.last_bodies());
    assert(twice.config =~= once.config);
}

/// A successful backfill has swept the batch at the stored cursor: it asked
/// the remote source for exactly that batch and stored exactly the bodies it
/// gave. The cursor stands at the end of the batch, so the next batch starts
/// with the identifier that this one ended with.
pub proof fn lemma_backfill_moves_cursor(pre: World, post: World, count: u32, cursor: u32)
    requires
        cursor_of(pre) == Some(cursor),
        backfilled(pre, post, count, Ok(())),
    ensures
        swept(pre, post, cursor, count, Ok(())),
        post.asked == pre.asked.push(Request::Items(batch_ids(cursor, count))),
        post.items == store_all(pre.items, post.last_bodies()),
        cursor_of(post) == Some(batch_end(cursor, count)),
        batch_end(cursor, count) >= cursor,
        batch_ids(batch_end(cursor, count), count).first() == batch_ids(cursor, count).last(),
        post.lists == pre.lists,
        post.ranks == pre.ranks,
{
    lemma_sweep_stores_the_answer(pre, post, cursor, count);
    lemma_read_number_of_numeral(batch_end(cursor, count));
    lemma_batch_ids(cursor, count);
    lemma_batch_ids(batch_end(cursor, count), count);
}

/// A backfill that fails leaves the cursor, the snapshots and the rank
/// history as they were, so the next run sweeps the same batch again.
pub proof fn lemma_failed_backfill_keeps_cursor(
    pre: World,
    post: World,
    count: u32,
    fault: PortError,
)
    requires
        backfilled(pre, post, count, Err(fault)),
    ensures
        post.config == pre.config,
        cursor_of(post) == cursor_of(pre),
        post.lists == pre.lists,
        post.ranks == pre.ranks,
{
}

/// Whatever becomes of a backfill, it asks the remote source for nothing or
/// for one batch of items, and it touches no snapshot, no rank record and no
/// configuration key but the cursor's.
pub proof fn lemma_backfill_touches_items_and_cursor_only(
    pre: World,
    post: World,
    count: u32,
    r: Result<(), PortError>,
)
    requires
        backfilled(pre, post, count, r),
    ensures
        post.asked == pre.asked || exists|cursor: u32|
            post.asked == pre.asked.push(Request::Items(#[trigger] batch_ids(cursor, count))),
        post.lists == pre.lists,
        post.ranks == pre.ranks,
        forall|key: Seq<char>|
            key != cursor_key() ==> #[trigger] post.config_value(key) == pre.config_value(key),
{
}

} // verus!
