use vstd::prelude::*;
use crate::domain::{ItemRank, ListCategory};
use crate::item::ItemView;

verus! {

/// One request to the remote source.
pub enum Request {
    /// For the ranked list of a category.
    List(ListCategory),
    /// For the body of one item.
    Item(u32),
    /// For the bodies of several items.
    Items(Seq<u32>),
    /// For the report of recent changes.
    Updates,
}

/// One answer of the remote source.
pub enum Answer {
    /// The ranked list of a category.
    List(Seq<u32>),
    /// The body of one item; `None` where the remote source has no such item.
    Item(Option<ItemView>),
    /// The bodies of those of several items that could be had.
    Items(Seq<ItemView>),
    /// The identifiers reported as recently changed.
    Updates(Seq<u32>),
}

/// What the ports act on, as their contracts speak of it: the content of
/// the durable store, the requests made of the remote source and the answers
/// it gave.
pub struct World {
    /// The current membership of each category that has a snapshot.
    pub lists: Map<ListCategory, Seq<u32>>,
    /// The latest body stored for each identifier.
    pub items: Map<u32, ItemView>,
    /// The rank history, in the order of writing. It only ever grows.
    pub ranks: Seq<ItemRank>,
    /// The serialized payload stored under each configuration key.
    pub config: Map<Seq<char>, Seq<char>>,
    /// Every request made of the remote source so far, oldest first.
    pub asked: Seq<Request>,
    /// Every answer the remote source gave so far, oldest first. A request
    /// that met a fault has no answer.
    pub answers: Seq<Answer>,
}

/// The item table after `items` were written over it one after another: a
/// later body replaces an earlier one with the same identifier.
pub open spec fn store_all(stored: Map<u32, ItemView>, items: Seq<ItemView>) -> Map<u32, ItemView>
    decreases items.len(),
{
    if items.len() == 0 {
        stored
    } else {
        store_all(stored, items.drop_last()).insert(items.last().id, items.last())
    }
}

/// Whether `record` is an observation of `id` in `category`.
pub open spec fn observes(record: ItemRank, id: u32, category: ListCategory) -> bool {
    record.id == id && record.category == category
}

/// The later of two observations: the one with the greater timestamp, and
/// the second where the timestamps are the same.
pub open spec fn later_of(first: Option<ItemRank>, second: Option<ItemRank>) -> Option<ItemRank> {
    match (first, second) {
        (Some(a), Some(b)) => if a.ts.micros <= b.ts.micros {
            second
        } else {
            first
        },
        (None, _) => second,
        (_, None) => first,
    }
}

/// The most recent observation of `id` in `category`: among the observations
/// of the item in the category the one with the greatest timestamp, and of
/// several with that timestamp the one written last. `None` where the
/// history has no observation of the item in the category.
pub open spec fn latest_rank(history: Seq<ItemRank>, id: u32, category: ListCategory) -> Option<
    ItemRank,
>
    decreases history.len(),
{
    if history.len() == 0 {
        None
    } else if observes(history.last(), id, category) {
        later_of(latest_rank(history.drop_last(), id, category), Some(history.last()))
    } else {
        latest_rank(history.drop_last(), id, category)
    }
}

/// The bodies stored for `ids`, in the order of `ids`; an identifier without
/// a stored body is passed over.
pub open spec fn held_items(stored: Map<u32, ItemView>, ids: Seq<u32>) -> Seq<ItemView>
    decreases ids.len(),
{
    if ids.len() == 0 {
        Seq::empty()
    } else if stored.contains_key(ids.last()) {
        held_items(stored, ids.drop_last()).push(stored[ids.last()])
    } else {
        held_items(stored, ids.drop_last())
    }
}

impl World {
    /// A store that holds nothing yet and a remote source that was never
    /// asked.
    pub open spec fn empty() -> World {
        World {
            lists: Map::empty(),
            items: Map::empty(),
            ranks: Seq::empty(),
            config: Map::empty(),
            asked: Seq::empty(),
            answers: Seq::empty(),
        }
    }

    /// Whether the remote source was asked for the list of `category`.
    pub open spec fn asked_list(self, category: ListCategory) -> bool {
        self.asked.contains(Request::List(category))
    }

    /// The world after `request` was made of the remote source.
    pub open spec fn asking(self, request: Request) -> World {
        World { asked: self.asked.push(request), ..self }
    }

    /// The world after the remote source gave `answer`.
    pub open spec fn answered(self, answer: Answer) -> World {
        World { answers: self.answers.push(answer), ..self }
    }

    /// The bodies of the remote source's last answer, where that was an
    /// answer to a request for several items.
    pub open spec fn last_bodies(self) -> Seq<ItemView> {
        if self.answers.len() > 0 {
            match self.answers.last() {
                Answer::Items(items) => items,
                _ => Seq::empty(),
            }
        } else {
            Seq::empty()
        }
    }

    /// The world after the snapshot of `category` was replaced by `ids`.
    pub open spec fn with_list(self, category: ListCategory, ids: Seq<u32>) -> World {
        World { lists: self.lists.insert(category, ids), ..self }
    }

    /// The world after `items` were written, in order.
    pub open spec fn with_items(self, items: Seq<ItemView>) -> World {
        World { items: store_all(self.items, items), ..self }
    }

    /// The world after `records` were appended to the rank history.
    pub open spec fn with_ranks(self, records: Seq<ItemRank>) -> World {
        World { ranks: self.ranks + records, ..self }
    }

    /// The world after `payload` was put under the configuration key `key`.
    pub open spec fn with_config(self, key: Seq<char>, payload: Seq<char>) -> World {
        World { config: self.config.insert(key, payload), ..self }
    }

    /// The snapshot of `category`; empty where the category has none.
    pub open spec fn list(self, category: ListCategory) -> Seq<u32> {
        if self.lists.contains_key(category) {
            self.lists[category]
        } else {
            Seq::empty()
        }
    }

    /// The body stored for `id`, if any.
    pub open spec fn item(self, id: u32) -> Option<ItemView> {
        lookup(self.items, id)
    }

    /// The payload stored under `key`, if any.
    pub open spec fn config_value(self, key: Seq<char>) -> Option<Seq<char>> {
        if self.config.contains_key(key) {
            Some(self.config[key])
        } else {
            None
        }
    }
}

/// The body that `stored` holds for `id`, if any.
pub open spec fn lookup(stored: Map<u32, ItemView>, id: u32) -> Option<ItemView> {
    if stored.contains_key(id) {
        Some(stored[id])
    } else {
        None
    }
}

/// The last of `items` that has the identifier `id`, if any has.
pub open spec fn last_written(items: Seq<ItemView>, id: u32) -> Option<ItemView>
    decreases items.len(),
{
    if items.len() == 0 {
        None
    } else if items.last().id == id {
        Some(items.last())
    } else {
        last_written(items.drop_last(), id)
    }
}

/// `last_written` finds an item exactly where one of `items` has the
/// identifier, and what it finds is one of them with that identifier.
pub proof fn lemma_last_written(items: Seq<ItemView>, id: u32)
    ensures
        last_written(items, id) is None <==> forall|i: int|
            0 <= i < items.len() ==> (#[trigger] items[i]).id != id,
        last_written(items, id) matches Some(item) ==> item.id == id && items.contains(item),
    decreases items.len(),
{
    if items.len() > 0 {
        lemma_last_written(items.drop_last(), id);
        let earlier = items.drop_last();
        if items.last().id == id {
            assert(items[items.len() - 1] == items.last());
        } else {
            if last_written(earlier, id) is None {
                assert forall|i: int| 0 <= i < items.len() implies (#[trigger] items[i]).id
                    != id by {
                    if i < earlier.len() {
                        assert(earlier[i] == items[i]);
                    }
                }
            } else {
                let item = last_written(earlier, id).unwrap();
                let i = choose|i: int| 0 <= i < earlier.len() && earlier[i] == item;
                assert(items[i] == item);
            }
        }
    }
}

/// After a write of `items`, the store holds for each identifier the last of
/// `items` that has it, and what it held before for every other identifier.
pub proof fn lemma_store_all_lookup(stored: Map<u32, ItemView>, items: Seq<ItemView>, id: u32)
    ensures
        lookup(store_all(stored, items), id) == match last_written(items, id) {
            Some(item) => Some(item),
            None => lookup(stored, id),
        },
    decreases items.len(),
{
    if items.len() > 0 {
        lemma_store_all_lookup(stored, items.drop_last(), id);
    }
}

/// Writing `first` and then `second` is one write of both, in that order.
pub proof fn lemma_store_all_concat(
    stored: Map<u32, ItemView>,
    first: Seq<ItemView>,
    second: Seq<ItemView>,
)
    ensures
        store_all(stored, first + second) == store_all(store_all(stored, first), second),
    decreases second.len(),
{
    if second.len() == 0 {
        assert(first + second =~= first);
    } else {
        assert((first + second).drop_last() =~= first + second.drop_last());
        assert((first + second).last() == second.last());
        lemma_store_all_concat(stored, first, second.drop_last());
    }
}

/// The last of `items` with the identifier `id` is the one at `at`, where
/// that one has the identifier and none after it has.
pub proof fn lemma_last_written_at(items: Seq<ItemView>, id: u32, at: int)
    requires
        0 <= at < items.len(),
        items[at].id == id,
        forall|j: int| at < j < items.len() ==> (#[trigger] items[j]).id != id,
    ensures
        last_written(items, id) == Some(items[at]),
    decreases items.len(),
{
    if at < items.len() - 1 {
        let earlier = items.drop_last();
        assert(items.last() == items[items.len() - 1]);
        assert forall|j: int| at < j < earlier.len() implies (#[trigger] earlier[j]).id != id by {
            assert(earlier[j] == items[j]);
        }
        lemma_last_written_at(earlier, id, at);
    }
}

/// The most recent observation is the one at `at`, where that one observes
/// the item in the category, none of the item in the category has a greater
/// timestamp, and none after it has the same.
pub proof fn lemma_latest_rank_at(history: Seq<ItemRank>, id: u32, category: ListCategory, at: int)
    requires
        0 <= at < history.len(),
        observes(history[at], id, category),
        forall|j: int|
            0 <= j < history.len() && observes(#[trigger] history[j], id, category)
                ==> history[j].ts.micros <= history[at].ts.micros,
        forall|j: int|
            at < j < history.len() && observes(#[trigger] history[j], id, category)
                ==> history[j].ts.micros < history[at].ts.micros,
    ensures
        latest_rank(history, id, category) == Some(history[at]),
{
    lemma_latest_rank(history, id, category);
}

/// Writing the same bodies a second time changes nothing: the item table is
/// as the first write left it.
pub proof fn lemma_store_all_idempotent(stored: Map<u32, ItemView>, items: Seq<ItemView>)
    ensures
        store_all(store_all(stored, items), items) == store_all(stored, items),
{
    let once = store_all(stored, items);
    let twice = store_all(once, items);
    assert forall|id: u32| lookup(twice, id) == lookup(once, id) by {
        lemma_store_all_lookup(stored, items, id);
        lemma_store_all_lookup(once, items, id);
    }
    lemma_equal_lookups(twice, once);
}

/// Two item tables that hold the same for every identifier are the same.
pub proof fn lemma_equal_lookups(a: Map<u32, ItemView>, b: Map<u32, ItemView>)
    requires
        forall|id: u32| lookup(a, id) == lookup(b, id),
    ensures
        a == b,
{
    assert forall|id: u32| a.contains_key(id) == b.contains_key(id) by {
        assert(lookup(a, id) == lookup(b, id));
    }
    assert forall|id: u32| a.contains_key(id) implies a[id] == b[id] by {
        assert(lookup(a, id) == lookup(b, id));
    }
    assert(a =~= b);
}

/// A write of bodies fetched for `ids` leaves every other identifier as it
/// was: what the store held for it, or that it held nothing.
pub proof fn lemma_store_all_frame(stored: Map<u32, ItemView>, items: Seq<ItemView>, ids: Seq<u32>, id: u32)
    requires
        forall|i: int| 0 <= i < items.len() ==> ids.contains(#[trigger] items[i].id),
        !ids.contains(id),
    ensures
        lookup(store_all(stored, items), id) == lookup(stored, id),
{
    lemma_store_all_lookup(stored, items, id);
    lemma_last_written(items, id);
}

/// `latest_rank` finds a record exactly where the history has an observation
/// of the item in the category. What it finds is such an observation; no
/// observation of the item in the category has a greater timestamp, and none
/// written after it has the same.
pub proof fn lemma_latest_rank(history: Seq<ItemRank>, id: u32, category: ListCategory)
    ensures
        latest_rank(history, id, category) is None <==> forall|i: int|
            0 <= i < history.len() ==> !observes(#[trigger] history[i], id, category),
        latest_rank(history, id, category) matches Some(record) ==> exists|i: int|
            {
                &&& 0 <= i < history.len()
                &&& #[trigger] history[i] == record
                &&& observes(record, id, category)
                &&& forall|j: int|
                    0 <= j < history.len() && observes(#[trigger] history[j], id, category)
                        ==> history[j].ts.micros <= record.ts.micros
                &&& forall|j: int|
                    i < j < history.len() && observes(#[trigger] history[j], id, category)
                        ==> history[j].ts.micros < record.ts.micros
            },
    decreases history.len(),
{
    if history.len() > 0 {
        let earlier = history.drop_last();
        lemma_latest_rank(earlier, id, category);
        let last = history.len() - 1;
        assert(history[last] == history.last());
        assert forall|j: int| 0 <= j < earlier.len() implies earlier[j] == history[j] by {}
        let found = latest_rank(history, id, category);
        if found is None {
            assert forall|i: int| 0 <= i < history.len() implies !observes(
                #[trigger] history[i],
                id,
                category,
            ) by {
                if i < earlier.len() {
                    assert(earlier[i] == history[i]);
                }
            }
        } else {
            let record = found.unwrap();
            if observes(history.last(), id, category) && found == Some(history.last()) {
                assert(history[last] == record);
                assert forall|j: int|
                    0 <= j < history.len() && observes(
                        #[trigger] history[j],
                        id,
                        category,
                    ) implies history[j].ts.micros <= record.ts.micros by {
                    if j < earlier.len() {
                        assert(earlier[j] == history[j]);
                    }
                }
            } else {
                let i = choose|i: int|
                    {
                        &&& 0 <= i < earlier.len()
                        &&& #[trigger] earlier[i] == record
                        &&& observes(record, id, category)
                        &&& forall|j: int|
                            0 <= j < earlier.len() && observes(#[trigger] earlier[j], id, category)
                                ==> earlier[j].ts.micros <= record.ts.micros
                        &&& forall|j: int|
                            i < j < earlier.len() && observes(#[trigger] earlier[j], id, category)
                                ==> earlier[j].ts.micros < record.ts.micros
                    };
                assert(history[i] == record);
                assert forall|j: int|
                    0 <= j < history.len() && observes(
                        #[trigger] history[j],
                        id,
                        category,
                    ) implies history[j].ts.micros <= record.ts.micros by {
                    if j < earlier.len() {
                        assert(earlier[j] == history[j]);
                    }
                }
                assert forall|j: int|
                    i < j < history.len() && observes(
                        #[trigger] history[j],
                        id,
                        category,
                    ) implies history[j].ts.micros < record.ts.micros by {
                    if j < earlier.len() {
                        assert(earlier[j] == history[j]);
                    }
                }
            }
        }
    }
}

/// In a history that has grown by `more`, the most recent observation is the
/// later of the most recent one before and the most recent one of `more`.
pub proof fn lemma_latest_rank_after_append(
    history: Seq<ItemRank>,
    more: Seq<ItemRank>,
    id: u32,
    category: ListCategory,
)
    ensures
        latest_rank(history + more, id, category) == later_of(
            latest_rank(history, id, category),
            latest_rank(more, id, category),
        ),
    decreases more.len(),
{
    if more.len() == 0 {
        assert(history + more =~= history);
    } else {
        assert((history + more).drop_last() =~= history + more.drop_last());
        assert((history + more).last() == more.last());
        lemma_latest_rank_after_append(history, more.drop_last(), id, category);
    }
}

} // verus!
