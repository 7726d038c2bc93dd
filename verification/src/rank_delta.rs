use vstd::prelude::*;
use crate::world::{latest_rank, lemma_latest_rank, lemma_latest_rank_after_append, observes};
use crate::domain::{ItemRank, ListCategory, Timestamp};

verus! {

/// The observation of `id` at the 0-based `position` of a snapshot: its rank
/// is the position plus one.
pub open spec fn observation(
    id: u32,
    position: int,
    category: ListCategory,
    ts: Timestamp,
) -> ItemRank {
    ItemRank { id, rank: (position + 1) as u32, category, ts }
}

/// Whether an item seen at `rank` gets a new record, given the most recent
/// record of it: yes where it was never seen or was last seen at another
/// rank, no where its rank did not change.
pub open spec fn must_record(previous: Option<ItemRank>, rank: u32) -> bool {
    match previous {
        None => true,
        Some(record) => record.rank != rank,
    }
}

/// The records that the first `n` positions of the snapshot `ids` add to
/// `history`, in the order of the snapshot.
pub open spec fn rank_deltas_upto(
    history: Seq<ItemRank>,
    category: ListCategory,
    ids: Seq<u32>,
    ts: Timestamp,
    n: nat,
) -> Seq<ItemRank>
    decreases n,
{
    if n == 0 {
        Seq::empty()
    } else {
        let position = n - 1;
        let earlier = rank_deltas_upto(history, category, ids, ts, position as nat);
        if must_record(latest_rank(history, ids[position], category), n as u32) {
            earlier.push(observation(ids[position], position, category, ts))
        } else {
            earlier
        }
    }
}

/// The records that the snapshot `ids` of `category`, observed at `ts`, adds
/// to `history`: one for each position whose item is new to the category or
/// has changed its rank, none for the others.
pub open spec fn rank_deltas(
    history: Seq<ItemRank>,
    category: ListCategory,
    ids: Seq<u32>,
    ts: Timestamp,
) -> Seq<ItemRank> {
    rank_deltas_upto(history, category, ids, ts, ids.len())
}

/// Decides for one item of a snapshot whether its rank is recorded: `previous`
/// is the most recent record of the item in the category, `rank` the rank it
/// has now.
pub fn rank_delta(
    previous: Option<ItemRank>,
    id: u32,
    rank: u32,
    category: ListCategory,
    ts: Timestamp,
) -> (r: Option<ItemRank>)
    ensures
        r == if must_record(previous, rank) {
            Some(ItemRank { id, rank, category, ts })
        } else {
            None
        },
{
    match previous {
        Some(record) if record.rank == rank => None,
        _ => Some(ItemRank { id, rank, category, ts }),
    }
}

/// Every record among the first `n` positions' deltas stands for exactly one
/// position that must be recorded, and the records follow the snapshot's
/// order.
pub proof fn lemma_rank_deltas_shape(
    history: Seq<ItemRank>,
    category: ListCategory,
    ids: Seq<u32>,
    ts: Timestamp,
    n: nat,
)
    requires
        n <= ids.len() <= u32::MAX,
    ensures
        rank_deltas_upto(history, category, ids, ts, n).len() <= n,
        forall|k: int|
            0 <= k < rank_deltas_upto(history, category, ids, ts, n).len() ==> {
                let record = #[trigger] rank_deltas_upto(history, category, ids, ts, n)[k];
                &&& 1 <= record.rank <= n
                &&& record == observation(ids[record.rank - 1], record.rank - 1, category, ts)
                &&& must_record(latest_rank(history, ids[record.rank - 1], category), record.rank)
            },
        forall|j: int, k: int|
            0 <= j < k < rank_deltas_upto(history, category, ids, ts, n).len() ==> (
            #[trigger] rank_deltas_upto(history, category, ids, ts, n)[j]).rank < (
            #[trigger] rank_deltas_upto(history, category, ids, ts, n)[k]).rank,
        forall|p: int|
            0 <= p < n && must_record(latest_rank(history, ids[p], category), (p + 1) as u32)
                ==> rank_deltas_upto(history, category, ids, ts, n).contains(
                #[trigger] observation(ids[p], p, category, ts),
            ),
    decreases n,
{
    if n > 0 {
        let position = n - 1;
        let earlier = rank_deltas_upto(history, category, ids, ts, position as nat);
        let deltas = rank_deltas_upto(history, category, ids, ts, n);
        lemma_rank_deltas_shape(history, category, ids, ts, position as nat);
        if must_record(latest_rank(history, ids[position], category), n as u32) {
            let last = observation(ids[position], position, category, ts);
            assert(deltas == earlier.push(last));
            assert(deltas[earlier.len() as int] == last);
            assert forall|p: int|
                0 <= p < n && must_record(
                    latest_rank(history, ids[p], category),
                    (p + 1) as u32,
                ) implies deltas.contains(#[trigger] observation(ids[p], p, category, ts)) by {
                if p < position {
                    let k = choose|k: int|
                        0 <= k < earlier.len() && earlier[k] == observation(
                            ids[p],
                            p,
                            category,
                            ts,
                        );
                    assert(deltas[k] == observation(ids[p], p, category, ts));
                }
            }
        }
    }
}

/// In a snapshot none of whose items has a record in the category yet, every
/// position is recorded, at its position plus one.
pub proof fn lemma_first_seen_all_recorded(
    history: Seq<ItemRank>,
    category: ListCategory,
    ids: Seq<u32>,
    ts: Timestamp,
)
    requires
        ids.len() <= u32::MAX,
        forall|p: int| 0 <= p < ids.len() ==> latest_rank(history, #[trigger] ids[p], category) is None,
    ensures
        rank_deltas(history, category, ids, ts).len() == ids.len(),
        forall|p: int|
            0 <= p < ids.len() ==> #[trigger] rank_deltas(history, category, ids, ts)[p]
                == observation(ids[p], p, category, ts),
{
    lemma_all_recorded_upto(history, category, ids, ts, ids.len());
}

proof fn lemma_all_recorded_upto(
    history: Seq<ItemRank>,
    category: ListCategory,
    ids: Seq<u32>,
    ts: Timestamp,
    n: nat,
)
    requires
        n <= ids.len() <= u32::MAX,
        forall|p: int| 0 <= p < ids.len() ==> latest_rank(history, #[trigger] ids[p], category) is None,
    ensures
        rank_deltas_upto(history, category, ids, ts, n).len() == n,
        forall|p: int|
            0 <= p < n ==> #[trigger] rank_deltas_upto(history, category, ids, ts, n)[p]
                == observation(ids[p], p, category, ts),
    decreases n,
{
    if n > 0 {
        lemma_all_recorded_upto(history, category, ids, ts, (n - 1) as nat);
        assert(latest_rank(history, ids[n - 1], category) is None);
    }
}

/// An item whose most recent record already has the rank of its position
/// gets no record for that position: no delta carries that rank.
pub proof fn lemma_unchanged_rank_not_recorded(
    history: Seq<ItemRank>,
    category: ListCategory,
    ids: Seq<u32>,
    ts: Timestamp,
    position: int,
)
    requires
        ids.len() <= u32::MAX,
        0 <= position < ids.len(),
        latest_rank(history, ids[position], category) matches Some(record) && record.rank
            == position + 1,
    ensures
        forall|k: int|
            0 <= k < rank_deltas(history, category, ids, ts).len() ==> (
            #[trigger] rank_deltas(history, category, ids, ts)[k]).rank != position + 1,
{
    lemma_rank_deltas_shape(history, category, ids, ts, ids.len());
}

/// An item whose most recent record has another rank than that of its
/// position, or that has no record yet, gets exactly one record for that
/// position, with the new rank and the timestamp of the observation.
pub proof fn lemma_changed_rank_recorded_once(
    history: Seq<ItemRank>,
    category: ListCategory,
    ids: Seq<u32>,
    ts: Timestamp,
    position: int,
) -> (at: int)
    requires
        ids.len() <= u32::MAX,
        0 <= position < ids.len(),
        must_record(latest_rank(history, ids[position], category), (position + 1) as u32),
    ensures
        0 <= at < rank_deltas(history, category, ids, ts).len(),
        rank_deltas(history, category, ids, ts)[at] == (ItemRank {
            id: ids[position],
            rank: (position + 1) as u32,
            category,
            ts,
        }),
        forall|k: int|
            0 <= k < rank_deltas(history, category, ids, ts).len() && (
            #[trigger] rank_deltas(history, category, ids, ts)[k]).rank == position + 1 ==> k
                == at,
{
    lemma_rank_deltas_shape(history, category, ids, ts, ids.len());
    let deltas = rank_deltas(history, category, ids, ts);
    let wanted = observation(ids[position], position, category, ts);
    assert(deltas.contains(wanted));
    let at = choose|at: int| 0 <= at < deltas.len() && deltas[at] == wanted;
    assert forall|k: int| 0 <= k < deltas.len() && (#[trigger] deltas[k]).rank == position + 1 implies k
        == at by {
        if k < at {
            assert(deltas[k].rank < deltas[at].rank);
        } else if at < k {
            assert(deltas[at].rank < deltas[k].rank);
        }
    }
    at
}

/// Whether the history has no observation in `category` of any item of the
/// snapshot `ids`.
pub open spec fn all_first_seen(history: Seq<ItemRank>, category: ListCategory, ids: Seq<u32>) -> bool {
    forall|p: int| 0 <= p < ids.len() ==> latest_rank(history, #[trigger] ids[p], category) is None
}

/// Whether `records` holds one record for every position of the snapshot
/// `ids`, in order, each at its position plus one and with the timestamp
/// `ts`.
pub open spec fn records_every_position(
    records: Seq<ItemRank>,
    category: ListCategory,
    ids: Seq<u32>,
    ts: Timestamp,
) -> bool {
    &&& records.len() == ids.len()
    &&& forall|p: int|
        0 <= p < ids.len() ==> #[trigger] records[p] == (ItemRank {
            id: ids[p],
            rank: (p + 1) as u32,
            category,
            ts,
        })
}

/// Whether `records` holds no record of the item `id`.
pub open spec fn records_nothing_of(records: Seq<ItemRank>, id: u32) -> bool {
    forall|k: int| 0 <= k < records.len() ==> (#[trigger] records[k]).id != id
}

/// Whether `records` holds exactly one record of the item `id`, and that one
/// is `record`.
pub open spec fn records_once(records: Seq<ItemRank>, id: u32, record: ItemRank) -> bool {
    exists|at: int|
        {
            &&& 0 <= at < records.len()
            &&& #[trigger] records[at] == record
            &&& record.id == id
            &&& forall|k: int| 0 <= k < records.len() && (#[trigger] records[k]).id == id ==> k == at
        }
}

/// What the deltas of a snapshot hold of each of its items, said item by
/// item. Where the history has no record of any item, every position is
/// recorded. In a snapshot that names no item twice, an item whose most
/// recent record has the rank of its position is not recorded, and an item
/// that has no record yet or whose most recent record has another rank is
/// recorded exactly once, with the new rank and the timestamp of the
/// observation.
pub open spec fn records_the_changes(
    records: Seq<ItemRank>,
    history: Seq<ItemRank>,
    category: ListCategory,
    ids: Seq<u32>,
    ts: Timestamp,
) -> bool {
    &&& all_first_seen(history, category, ids) ==> records_every_position(
        records,
        category,
        ids,
        ts,
    )
    &&& ids.no_duplicates() ==> forall|p: int|
        0 <= p < ids.len() ==> if must_record(
            latest_rank(history, #[trigger] ids[p], category),
            (p + 1) as u32,
        ) {
            records_once(records, ids[p], observation(ids[p], p, category, ts))
        } else {
            records_nothing_of(records, ids[p])
        }
}

/// In a snapshot that names no item twice, every record of the deltas that
/// is of the item at `position` has the rank of that position.
proof fn lemma_records_of_item_have_its_rank(
    history: Seq<ItemRank>,
    category: ListCategory,
    ids: Seq<u32>,
    ts: Timestamp,
    position: int,
    k: int,
)
    requires
        ids.len() <= u32::MAX,
        ids.no_duplicates(),
        0 <= position < ids.len(),
        0 <= k < rank_deltas(history, category, ids, ts).len(),
        rank_deltas(history, category, ids, ts)[k].id == ids[position],
    ensures
        rank_deltas(history, category, ids, ts)[k].rank == position + 1,
        must_record(latest_rank(history, ids[position], category), (position + 1) as u32),
{
    lemma_rank_deltas_shape(history, category, ids, ts, ids.len());
    let record = rank_deltas(history, category, ids, ts)[k];
    assert(record == observation(ids[record.rank - 1], record.rank - 1, category, ts));
    assert(ids[record.rank - 1] == ids[position]);
}

/// In a snapshot that names no item twice, an item whose most recent record
/// already has the rank of its position gets no record at all.
pub proof fn lemma_unchanged_item_not_recorded(
    history: Seq<ItemRank>,
    category: ListCategory,
    ids: Seq<u32>,
    ts: Timestamp,
    position: int,
)
    requires
        ids.len() <= u32::MAX,
        ids.no_duplicates(),
        0 <= position < ids.len(),
        !must_record(latest_rank(history, ids[position], category), (position + 1) as u32),
    ensures
        records_nothing_of(rank_deltas(history, category, ids, ts), ids[position]),
{
    let deltas = rank_deltas(history, category, ids, ts);
    assert forall|k: int| 0 <= k < deltas.len() implies (#[trigger] deltas[k]).id
        != ids[position] by {
        if deltas[k].id == ids[position] {
            lemma_records_of_item_have_its_rank(history, category, ids, ts, position, k);
        }
    }
}

/// In a snapshot that names no item twice, an item that has no record yet,
/// or whose most recent record has another rank than that of its position,
/// gets exactly one record, with the new rank and the timestamp of the
/// observation.
pub proof fn lemma_changed_item_recorded_once(
    history: Seq<ItemRank>,
    category: ListCategory,
    ids: Seq<u32>,
    ts: Timestamp,
    position: int,
)
    requires
        ids.len() <= u32::MAX,
        ids.no_duplicates(),
        0 <= position < ids.len(),
        must_record(latest_rank(history, ids[position], category), (position + 1) as u32),
    ensures
        records_once(
            rank_deltas(history, category, ids, ts),
            ids[position],
            observation(ids[position], position, category, ts),
        ),
{
    let deltas = rank_deltas(history, category, ids, ts);
    let at = lemma_changed_rank_recorded_once(history, category, ids, ts, position);
    assert forall|k: int| 0 <= k < deltas.len() && (#[trigger] deltas[k]).id
        == ids[position] implies k == at by {
        lemma_records_of_item_have_its_rank(history, category, ids, ts, position, k);
    }
    assert(deltas[at] == observation(ids[position], position, category, ts));
}

/// The deltas of a snapshot record its changes, item by item.
pub proof fn lemma_rank_deltas_record_the_changes(
    history: Seq<ItemRank>,
    category: ListCategory,
    ids: Seq<u32>,
    ts: Timestamp,
)
    requires
        ids.len() <= u32::MAX,
    ensures
        records_the_changes(rank_deltas(history, category, ids, ts), history, category, ids, ts),
{
    let deltas = rank_deltas(history, category, ids, ts);
    if all_first_seen(history, category, ids) {
        lemma_first_seen_all_recorded(history, category, ids, ts);
        assert(records_every_position(deltas, category, ids, ts));
    }
    if ids.no_duplicates() {
        assert forall|p: int| 0 <= p < ids.len() implies if must_record(
            latest_rank(history, #[trigger] ids[p], category),
            (p + 1) as u32,
        ) {
            records_once(deltas, ids[p], observation(ids[p], p, category, ts))
        } else {
            records_nothing_of(deltas, ids[p])
        } by {
            if must_record(latest_rank(history, ids[p], category), (p + 1) as u32) {
                lemma_changed_item_recorded_once(history, category, ids, ts, p);
            } else {
                lemma_unchanged_item_not_recorded(history, category, ids, ts, p);
            }
        }
    }
}

/// A snapshot in which no position must be recorded adds nothing.
pub proof fn lemma_nothing_recorded(
    history: Seq<ItemRank>,
    category: ListCategory,
    ids: Seq<u32>,
    ts: Timestamp,
    n: nat,
)
    requires
        n <= ids.len(),
        forall|p: int|
            0 <= p < n ==> !must_record(
                latest_rank(history, #[trigger] ids[p], category),
                (p + 1) as u32,
            ),
    ensures
        rank_deltas_upto(history, category, ids, ts, n) == Seq::<ItemRank>::empty(),
    decreases n,
{
    if n > 0 {
        lemma_nothing_recorded(history, category, ids, ts, (n - 1) as nat);
        assert(!must_record(latest_rank(history, ids[n - 1], category), n as u32));
    }
}

/// The history grows with churn only: once the deltas of a snapshot are
/// appended, the same snapshot, observed again at any later moment, adds no
/// record. The snapshot must name no item twice, and its observation must
/// not be older than a record that the history has of the category.
pub proof fn lemma_unchanged_snapshot_records_nothing(
    history: Seq<ItemRank>,
    category: ListCategory,
    ids: Seq<u32>,
    ts: Timestamp,
    later: Timestamp,
)
    requires
        ids.len() <= u32::MAX,
        ids.no_duplicates(),
        forall|i: int|
            0 <= i < history.len() && (#[trigger] history[i]).category == category
                ==> history[i].ts.micros <= ts.micros,
    ensures
        rank_deltas(history + rank_deltas(history, category, ids, ts), category, ids, later)
            == Seq::<ItemRank>::empty(),
{
    let deltas = rank_deltas(history, category, ids, ts);
    let grown = history + deltas;
    lemma_rank_deltas_shape(history, category, ids, ts, ids.len());
    assert forall|p: int| 0 <= p < ids.len() implies !must_record(
        latest_rank(grown, #[trigger] ids[p], category),
        (p + 1) as u32,
    ) by {
        lemma_latest_rank_after_append(history, deltas, ids[p], category);
        lemma_latest_rank(deltas, ids[p], category);
        lemma_latest_rank(history, ids[p], category);
        if latest_rank(deltas, ids[p], category) is Some {
            let record = latest_rank(deltas, ids[p], category).unwrap();
            let k = choose|k: int|
                0 <= k < deltas.len() && #[trigger] deltas[k] == record && observes(
                    record,
                    ids[p],
                    category,
                );
            assert(deltas[k].id == ids[deltas[k].rank - 1]);
            assert(deltas[k].rank - 1 == p);
            assert(record.ts == ts);
        } else {
            if must_record(latest_rank(history, ids[p], category), (p + 1) as u32) {
                let wanted = observation(ids[p], p, category, ts);
                assert(deltas.contains(wanted));
                let k = choose|k: int| 0 <= k < deltas.len() && deltas[k] == wanted;
                assert(observes(deltas[k], ids[p], category));
            }
        }
    }
    lemma_nothing_recorded(grown, category, ids, later, ids.len());
}

} // verus!
