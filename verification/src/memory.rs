use vstd::prelude::*;
use vstd::slice::slice_to_vec;
use vstd::string::StringExecFns;
use crate::capabilities::{
    LoadConfigValue, LoadItem, LoadItemRanks, LoadItems, LoadLatestItemRank, LoadList, PortError,
    ReplaceList, Ports, StoreConfigValue, StoreItem, StoreItemRanks, StoreItems, StoreList,
};
use crate::domain::{ItemRank, ListCategory};
use crate::item::{item_views, Item};
use crate::world::{
    held_items, latest_rank, lemma_last_written, lemma_last_written_at,
    lemma_store_all_concat, lemma_store_all_lookup, observes, store_all, World,
};

verus! {

/// The map that a log of writes leaves behind: each key holds the value of
/// the last write to it.
pub open spec fn replay<K, V>(writes: Seq<(K, V)>) -> Map<K, V>
    decreases writes.len(),
{
    if writes.len() == 0 {
        Map::empty()
    } else {
        replay(writes.drop_last()).insert(writes.last().0, writes.last().1)
    }
}

/// A key that no write names holds nothing.
pub proof fn lemma_replay_absent<K, V>(writes: Seq<(K, V)>, key: K)
    requires
        forall|j: int| 0 <= j < writes.len() ==> (#[trigger] writes[j]).0 != key,
    ensures
        !replay(writes).contains_key(key),
    decreases writes.len(),
{
    if writes.len() > 0 {
        let earlier = writes.drop_last();
        assert(writes.last() == writes[writes.len() - 1]);
        assert forall|j: int| 0 <= j < earlier.len() implies (#[trigger] earlier[j]).0 != key by {
            assert(earlier[j] == writes[j]);
        }
        lemma_replay_absent(earlier, key);
    }
}

/// A key holds the value of the write at `at`, where that write names the
/// key and none after it does.
pub proof fn lemma_replay_last<K, V>(writes: Seq<(K, V)>, key: K, at: int)
    requires
        0 <= at < writes.len(),
        writes[at].0 == key,
        forall|j: int| at < j < writes.len() ==> (#[trigger] writes[j]).0 != key,
    ensures
        replay(writes).contains_key(key),
        replay(writes)[key] == writes[at].1,
    decreases writes.len(),
{
    if at < writes.len() - 1 {
        let earlier = writes.drop_last();
        assert(writes.last() == writes[writes.len() - 1]);
        assert forall|j: int| at < j < earlier.len() implies (#[trigger] earlier[j]).0 != key by {
            assert(earlier[j] == writes[j]);
        }
        lemma_replay_last(earlier, key, at);
    }
}

/// One write of a category's snapshot.
struct ListWrite {
    category: ListCategory,
    ids: Vec<u32>,
}

/// One write of a configuration payload.
struct ConfigWrite {
    key: String,
    payload: String,
}

/// A store that lives in memory and never fails: a stand-in for the durable
/// store behind every storage port. It keeps each table as the log of its
/// writes and answers a read from the last write that matters. It has no
/// remote source, so nothing is ever asked of one or answered.
pub struct MemoryStore {
    lists: Vec<ListWrite>,
    items: Vec<Item>,
    ranks: Vec<ItemRank>,
    config: Vec<ConfigWrite>,
}

spec fn list_writes(log: Seq<ListWrite>) -> Seq<(ListCategory, Seq<u32>)> {
    Seq::new(log.len(), |i: int| (log[i].category, log[i].ids@))
}

spec fn config_writes(log: Seq<ConfigWrite>) -> Seq<(Seq<char>, Seq<char>)> {
    Seq::new(log.len(), |i: int| (log[i].key@, log[i].payload@))
}

impl Ports for MemoryStore {
    closed spec fn world(&self) -> World {
        World {
            lists: replay(list_writes(self.lists@)),
            items: store_all(Map::empty(), item_views(self.items@)),
            ranks: self.ranks@,
            config: replay(config_writes(self.config@)),
            asked: Seq::empty(),
            answers: Seq::empty(),
        }
    }
}

impl MemoryStore {
    /// A store that holds nothing yet.
    pub fn new() -> (r: MemoryStore)
        ensures
            r.world() == World::empty(),
    {
        let r = MemoryStore {
            lists: Vec::new(),
            items: Vec::new(),
            ranks: Vec::new(),
            config: Vec::new(),
        };
        assert(list_writes(r.lists@) =~= Seq::empty());
        assert(config_writes(r.config@) =~= Seq::empty());
        assert(item_views(r.items@) =~= Seq::empty());
        r
    }

    fn write_list(&mut self, category: ListCategory, ids: &[u32])
        ensures
            final(self).world() == old(self).world().with_list(category, ids@),
    {
        self.lists.push(ListWrite { category, ids: slice_to_vec(ids) });
        proof {
            let before = list_writes(old(self).lists@);
            let after = list_writes(self.lists@);
            assert(after.drop_last() =~= before);
            assert(after.last() == (category, ids@));
        }
    }

    fn find_item(&self, id: u32) -> (r: Option<Item>)
        ensures
            match r {
                Some(item) => self.world().item(id) == Some(item@),
                None => self.world().item(id) is None,
            },
    {
        let ghost views = item_views(self.items@);
        let mut i: usize = self.items.len();
        while i > 0
            invariant
                i <= self.items@.len(),
                views == item_views(self.items@),
                forall|j: int| i <= j < views.len() ==> (#[trigger] views[j]).id != id,
            decreases i,
        {
            i -= 1;
            if self.items[i].id() == id {
                let found = self.items[i].duplicate();
                proof {
                    lemma_last_written_at(views, id, i as int);
                    lemma_store_all_lookup(Map::empty(), views, id);
                }
                return Some(found);
            }
        }
        proof {
            lemma_last_written(views, id);
            lemma_store_all_lookup(Map::empty(), views, id);
        }
        None
    }
}

impl StoreList for MemoryStore {
    fn store_list(&mut self, category: ListCategory, ids: &[u32]) -> (r: Result<(), PortError>)
        ensures
            r is Ok,
    {
        self.write_list(category, ids);
        Ok(())
    }
}

impl ReplaceList for MemoryStore {
    fn replace_list(&mut self, category: ListCategory, ids: &[u32]) -> (r: Result<(), PortError>)
        ensures
            r is Ok,
    {
        self.write_list(category, ids);
        Ok(())
    }
}

impl LoadList for MemoryStore {
    fn load_list(&self, category: ListCategory) -> (r: Result<Vec<u32>, PortError>)
        ensures
            r is Ok,
    {
        let ghost writes = list_writes(self.lists@);
        let mut i: usize = self.lists.len();
        while i > 0
            invariant
                i <= self.lists@.len(),
                writes == list_writes(self.lists@),
                forall|j: int| i <= j < writes.len() ==> (#[trigger] writes[j]).0 != category,
            decreases i,
        {
            i -= 1;
            if self.lists[i].category == category {
                proof {
                    lemma_replay_last(writes, category, i as int);
                }
                let ids = self.lists[i].ids.clone();
                assert(ids@ =~= self.lists[i as int].ids@);
                return Ok(ids);
            }
        }
        proof {
            lemma_replay_absent(writes, category);
        }
        Ok(Vec::new())
    }
}

impl StoreItems for MemoryStore {
    fn store_items(&mut self, items: Vec<Item>) -> (r: Result<(), PortError>)
        ensures
            r is Ok,
    {
        let mut items = items;
        let ghost added = item_views(items@);
        let ghost held = item_views(self.items@);
        self.items.append(&mut items);
        proof {
            assert(item_views(self.items@) =~= held + added);
            lemma_store_all_concat(Map::empty(), held, added);
        }
        Ok(())
    }
}

impl StoreItem for MemoryStore {
    fn store_item(&mut self, item: Item) -> (r: Result<(), PortError>)
        ensures
            r is Ok,
    {
        let ghost added = seq![item@];
        let ghost held = item_views(self.items@);
        self.items.push(item);
        proof {
            assert(item_views(self.items@) =~= held + added);
            lemma_store_all_concat(Map::empty(), held, added);
        }
        Ok(())
    }
}

impl LoadItem for MemoryStore {
    fn load_item(&self, id: u32) -> (r: Result<Option<Item>, PortError>)
        ensures
            r is Ok,
    {
        Ok(self.find_item(id))
    }
}

impl LoadItems for MemoryStore {
    fn load_items(&self, ids: Vec<u32>) -> (r: Result<Vec<Item>, PortError>)
        ensures
            r is Ok,
    {
        let mut found: Vec<Item> = Vec::new();
        let mut i: usize = 0;
        assert(ids@.take(0) =~= Seq::empty());
        assert(item_views(found@) =~= Seq::empty());
        while i < ids.len()
            invariant
                i <= ids@.len(),
                item_views(found@) == held_items(self.world().items, ids@.take(i as int)),
            decreases ids@.len() - i,
        {
            let ghost before = item_views(found@);
            proof {
                assert(ids@.take(i + 1).drop_last() =~= ids@.take(i as int));
                assert(ids@.take(i + 1).last() == ids@[i as int]);
            }
            match self.find_item(ids[i]) {
                Some(item) => {
                    let ghost view = item@;
                    found.push(item);
                    assert(item_views(found@) =~= before.push(view));
                },
                None => {},
            }
            i += 1;
        }
        assert(ids@.take(ids@.len() as int) =~= ids@);
        Ok(found)
    }
}

impl StoreItemRanks for MemoryStore {
    fn store_item_ranks(&mut self, item_ranks: Vec<ItemRank>) -> (r: Result<(), PortError>)
        ensures
            r is Ok,
    {
        let mut item_ranks = item_ranks;
        self.ranks.append(&mut item_ranks);
        Ok(())
    }
}

impl LoadItemRanks for MemoryStore {
    fn load_item_ranks(&self, id: u32, category: ListCategory) -> (r: Result<
        Vec<ItemRank>,
        PortError,
    >)
        ensures
            r is Ok,
    {
        let ghost wanted = |record: ItemRank| observes(record, id, category);
        let mut records: Vec<ItemRank> = Vec::new();
        let mut i: usize = 0;
        proof {
            reveal(Seq::filter);
            assert(self.ranks@.take(0) =~= Seq::empty());
        }
        while i < self.ranks.len()
            invariant
                i <= self.ranks@.len(),
                wanted == |record: ItemRank| observes(record, id, category),
                records@ == self.ranks@.take(i as int).filter(wanted),
            decreases self.ranks@.len() - i,
        {
            proof {
                reveal(Seq::filter);
                assert(self.ranks@.take(i + 1).drop_last() =~= self.ranks@.take(i as int));
                assert(self.ranks@.take(i + 1).last() == self.ranks@[i as int]);
            }
            let record = self.ranks[i];
            if record.id == id && record.category == category {
                records.push(record);
            }
            i += 1;
        }
        assert(self.ranks@.take(self.ranks@.len() as int) =~= self.ranks@);
        Ok(records)
    }
}

impl LoadLatestItemRank for MemoryStore {
    fn load_latest_item_rank(&self, id: u32, category: ListCategory) -> (r: Result<
        Option<ItemRank>,
        PortError,
    >)
        ensures
            r is Ok,
    {
        let mut latest: Option<ItemRank> = None;
        let mut i: usize = 0;
        assert(self.ranks@.take(0) =~= Seq::empty());
        while i < self.ranks.len()
            invariant
                i <= self.ranks@.len(),
                latest == latest_rank(self.ranks@.take(i as int), id, category),
            decreases self.ranks@.len() - i,
        {
            proof {
                assert(self.ranks@.take(i + 1).drop_last() =~= self.ranks@.take(i as int));
                assert(self.ranks@.take(i + 1).last() == self.ranks@[i as int]);
            }
            let record = self.ranks[i];
            if record.id == id && record.category == category {
                latest = match latest {
                    Some(found) => if found.ts.micros <= record.ts.micros {
                        Some(record)
                    } else {
                        Some(found)
                    },
                    None => Some(record),
                };
            }
            i += 1;
        }
        assert(self.ranks@.take(self.ranks@.len() as int) =~= self.ranks@);
        Ok(latest)
    }
}

impl StoreConfigValue for MemoryStore {
    fn store_config_value(&mut self, key: &str, value: String) -> (r: Result<(), PortError>)
        ensures
            r is Ok,
    {
        let ghost payload = value@;
        self.config.push(ConfigWrite { key: String::from_str(key), payload: value });
        proof {
            let before = config_writes(old(self).config@);
            let after = config_writes(self.config@);
            assert(after.drop_last() =~= before);
            assert(after.last() == (key@, payload));
        }
        Ok(())
    }
}

impl LoadConfigValue for MemoryStore {
    fn load_config_value(&self, key: &str) -> (r: Result<Option<String>, PortError>)
        ensures
            r is Ok,
    {
        let ghost writes = config_writes(self.config@);
        let wanted = String::from_str(key);
        let mut i: usize = self.config.len();
        while i > 0
            invariant
                i <= self.config@.len(),
                wanted@ == key@,
                writes == config_writes(self.config@),
                forall|j: int| i <= j < writes.len() ==> (#[trigger] writes[j]).0 != key@,
            decreases i,
        {
            i -= 1;
            if self.config[i].key == wanted {
                proof {
                    lemma_replay_last(writes, key@, i as int);
                }
                return Ok(Some(self.config[i].payload.clone()));
            }
        }
        proof {
            lemma_replay_absent(writes, key@);
        }
        Ok(None)
    }
}

} // verus!
