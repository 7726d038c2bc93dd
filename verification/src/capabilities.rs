use vstd::prelude::*;
use vstd::string::StringExecFns;
use crate::domain::{ItemRank, ListCategory};
use crate::item::{item_views, Item, ItemView};
use crate::world::{held_items, latest_rank, observes, Answer, Request, World};

verus! {

/// A storage or transport fault reported by a port. It fails the one call
/// that met it and is never fatal for the process.
#[derive(Debug, Clone, PartialEq, Eq)]
pub struct PortError {
    pub cause: String,
}

impl PortError {
    /// A fault with the given description of its cause.
    pub fn new(cause: &str) -> (r: PortError)
        ensures
            r.cause@ == cause@,
    {
        PortError { cause: String::from_str(cause) }
    }
}

/// Whether every one of `items` answers a request for one of `ids`.
pub open spec fn fetched_for(items: Seq<ItemView>, ids: Seq<u32>) -> bool {
    forall|i: int| 0 <= i < items.len() ==> ids.contains(#[trigger] items[i].id)
}

/// The common ground of all ports: the durable store and the remote source
/// that they act on. What one port writes, another reads.
///
/// The contracts of the ports are demands on whoever implements them. A
/// write to the store either takes effect as a whole or reports a fault and
/// leaves the store as it was; a read reports what the store holds or a
/// fault. A fetch makes its one request of the remote source, whatever
/// becomes of it, hands back the answer it got, and leaves the store alone;
/// what the remote source answers is its own affair. No port is ever bound
/// to succeed.
pub trait Ports {
    /// The content of the store and the requests made so far.
    spec fn world(&self) -> World;
}

/// Writes the snapshot of a category.
pub trait StoreList: Ports {
    fn store_list(&mut self, category: ListCategory, ids: &[u32]) -> (r: Result<(), PortError>)
        ensures
            r is Ok ==> final(self).world() == old(self).world().with_list(category, ids@),
            r is Err ==> final(self).world() == old(self).world(),
    ;
}

/// Replaces the snapshot of a category in one step: the old membership is
/// discarded and the new one put in its place, or nothing changes.
pub trait ReplaceList: Ports {
    fn replace_list(&mut self, category: ListCategory, ids: &[u32]) -> (r: Result<(), PortError>)
        ensures
            r is Ok ==> final(self).world() == old(self).world().with_list(category, ids@),
            r is Err ==> final(self).world() == old(self).world(),
    ;
}

/// Reads the snapshot of a category.
pub trait LoadList: Ports {
    fn load_list(&self, category: ListCategory) -> (r: Result<Vec<u32>, PortError>)
        ensures
            r matches Ok(ids) ==> ids@ == self.world().list(category),
    ;
}

/// Fetches the current ranked list of a category from the remote source.
pub trait FetchList: Ports {
    fn fetch_list(&mut self, category: ListCategory) -> (r: Result<Vec<u32>, PortError>)
        ensures
            r matches Ok(ids) ==> final(self).world() == old(self).world().asking(
                Request::List(category),
            ).answered(Answer::List(ids@)),
            r is Err ==> final(self).world() == old(self).world().asking(Request::List(category)),
    ;
}

/// Reads the stored bodies of several items.
pub trait LoadItems: Ports {
    fn load_items(&self, ids: Vec<u32>) -> (r: Result<Vec<Item>, PortError>)
        ensures
            r matches Ok(items) ==> item_views(items@) == held_items(self.world().items, ids@),
    ;
}

/// Reads the stored body of one item.
pub trait LoadItem: Ports {
    fn load_item(&self, id: u32) -> (r: Result<Option<Item>, PortError>)
        ensures
            r matches Ok(Some(item)) ==> self.world().item(id) == Some(item@),
            r matches Ok(None) ==> self.world().item(id) is None,
    ;
}

/// Writes the bodies of several items over whatever was stored for them.
pub trait StoreItems: Ports {
    fn store_items(&mut self, items: Vec<Item>) -> (r: Result<(), PortError>)
        ensures
            r is Ok ==> final(self).world() == old(self).world().with_items(item_views(items@)),
            r is Err ==> final(self).world() == old(self).world(),
    ;
}

/// Writes the body of one item over whatever was stored for it.
pub trait StoreItem: Ports {
    fn store_item(&mut self, item: Item) -> (r: Result<(), PortError>)
        ensures
            r is Ok ==> final(self).world() == old(self).world().with_items(seq![item@]),
            r is Err ==> final(self).world() == old(self).world(),
    ;
}

/// Fetches one item from the remote source; `None` where it has no such item.
pub trait FetchItem: Ports {
    fn fetch_item(&mut self, id: u32) -> (r: Result<Option<Item>, PortError>)
        ensures
            r matches Ok(Some(item)) ==> item@.id == id && final(self).world() == old(
                self,
            ).world().asking(Request::Item(id)).answered(Answer::Item(Some(item@))),
            r matches Ok(None) ==> final(self).world() == old(self).world().asking(
                Request::Item(id),
            ).answered(Answer::Item(None)),
            r is Err ==> final(self).world() == old(self).world().asking(Request::Item(id)),
    ;
}

/// Fetches several items from the remote source. An identifier that cannot
/// be had is left out of the answer and is no fault.
pub trait FetchItems: Ports {
    fn fetch_items(&mut self, ids: Vec<u32>) -> (r: Result<Vec<Item>, PortError>)
        ensures
            r matches Ok(items) ==> fetched_for(item_views(items@), ids@) && final(self).world()
                == old(self).world().asking(Request::Items(ids@)).answered(
                Answer::Items(item_views(items@)),
            ),
            r is Err ==> final(self).world() == old(self).world().asking(Request::Items(ids@)),
    ;
}

/// Fetches from the remote source the identifiers it reports as recently
/// changed.
pub trait FetchUpdates: Ports {
    fn fetch_updates(&mut self) -> (r: Result<Vec<u32>, PortError>)
        ensures
            r matches Ok(ids) ==> final(self).world() == old(self).world().asking(
                Request::Updates,
            ).answered(Answer::Updates(ids@)),
            r is Err ==> final(self).world() == old(self).world().asking(Request::Updates),
    ;
}

/// Appends observations to the rank history.
pub trait StoreItemRanks: Ports {
    fn store_item_ranks(&mut self, item_ranks: Vec<ItemRank>) -> (r: Result<(), PortError>)
        ensures
            r is Ok ==> final(self).world() == old(self).world().with_ranks(item_ranks@),
            r is Err ==> final(self).world() == old(self).world(),
    ;
}

/// Reads every observation of an item in a category, in no promised order.
pub trait LoadItemRanks: Ports {
    fn load_item_ranks(&self, id: u32, category: ListCategory) -> (r: Result<
        Vec<ItemRank>,
        PortError,
    >)
        ensures
            r matches Ok(records) ==> records@.to_multiset() == self.world().ranks.filter(
                |record: ItemRank| observes(record, id, category),
            ).to_multiset(),
    ;
}

/// Reads the most recent observation of an item in a category.
pub trait LoadLatestItemRank: Ports {
    fn load_latest_item_rank(&self, id: u32, category: ListCategory) -> (r: Result<
        Option<ItemRank>,
        PortError,
    >)
        ensures
            r matches Ok(record) ==> record == latest_rank(self.world().ranks, id, category),
    ;
}

/// Puts a serialized payload under a configuration key; the last write wins.
pub trait StoreConfigValue: Ports {
    fn store_config_value(&mut self, key: &str, value: String) -> (r: Result<(), PortError>)
        ensures
            r is Ok ==> final(self).world() == old(self).world().with_config(key@, value@),
            r is Err ==> final(self).world() == old(self).world(),
    ;
}

/// Reads the serialized payload under a configuration key.
pub trait LoadConfigValue: Ports {
    fn load_config_value(&self, key: &str) -> (r: Result<Option<String>, PortError>)
        ensures
            r matches Ok(Some(payload)) ==> self.world().config_value(key@) == Some(payload@),
            r matches Ok(None) ==> self.world().config_value(key@) is None,
    ;
}

} // verus!
