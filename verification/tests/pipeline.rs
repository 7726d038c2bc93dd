use feed_mirror::capabilities::{
    FetchItems, FetchList, FetchUpdates, LoadConfigValue, LoadItem, LoadItemRanks, LoadItems,
    LoadLatestItemRank, LoadList, PortError, ReplaceList, Ports, StoreConfigValue, StoreItem,
    StoreItemRanks, StoreItems, StoreList,
};
use feed_mirror::cron::{run_once, BACKFILL_BATCH, CYCLE_PAUSE_SECS};
use feed_mirror::domain::{ItemRank, ListCategory, Timestamp};
use feed_mirror::item::{Item, Story};
use feed_mirror::memory::MemoryStore;
use feed_mirror::world::World;
use feed_mirror::use_cases::backfill_items::{self, backfill_range, load_cursor, sweep};
use feed_mirror::use_cases::download_lists::{
    self, fetch_and_store, fetch_and_store_at, store_window, top_window, WINDOW,
};
use feed_mirror::use_cases::poll_for_updates::{self, refresh};
use std::cell::RefCell;

fn story(id: u32, title: &str) -> Item {
    Item::Story(Story {
        id,
        by: "someone".to_string(),
        descendants: 0,
        kids: None,
        score: 1,
        title: title.to_string(),
        url: None,
        text: None,
        time: Timestamp { micros: 0 },
    })
}

fn fresh(id: u32) -> Item {
    story(id, &format!("fresh {}", id))
}

/// A memory store together with a scripted remote source. Every port call is
/// written to `calls`; a port whose name is in `failing` reports a fault
/// instead of doing its work.
struct Rig {
    store: MemoryStore,
    feed: Vec<(ListCategory, Vec<u32>)>,
    gone: Vec<u32>,
    changed: Vec<u32>,
    failing: Vec<String>,
    calls: RefCell<Vec<String>>,
}

impl Rig {
    fn new() -> Rig {
        Rig {
            store: MemoryStore::new(),
            feed: vec![],
            gone: vec![],
            changed: vec![],
            failing: vec![],
            calls: RefCell::new(vec![]),
        }
    }

    fn enter(&self, port: &str, detail: String) -> Result<(), PortError> {
        self.calls.borrow_mut().push(format!("{} {}", port, detail));
        if self.failing.iter().any(|name| name == port || *name == format!("{} {}", port, detail)) {
            Err(PortError::new(port))
        } else {
            Ok(())
        }
    }

    fn calls_of(&self, port: &str) -> Vec<String> {
        let prefix = format!("{} ", port);
        self.calls.borrow().iter().filter(|call| call.starts_with(&prefix)).cloned().collect()
    }

    fn list(&self, category: ListCategory) -> Vec<u32> {
        self.store.load_list(category).unwrap()
    }

    fn title(&self, id: u32) -> Option<String> {
        self.store.load_item(id).unwrap().map(|item| item.title().unwrap().clone())
    }

    fn ranks(&self, id: u32, category: ListCategory) -> Vec<u32> {
        self.store.load_item_ranks(id, category).unwrap().iter().map(|r| r.rank).collect()
    }

    fn cursor(&self) -> Option<String> {
        self.store.load_config_value("backfill_ptr").unwrap()
    }
}

impl Ports for Rig {
    fn world(&self) -> World {
        unreachable!()
    }
}

impl StoreList for Rig {
    fn store_list(&mut self, category: ListCategory, ids: &[u32]) -> Result<(), PortError> {
        self.enter("store_list", format!("{:?} {:?}", category, ids))?;
        self.store.store_list(category, ids)
    }
}

impl ReplaceList for Rig {
    fn replace_list(&mut self, category: ListCategory, ids: &[u32]) -> Result<(), PortError> {
        self.enter("replace_list", format!("{:?} {:?}", category, ids))?;
        self.store.replace_list(category, ids)
    }
}

impl FetchList for Rig {
    fn fetch_list(&mut self, category: ListCategory) -> Result<Vec<u32>, PortError> {
        self.enter("fetch_list", format!("{:?}", category))?;
        Ok(self
            .feed
            .iter()
            .find(|(listed, _)| *listed == category)
            .map(|(_, ids)| ids.clone())
            .unwrap_or_default())
    }
}

impl FetchItems for Rig {
    fn fetch_items(&mut self, ids: Vec<u32>) -> Result<Vec<Item>, PortError> {
        self.enter("fetch_items", format!("{:?}", ids))?;
        Ok(ids.into_iter().filter(|id| !self.gone.contains(id)).map(fresh).collect())
    }
}

impl FetchUpdates for Rig {
    fn fetch_updates(&mut self) -> Result<Vec<u32>, PortError> {
        self.enter("fetch_updates", String::new())?;
        Ok(self.changed.clone())
    }
}

impl StoreItems for Rig {
    fn store_items(&mut self, items: Vec<Item>) -> Result<(), PortError> {
        let ids: Vec<u32> = items.iter().map(|item| item.id()).collect();
        self.enter("store_items", format!("{:?}", ids))?;
        self.store.store_items(items)
    }
}

impl StoreItemRanks for Rig {
    fn store_item_ranks(&mut self, item_ranks: Vec<ItemRank>) -> Result<(), PortError> {
        self.enter("store_item_ranks", format!("{}", item_ranks.len()))?;
        self.store.store_item_ranks(item_ranks)
    }
}

impl LoadLatestItemRank for Rig {
    fn load_latest_item_rank(
        &self,
        id: u32,
        category: ListCategory,
    ) -> Result<Option<ItemRank>, PortError> {
        self.enter("load_latest_item_rank", format!("{} {:?}", id, category))?;
        self.store.load_latest_item_rank(id, category)
    }
}

impl LoadConfigValue for Rig {
    fn load_config_value(&self, key: &str) -> Result<Option<String>, PortError> {
        self.enter("load_config_value", key.to_string())?;
        self.store.load_config_value(key)
    }
}

impl StoreConfigValue for Rig {
    fn store_config_value(&mut self, key: &str, value: String) -> Result<(), PortError> {
        self.enter("store_config_value", format!("{} {}", key, value))?;
        self.store.store_config_value(key, value)
    }
}

// ---------------------------------------------------------------- lists

#[test]
fn sync_replaces_exactly_the_snapshot_of_its_category() {
    let mut rig = Rig::new();
    rig.store.store_list(ListCategory::Top, &[1, 2]).unwrap();
    rig.store.store_list(ListCategory::New, &[5]).unwrap();

    let ts = Timestamp { micros: 77 };
    assert_eq!(fetch_and_store_at(&mut rig, vec![10, 20, 30], ListCategory::Top, ts), Ok(()));

    assert_eq!(rig.list(ListCategory::Top), vec![10, 20, 30]);
    assert_eq!(rig.list(ListCategory::New), vec![5]);
    assert_eq!(rig.list(ListCategory::Best), Vec::<u32>::new());
    assert_eq!(rig.calls_of("fetch_items"), vec!["fetch_items [10, 20, 30]"]);
    assert_eq!(rig.title(10), Some("fresh 10".to_string()));
    assert_eq!(rig.title(20), Some("fresh 20".to_string()));
    assert_eq!(rig.title(30), Some("fresh 30".to_string()));
    assert_eq!(
        rig.store.load_item_ranks(20, ListCategory::Top).unwrap(),
        vec![ItemRank { id: 20, rank: 2, category: ListCategory::Top, ts }]
    );
    assert_eq!(rig.cursor(), None);
}

#[test]
fn sync_follows_only_the_first_thirty() {
    let mut rig = Rig::new();
    let ids: Vec<u32> = (1..=35).collect();
    assert_eq!(fetch_and_store(&mut rig, ids, ListCategory::Best), Ok(()));

    let window: Vec<u32> = (1..=30).collect();
    assert_eq!(WINDOW, 30);
    assert_eq!(rig.list(ListCategory::Best), window);
    assert_eq!(rig.calls_of("fetch_items"), vec![format!("fetch_items {:?}", window)]);
    assert_eq!(rig.calls_of("load_latest_item_rank").len(), 30);
    assert_eq!(rig.ranks(30, ListCategory::Best), vec![30]);
    assert_eq!(rig.ranks(31, ListCategory::Best), Vec::<u32>::new());
    assert_eq!(rig.title(31), None);
}

#[test]
fn top_window_keeps_short_lists_whole() {
    assert_eq!(top_window(vec![]), Vec::<u32>::new());
    assert_eq!(top_window(vec![3, 1, 2]), vec![3, 1, 2]);
    let thirty: Vec<u32> = (0..30).collect();
    assert_eq!(top_window(thirty.clone()), thirty);
    let more: Vec<u32> = (0..31).collect();
    assert_eq!(top_window(more), thirty);
}

#[test]
fn an_item_that_cannot_be_fetched_is_left_out_silently() {
    let mut rig = Rig::new();
    rig.gone = vec![20];
    assert_eq!(fetch_and_store(&mut rig, vec![10, 20, 30], ListCategory::Top), Ok(()));
    assert_eq!(rig.list(ListCategory::Top), vec![10, 20, 30]);
    assert_eq!(rig.calls_of("store_items"), vec!["store_items [10, 30]"]);
    assert_eq!(rig.title(20), None);
    assert_eq!(rig.ranks(20, ListCategory::Top), vec![2]);
}

#[test]
fn a_second_sync_records_only_what_moved() {
    let mut rig = Rig::new();
    fetch_and_store(&mut rig, vec![10, 20, 30], ListCategory::Top).unwrap();
    fetch_and_store(&mut rig, vec![10, 20, 30], ListCategory::Top).unwrap();
    assert_eq!(rig.ranks(10, ListCategory::Top), vec![1]);
    assert_eq!(rig.calls_of("store_item_ranks"), vec!["store_item_ranks 3", "store_item_ranks 0"]);

    fetch_and_store(&mut rig, vec![30, 10, 40], ListCategory::Top).unwrap();
    assert_eq!(rig.ranks(10, ListCategory::Top), vec![1, 2]);
    assert_eq!(rig.ranks(20, ListCategory::Top), vec![2]);
    assert_eq!(rig.ranks(30, ListCategory::Top), vec![3, 1]);
    assert_eq!(rig.ranks(40, ListCategory::Top), vec![3]);
    assert_eq!(rig.list(ListCategory::Top), vec![30, 10, 40]);
}

#[test]
fn a_fault_before_the_swap_leaves_the_store_untouched() {
    for port in ["load_latest_item_rank", "fetch_items", "replace_list"] {
        let mut rig = Rig::new();
        rig.store.store_list(ListCategory::Top, &[1, 2]).unwrap();
        rig.failing = vec![port.to_string()];
        let got = fetch_and_store(&mut rig, vec![10, 20], ListCategory::Top);
        assert_eq!(got, Err(PortError::new(port)));
        assert_eq!(rig.list(ListCategory::Top), vec![1, 2]);
        assert_eq!(rig.title(10), None);
        assert_eq!(rig.ranks(10, ListCategory::Top), Vec::<u32>::new());
        assert_eq!(rig.calls_of("store_item_ranks").len(), 0);
    }
}

#[test]
fn a_fault_after_the_swap_leaves_the_whole_new_snapshot() {
    let mut rig = Rig::new();
    rig.store.store_list(ListCategory::Top, &[1, 2]).unwrap();
    rig.failing = vec!["store_items".to_string()];
    let got = fetch_and_store(&mut rig, vec![10, 20], ListCategory::Top);
    assert_eq!(got, Err(PortError::new("store_items")));
    assert_eq!(rig.list(ListCategory::Top), vec![10, 20]);
    assert_eq!(rig.title(10), None);
    assert_eq!(rig.ranks(10, ListCategory::Top), Vec::<u32>::new());

    let mut rig = Rig::new();
    rig.failing = vec!["store_item_ranks".to_string()];
    let got = fetch_and_store(&mut rig, vec![10, 20], ListCategory::Top);
    assert_eq!(got, Err(PortError::new("store_item_ranks")));
    assert_eq!(rig.list(ListCategory::Top), vec![10, 20]);
    assert_eq!(rig.title(10), Some("fresh 10".to_string()));
    assert_eq!(rig.ranks(10, ListCategory::Top), Vec::<u32>::new());
}

#[test]
fn run_synchronizes_every_category_in_order() {
    let mut rig = Rig::new();
    rig.feed = vec![
        (ListCategory::Top, vec![1, 2]),
        (ListCategory::New, vec![3]),
        (ListCategory::Best, vec![2, 1]),
        (ListCategory::Ask, vec![]),
        (ListCategory::Show, vec![4]),
        (ListCategory::Job, vec![5]),
    ];
    assert_eq!(download_lists::run(&mut rig), Ok(()));
    assert_eq!(
        rig.calls_of("fetch_list"),
        vec![
            "fetch_list Top",
            "fetch_list New",
            "fetch_list Best",
            "fetch_list Ask",
            "fetch_list Show",
            "fetch_list Job",
        ]
    );
    assert_eq!(rig.list(ListCategory::Top), vec![1, 2]);
    assert_eq!(rig.list(ListCategory::Best), vec![2, 1]);
    assert_eq!(rig.list(ListCategory::Job), vec![5]);
    assert_eq!(rig.ranks(1, ListCategory::Top), vec![1]);
    assert_eq!(rig.ranks(1, ListCategory::Best), vec![2]);
    assert_eq!(rig.cursor(), None);
}

#[test]
fn a_fault_in_one_category_does_not_stop_the_others() {
    let mut rig = Rig::new();
    rig.feed = vec![
        (ListCategory::Top, vec![1]),
        (ListCategory::New, vec![2]),
        (ListCategory::Best, vec![3]),
        (ListCategory::Job, vec![6]),
    ];
    rig.failing = vec!["fetch_list New".to_string(), "replace_list Job [6]".to_string()];
    let got = download_lists::run(&mut rig);
    assert_eq!(got, Err(PortError::new("fetch_list")));
    assert_eq!(rig.calls_of("fetch_list").len(), 6);
    assert_eq!(rig.list(ListCategory::Top), vec![1]);
    assert_eq!(rig.list(ListCategory::New), Vec::<u32>::new());
    assert_eq!(rig.list(ListCategory::Best), vec![3]);
    assert_eq!(rig.list(ListCategory::Job), Vec::<u32>::new());
    assert_eq!(rig.title(3), Some("fresh 3".to_string()));
}

#[test]
fn an_empty_list_is_still_fetched_and_stored() {
    let mut rig = Rig::new();
    rig.store.store_list(ListCategory::Top, &[1, 2]).unwrap();
    rig.failing = vec!["load_latest_item_rank".to_string()];
    assert_eq!(fetch_and_store(&mut rig, vec![], ListCategory::Top), Ok(()));
    assert_eq!(rig.calls_of("load_latest_item_rank").len(), 0);
    assert_eq!(rig.calls_of("fetch_items"), vec!["fetch_items []"]);
    assert_eq!(rig.list(ListCategory::Top), Vec::<u32>::new());
    assert_eq!(rig.calls_of("store_item_ranks"), vec!["store_item_ranks 0"]);
}

#[test]
fn store_window_appends_the_records_it_is_given() {
    let mut rig = Rig::new();
    let ts = Timestamp { micros: 5 };
    let records = vec![ItemRank { id: 20, rank: 2, category: ListCategory::Show, ts }];
    let got = store_window(&mut rig, vec![10, 20], ListCategory::Show, records.clone());
    assert_eq!(got, Ok(()));
    assert_eq!(rig.calls_of("load_latest_item_rank").len(), 0);
    assert_eq!(rig.calls_of("fetch_items"), vec!["fetch_items [10, 20]"]);
    assert_eq!(rig.list(ListCategory::Show), vec![10, 20]);
    assert_eq!(rig.title(10), Some("fresh 10".to_string()));
    assert_eq!(rig.store.load_item_ranks(20, ListCategory::Show).unwrap(), records);
    assert_eq!(rig.ranks(10, ListCategory::Show), Vec::<u32>::new());

    let mut rig = Rig::new();
    rig.failing = vec!["fetch_items".to_string()];
    let got = store_window(&mut rig, vec![10], ListCategory::Show, records);
    assert_eq!(got, Err(PortError::new("fetch_items")));
    assert_eq!(rig.calls_of("fetch_items"), vec!["fetch_items [10]"]);
    assert_eq!(rig.list(ListCategory::Show), Vec::<u32>::new());
}

// ------------------------------------------------------------- backfill

#[test]
fn sweep_starts_at_the_cursor_it_is_given() {
    let mut rig = Rig::new();
    rig.store.store_config_value("backfill_ptr", "500".to_string()).unwrap();
    assert_eq!(sweep(&mut rig, 7, 3), Ok(()));
    assert_eq!(rig.calls_of("load_config_value").len(), 0);
    assert_eq!(rig.calls_of("fetch_items"), vec!["fetch_items [7, 8, 9, 10]"]);
    assert_eq!(rig.calls_of("store_items"), vec!["store_items [7, 8, 9, 10]"]);
    assert_eq!(rig.cursor(), Some("10".to_string()));

    rig.failing = vec!["fetch_items".to_string()];
    assert_eq!(sweep(&mut rig, 10, 3), Err(PortError::new("fetch_items")));
    assert_eq!(rig.calls_of("fetch_items")[1], "fetch_items [10, 11, 12, 13]");
    assert_eq!(rig.cursor(), Some("10".to_string()));
}

#[test]
fn backfill_range_is_inclusive_at_both_ends() {
    assert_eq!(backfill_range(0, 10), (0..=10).collect::<Vec<u32>>());
    assert_eq!(backfill_range(10, 10), (10..=20).collect::<Vec<u32>>());
    assert_eq!(backfill_range(7, 0), vec![7]);
    assert_eq!(
        backfill_range(u32::MAX - 2, 10),
        vec![u32::MAX - 2, u32::MAX - 1, u32::MAX]
    );
    assert_eq!(backfill_range(u32::MAX, u32::MAX), vec![u32::MAX]);
}

#[test]
fn backfill_starts_at_zero_and_overlaps_by_one() {
    let mut rig = Rig::new();
    assert_eq!(load_cursor(&rig), Ok(0));

    assert_eq!(backfill_items::run(&mut rig, 10), Ok(()));
    let first: Vec<u32> = (0..=10).collect();
    assert_eq!(first.len(), 11);
    assert_eq!(rig.calls_of("fetch_items"), vec![format!("fetch_items {:?}", first)]);
    assert_eq!(rig.cursor(), Some("10".to_string()));
    assert_eq!(load_cursor(&rig), Ok(10));
    assert_eq!(rig.title(0), Some("fresh 0".to_string()));
    assert_eq!(rig.title(10), Some("fresh 10".to_string()));
    assert_eq!(rig.title(11), None);

    assert_eq!(backfill_items::run(&mut rig, 10), Ok(()));
    let second: Vec<u32> = (10..=20).collect();
    assert_eq!(rig.calls_of("fetch_items")[1], format!("fetch_items {:?}", second));
    assert_eq!(rig.cursor(), Some("20".to_string()));
    assert_eq!(rig.title(20), Some("fresh 20".to_string()));
}

#[test]
fn backfill_of_the_same_batch_twice_stores_the_same_items() {
    let mut rig = Rig::new();
    backfill_items::run(&mut rig, 10).unwrap();
    let ids: Vec<u32> = (0..=10).collect();
    let once = rig.store.load_items(ids.clone()).unwrap();
    assert_eq!(once.len(), 11);

    rig.store.store_config_value("backfill_ptr", "0".to_string()).unwrap();
    assert_eq!(backfill_items::run(&mut rig, 10), Ok(()));
    let twice = rig.store.load_items(ids).unwrap();
    assert_eq!(twice, once);
    assert_eq!(rig.cursor(), Some("10".to_string()));
}

#[test]
fn a_failed_backfill_does_not_move_the_cursor() {
    for port in ["load_config_value", "fetch_items", "store_items", "store_config_value"] {
        let mut rig = Rig::new();
        rig.store.store_config_value("backfill_ptr", "40".to_string()).unwrap();
        rig.failing = vec![port.to_string()];
        assert_eq!(backfill_items::run(&mut rig, 5), Err(PortError::new(port)));
        assert_eq!(rig.cursor(), Some("40".to_string()));

        rig.failing = vec![];
        assert_eq!(backfill_items::run(&mut rig, 5), Ok(()));
        assert_eq!(
            rig.calls_of("fetch_items").last().unwrap(),
            "fetch_items [40, 41, 42, 43, 44, 45]"
        );
        assert_eq!(rig.cursor(), Some("45".to_string()));
    }
}

#[test]
fn backfill_rejects_a_cursor_that_is_no_number() {
    let mut rig = Rig::new();
    rig.store.store_config_value("backfill_ptr", "\"ten\"".to_string()).unwrap();
    assert!(load_cursor(&rig).is_err());
    assert!(backfill_items::run(&mut rig, 10).is_err());
    assert_eq!(rig.calls_of("fetch_items").len(), 0);
    assert_eq!(rig.cursor(), Some("\"ten\"".to_string()));
}

#[test]
fn backfill_stops_at_the_end_of_the_identifier_space() {
    let mut rig = Rig::new();
    rig.store.store_config_value("backfill_ptr", "4294967293".to_string()).unwrap();
    assert_eq!(backfill_items::run(&mut rig, 10), Ok(()));
    assert_eq!(
        rig.calls_of("fetch_items"),
        vec!["fetch_items [4294967293, 4294967294, 4294967295]"]
    );
    assert_eq!(rig.cursor(), Some("4294967295".to_string()));
}

#[test]
fn backfill_stores_exactly_what_was_fetched() {
    let mut rig = Rig::new();
    rig.gone = vec![2, 3];
    rig.store.store_item(story(3, "stale 3")).unwrap();
    assert_eq!(sweep(&mut rig, 1, 4), Ok(()));
    assert_eq!(rig.calls_of("fetch_items"), vec!["fetch_items [1, 2, 3, 4, 5]"]);
    assert_eq!(rig.calls_of("store_items"), vec!["store_items [1, 4, 5]"]);
    assert_eq!(rig.store.load_item(1).unwrap(), Some(fresh(1)));
    assert_eq!(rig.store.load_item(2).unwrap(), None);
    assert_eq!(rig.store.load_item(3).unwrap(), Some(story(3, "stale 3")));
    assert_eq!(rig.store.load_item(5).unwrap(), Some(fresh(5)));
}

// ----------------------------------------------------------------- poll

#[test]
fn poll_refreshes_exactly_the_changed_items() {
    let mut rig = Rig::new();
    rig.store.store_item(story(5, "stale 5")).unwrap();
    rig.store.store_item(story(7, "stale 7")).unwrap();
    rig.store.store_list(ListCategory::Top, &[5, 7]).unwrap();
    rig.changed = vec![5, 9];

    assert_eq!(poll_for_updates::run(&mut rig), Ok(()));

    assert_eq!(rig.calls_of("fetch_items"), vec!["fetch_items [5, 9]"]);
    assert_eq!(rig.calls_of("store_items"), vec!["store_items [5, 9]"]);
    assert_eq!(rig.title(5), Some("fresh 5".to_string()));
    assert_eq!(rig.title(9), Some("fresh 9".to_string()));
    assert_eq!(rig.title(7), Some("stale 7".to_string()));
    assert_eq!(rig.list(ListCategory::Top), vec![5, 7]);
    assert_eq!(rig.cursor(), None);
}

#[test]
fn refresh_overwrites_and_never_merges() {
    let mut rig = Rig::new();
    rig.store.store_item(story(5, "stale 5")).unwrap();
    assert_eq!(refresh(&mut rig, vec![5, 5]), Ok(()));
    assert_eq!(rig.store.load_item(5).unwrap(), Some(fresh(5)));
    assert_eq!(rig.store.load_items(vec![5, 6, 5]).unwrap(), vec![fresh(5), fresh(5)]);
}

#[test]
fn a_failed_poll_touches_nothing() {
    for port in ["fetch_updates", "fetch_items", "store_items"] {
        let mut rig = Rig::new();
        rig.store.store_item(story(5, "stale 5")).unwrap();
        rig.changed = vec![5];
        rig.failing = vec![port.to_string()];
        assert_eq!(poll_for_updates::run(&mut rig), Err(PortError::new(port)));
        assert_eq!(rig.title(5), Some("stale 5".to_string()));
    }
}

// ---------------------------------------------------------------- cycle

#[test]
fn a_cycle_runs_the_three_tasks_in_order() {
    let mut rig = Rig::new();
    rig.feed = vec![(ListCategory::Top, vec![100])];
    rig.changed = vec![100, 200];
    let report = run_once(&mut rig);
    assert!(report.is_ok());
    assert_eq!(BACKFILL_BATCH, 10);
    assert_eq!(CYCLE_PAUSE_SECS, 20);

    let fetches = rig.calls_of("fetch_items");
    assert_eq!(fetches.len(), 8);
    assert_eq!(fetches[0], "fetch_items [100]");
    assert_eq!(fetches[6], format!("fetch_items {:?}", (0..=10).collect::<Vec<u32>>()));
    assert_eq!(fetches[7], "fetch_items [100, 200]");
    assert_eq!(rig.list(ListCategory::Top), vec![100]);
    assert_eq!(rig.cursor(), Some("10".to_string()));
    assert_eq!(rig.title(200), Some("fresh 200".to_string()));
}

#[test]
fn a_failed_list_synchronization_does_not_stop_backfill_and_poll() {
    let mut rig = Rig::new();
    rig.feed = vec![(ListCategory::Top, vec![100])];
    rig.changed = vec![200];
    rig.failing = vec!["fetch_list".to_string()];

    let report = run_once(&mut rig);

    assert_eq!(report.lists, Err(PortError::new("fetch_list")));
    assert_eq!(report.backfill, Ok(()));
    assert_eq!(report.updates, Ok(()));
    assert!(!report.is_ok());
    assert_eq!(rig.list(ListCategory::Top), Vec::<u32>::new());
    assert_eq!(rig.cursor(), Some("10".to_string()));
    assert_eq!(rig.title(3), Some("fresh 3".to_string()));
    assert_eq!(rig.title(200), Some("fresh 200".to_string()));
    assert_eq!(rig.calls_of("fetch_updates").len(), 1);
}

#[test]
fn a_failed_backfill_does_not_stop_the_poll() {
    let mut rig = Rig::new();
    rig.feed = vec![(ListCategory::Top, vec![100])];
    rig.changed = vec![200];
    rig.failing = vec!["store_config_value".to_string()];

    let report = run_once(&mut rig);

    assert_eq!(report.lists, Ok(()));
    assert_eq!(report.backfill, Err(PortError::new("store_config_value")));
    assert_eq!(report.updates, Ok(()));
    assert_eq!(rig.cursor(), None);
    assert_eq!(rig.title(200), Some("fresh 200".to_string()));

    rig.failing = vec![];
    let report = run_once(&mut rig);
    assert!(report.is_ok());
    assert_eq!(rig.cursor(), Some("10".to_string()));
}

#[test]
fn a_synchronization_is_stamped_with_the_time_of_the_call() {
    let before = chrono::Utc::now().timestamp_micros();
    let mut rig = Rig::new();
    fetch_and_store(&mut rig, vec![10], ListCategory::Top).unwrap();
    let after = chrono::Utc::now().timestamp_micros();
    let recorded = rig.store.load_item_ranks(10, ListCategory::Top).unwrap();
    assert_eq!(recorded.len(), 1);
    assert!(before <= recorded[0].ts.micros && recorded[0].ts.micros <= after);
    assert!(recorded[0].ts.micros > 1_577_836_800_000_000);
}
