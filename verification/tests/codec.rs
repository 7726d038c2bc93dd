use feed_mirror::capabilities::PortError;
use feed_mirror::decimal::push_decimal;
use feed_mirror::domain::{InvalidListCategory, ItemRank, ListCategory, Timestamp};
use feed_mirror::hn::{
    answer_for, get_url, item_url, max_item_url, present_items, stories_url, updates_url,
    user_url,
};
use feed_mirror::item::{Comment, Item};
use feed_mirror::json::parse_number;
use feed_mirror::rows::{
    list_from_payload, list_payload, rank_from_row, ranks_from_rows, RankRow,
};

fn comment(id: u32) -> Item {
    Item::Comment(Comment {
        id,
        by: "a".to_string(),
        kids: None,
        parent: 1,
        text: "t".to_string(),
        time: Timestamp { micros: 0 },
    })
}

fn decimal(n: u32) -> String {
    let mut out = String::from("#");
    push_decimal(&mut out, n);
    out
}

#[test]
fn push_decimal_appends_the_numeral() {
    assert_eq!(decimal(0), "#0");
    assert_eq!(decimal(7), "#7");
    assert_eq!(decimal(10), "#10");
    assert_eq!(decimal(909), "#909");
    assert_eq!(decimal(1234567890), "#1234567890");
    assert_eq!(decimal(u32::MAX), "#4294967295");
}

#[test]
fn a_list_is_stored_as_a_compact_json_array() {
    assert_eq!(list_payload(&[1, 2, 3]), Ok("[1,2,3]".to_string()));
    assert_eq!(list_payload(&[]), Ok("[]".to_string()));
    assert_eq!(list_payload(&[0]), Ok("[0]".to_string()));
    assert_eq!(list_payload(&[4294967295, 10]), Ok("[4294967295,10]".to_string()));
}

#[test]
fn a_stored_list_is_read_back() {
    assert_eq!(list_from_payload(Some("[1,2,3]".to_string())), vec![1, 2, 3]);
    assert_eq!(list_from_payload(Some("[1, 2, 3]".to_string())), vec![1, 2, 3]);
    assert_eq!(list_from_payload(Some("[]".to_string())), Vec::<u32>::new());
    let ids: Vec<u32> = (0..40).map(|i| i * 1000).collect();
    assert_eq!(list_from_payload(list_payload(&ids).ok()), ids);
}

#[test]
fn a_list_that_cannot_be_read_is_empty() {
    assert_eq!(list_from_payload(None), Vec::<u32>::new());
    assert_eq!(list_from_payload(Some("".to_string())), Vec::<u32>::new());
    assert_eq!(list_from_payload(Some("[1,2".to_string())), Vec::<u32>::new());
    assert_eq!(list_from_payload(Some("[-1]".to_string())), Vec::<u32>::new());
    assert_eq!(list_from_payload(Some("[4294967296]".to_string())), Vec::<u32>::new());
    assert_eq!(list_from_payload(Some("{\"a\":1}".to_string())), Vec::<u32>::new());
}

#[test]
fn parse_number_reads_json_numbers() {
    assert_eq!(parse_number("0"), Some(0));
    assert_eq!(parse_number("42"), Some(42));
    assert_eq!(parse_number("4294967295"), Some(u32::MAX));
    assert_eq!(parse_number(" 42 "), Some(42));
    assert_eq!(parse_number("4294967296"), None);
    assert_eq!(parse_number("-1"), None);
    assert_eq!(parse_number("042"), None);
    assert_eq!(parse_number("4.5"), None);
    assert_eq!(parse_number("null"), None);
    assert_eq!(parse_number(""), None);
}

#[test]
fn a_rank_row_is_read_with_its_category() {
    let ts = Timestamp { micros: 3 };
    let row = |category: &str| RankRow { id: 4, rank: 2, category: category.to_string(), ts };
    assert_eq!(
        rank_from_row(&row("top")),
        Ok(ItemRank { id: 4, rank: 2, category: ListCategory::Top, ts })
    );
    assert_eq!(
        rank_from_row(&row("SHOW")),
        Ok(ItemRank { id: 4, rank: 2, category: ListCategory::Show, ts })
    );
    assert_eq!(rank_from_row(&row("list")), Err(InvalidListCategory));
}

#[test]
fn rows_with_an_unknown_category_are_passed_over() {
    let ts = Timestamp { micros: 3 };
    let row = |id, category: &str| RankRow { id, rank: id + 1, category: category.to_string(), ts };
    let rows = vec![row(1, "job"), row(2, "?"), row(3, "Ask"), row(4, ""), row(5, "job")];
    assert_eq!(
        ranks_from_rows(&rows),
        vec![
            ItemRank { id: 1, rank: 2, category: ListCategory::Job, ts },
            ItemRank { id: 3, rank: 4, category: ListCategory::Ask, ts },
            ItemRank { id: 5, rank: 6, category: ListCategory::Job, ts },
        ]
    );
    assert_eq!(ranks_from_rows(&vec![]), Vec::<ItemRank>::new());
}

#[test]
fn endpoints_are_built_from_the_root() {
    assert_eq!(get_url(), "https://hacker-news.firebaseio.com/v0");
    let root = get_url();
    assert_eq!(item_url(root, 8863), "https://hacker-news.firebaseio.com/v0/item/8863.json");
    assert_eq!(item_url("http://h", 0), "http://h/item/0.json");
    assert_eq!(user_url(root, "pg"), "https://hacker-news.firebaseio.com/v0/user/pg.json");
    assert_eq!(max_item_url(root), "https://hacker-news.firebaseio.com/v0/maxitem.json");
    assert_eq!(updates_url(root), "https://hacker-news.firebaseio.com/v0/updates.json");
    assert_eq!(
        stories_url(root, ListCategory::Top),
        "https://hacker-news.firebaseio.com/v0/topstories.json"
    );
    assert_eq!(stories_url("", ListCategory::Job), "/jobstories.json");
    assert_eq!(stories_url("r", ListCategory::Ask), "r/askstories.json");
}

#[test]
fn present_items_drops_the_missing_answers() {
    assert_eq!(present_items(vec![]), Vec::<Item>::new());
    assert_eq!(present_items(vec![None, None]), Vec::<Item>::new());
    assert_eq!(
        present_items(vec![Some(comment(3)), None, Some(comment(1)), None, Some(comment(2))]),
        vec![comment(3), comment(1), comment(2)]
    );
}

#[test]
fn a_port_error_keeps_its_cause() {
    assert_eq!(PortError::new("timeout").cause, "timeout");
    assert_ne!(PortError::new("a"), PortError::new("b"));
}

#[test]
fn an_answer_counts_only_for_the_item_asked_for() {
    assert_eq!(answer_for(3, Some(comment(3))), Some(comment(3)));
    assert_eq!(answer_for(3, Some(comment(4))), None);
    assert_eq!(answer_for(3, None), None);
}
