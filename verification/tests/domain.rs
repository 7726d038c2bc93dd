use feed_mirror::domain::{InvalidListCategory, ListCategory};

#[test]
fn category_names_round_trip() {
    for category in ListCategory::all() {
        let key = category.to_string();
        assert_eq!(ListCategory::from_key(&key), Some(category));
        assert_eq!(ListCategory::from_str(&key), Ok(category));
    }
}

#[test]
fn category_keys_are_the_lower_case_names() {
    assert_eq!(ListCategory::Top.to_string(), "top");
    assert_eq!(ListCategory::New.to_string(), "new");
    assert_eq!(ListCategory::Best.to_string(), "best");
    assert_eq!(ListCategory::Ask.to_string(), "ask");
    assert_eq!(ListCategory::Show.to_string(), "show");
    assert_eq!(ListCategory::Job.to_string(), "job");
}

#[test]
fn all_lists_every_category_once_in_declaration_order() {
    assert_eq!(
        ListCategory::all(),
        vec![
            ListCategory::Top,
            ListCategory::New,
            ListCategory::Best,
            ListCategory::Ask,
            ListCategory::Show,
            ListCategory::Job,
        ]
    );
}

#[test]
fn from_str_ignores_letter_case() {
    assert_eq!(ListCategory::from_str("TOP"), Ok(ListCategory::Top));
    assert_eq!(ListCategory::from_str("Best"), Ok(ListCategory::Best));
    assert_eq!(ListCategory::from_str("sHoW"), Ok(ListCategory::Show));
}

#[test]
fn from_key_is_exact() {
    assert_eq!(ListCategory::from_key("TOP"), None);
    assert_eq!(ListCategory::from_key("top "), None);
    assert_eq!(ListCategory::from_key(""), None);
    assert_eq!(ListCategory::from_key("job"), Some(ListCategory::Job));
}

#[test]
fn from_str_rejects_other_names() {
    assert_eq!(ListCategory::from_str("tops"), Err(InvalidListCategory));
    assert_eq!(ListCategory::from_str(""), Err(InvalidListCategory));
    assert_eq!(ListCategory::from_str("stories"), Err(InvalidListCategory));
}
