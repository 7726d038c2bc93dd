use vstd::prelude::*;
use vstd::string::StringExecFns;

verus! {

/// One of the fixed ranked-list partitions of the feed.
#[derive(Debug, Clone, Copy, PartialEq, Eq, Hash, Structural)]
pub enum ListCategory {
    Top,
    New,
    Best,
    Ask,
    Show,
    Job,
}

/// An instant, counted in microseconds from the Unix epoch (UTC).
#[derive(Debug, Clone, Copy, PartialEq, Eq, Hash, Structural)]
pub struct Timestamp {
    pub micros: i64,
}

/// One observation of an item's position in a category's ranked list.
#[derive(Debug, Clone, Copy, PartialEq, Eq, Structural)]
pub struct ItemRank {
    pub id: u32,
    /// Position in the list, counted from 1.
    pub rank: u32,
    pub category: ListCategory,
    pub ts: Timestamp,
}

/// The text handed to [`ListCategory::from_str`] names no category.
#[derive(Debug, Clone, Copy, PartialEq, Eq, Structural)]
pub struct InvalidListCategory;

/// Every category, in declaration order.
pub open spec fn all_categories() -> Seq<ListCategory> {
    seq![
        ListCategory::Top,
        ListCategory::New,
        ListCategory::Best,
        ListCategory::Ask,
        ListCategory::Show,
        ListCategory::Job,
    ]
}

/// The category whose storage key is exactly `key`, if there is one.
pub open spec fn category_of_key(key: Seq<char>) -> Option<ListCategory> {
    if key == "top"@ {
        Some(ListCategory::Top)
    } else if key == "new"@ {
        Some(ListCategory::New)
    } else if key == "best"@ {
        Some(ListCategory::Best)
    } else if key == "ask"@ {
        Some(ListCategory::Ask)
    } else if key == "show"@ {
        Some(ListCategory::Show)
    } else if key == "job"@ {
        Some(ListCategory::Job)
    } else {
        None
    }
}

/// The lower-case form of a text, as `str::to_lowercase` computes it.
pub uninterp spec fn lowercase(text: Seq<char>) -> Seq<char>;

/// Lower-cases a text with `str::to_lowercase`. The Unicode mapping it
/// applies is not spelled out here: the result is only given its name.
#[verifier::external_body]
fn to_lowercase(text: &str) -> (r: String)
    ensures
        r@ == lowercase(text@),
{
    text.to_lowercase()
}

impl ListCategory {
    /// The stable lower-case name under which the category is stored.
    pub open spec fn key(self) -> Seq<char> {
        match self {
            ListCategory::Top => "top"@,
            ListCategory::New => "new"@,
            ListCategory::Best => "best"@,
            ListCategory::Ask => "ask"@,
            ListCategory::Show => "show"@,
            ListCategory::Job => "job"@,
        }
    }

    /// The six categories, each exactly once, in declaration order.
    pub fn all() -> (r: Vec<ListCategory>)
        ensures
            r@ == all_categories(),
    {
        let r = vec![
            ListCategory::Top,
            ListCategory::New,
            ListCategory::Best,
            ListCategory::Ask,
            ListCategory::Show,
            ListCategory::Job,
        ];
        assert(r@ =~= all_categories());
        r
    }

    /// The storage key of the category.
    pub fn to_string(&self) -> (r: String)
        ensures
            r@ == self.key(),
    {
        match self {
            ListCategory::Top => String::from_str("top"),
            ListCategory::New => String::from_str("new"),
            ListCategory::Best => String::from_str("best"),
            ListCategory::Ask => String::from_str("ask"),
            ListCategory::Show => String::from_str("show"),
            ListCategory::Job => String::from_str("job"),
        }
    }

    /// Finds the category stored under `key`; the match is exact.
    pub fn from_key(key: &str) -> (r: Option<ListCategory>)
        ensures
            r == category_of_key(key@),
    {
        let key = String::from_str(key);
        if key == String::from_str("top") {
            Some(ListCategory::Top)
        } else if key == String::from_str("new") {
            Some(ListCategory::New)
        } else if key == String::from_str("best") {
            Some(ListCategory::Best)
        } else if key == String::from_str("ask") {
            Some(ListCategory::Ask)
        } else if key == String::from_str("show") {
            Some(ListCategory::Show)
        } else if key == String::from_str("job") {
            Some(ListCategory::Job)
        } else {
            None
        }
    }

    /// Parses a category name, ignoring letter case.
    pub fn from_str(input: &str) -> (r: Result<ListCategory, InvalidListCategory>)
        ensures
            r == match category_of_key(lowercase(input@)) {
                Some(category) => Ok::<ListCategory, InvalidListCategory>(category),
                None => Err(InvalidListCategory),
            },
    {
        let lowered = to_lowercase(input);
        match ListCategory::from_key(lowered.as_str()) {
            Some(category) => Ok(category),
            None => Err(InvalidListCategory),
        }
    }
}

/// The six storage keys are pairwise different.
pub proof fn lemma_keys_distinct()
    ensures
        forall|a: ListCategory, b: ListCategory| a.key() == b.key() ==> a == b,
{
    reveal_strlit("top");
    reveal_strlit("new");
    reveal_strlit("best");
    reveal_strlit("ask");
    reveal_strlit("show");
    reveal_strlit("job");
    assert forall|a: ListCategory, b: ListCategory| a.key() == b.key() implies a == b by {
        if a != b {
            assert(a.key().len() != b.key().len() || a.key()[0] != b.key()[0]);
        }
    }
}

/// A category is found again under its own storage key.
pub proof fn lemma_key_round_trip(category: ListCategory)
    ensures
        category_of_key(category.key()) == Some(category),
{
    lemma_keys_distinct();
    assert(ListCategory::Top.key() == "top"@);
    assert(ListCategory::New.key() == "new"@);
    assert(ListCategory::Best.key() == "best"@);
    assert(ListCategory::Ask.key() == "ask"@);
    assert(ListCategory::Show.key() == "show"@);
    assert(ListCategory::Job.key() == "job"@);
}

/// Every category occurs in [`all_categories`], and none occurs twice.
pub proof fn lemma_all_categories_exhaustive()
    ensures
        all_categories().len() == 6,
        forall|category: ListCategory| all_categories().contains(category),
        all_categories().no_duplicates(),
{
    assert forall|category: ListCategory| all_categories().contains(category) by {
        let i: int = match category {
            ListCategory::Top => 0,
            ListCategory::New => 1,
            ListCategory::Best => 2,
            ListCategory::Ask => 3,
            ListCategory::Show => 4,
            ListCategory::Job => 5,
        };
        assert(all_categories()[i] == category);
    }
}

} // verus!
