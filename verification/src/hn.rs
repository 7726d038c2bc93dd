use vstd::prelude::*;
use vstd::string::StringExecFns;
use crate::decimal::{decimal, push_decimal};
use crate::domain::ListCategory;
use crate::capabilities::fetched_for;
use crate::item::{item_views, Item};

verus! {

/// The root of the remote source's API.
pub open spec fn api_root() -> Seq<char> {
    "https://hacker-news.firebaseio.com/v0"@
}

/// The root of the remote source's API.
pub fn get_url() -> (r: &'static str)
    ensures
        r@ == api_root(),
{
    "https://hacker-news.firebaseio.com/v0"
}

/// Where the item `id` is fetched from.
pub fn item_url(root: &str, id: u32) -> (r: String)
    ensures
        r@ == root@ + "/item/"@ + decimal(id as nat) + ".json"@,
{
    let mut url = String::from_str(root);
    url.append("/item/");
    push_decimal(&mut url, id);
    url.append(".json");
    url
}

/// Where the profile of the user `username` is fetched from.
pub fn user_url(root: &str, username: &str) -> (r: String)
    ensures
        r@ == root@ + "/user/"@ + username@ + ".json"@,
{
    let mut url = String::from_str(root);
    url.append("/user/");
    url.append(username);
    url.append(".json");
    url
}

/// Where the identifier of the newest item is fetched from.
pub fn max_item_url(root: &str) -> (r: String)
    ensures
        r@ == root@ + "/maxitem.json"@,
{
    let mut url = String::from_str(root);
    url.append("/maxitem.json");
    url
}

/// Where the ranked list of `category` is fetched from.
pub fn stories_url(root: &str, category: ListCategory) -> (r: String)
    ensures
        r@ == root@ + "/"@ + category.key() + "stories.json"@,
{
    let mut url = String::from_str(root);
    url.append("/");
    url.append(category.to_string().as_str());
    url.append("stories.json");
    url
}

/// Where the report of recent changes is fetched from.
pub fn updates_url(root: &str) -> (r: String)
    ensures
        r@ == root@ + "/updates.json"@,
{
    let mut url = String::from_str(root);
    url.append("/updates.json");
    url
}

/// Keeps the answer to a fetch of the item `id` only where it is that item.
pub fn answer_for(id: u32, answer: Option<Item>) -> (r: Option<Item>)
    ensures
        r == match answer {
            Some(item) => if item@.id == id {
                Some(item)
            } else {
                None
            },
            None => None,
        },
{
    match answer {
        Some(item) => if item.id() == id {
            Some(item)
        } else {
            None
        },
        None => None,
    }
}

/// The items among the first `n` answers, in the order of the answers: an
/// answer without an item is passed over.
pub open spec fn present(answers: Seq<Option<Item>>, n: nat) -> Seq<Item>
    decreases n,
{
    if n == 0 {
        Seq::empty()
    } else {
        match answers[n - 1] {
            Some(item) => present(answers, (n - 1) as nat).push(item),
            None => present(answers, (n - 1) as nat),
        }
    }
}

/// Gathers the items out of the answers to a batch of fetches. An identifier
/// that could not be had has no item in its answer and is silently left out.
pub fn present_items(answers: Vec<Option<Item>>) -> (r: Vec<Item>)
    ensures
        r@ == present(answers@, answers@.len()),
{
    let mut items: Vec<Item> = Vec::new();
    for answer in it: answers
        invariant
            it.seq() == answers@,
            items@ == present(answers@, it.index() as nat),
    {
        match answer {
            Some(item) => {
                items.push(item);
            },
            None => {},
        }
    }
    items
}

/// Where the answer at each position is the item asked for at that position
/// or none, the items gathered from the answers all answer the request.
pub proof fn lemma_present_fetched_for(answers: Seq<Option<Item>>, ids: Seq<u32>, n: nat)
    requires
        n <= answers.len() == ids.len(),
        forall|i: int|
            0 <= i < answers.len() ==> (#[trigger] answers[i] matches Some(item) ==> item@.id
                == ids[i]),
    ensures
        fetched_for(item_views(present(answers, n)), ids),
    decreases n,
{
    if n > 0 {
        lemma_present_fetched_for(answers, ids, (n - 1) as nat);
        let earlier = present(answers, (n - 1) as nat);
        let gathered = present(answers, n);
        assert forall|i: int| 0 <= i < item_views(gathered).len() implies ids.contains(
            #[trigger] item_views(gathered)[i].id,
        ) by {
            if i < earlier.len() {
                assert(item_views(earlier)[i] == item_views(gathered)[i]);
            } else {
                assert(answers[n - 1] is Some);
                assert(gathered[i] == answers[n - 1].unwrap());
                assert(ids[n - 1] == gathered[i]@.id);
            }
        }
    }
}

} // verus!
