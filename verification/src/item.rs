use vstd::prelude::*;
use crate::domain::Timestamp;

verus! {

/// A story submitted to the feed.
#[derive(Debug, Clone, PartialEq, Eq)]
pub struct Story {
    pub id: u32,
    pub by: String,
    pub descendants: u32,
    pub kids: Option<Vec<u32>>,
    pub score: u32,
    pub title: String,
    pub url: Option<String>,
    pub text: Option<String>,
    pub time: Timestamp,
}

/// A comment on a story or on another comment.
#[derive(Debug, Clone, PartialEq, Eq)]
pub struct Comment {
    pub id: u32,
    pub by: String,
    pub kids: Option<Vec<u32>>,
    pub parent: u32,
    pub text: String,
    pub time: Timestamp,
}

/// A job posting.
#[derive(Debug, Clone, PartialEq, Eq)]
pub struct Job {
    pub id: u32,
    pub score: u32,
    pub title: String,
    pub url: Option<String>,
    pub text: Option<String>,
    pub time: Timestamp,
}

/// A record of the feed. Its identifier is unique over all three variants.
#[derive(Debug, Clone, PartialEq, Eq)]
pub enum Item {
    Story(Story),
    Comment(Comment),
    Job(Job),
}

/// Which of the three variants an item is.
#[derive(Debug, Clone, Copy, PartialEq, Eq, Structural)]
pub enum ItemKind {
    Story,
    Comment,
    Job,
}

/// What an item holds, as plain values: its kind, its identifier, and each
/// attribute that its kind carries. An attribute that the kind does not carry
/// is `None`.
pub struct ItemView {
    pub kind: ItemKind,
    pub id: u32,
    pub by: Option<Seq<char>>,
    pub score: Option<u32>,
    pub descendants: Option<u32>,
    pub title: Option<Seq<char>>,
    pub url: Option<Seq<char>>,
    pub text: Option<Seq<char>>,
    pub kids: Option<Seq<u32>>,
    pub parent: Option<u32>,
    pub time: Timestamp,
}

/// What an optional text holds.
pub open spec fn text_view(text: Option<String>) -> Option<Seq<char>> {
    match text {
        Some(t) => Some(t@),
        None => None,
    }
}

/// What an optional list of identifiers holds.
pub open spec fn ids_view(ids: Option<Vec<u32>>) -> Option<Seq<u32>> {
    match ids {
        Some(v) => Some(v@),
        None => None,
    }
}

impl View for Item {
    type V = ItemView;

    open spec fn view(&self) -> ItemView {
        match self {
            Item::Story(story) => ItemView {
                kind: ItemKind::Story,
                id: story.id,
                by: Some(story.by@),
                score: Some(story.score),
                descendants: Some(story.descendants),
                title: Some(story.title@),
                url: text_view(story.url),
                text: text_view(story.text),
                kids: ids_view(story.kids),
                parent: None,
                time: story.time,
            },
            Item::Comment(comment) => ItemView {
                kind: ItemKind::Comment,
                id: comment.id,
                by: Some(comment.by@),
                score: None,
                descendants: None,
                title: None,
                url: None,
                text: Some(comment.text@),
                kids: ids_view(comment.kids),
                parent: Some(comment.parent),
                time: comment.time,
            },
            Item::Job(job) => ItemView {
                kind: ItemKind::Job,
                id: job.id,
                by: None,
                score: Some(job.score),
                descendants: None,
                title: Some(job.title@),
                url: text_view(job.url),
                text: text_view(job.text),
                kids: None,
                parent: None,
                time: job.time,
            },
        }
    }
}

/// What each of `items` holds, in the same order.
pub open spec fn item_views(items: Seq<Item>) -> Seq<ItemView> {
    Seq::new(items.len(), |i: int| items[i]@)
}

/// Whether an optional borrowed text is the text that `view` holds.
pub open spec fn is_text(r: Option<&String>, view: Option<Seq<char>>) -> bool {
    match r {
        Some(text) => view == Some(text@),
        None => view is None,
    }
}

impl Item {
    /// Which of the three variants the item is.
    pub fn kind(&self) -> (r: ItemKind)
        ensures
            r == self@.kind,
    {
        match self {
            Item::Story(_) => ItemKind::Story,
            Item::Comment(_) => ItemKind::Comment,
            Item::Job(_) => ItemKind::Job,
        }
    }

    /// The identifier of the item.
    pub fn id(&self) -> (r: u32)
        ensures
            r == self@.id,
    {
        match self {
            Item::Story(story) => story.id,
            Item::Comment(comment) => comment.id,
            Item::Job(job) => job.id,
        }
    }

    /// The author: stories and comments have one, jobs do not.
    pub fn username(&self) -> (r: Option<&String>)
        ensures
            is_text(r, self@.by),
    {
        match self {
            Item::Story(story) => Some(&story.by),
            Item::Comment(comment) => Some(&comment.by),
            Item::Job(_) => None,
        }
    }

    /// The score: stories and jobs have one, comments do not.
    pub fn score(&self) -> (r: Option<u32>)
        ensures
            r == self@.score,
    {
        match self {
            Item::Story(story) => Some(story.score),
            Item::Comment(_) => None,
            Item::Job(job) => Some(job.score),
        }
    }

    /// The number of comments below a story; other items have none.
    pub fn descendants(&self) -> (r: Option<u32>)
        ensures
            r == self@.descendants,
    {
        match self {
            Item::Story(story) => Some(story.descendants),
            _ => None,
        }
    }

    /// The title: stories and jobs have one, comments do not.
    pub fn title(&self) -> (r: Option<&String>)
        ensures
            is_text(r, self@.title),
    {
        match self {
            Item::Story(story) => Some(&story.title),
            Item::Comment(_) => None,
            Item::Job(job) => Some(&job.title),
        }
    }

    /// The link of a story or job, where it has one.
    pub fn url(&self) -> (r: Option<&String>)
        ensures
            is_text(r, self@.url),
    {
        match self {
            Item::Story(story) => story.url.as_ref(),
            Item::Comment(_) => None,
            Item::Job(job) => job.url.as_ref(),
        }
    }

    /// The text of the item, where it has one; a comment always has.
    pub fn body(&self) -> (r: Option<&String>)
        ensures
            is_text(r, self@.text),
    {
        match self {
            Item::Story(story) => story.text.as_ref(),
            Item::Comment(comment) => Some(&comment.text),
            Item::Job(job) => job.text.as_ref(),
        }
    }

    /// The moment the item was created.
    pub fn time(&self) -> (r: Timestamp)
        ensures
            r == self@.time,
    {
        match self {
            Item::Story(story) => story.time,
            Item::Comment(comment) => comment.time,
            Item::Job(job) => job.time,
        }
    }

    /// The identifiers of the direct replies, in the order the feed lists
    /// them; empty where the item has none, as a job always has.
    pub fn kids(&self) -> (r: Vec<u32>)
        ensures
            r@ == match self@.kids {
                Some(kids) => kids,
                None => Seq::empty(),
            },
    {
        match self {
            Item::Story(story) => copy_ids(&story.kids),
            Item::Comment(comment) => copy_ids(&comment.kids),
            Item::Job(_) => Vec::new(),
        }
    }

    /// The item a comment replies to; stories and jobs have no parent.
    pub fn parent(&self) -> (r: Option<u32>)
        ensures
            r == self@.parent,
    {
        match self {
            Item::Comment(comment) => Some(comment.parent),
            _ => None,
        }
    }

    /// A copy of the item that holds the same.
    pub fn duplicate(&self) -> (r: Item)
        ensures
            r@ == self@,
    {
        match self {
            Item::Story(story) => Item::Story(
                Story {
                    id: story.id,
                    by: story.by.clone(),
                    descendants: story.descendants,
                    kids: copy_optional_ids(&story.kids),
                    score: story.score,
                    title: story.title.clone(),
                    url: copy_text(&story.url),
                    text: copy_text(&story.text),
                    time: story.time,
                },
            ),
            Item::Comment(comment) => Item::Comment(
                Comment {
                    id: comment.id,
                    by: comment.by.clone(),
                    kids: copy_optional_ids(&comment.kids),
                    parent: comment.parent,
                    text: comment.text.clone(),
                    time: comment.time,
                },
            ),
            Item::Job(job) => Item::Job(
                Job {
                    id: job.id,
                    score: job.score,
                    title: job.title.clone(),
                    url: copy_text(&job.url),
                    text: copy_text(&job.text),
                    time: job.time,
                },
            ),
        }
    }
}

fn copy_ids(ids: &Option<Vec<u32>>) -> (r: Vec<u32>)
    ensures
        r@ == match *ids {
            Some(v) => v@,
            None => Seq::empty(),
        },
{
    match ids {
        Some(v) => {
            let r = v.clone();
            assert(r@ =~= v@);
            r
        },
        None => Vec::new(),
    }
}

fn copy_optional_ids(ids: &Option<Vec<u32>>) -> (r: Option<Vec<u32>>)
    ensures
        ids_view(r) == ids_view(*ids),
{
    match ids {
        Some(v) => {
            let r = v.clone();
            assert(r@ =~= v@);
            Some(r)
        },
        None => None,
    }
}

fn copy_text(text: &Option<String>) -> (r: Option<String>)
    ensures
        text_view(r) == text_view(*text),
{
    match text {
        Some(t) => Some(t.clone()),
        None => None,
    }
}

} // verus!
