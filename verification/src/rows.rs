use vstd::prelude::*;
use crate::capabilities::PortError;
use crate::domain::{category_of_key, lowercase, InvalidListCategory, ItemRank, ListCategory, Timestamp};
use crate::json::{ids_from_json, ids_to_json, json_array, json_ids};

verus! {

/// The payload under which the snapshot `ids` is stored: its compact JSON
/// array. It never fails.
pub fn list_payload(ids: &[u32]) -> (r: Result<String, PortError>)
    ensures
        r matches Ok(text) && text@ == json_array(ids@),
{
    match ids_to_json(ids) {
        Some(text) => Ok(text),
        None => Err(PortError::new("the list could not be serialized")),
    }
}

/// The snapshot that a stored payload stands for: empty where nothing is
/// stored or the payload does not read as a list of identifiers.
pub open spec fn list_of_payload(payload: Option<String>) -> Seq<u32> {
    match payload {
        Some(text) => match json_ids(text@) {
            Some(ids) => ids,
            None => Seq::empty(),
        },
        None => Seq::empty(),
    }
}

/// Reads the snapshot that a stored payload stands for. The payload that
/// [`list_payload`] gives for a snapshot is read back as that snapshot.
pub fn list_from_payload(payload: Option<String>) -> (r: Vec<u32>)
    ensures
        r@ == list_of_payload(payload),
        forall|ids: Seq<u32>|
            payload matches Some(text) && text@ == #[trigger] json_array(ids) ==> r@ == ids,
{
    match payload {
        Some(text) => match ids_from_json(text.as_str()) {
            Some(ids) => ids,
            None => Vec::new(),
        },
        None => Vec::new(),
    }
}

/// One row of the rank history as the store hands it out: the category is
/// still its stored name.
#[derive(Debug, Clone, PartialEq, Eq)]
pub struct RankRow {
    pub id: u32,
    pub rank: u32,
    pub category: String,
    pub ts: Timestamp,
}

/// The record that a row stands for, where its category name is one.
pub open spec fn rank_of_row(row: RankRow) -> Option<ItemRank> {
    match category_of_key(lowercase(row.category@)) {
        Some(category) => Some(ItemRank { id: row.id, rank: row.rank, category, ts: row.ts }),
        None => None,
    }
}

/// Reads a row of the rank history. Fails where the row's category name is
/// none.
pub fn rank_from_row(row: &RankRow) -> (r: Result<ItemRank, InvalidListCategory>)
    ensures
        r == match rank_of_row(*row) {
            Some(record) => Ok::<ItemRank, InvalidListCategory>(record),
            None => Err(InvalidListCategory),
        },
{
    match ListCategory::from_str(row.category.as_str()) {
        Ok(category) => Ok(ItemRank { id: row.id, rank: row.rank, category, ts: row.ts }),
        Err(invalid) => Err(invalid),
    }
}

/// The records of those of the first `n` rows that can be read, in the order
/// of the rows.
pub open spec fn ranks_of_rows(rows: Seq<RankRow>, n: nat) -> Seq<ItemRank>
    decreases n,
{
    if n == 0 {
        Seq::empty()
    } else {
        match rank_of_row(rows[n - 1]) {
            Some(record) => ranks_of_rows(rows, (n - 1) as nat).push(record),
            None => ranks_of_rows(rows, (n - 1) as nat),
        }
    }
}

/// Reads the rows of the rank history, passing over every row whose category
/// name is none.
pub fn ranks_from_rows(rows: &Vec<RankRow>) -> (r: Vec<ItemRank>)
    ensures
        r@ == ranks_of_rows(rows@, rows@.len()),
{
    let mut records: Vec<ItemRank> = Vec::new();
    let mut i: usize = 0;
    while i < rows.len()
        invariant
            i <= rows@.len(),
            records@ == ranks_of_rows(rows@, i as nat),
        decreases rows@.len() - i,
    {
        match rank_from_row(&rows[i]) {
            Ok(record) => {
                records.push(record);
            },
            Err(_) => {},
        }
        i += 1;
    }
    records
}

} // verus!
