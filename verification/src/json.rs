use vstd::prelude::*;
use crate::decimal::{decimal, lemma_decimal_injective};

verus! {

/// The numerals of `ids`, in order, with a comma between neighbours.
pub open spec fn comma_separated(ids: Seq<u32>) -> Seq<char>
    decreases ids.len(),
{
    if ids.len() == 0 {
        Seq::empty()
    } else if ids.len() == 1 {
        decimal(ids[0] as nat)
    } else {
        comma_separated(ids.drop_last()) + seq![','] + decimal(ids.last() as nat)
    }
}

/// The compact JSON array of `ids`: the numerals in square brackets, with
/// commas and no blanks.
pub open spec fn json_array(ids: Seq<u32>) -> Seq<char> {
    seq!['['] + comma_separated(ids) + seq![']']
}

/// The number that `serde_json::from_str::<u32>` reads from a text, `None`
/// where it rejects the text.
pub uninterp spec fn json_u32(text: Seq<char>) -> Option<u32>;

/// The list that `serde_json::from_str::<Vec<u32>>` reads from a text, `None`
/// where it rejects the text.
pub uninterp spec fn json_ids(text: Seq<char>) -> Option<Seq<u32>>;

/// Serializes a number with `serde_json::to_string`, which writes an
/// unsigned integer as its base-ten numeral. The serializer fails only on
/// values whose own serialization fails or on maps with keys that are no
/// strings, so a number is always written; a failure would come back as
/// `None`.
#[verifier::external_body]
pub(crate) fn number_to_json(value: u32) -> (r: Option<String>)
    ensures
        r is Some,
        r.unwrap()@ == decimal(value as nat),
{
    serde_json::to_string(&value).ok()
}

/// Reads a number with `serde_json::from_str`. Which texts it accepts is
/// left to the parser and only named; it does read the plain numeral of any
/// `u32` as that number.
#[verifier::external_body]
pub(crate) fn number_from_json(text: &str) -> (r: Option<u32>)
    ensures
        r == json_u32(text@),
        forall|value: u32| text@ == decimal(value as nat) ==> r == Some(value),
{
    serde_json::from_str::<u32>(text).ok()
}

/// Serializes a list of identifiers with `serde_json::to_string`, which
/// writes a sequence as a compact array of numerals. The serializer fails
/// only on values whose own serialization fails or on maps with keys that
/// are no strings, so a list of numbers is always written; a failure would
/// come back as `None`.
#[verifier::external_body]
pub(crate) fn ids_to_json(ids: &[u32]) -> (r: Option<String>)
    ensures
        r is Some,
        r.unwrap()@ == json_array(ids@),
{
    serde_json::to_string(ids).ok()
}

/// Reads a list of identifiers with `serde_json::from_str`. Which texts it
/// accepts, and as what list, is left to the parser and only named; it does
/// read the compact array of any list as that list.
#[verifier::external_body]
pub(crate) fn ids_from_json(text: &str) -> (r: Option<Vec<u32>>)
    ensures
        match r {
            Some(ids) => json_ids(text@) == Some(ids@),
            None => json_ids(text@) is None,
        },
        forall|ids: Seq<u32>| text@ == json_array(ids) ==> r is Some && r.unwrap()@ == ids,
{
    serde_json::from_str::<Vec<u32>>(text).ok()
}

/// The number that a stored payload stands for: the number whose numeral it
/// is, and for any other text whatever the JSON parser makes of it.
pub open spec fn read_number(text: Seq<char>) -> Option<u32> {
    if exists|value: u32| text == decimal(value as nat) {
        Some(choose|value: u32| text == decimal(value as nat))
    } else {
        json_u32(text)
    }
}

/// Reads the number that a payload stands for.
pub fn parse_number(text: &str) -> (r: Option<u32>)
    ensures
        r == read_number(text@),
{
    number_from_json(text)
}

/// A numeral is read back as the number it was written for.
pub proof fn lemma_read_number_of_numeral(value: u32)
    ensures
        read_number(decimal(value as nat)) == Some(value),
{
    let text = decimal(value as nat);
    let read = choose|read: u32| text == decimal(read as nat);
    lemma_decimal_injective(read as nat, value as nat);
}

} // verus!
