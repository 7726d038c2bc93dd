use vstd::prelude::*;
use crate::capabilities::{LoadConfigValue, PortError, StoreConfigValue};
use crate::decimal::decimal;
use crate::json::{lemma_read_number_of_numeral, number_to_json, parse_number, read_number};
use crate::world::World;

verus! {

/// The number kept under `key`: `None` where nothing is stored there or the
/// stored payload does not read as a number.
pub open spec fn number_at(world: World, key: Seq<char>) -> Option<u32> {
    match world.config_value(key) {
        None => None,
        Some(payload) => read_number(payload),
    }
}

/// Puts a number under a configuration key, serialized as its numeral. It
/// fails only where the port does.
pub fn store_number<A: StoreConfigValue>(app: &mut A, key: &str, value: u32) -> (r: Result<
    (),
    PortError,
>)
    ensures
        r is Ok ==> final(app).world() == old(app).world().with_config(
            key@,
            decimal(value as nat),
        ),
        r is Err ==> final(app).world() == old(app).world(),
{
    app.store_config_value(key, number_payload(value))
}

/// Reads the number under a configuration key: `Ok(None)` where nothing is
/// stored there. Fails where the port fails or the stored payload does not
/// read as a number.
pub fn load_number<A: LoadConfigValue>(app: &A, key: &str) -> (r: Result<Option<u32>, PortError>)
    ensures
        r matches Ok(Some(value)) ==> number_at(app.world(), key@) == Some(value),
        r matches Ok(None) ==> app.world().config_value(key@) is None,
        app.world().config_value(key@) is Some && number_at(app.world(), key@) is None ==> r is Err,
{
    match app.load_config_value(key) {
        Ok(loaded) => read_payload(loaded),
        Err(fault) => Err(fault),
    }
}

/// The payload under which a number is stored: its numeral.
pub fn number_payload(value: u32) -> (r: String)
    ensures
        r@ == decimal(value as nat),
{
    match number_to_json(value) {
        Some(payload) => payload,
        None => String::new(),
    }
}

/// Reads what a loaded payload stands for: no number where nothing was
/// stored, else the number that the payload reads as. Fails where the
/// payload reads as no number.
pub fn read_payload(loaded: Option<String>) -> (r: Result<Option<u32>, PortError>)
    ensures
        match loaded {
            None => r == Ok::<Option<u32>, PortError>(None),
            Some(payload) => match read_number(payload@) {
                Some(value) => r == Ok::<Option<u32>, PortError>(Some(value)),
                None => r matches Err(fault) && fault.cause@
                    == "the stored value is not a number"@,
            },
        },
{
    match loaded {
        Some(payload) => match parse_number(payload.as_str()) {
            Some(value) => Ok(Some(value)),
            None => Err(PortError::new("the stored value is not a number")),
        },
        None => Ok(None),
    }
}

/// A number that was stored under a key is the number kept there; the other
/// keys keep what they had.
pub proof fn lemma_number_round_trip(world: World, key: Seq<char>, value: u32)
    ensures
        number_at(world.with_config(key, decimal(value as nat)), key) == Some(value),
        forall|other: Seq<char>|
            other != key ==> #[trigger] world.with_config(
                key,
                decimal(value as nat),
            ).config_value(other) == world.config_value(other),
{
    lemma_read_number_of_numeral(value);
}

} // verus!
