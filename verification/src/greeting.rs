use vstd::prelude::*;
use vstd::string::StringExecFns;
use crate::decimal::{decimal, push_decimal};

verus! {

/// The greeting for a person of the given name and age.
pub open spec fn greeting(name: Seq<char>, age: nat) -> Seq<char> {
    "Hello, "@ + decimal(age) + " year old named "@ + name + "!"@
}

/// Greets a person by name and age.
pub fn hello(name: String, age: u8) -> (r: String)
    ensures
        r@ == greeting(name@, age as nat),
{
    let mut out = String::from_str("Hello, ");
    push_decimal(&mut out, age as u32);
    out.append(" year old named ");
    out.append(name.as_str());
    out.append("!");
    assert(out@ =~= greeting(name@, age as nat));
    out
}

} // verus!
