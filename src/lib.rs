use vstd::prelude::*;

pub mod bools;
pub mod object;
pub mod stringification;
pub mod text;

use crate::bools::{bools_converted, convert_bool_variants};
use crate::object::{Object, Value};
use crate::stringification::{stringified_all, stringify_with, Encoding};

verus! {

/// What `prepare` makes of a tree: boolean variants converted first where asked, then one
/// stringification pass per encoding, in order.
pub open spec fn prepared(v: Value, encodings: Seq<Encoding>, enum_bools: bool) -> Value {
    stringified_all(if enum_bools { bools_converted(v) } else { v }, encodings)
}

/// Readies a decoded, detached tree for an encoder. Boolean coercion runs first, while the tree
/// still holds the unit variants exactly as they were decoded.
pub fn prepare(object: &mut Object, encodings: &[Encoding], enum_bools: bool)
    ensures
        final(object)@ == prepared(old(object)@, encodings@, enum_bools),
{
    if enum_bools {
        convert_bool_variants(object);
    }
    stringify_with(object, encodings);
}

} // verus!
