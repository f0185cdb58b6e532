//! Value types of debug-information base types.
use vstd::prelude::*;
use crate::pipeline::sample::ValueType;
use crate::text::{contains_seq, str_contains};

verus! {

/// The value type shown for a base type: a name with `float` or `double`
/// is a float; otherwise the size decides the width, signed unless the
/// name holds `unsigned` or `bool`; sizes other than 1 and 2 show 32 bits.
pub open spec fn base_value_type(name: Seq<char>, byte_size: u32) -> ValueType {
    if contains_seq(name, "float"@) || contains_seq(name, "double"@) {
        ValueType::Float
    } else if contains_seq(name, "unsigned"@) || contains_seq(name, "bool"@) || contains_seq(
        name,
        "Bool"@,
    ) {
        if byte_size == 1 {
            ValueType::Uint8
        } else if byte_size == 2 {
            ValueType::Uint16
        } else {
            ValueType::Uint32
        }
    } else {
        if byte_size == 1 {
            ValueType::Int8
        } else if byte_size == 2 {
            ValueType::Int16
        } else {
            ValueType::Int32
        }
    }
}

/// The value type shown for a base type of the given name and size.
pub fn map_dwarf_type(name: &str, byte_size: u32) -> (t: ValueType)
    ensures
        t == base_value_type(name@, byte_size),
{
    if str_contains(name, "float") || str_contains(name, "double") {
        ValueType::Float
    } else if str_contains(name, "unsigned") || str_contains(name, "bool") || str_contains(
        name,
        "Bool",
    ) {
        if byte_size == 1 {
            ValueType::Uint8
        } else if byte_size == 2 {
            ValueType::Uint16
        } else {
            ValueType::Uint32
        }
    } else {
        if byte_size == 1 {
            ValueType::Int8
        } else if byte_size == 2 {
            ValueType::Int16
        } else {
            ValueType::Int32
        }
    }
}

} // verus!
