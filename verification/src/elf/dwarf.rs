//! The debug information that the variable tree is built from: global
//! variables with their type offsets, and the type entries by offset.
use std::collections::HashMap;
use vstd::prelude::*;

verus! {

/// A global variable described by the debug information.
#[derive(Debug)]
pub struct DwarfVarInfo {
    pub name: String,
    pub address: u32,
    pub type_offset: u64,
    pub source_file: Option<String>,
    pub source_line: u32,
}

/// What a `DwarfVarInfo` holds.
pub struct VarView {
    pub name: Seq<char>,
    pub address: u32,
    pub type_offset: u64,
    pub source_file: Option<Seq<char>>,
    pub source_line: u32,
}

impl View for DwarfVarInfo {
    type V = VarView;

    open spec fn view(&self) -> VarView {
        VarView {
            name: self.name@,
            address: self.address,
            type_offset: self.type_offset,
            source_file: match self.source_file {
                Some(s) => Some(s@),
                None => None,
            },
            source_line: self.source_line,
        }
    }
}

/// A member of a structure type.
#[derive(Debug)]
pub struct DwarfMember {
    pub name: String,
    pub type_offset: u64,
    /// Offset of the member from the start of the structure, in bytes.
    pub member_offset: u32,
}

/// A type entry.
#[derive(Debug)]
pub enum DwarfTypeInfo {
    /// A base type such as `int` or `float`.
    Base { name: String, byte_size: u32 },
    /// A typedef, `const` or `volatile` of another type.
    Alias { target_offset: u64 },
    /// A structure with its members.
    Struct { members: Vec<DwarfMember>, byte_size: u32 },
    /// An array of `element_count` elements.
    Array { element_type_offset: u64, element_count: u32, byte_size: u32 },
    /// A pointer.
    Pointer { byte_size: u32 },
}

/// What the debug information of an image holds.
#[derive(Debug)]
pub struct DwarfResult {
    pub variables: Vec<DwarfVarInfo>,
    pub types: HashMap<u64, DwarfTypeInfo>,
    pub source_files: Vec<String>,
}

} // verus!
