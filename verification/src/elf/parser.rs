//! Variables of a firmware image.
use object::read::elf::{ElfFile32, ElfFile64};
use object::{Object, ObjectSymbol, SymbolKind};
use vstd::prelude::*;
use crate::elf::dwarf::DwarfResult;
use crate::elf::tree::{
    build_from_dwarf, build_from_symbols_only, dwarf_leaves, sorted_first_occurrences,
    stable_sort_by_path, symbol_entries,
};
use crate::pipeline::sample::ValueType;
use crate::text::str_eq;

verus! {

/// The variables found in a firmware image.
pub struct ElfContext {
    pub file_path: String,
    pub variables: Vec<ElfVariable>,
}

/// A variable that can be sampled: a scalar leaf of a global variable.
#[derive(Debug, Clone)]
pub struct ElfVariable {
    pub name: String,
    pub path: String,
    pub address: u32,
    pub byte_size: u32,
    pub value_type: ValueType,
    pub parent_path: Option<String>,
    pub source_file: Option<String>,
}

/// What an `ElfVariable` holds.
#[verifier::ext_equal]
pub struct ElfVarView {
    pub name: Seq<char>,
    pub path: Seq<char>,
    pub address: u32,
    pub byte_size: u32,
    pub value_type: ValueType,
    pub parent_path: Option<Seq<char>>,
    pub source_file: Option<Seq<char>>,
}

/// The text of an optional string.
pub open spec fn opt_text(o: Option<String>) -> Option<Seq<char>> {
    match o {
        Some(s) => Some(s@),
        None => None,
    }
}

impl View for ElfVariable {
    type V = ElfVarView;

    open spec fn view(&self) -> ElfVarView {
        ElfVarView {
            name: self.name@,
            path: self.path@,
            address: self.address,
            byte_size: self.byte_size,
            value_type: self.value_type,
            parent_path: opt_text(self.parent_path),
            source_file: opt_text(self.source_file),
        }
    }
}

/// What a list of variables holds.
pub open spec fn var_views(s: Seq<ElfVariable>) -> Seq<ElfVarView> {
    s.map_values(|v: ElfVariable| v@)
}

/// The index of the first variable whose path or name is `name`: the
/// variable a channel of that name samples.
pub fn variable_for_channel(vars: &[ElfVariable], name: &str) -> (r: Option<usize>)
    ensures
        match r {
            Some(i) => i < vars@.len() && (vars@[i as int].path@ == name@ || vars@[i as int].name@
                == name@) && forall|j: int|
                0 <= j < i ==> (#[trigger] vars@[j]).path@ != name@ && vars@[j].name@ != name@,
            None => forall|j: int|
                0 <= j < vars@.len() ==> (#[trigger] vars@[j]).path@ != name@ && vars@[j].name@
                    != name@,
        },
{
    let mut i: usize = 0;
    while i < vars.len()
        invariant
            i <= vars@.len(),
            forall|j: int|
                0 <= j < i ==> (#[trigger] vars@[j]).path@ != name@ && vars@[j].name@ != name@,
        decreases vars@.len() - i,
    {
        if str_eq(vars[i].path.as_str(), name) || str_eq(vars[i].name.as_str(), name) {
            return Some(i);
        }
        i = i + 1;
    }
    None
}

/// The index of the first variable whose path is `path`.
pub fn variable_by_path(vars: &[ElfVariable], path: &str) -> (r: Option<usize>)
    ensures
        match r {
            Some(i) => i < vars@.len() && vars@[i as int].path@ == path@ && forall|j: int|
                0 <= j < i ==> (#[trigger] vars@[j]).path@ != path@,
            None => forall|j: int| 0 <= j < vars@.len() ==> (#[trigger] vars@[j]).path@ != path@,
        },
{
    let mut i: usize = 0;
    while i < vars.len()
        invariant
            i <= vars@.len(),
            forall|j: int| 0 <= j < i ==> (#[trigger] vars@[j]).path@ != path@,
        decreases vars@.len() - i,
    {
        if str_eq(vars[i].path.as_str(), path) {
            return Some(i);
        }
        i = i + 1;
    }
    None
}

/// A data symbol of the symbol table.
#[derive(Debug, Clone)]
pub struct ElfSymbolRaw {
    pub name: String,
    pub address: u32,
    pub size: u32,
}

/// The kind of a symbol, as the symbol table gives it.
#[derive(Debug, Clone, Copy, PartialEq, Eq, Structural)]
pub enum SymbolClass {
    /// The kind is not known.
    Unknown,
    /// Executable code.
    Text,
    /// A data object.
    Data,
    /// A section.
    Section,
    /// The name of a source file.
    File,
    /// A code label.
    Label,
    /// A thread-local object.
    Tls,
}

/// What the symbol table says of one symbol.
pub struct SymbolRecord {
    /// What the symbol names.
    pub kind: SymbolClass,
    /// The symbol is not defined in the image.
    pub is_undefined: bool,
    /// Its name, when the name can be read.
    pub name: Option<String>,
    pub address: u64,
    pub size: u64,
}

/// What a `SymbolRecord` holds.
pub struct SymbolView {
    pub kind: SymbolClass,
    pub is_undefined: bool,
    pub name: Option<Seq<char>>,
    pub address: u64,
    pub size: u64,
}

impl View for SymbolRecord {
    type V = SymbolView;

    open spec fn view(&self) -> SymbolView {
        SymbolView {
            kind: self.kind,
            is_undefined: self.is_undefined,
            name: opt_text(self.name),
            address: self.address,
            size: self.size,
        }
    }
}

/// What a read of a symbol table gives: the records, or the reason it failed.
pub open spec fn table_view(r: Result<Vec<SymbolRecord>, String>) -> Result<Seq<SymbolView>, Seq<char>> {
    match r {
        Ok(v) => Ok(v@.map_values(|s: SymbolRecord| s@)),
        Err(e) => Err(e@),
    }
}

/// The symbol table of a 32-bit ELF image, as the `object` crate reads it.
pub uninterp spec fn elf32_symbol_table(data: Seq<u8>) -> Result<Seq<SymbolView>, Seq<char>>;

/// The symbol table of a 64-bit ELF image, as the `object` crate reads it.
pub uninterp spec fn elf64_symbol_table(data: Seq<u8>) -> Result<Seq<SymbolView>, Seq<char>>;

/// Reads the symbol table of a 32-bit ELF image with
/// `object::read::elf::ElfFile32::parse` and `Object::symbols`, one record
/// per symbol in table order, its kind taken one for one (`SymbolKind` is
/// non-exhaustive, so a kind that `object` may add later reads as
/// `Unknown`); on failure, the text of the parse error.
/// Claimed: the outcome depends on the bytes alone.
#[verifier::external_body]
fn read_elf32_symbols(data: &[u8]) -> (r: Result<Vec<SymbolRecord>, String>)
    ensures
        table_view(r) == elf32_symbol_table(data@),
{
    let elf = ElfFile32::<object::Endianness>::parse(data).map_err(|e| e.to_string())?;
    Ok(elf.symbols().map(|s| SymbolRecord {
        kind: match s.kind() {
            SymbolKind::Text => SymbolClass::Text,
            SymbolKind::Data => SymbolClass::Data,
            SymbolKind::Section => SymbolClass::Section,
            SymbolKind::File => SymbolClass::File,
            SymbolKind::Label => SymbolClass::Label,
            SymbolKind::Tls => SymbolClass::Tls,
            _ => SymbolClass::Unknown,
        },
        is_undefined: s.is_undefined(),
        name: s.name().ok().map(|n| n.to_string()),
        address: s.address(), size: s.size(),
    }).collect())
}

/// Reads the symbol table of a 64-bit ELF image with
/// `object::read::elf::ElfFile64::parse` and `Object::symbols`, one record
/// per symbol in table order, its kind taken one for one (`SymbolKind` is
/// non-exhaustive, so a kind that `object` may add later reads as
/// `Unknown`); on failure, the text of the parse error.
/// Claimed: the outcome depends on the bytes alone.
#[verifier::external_body]
fn read_elf64_symbols(data: &[u8]) -> (r: Result<Vec<SymbolRecord>, String>)
    ensures
        table_view(r) == elf64_symbol_table(data@),
{
    let elf = ElfFile64::<object::Endianness>::parse(data).map_err(|e| e.to_string())?;
    Ok(elf.symbols().map(|s| SymbolRecord {
        kind: match s.kind() {
            SymbolKind::Text => SymbolClass::Text,
            SymbolKind::Data => SymbolClass::Data,
            SymbolKind::Section => SymbolClass::Section,
            SymbolKind::File => SymbolClass::File,
            SymbolKind::Label => SymbolClass::Label,
            SymbolKind::Tls => SymbolClass::Tls,
            _ => SymbolClass::Unknown,
        },
        is_undefined: s.is_undefined(),
        name: s.name().ok().map(|n| n.to_string()),
        address: s.address(), size: s.size(),
    }).collect())
}

/// The low 32 bits of `x`.
pub open spec fn low32(x: u64) -> u32 {
    (x % 0x1_0000_0000) as u32
}

/// A symbol is kept when it names defined data, has a name that is not
/// empty, and an address whose low 32 bits are not 0.
pub open spec fn symbol_kept(r: SymbolView) -> bool {
    &&& r.kind == SymbolClass::Data
    &&& !r.is_undefined
    &&& r.name is Some
    &&& r.name->0.len() > 0
    &&& low32(r.address) != 0
}

/// What a data symbol holds: name, address and size.
pub open spec fn raw_view(s: ElfSymbolRaw) -> (Seq<char>, u32, u32) {
    (s.name@, s.address, s.size)
}

/// What a list of data symbols holds.
pub open spec fn raw_views(s: Seq<ElfSymbolRaw>) -> Seq<(Seq<char>, u32, u32)> {
    s.map_values(|x: ElfSymbolRaw| raw_view(x))
}

/// The data symbols among the first `k` records, in order, with address and
/// size cut to 32 bits.
pub open spec fn data_symbols(records: Seq<SymbolView>, k: nat) -> Seq<(Seq<char>, u32, u32)>
    decreases k,
{
    if k == 0 {
        Seq::empty()
    } else {
        let r = records[k - 1];
        data_symbols(records, (k - 1) as nat) + if symbol_kept(r) {
            seq![(r.name->0, low32(r.address), low32(r.size))]
        } else {
            Seq::empty()
        }
    }
}

/// Message for an input shorter than an ELF identification.
pub open spec fn too_short_message() -> Seq<char> {
    "文件过短，不是有效的 ELF 文件"@
}

/// Message for an image that cannot be parsed.
pub open spec fn parse_failed_message(is_64: bool, reason: Seq<char>) -> Seq<char> {
    (if is_64 { "ELF64 解析失败: "@ } else { "ELF32 解析失败: "@ }) + reason
}

/// Reads the variables of a firmware image.
pub struct ElfParser;

impl ElfParser {
    /// Keeps the defined data symbols that have a name and an address.
    pub fn extract_symbols_object(records: &Vec<SymbolRecord>) -> (v: Vec<ElfSymbolRaw>)
        ensures
            raw_views(v@) == data_symbols(
                records@.map_values(|s: SymbolRecord| s@),
                records@.len(),
            ),
    {
        let ghost rv = records@.map_values(|s: SymbolRecord| s@);
        let mut v: Vec<ElfSymbolRaw> = Vec::new();
        let mut k: usize = 0;
        assert(raw_views(v@) =~= Seq::<(Seq<char>, u32, u32)>::empty());
        while k < records.len()
            invariant
                k <= records@.len(),
                rv == records@.map_values(|s: SymbolRecord| s@),
                raw_views(v@) == data_symbols(rv, k as nat),
            decreases records@.len() - k,
        {
            let r = &records[k];
            assert(rv[k as int] == r@);
            if r.kind == SymbolClass::Data && !r.is_undefined {
                match &r.name {
                    Some(n) => {
                        let address = (r.address % 0x1_0000_0000) as u32;
                        if n.unicode_len() > 0 && address != 0 {
                            let size = (r.size % 0x1_0000_0000) as u32;
                            v.push(ElfSymbolRaw { name: n.clone(), address, size });
                        }
                    },
                    None => {},
                }
            }
            k = k + 1;
            assert(raw_views(v@) =~= data_symbols(rv, k as nat));
        }
        v
    }

    /// The variable list: from the debug information when there is one,
    /// else from the symbol table alone.
    pub fn resolve_variables(elf_symbols: &[ElfSymbolRaw], dwarf: Option<&DwarfResult>) -> (r: Result<
        Vec<ElfVariable>,
        String,
    >)
        ensures
            r is Ok,
            r matches Ok(v) ==> match dwarf {
                Some(d) => sorted_first_occurrences(
                    var_views(v@),
                    dwarf_leaves(d.variables@, elf_symbols@, d.types@, d.variables@.len()),
                ),
                None => var_views(v@) == stable_sort_by_path(
                    symbol_entries(raw_views(elf_symbols@), elf_symbols@.len()),
                ),
            },
    {
        match dwarf {
            Some(d) => build_from_dwarf(elf_symbols, d),
            None => build_from_symbols_only(elf_symbols),
        }
    }

    /// The context of an image whose symbol table read gave `table`: on
    /// success the variables of its data symbols, from the symbol table
    /// alone (debug sections are not read); on failure the parse error.
    pub fn context_from_table(
        file_path: String,
        is_64: bool,
        table: Result<Vec<SymbolRecord>, String>,
    ) -> (r: Result<ElfContext, String>)
        ensures
            match table {
                Ok(records) => (r matches Ok(c) && c.file_path@ == file_path@ && {
                    let ds = data_symbols(records@.map_values(|s: SymbolRecord| s@), records@.len());
                    var_views(c.variables@) == stable_sort_by_path(symbol_entries(ds, ds.len()))
                }),
                Err(e) => (r matches Err(m) && m@ == parse_failed_message(is_64, e@)),
            },
    {
        match table {
            Ok(records) => {
                let symbols = Self::extract_symbols_object(&records);
                assert(symbols@.len() == raw_views(symbols@).len());
                match Self::resolve_variables(symbols.as_slice(), None) {
                    Ok(variables) => Ok(ElfContext { file_path, variables }),
                    Err(e) => Err(e),
                }
            },
            Err(e) => {
                let mut m = if is_64 {
                    String::from_str("ELF64 解析失败: ")
                } else {
                    String::from_str("ELF32 解析失败: ")
                };
                m.append(e.as_str());
                proof {
                    reveal_strlit("ELF64 解析失败: ");
                    reveal_strlit("ELF32 解析失败: ");
                }
                Err(m)
            },
        }
    }

    /// Reads the variables of the ELF image `data` loaded from `file_path`.
    /// Byte 4 of the identification tells a 64-bit image (2) from a 32-bit
    /// one; an input of fewer than 5 bytes is refused.
    ///
    /// The variables come from the symbol table alone: the image's debug
    /// sections (`.debug_info`, `.debug_abbrev`) are not read, since this
    /// library holds no parser for them, so no structure or array is
    /// expanded here. A caller that has the debug information as a
    /// `DwarfResult` passes it to `resolve_variables`.
    pub fn load_image(file_path: String, data: &[u8]) -> (r: Result<ElfContext, String>)
        ensures
            data@.len() < 5 ==> (r matches Err(m) && m@ == too_short_message()),
            data@.len() >= 5 ==> {
                let is_64 = data@[4] == 2;
                let table = if is_64 {
                    elf64_symbol_table(data@)
                } else {
                    elf32_symbol_table(data@)
                };
                match table {
                    Ok(records) => (r matches Ok(c) && c.file_path@ == file_path@ && {
                        let ds = data_symbols(records, records.len());
                        var_views(c.variables@) == stable_sort_by_path(symbol_entries(ds, ds.len()))
                    }),
                    Err(e) => (r matches Err(m) && m@ == parse_failed_message(is_64, e)),
                }
            },
    {
        if data.len() < 5 {
            proof { reveal_strlit("文件过短，不是有效的 ELF 文件"); }
            return Err(String::from_str("文件过短，不是有效的 ELF 文件"));
        }
        let is_64 = data[4] == 2;
        let table = if is_64 {
            read_elf64_symbols(data)
        } else {
            read_elf32_symbols(data)
        };
        Self::context_from_table(file_path, is_64, table)
    }
}

} // verus!
