//! The variable tree: global variables expanded into their scalar leaves.
use std::collections::HashMap;
use vstd::prelude::*;
use vstd::string::*;
use crate::elf::dwarf::{DwarfMember, DwarfTypeInfo, DwarfVarInfo, VarView};
use crate::elf::dwarf::DwarfResult;
use crate::elf::parser::{opt_text, raw_view, raw_views, var_views, ElfSymbolRaw, ElfVarView, ElfVariable};
use crate::elf::types::{base_value_type, map_dwarf_type};
use crate::pipeline::sample::ValueType;
use crate::text::{
    chars_lt, chars_of, decimal_digits, lemma_seq_lt_asymmetric, lemma_seq_lt_irreflexive,
    lemma_seq_lt_total, lemma_seq_lt_transitive, push_decimal, seq_lt, str_eq,
};

verus! {

broadcast use vstd::std_specs::hash::group_hash_axioms;

/// A type after following typedef, `const` and `volatile` entries.
enum ResolvedType {
    Base(String, u32),
    Struct(u64),
    Array(u64),
    Pointer(u32),
    Unknown,
}

/// What a resolved type stands for.
pub enum ResolvedView {
    /// Base type: name and size.
    Base(Seq<char>, u32),
    /// Structure type, by offset.
    Struct(u64),
    /// Array type, by offset.
    Array(u64),
    /// Pointer, with its size.
    Pointer(u32),
    /// No entry found, or too long a chain of aliases.
    Unknown,
}

impl ResolvedType {
    spec fn view_of(self) -> ResolvedView {
        match self {
            ResolvedType::Base(n, s) => ResolvedView::Base(n@, s),
            ResolvedType::Struct(o) => ResolvedView::Struct(o),
            ResolvedType::Array(o) => ResolvedView::Array(o),
            ResolvedType::Pointer(s) => ResolvedView::Pointer(s),
            ResolvedType::Unknown => ResolvedView::Unknown,
        }
    }
}

/// Follows aliases from `cur`, looking up at most `steps` entries.
pub open spec fn resolve_from(types: Map<u64, DwarfTypeInfo>, cur: u64, steps: nat) -> ResolvedView
    decreases steps,
{
    if steps == 0 || !types.contains_key(cur) {
        ResolvedView::Unknown
    } else {
        match types[cur] {
            DwarfTypeInfo::Alias { target_offset } => resolve_from(
                types,
                target_offset,
                (steps - 1) as nat,
            ),
            DwarfTypeInfo::Base { name, byte_size } => ResolvedView::Base(name@, byte_size),
            DwarfTypeInfo::Struct { .. } => ResolvedView::Struct(cur),
            DwarfTypeInfo::Array { .. } => ResolvedView::Array(cur),
            DwarfTypeInfo::Pointer { byte_size } => ResolvedView::Pointer(byte_size),
        }
    }
}

/// The type at `offset` after following at most 32 aliases.
pub open spec fn resolved(types: Map<u64, DwarfTypeInfo>, offset: u64) -> ResolvedView {
    resolve_from(types, offset, 33)
}

/// Follows the chain of aliases from `offset` to the type it stands for.
fn resolve_type(offset: u64, types: &HashMap<u64, DwarfTypeInfo>) -> (r: ResolvedType)
    ensures
        r.view_of() == resolved(types@, offset),
{
    let mut current = offset;
    let mut depth: u32 = 0;
    loop
        invariant
            depth <= 33,
            resolved(types@, offset) == resolve_from(types@, current, (33 - depth) as nat),
        decreases 33 - depth,
    {
        if depth > 32 {
            return ResolvedType::Unknown;
        }
        depth = depth + 1;
        match types.get(&current) {
            Some(DwarfTypeInfo::Alias { target_offset }) => {
                current = *target_offset;
            },
            Some(DwarfTypeInfo::Base { name, byte_size }) => {
                return ResolvedType::Base(name.clone(), *byte_size);
            },
            Some(DwarfTypeInfo::Struct { .. }) => {
                return ResolvedType::Struct(current);
            },
            Some(DwarfTypeInfo::Array { .. }) => {
                return ResolvedType::Array(current);
            },
            Some(DwarfTypeInfo::Pointer { byte_size }) => {
                return ResolvedType::Pointer(*byte_size);
            },
            None => {
                return ResolvedType::Unknown;
            },
        }
    }
}

/// Size in bytes of a resolved type; 4 when it is not known.
pub open spec fn type_byte_size(r: ResolvedView, types: Map<u64, DwarfTypeInfo>) -> u32 {
    match r {
        ResolvedView::Base(_, size) => size,
        ResolvedView::Struct(o) => if types.contains_key(o) && types[o] is Struct {
            types[o]->Struct_byte_size
        } else {
            4
        },
        ResolvedView::Array(o) => if types.contains_key(o) && types[o] is Array {
            types[o]->Array_byte_size
        } else {
            4
        },
        ResolvedView::Pointer(size) => size,
        ResolvedView::Unknown => 4,
    }
}

fn get_type_byte_size(resolved: &ResolvedType, types: &HashMap<u64, DwarfTypeInfo>) -> (n: u32)
    ensures
        n == type_byte_size(resolved.view_of(), types@),
{
    match resolved {
        ResolvedType::Base(_, size) => *size,
        ResolvedType::Struct(offset) => {
            if let Some(DwarfTypeInfo::Struct { byte_size, .. }) = types.get(offset) {
                *byte_size
            } else {
                4
            }
        },
        ResolvedType::Array(offset) => {
            if let Some(DwarfTypeInfo::Array { byte_size, .. }) = types.get(offset) {
                *byte_size
            } else {
                4
            }
        },
        ResolvedType::Pointer(size) => *size,
        ResolvedType::Unknown => 4,
    }
}

/// Number of occurrences of `c` in `s`.
pub open spec fn count_char(s: Seq<char>, c: char) -> nat
    decreases s.len(),
{
    if s.len() == 0 {
        0
    } else {
        count_char(s.drop_last(), c) + if s.last() == c {
            1nat
        } else {
            0nat
        }
    }
}

fn count_dots(s: &str) -> (n: usize)
    ensures
        n == count_char(s@, '.'),
{
    let len = s.unicode_len();
    let mut n: usize = 0;
    let mut i: usize = 0;
    while i < len
        invariant
            len == s@.len(),
            i <= len,
            n == count_char(s@.subrange(0, i as int), '.'),
            n <= i,
        decreases len - i,
    {
        proof {
            let t = s@.subrange(0, i + 1);
            assert(t.drop_last() =~= s@.subrange(0, i as int));
        }
        if s.get_char(i) == '.' {
            n = n + 1;
        }
        i = i + 1;
    }
    assert(s@.subrange(0, len as int) =~= s@);
    n
}

/// The path of `name` below `parent`: `parent.name`, or `name` at the top.
pub open spec fn join_path(parent: Seq<char>, name: Seq<char>) -> Seq<char> {
    if parent.len() == 0 {
        name
    } else {
        parent + "."@ + name
    }
}

/// `a + b` wrapping at 2^32.
pub open spec fn wrap_add(a: u32, b: int) -> u32 {
    ((a + b) % 0x1_0000_0000) as u32
}

/// The leaf entry of a variable below `parent`.
pub open spec fn leaf(dv: VarView, parent: Seq<char>, byte_size: u32, vt: ValueType) -> ElfVarView {
    ElfVarView {
        name: dv.name,
        path: join_path(parent, dv.name),
        address: dv.address,
        byte_size,
        value_type: vt,
        parent_path: if parent.len() == 0 {
            None
        } else {
            Some(parent)
        },
        source_file: dv.source_file,
    }
}

/// The most array elements expanded per array.
pub const MAX_ARRAY_ELEMENTS: u32 = 256;

/// The leaves of variable `dv` of type `r` below `parent`, nesting
/// structures and arrays at most `fuel` levels deep. A structure is
/// expanded while `parent` holds fewer than four dots; an array into its
/// first 256 elements, each named `path[i]` at the top level.
pub open spec fn expand(
    dv: VarView,
    r: ResolvedView,
    types: Map<u64, DwarfTypeInfo>,
    parent: Seq<char>,
    fuel: nat,
) -> Seq<ElfVarView>
    decreases fuel, 0nat, 0nat,
{
    match r {
        ResolvedView::Base(name, bs) => seq![leaf(dv, parent, bs, base_value_type(name, bs))],
        ResolvedView::Pointer(bs) => seq![leaf(dv, parent, bs, ValueType::Uint32)],
        ResolvedView::Unknown => seq![leaf(dv, parent, 4, ValueType::Uint32)],
        ResolvedView::Struct(o) => {
            if fuel > 0 && types.contains_key(o) && types[o] is Struct && count_char(parent, '.')
                < 4 {
                let members = types[o]->Struct_members@;
                expand_members(
                    dv,
                    members,
                    types,
                    join_path(parent, dv.name),
                    (fuel - 1) as nat,
                    members.len(),
                )
            } else {
                Seq::empty()
            }
        },
        ResolvedView::Array(o) => {
            if fuel > 0 && types.contains_key(o) && types[o] is Array {
                let eo = types[o]->element_type_offset;
                let et = resolved(types, eo);
                let es = type_byte_size(et, types);
                let count = types[o]->element_count;
                let n = if count < MAX_ARRAY_ELEMENTS {
                    count
                } else {
                    MAX_ARRAY_ELEMENTS
                };
                expand_elements(
                    dv,
                    eo,
                    et,
                    es,
                    types,
                    join_path(parent, dv.name),
                    (fuel - 1) as nat,
                    n as nat,
                )
            } else {
                Seq::empty()
            }
        },
    }
}

/// The leaves of the first `k` members of a structure at `path`.
pub open spec fn expand_members(
    dv: VarView,
    members: Seq<DwarfMember>,
    types: Map<u64, DwarfTypeInfo>,
    path: Seq<char>,
    fuel: nat,
    k: nat,
) -> Seq<ElfVarView>
    decreases fuel, 1nat, k,
{
    if k == 0 {
        Seq::empty()
    } else {
        let m = members[k - 1];
        let mdv = VarView {
            name: m.name@,
            address: wrap_add(dv.address, m.member_offset as int),
            type_offset: m.type_offset,
            source_file: dv.source_file,
            source_line: dv.source_line,
        };
        expand_members(dv, members, types, path, fuel, (k - 1) as nat) + expand(
            mdv,
            resolved(types, m.type_offset),
            types,
            path,
            fuel,
        )
    }
}

/// The name of element `i` of the array at `path`.
pub open spec fn element_name(path: Seq<char>, i: nat) -> Seq<char> {
    path + "["@ + decimal_digits(i) + "]"@
}

/// The leaves of the first `k` elements of an array at `path`.
pub open spec fn expand_elements(
    dv: VarView,
    elem_offset: u64,
    et: ResolvedView,
    elem_size: u32,
    types: Map<u64, DwarfTypeInfo>,
    path: Seq<char>,
    fuel: nat,
    k: nat,
) -> Seq<ElfVarView>
    decreases fuel, 1nat, k,
{
    if k == 0 {
        Seq::empty()
    } else {
        let edv = VarView {
            name: element_name(path, (k - 1) as nat),
            address: wrap_add(dv.address, (k - 1) * elem_size),
            type_offset: elem_offset,
            source_file: dv.source_file,
            source_line: dv.source_line,
        };
        expand_elements(dv, elem_offset, et, elem_size, types, path, fuel, (k - 1) as nat)
            + expand(edv, et, types, Seq::empty(), fuel)
    }
}

fn clone_opt(o: &Option<String>) -> (r: Option<String>)
    ensures
        opt_text(r) == opt_text(*o),
{
    match o {
        Some(s) => Some(s.clone()),
        None => None,
    }
}

fn make_leaf(dv: &DwarfVarInfo, parent_path: &str, byte_size: u32, vt: ValueType) -> (v: ElfVariable)
    ensures
        v@ == leaf(dv@, parent_path@, byte_size, vt),
{
    let path = if parent_path.unicode_len() == 0 {
        dv.name.clone()
    } else {
        let mut p = String::from_str(parent_path);
        p.append(".");
        p.append(dv.name.as_str());
        p
    };
    let parent = if parent_path.unicode_len() == 0 {
        None
    } else {
        Some(String::from_str(parent_path))
    };
    let v = ElfVariable {
        name: dv.name.clone(),
        path,
        address: dv.address,
        byte_size,
        value_type: vt,
        parent_path: parent,
        source_file: clone_opt(&dv.source_file),
    };
    assert(v@ =~= leaf(dv@, parent_path@, byte_size, vt));
    v
}

/// Expands variable `dv` of type `resolved` below `parent_path` into its
/// leaves, appended to `output`.
fn expand_variable(
    dv: &DwarfVarInfo,
    resolved: &ResolvedType,
    types: &HashMap<u64, DwarfTypeInfo>,
    parent_path: &str,
    output: &mut Vec<ElfVariable>,
    fuel: u64,
)
    ensures
        final(output)@.map_values(|v: ElfVariable| v@) == old(output)@.map_values(
            |v: ElfVariable| v@,
        ) + expand(dv@, resolved.view_of(), types@, parent_path@, fuel as nat),
    decreases fuel,
{
    let ghost before = output@.map_values(|v: ElfVariable| v@);
    match resolved {
        ResolvedType::Base(name, byte_size) => {
            let vt = map_dwarf_type(name.as_str(), *byte_size);
            output.push(make_leaf(dv, parent_path, *byte_size, vt));
            assert(output@.map_values(|v: ElfVariable| v@) =~= before + expand(
                dv@,
                resolved.view_of(),
                types@,
                parent_path@,
                fuel as nat,
            ));
        },
        ResolvedType::Pointer(byte_size) => {
            output.push(make_leaf(dv, parent_path, *byte_size, ValueType::Uint32));
            assert(output@.map_values(|v: ElfVariable| v@) =~= before + expand(
                dv@,
                resolved.view_of(),
                types@,
                parent_path@,
                fuel as nat,
            ));
        },
        ResolvedType::Unknown => {
            output.push(make_leaf(dv, parent_path, 4, ValueType::Uint32));
            assert(output@.map_values(|v: ElfVariable| v@) =~= before + expand(
                dv@,
                resolved.view_of(),
                types@,
                parent_path@,
                fuel as nat,
            ));
        },
        ResolvedType::Struct(type_offset) => {
            if fuel == 0 {
                assert(output@.map_values(|v: ElfVariable| v@) =~= before + Seq::empty());
                return;
            }
            if let Some(DwarfTypeInfo::Struct { members, .. }) = types.get(type_offset) {
                if count_dots(parent_path) < 4 {
                    let path = join(parent_path, &dv.name);
                    let ghost ms = members@;
                    let mut k: usize = 0;
                    while k < members.len()
                        invariant
                            fuel > 0,
                            ms == members@,
                            k <= ms.len(),
                            output@.map_values(|v: ElfVariable| v@) == before + expand_members(
                                dv@,
                                ms,
                                types@,
                                path@,
                                (fuel - 1) as nat,
                                k as nat,
                            ),
                        decreases ms.len() - k,
                    {
                        let m = &members[k];
                        let mt = resolve_type(m.type_offset, types);
                        let mdv = DwarfVarInfo {
                            name: m.name.clone(),
                            address: ((dv.address as u64 + m.member_offset as u64) % 0x1_0000_0000) as u32,
                            type_offset: m.type_offset,
                            source_file: clone_opt(&dv.source_file),
                            source_line: dv.source_line,
                        };
                        let ghost mid = output@.map_values(|v: ElfVariable| v@);
                        expand_variable(&mdv, &mt, types, path.as_str(), output, fuel - 1);
                        k = k + 1;
                        assert(output@.map_values(|v: ElfVariable| v@) =~= before + expand_members(
                            dv@,
                            ms,
                            types@,
                            path@,
                            (fuel - 1) as nat,
                            k as nat,
                        ));
                    }
                    return;
                }
            }
            assert(output@.map_values(|v: ElfVariable| v@) =~= before + Seq::empty());
        },
        ResolvedType::Array(type_offset) => {
            if fuel == 0 {
                assert(output@.map_values(|v: ElfVariable| v@) =~= before + Seq::empty());
                return;
            }
            if let Some(DwarfTypeInfo::Array { element_type_offset, element_count, .. }) = types.get(
                type_offset,
            ) {
                let elem_type = resolve_type(*element_type_offset, types);
                let elem_size = get_type_byte_size(&elem_type, types);
                let count = if *element_count < MAX_ARRAY_ELEMENTS {
                    *element_count
                } else {
                    MAX_ARRAY_ELEMENTS
                };
                let path = join(parent_path, &dv.name);
                let mut i: u32 = 0;
                while i < count
                    invariant
                        fuel > 0,
                        i <= count,
                        count <= MAX_ARRAY_ELEMENTS,
                        output@.map_values(|v: ElfVariable| v@) == before + expand_elements(
                            dv@,
                            *element_type_offset,
                            elem_type.view_of(),
                            elem_size,
                            types@,
                            path@,
                            (fuel - 1) as nat,
                            i as nat,
                        ),
                    decreases count - i,
                {
                    let mut name = String::from_str(path.as_str());
                    name.append("[");
                    push_decimal(&mut name, i as u64);
                    name.append("]");
                    assert((i as u64) * (elem_size as u64) <= 256 * 0xffff_ffff) by (nonlinear_arith)
                        requires
                            i < 256,
                            elem_size <= 0xffff_ffff,
                    ;
                    let edv = DwarfVarInfo {
                        name,
                        address: ((dv.address as u64 + (i as u64) * (elem_size as u64)) % 0x1_0000_0000) as u32,
                        type_offset: *element_type_offset,
                        source_file: clone_opt(&dv.source_file),
                        source_line: dv.source_line,
                    };
                    let ghost mid = output@.map_values(|v: ElfVariable| v@);
                    assert(edv@.name == element_name(path@, i as nat));
                    assert(edv@.address == wrap_add(dv.address, i * elem_size));
                    assert(""@ =~= Seq::<char>::empty()) by {
                        reveal_strlit("");
                    }
                    expand_variable(&edv, &elem_type, types, "", output, fuel - 1);
                    i = i + 1;
                    assert(output@.map_values(|v: ElfVariable| v@) =~= before + expand_elements(
                        dv@,
                        *element_type_offset,
                        elem_type.view_of(),
                        elem_size,
                        types@,
                        path@,
                        (fuel - 1) as nat,
                        i as nat,
                    ));
                }
                return;
            }
            assert(output@.map_values(|v: ElfVariable| v@) =~= before + Seq::empty());
        },
    }
}

fn join(parent_path: &str, name: &String) -> (p: String)
    ensures
        p@ == join_path(parent_path@, name@),
{
    if parent_path.unicode_len() == 0 {
        name.clone()
    } else {
        let mut p = String::from_str(parent_path);
        p.append(".");
        p.append(name.as_str());
        p
    }
}


fn copy_var(v: &ElfVariable) -> (r: ElfVariable)
    ensures
        r@ == v@,
{
    ElfVariable {
        name: v.name.clone(),
        path: v.path.clone(),
        address: v.address,
        byte_size: v.byte_size,
        value_type: v.value_type,
        parent_path: clone_opt(&v.parent_path),
        source_file: clone_opt(&v.source_file),
    }
}

// ------------------------------------------------------------
// Order of the variable list
// ------------------------------------------------------------

/// Entries are ordered by path, then by address.
#[verifier::opaque]
pub open spec fn key_lt(a: ElfVarView, b: ElfVarView) -> bool {
    seq_lt(a.path, b.path) || (a.path == b.path && a.address < b.address)
}

/// Two entries with the same path and address.
pub open spec fn same_key(a: ElfVarView, b: ElfVarView) -> bool {
    a.path == b.path && a.address == b.address
}

proof fn lemma_key_lt_transitive(a: ElfVarView, b: ElfVarView, c: ElfVarView)
    requires
        key_lt(a, b),
        key_lt(b, c),
    ensures
        key_lt(a, c),
{
    reveal(key_lt);
    if seq_lt(a.path, b.path) && seq_lt(b.path, c.path) {
        lemma_seq_lt_transitive(a.path, b.path, c.path);
    }
}

proof fn lemma_key_lt_same(a: ElfVarView, b: ElfVarView, c: ElfVarView)
    requires
        key_lt(a, b),
        same_key(b, c),
    ensures
        key_lt(a, c),
{
    reveal(key_lt);
}

proof fn lemma_key_total(a: ElfVarView, b: ElfVarView)
    ensures
        same_key(a, b) || key_lt(a, b) || key_lt(b, a),
        !(key_lt(a, b) && key_lt(b, a)),
        same_key(a, b) ==> !key_lt(a, b),
{
    reveal(key_lt);
    lemma_seq_lt_total(a.path, b.path);
    lemma_seq_lt_asymmetric(a.path, b.path);
    lemma_seq_lt_irreflexive(a.path);
}

/// Whether entry `i` of `s` is the first with its path and address.
#[verifier::opaque]
pub open spec fn first_occurrence(s: Seq<ElfVarView>, i: int) -> bool {
    0 <= i < s.len() && forall|j: int| 0 <= j < i ==> !same_key(#[trigger] s[j], s[i])
}

/// Each entry of `r` comes before the next, by path and then address.
#[verifier::opaque]
pub open spec fn sorted_by_key(r: Seq<ElfVarView>) -> bool {
    forall|i: int, j: int| 0 <= i < j < r.len() ==> key_lt(#[trigger] r[i], #[trigger] r[j])
}

/// `v` is an entry of `s` that is the first of its path and address.
pub open spec fn is_first_entry(s: Seq<ElfVarView>, v: ElfVarView) -> bool {
    exists|k: int| first_occurrence(s, k) && s[k] == v
}

/// Each entry of `r` is the first entry of `s` of its path and address.
#[verifier::opaque]
pub open spec fn only_first_occurrences(r: Seq<ElfVarView>, s: Seq<ElfVarView>) -> bool {
    forall|i: int| 0 <= i < r.len() ==> #[trigger] is_first_entry(s, r[i])
}

/// The first entry of `s` of each path and address is in `r`.
#[verifier::opaque]
pub open spec fn all_first_occurrences(r: Seq<ElfVarView>, s: Seq<ElfVarView>) -> bool {
    forall|k: int| first_occurrence(s, k) ==> #[trigger] r.contains(s[k])
}

/// `r` lists, ordered by path and then address, the first entry of `s` of
/// each path and address: the sorted list with later duplicates removed.
pub open spec fn sorted_first_occurrences(r: Seq<ElfVarView>, s: Seq<ElfVarView>) -> bool {
    &&& sorted_by_key(r)
    &&& only_first_occurrences(r, s)
    &&& all_first_occurrences(r, s)
}

proof fn lemma_has_first_occurrence(s: Seq<ElfVarView>, j: int)
    requires
        0 <= j < s.len(),
    ensures
        exists|k: int| 0 <= k <= j && first_occurrence(s, k) && same_key(s[k], s[j]),
    decreases j,
{
    reveal(first_occurrence);
    if first_occurrence(s, j) {
        assert(same_key(s[j], s[j]));
    } else {
        let j2 = choose|j2: int| 0 <= j2 < j && same_key(s[j2], s[j]);
        lemma_has_first_occurrence(s, j2);
        let k = choose|k: int| 0 <= k <= j2 && first_occurrence(s, k) && same_key(s[k], s[j2]);
        assert(same_key(s[k], s[j]));
    }
}

proof fn lemma_first_occurrence_in_range(s: Seq<ElfVarView>, k: int)
    ensures
        first_occurrence(s, k) ==> 0 <= k < s.len(),
{
    reveal(first_occurrence);
}

proof fn lemma_first_occurrence_push(pre: Seq<ElfVarView>, x: ElfVarView, k: int)
    requires
        k != pre.len(),
    ensures
        first_occurrence(pre.push(x), k) == first_occurrence(pre, k),
        first_occurrence(pre, k) ==> pre.push(x)[k] == pre[k],
{
    reveal(first_occurrence);
    let post = pre.push(x);
    if 0 <= k < pre.len() {
        assert(post[k] == pre[k]);
    }
    if first_occurrence(pre, k) {
        assert forall|j: int| 0 <= j < k implies !same_key(#[trigger] post[j], post[k]) by {
            assert(post[j] == pre[j]);
        }
    }
    if first_occurrence(post, k) {
        assert forall|j: int| 0 <= j < k implies !same_key(#[trigger] pre[j], pre[k]) by {
            assert(post[j] == pre[j]);
        }
    }
}

proof fn lemma_push_only_first(r0: Seq<ElfVarView>, pre: Seq<ElfVarView>, x: ElfVarView)
    requires
        only_first_occurrences(r0, pre),
    ensures
        only_first_occurrences(r0, pre.push(x)),
{
    reveal(only_first_occurrences);
    let post = pre.push(x);
    assert forall|i: int| 0 <= i < r0.len() implies #[trigger] is_first_entry(post, r0[i]) by {
        assert(is_first_entry(pre, r0[i]));
        let k2 = choose|k2: int| first_occurrence(pre, k2) && pre[k2] == r0[i];
        lemma_first_occurrence_in_range(pre, k2);
        lemma_first_occurrence_push(pre, x, k2);
        assert(first_occurrence(post, k2) && post[k2] == r0[i]);
    }
}

proof fn lemma_push_all_first(r0: Seq<ElfVarView>, pre: Seq<ElfVarView>, x: ElfVarView)
    requires
        all_first_occurrences(r0, pre),
        !first_occurrence(pre.push(x), pre.len() as int),
    ensures
        all_first_occurrences(r0, pre.push(x)),
{
    reveal(all_first_occurrences);
    let post = pre.push(x);
    assert forall|k2: int| first_occurrence(post, k2) implies #[trigger] r0.contains(post[k2]) by {
        lemma_first_occurrence_push(pre, x, k2);
        assert(r0.contains(pre[k2]));
    }
}

proof fn lemma_skip_duplicate(r0: Seq<ElfVarView>, pre: Seq<ElfVarView>, x: ElfVarView, p: int)
    requires
        sorted_first_occurrences(r0, pre),
        0 <= p < r0.len(),
        same_key(r0[p], x),
    ensures
        sorted_first_occurrences(r0, pre.push(x)),
{
    let post = pre.push(x);
    let t = pre.len() as int;
    assert(is_first_entry(pre, r0[p])) by {
        reveal(only_first_occurrences);
    }
    let k = choose|k: int| first_occurrence(pre, k) && pre[k] == r0[p];
    assert(!first_occurrence(post, t)) by {
        lemma_first_occurrence_in_range(pre, k);
        reveal(first_occurrence);
        assert(post[k] == pre[k]);
        assert(same_key(post[k], post[t]));
    }
    lemma_push_only_first(r0, pre, x);
    lemma_push_all_first(r0, pre, x);
}

proof fn lemma_new_first(r0: Seq<ElfVarView>, pre: Seq<ElfVarView>, x: ElfVarView, p: int)
    requires
        sorted_first_occurrences(r0, pre),
        0 <= p <= r0.len(),
        forall|i: int| 0 <= i < p ==> key_lt(#[trigger] r0[i], x),
        forall|i: int| p <= i < r0.len() ==> !key_lt(#[trigger] r0[i], x),
        !(p < r0.len() && same_key(r0[p], x)),
    ensures
        first_occurrence(pre.push(x), pre.len() as int),
        p < r0.len() ==> key_lt(x, r0[p]),
{
    reveal(sorted_by_key);
    reveal(all_first_occurrences);
    reveal(first_occurrence);
    let post = pre.push(x);
    let t = pre.len() as int;
    if p < r0.len() {
        lemma_key_total(r0[p], x);
    }
    if !first_occurrence(post, t) {
        let j = choose|j: int| 0 <= j < t && same_key(post[j], post[t]);
        lemma_has_first_occurrence(pre, j);
        let k = choose|k: int| 0 <= k <= j && first_occurrence(pre, k) && same_key(pre[k], pre[j]);
        assert(r0.contains(pre[k]));
        let i = choose|i: int| 0 <= i < r0.len() && r0[i] == pre[k];
        assert(same_key(r0[i], x));
        lemma_key_total(r0[i], x);
        if i > p {
            assert(key_lt(r0[p], r0[i]));
            lemma_key_lt_same(r0[p], r0[i], x);
        }
    }
}

proof fn lemma_insert_sorted(r0: Seq<ElfVarView>, x: ElfVarView, p: int)
    requires
        sorted_by_key(r0),
        0 <= p <= r0.len(),
        forall|i: int| 0 <= i < p ==> key_lt(#[trigger] r0[i], x),
        p < r0.len() ==> key_lt(x, r0[p]),
    ensures
        sorted_by_key(r0.insert(p, x)),
{
    reveal(sorted_by_key);
    let r1 = r0.insert(p, x);
    assert forall|j: int| p <= j < r0.len() implies key_lt(x, #[trigger] r0[j]) by {
        if j > p {
            lemma_key_lt_transitive(x, r0[p], r0[j]);
        }
    }
    assert forall|i: int, j: int| 0 <= i < j < r1.len() implies key_lt(#[trigger] r1[i], #[trigger] r1[j]) by {
        if i < p && j > p {
            assert(r1[i] == r0[i] && r1[j] == r0[j - 1]);
            lemma_key_lt_transitive(r0[i], x, r0[j - 1]);
        } else if i < p && j < p {
            assert(r1[i] == r0[i] && r1[j] == r0[j]);
        } else if i < p {
            assert(r1[i] == r0[i] && r1[j] == x);
        } else if i == p {
            assert(r1[j] == r0[j - 1]);
        } else {
            assert(r1[i] == r0[i - 1] && r1[j] == r0[j - 1]);
        }
    }
}

proof fn lemma_insert_only_first(r0: Seq<ElfVarView>, pre: Seq<ElfVarView>, x: ElfVarView, p: int)
    requires
        only_first_occurrences(r0, pre),
        0 <= p <= r0.len(),
        first_occurrence(pre.push(x), pre.len() as int),
    ensures
        only_first_occurrences(r0.insert(p, x), pre.push(x)),
{
    reveal(only_first_occurrences);
    let post = pre.push(x);
    let t = pre.len() as int;
    let r1 = r0.insert(p, x);
    assert forall|i: int| 0 <= i < r1.len() implies #[trigger] is_first_entry(post, r1[i]) by {
        if i == p {
            assert(first_occurrence(post, t) && post[t] == r1[i]);
        } else {
            let oi = if i < p { i } else { i - 1 };
            assert(r1[i] == r0[oi]);
            assert(is_first_entry(pre, r0[oi]));
            let k = choose|k: int| first_occurrence(pre, k) && pre[k] == r0[oi];
            lemma_first_occurrence_in_range(pre, k);
            lemma_first_occurrence_push(pre, x, k);
            assert(first_occurrence(post, k) && post[k] == r1[i]);
        }
    }
}

proof fn lemma_insert_all_first(r0: Seq<ElfVarView>, pre: Seq<ElfVarView>, x: ElfVarView, p: int)
    requires
        all_first_occurrences(r0, pre),
        0 <= p <= r0.len(),
    ensures
        all_first_occurrences(r0.insert(p, x), pre.push(x)),
{
    reveal(all_first_occurrences);
    let post = pre.push(x);
    let t = pre.len() as int;
    let r1 = r0.insert(p, x);
    assert forall|k: int| first_occurrence(post, k) implies #[trigger] r1.contains(post[k]) by {
        if k == t {
            assert(r1[p] == post[k]);
        } else {
            lemma_first_occurrence_push(pre, x, k);
            assert(first_occurrence(pre, k));
            assert(post[k] == pre[k]);
            assert(r0.contains(pre[k]));
            let i = choose|i: int| 0 <= i < r0.len() && r0[i] == pre[k];
            if i < p {
                assert(r1[i] == r0[i]);
                assert(r1[i] == post[k]);
            } else {
                assert(r1[i + 1] == r0[i]);
                assert(r1[i + 1] == post[k]);
            }
        }
    }
}

proof fn lemma_insert_first(r0: Seq<ElfVarView>, pre: Seq<ElfVarView>, x: ElfVarView, p: int)
    requires
        sorted_first_occurrences(r0, pre),
        0 <= p <= r0.len(),
        forall|i: int| 0 <= i < p ==> key_lt(#[trigger] r0[i], x),
        forall|i: int| p <= i < r0.len() ==> !key_lt(#[trigger] r0[i], x),
        !(p < r0.len() && same_key(r0[p], x)),
    ensures
        sorted_first_occurrences(r0.insert(p, x), pre.push(x)),
{
    lemma_new_first(r0, pre, x, p);
    lemma_insert_sorted(r0, x, p);
    lemma_insert_only_first(r0, pre, x, p);
    lemma_insert_all_first(r0, pre, x, p);
}

/// Position before which every entry of the ordered list comes before `v`.
fn lower_bound(result: &Vec<ElfVariable>, keys: &Vec<Vec<char>>, v: &ElfVariable, kv: &Vec<char>) -> (p: usize)
    requires
        keys@.len() == result@.len(),
        forall|i: int| 0 <= i < keys@.len() ==> (#[trigger] keys@[i])@ == result@[i]@.path,
        kv@ == v@.path,
        forall|i: int, j: int|
            0 <= i < j < result@.len() ==> key_lt(#[trigger] result@[i]@, #[trigger] result@[j]@),
    ensures
        p <= result@.len(),
        forall|i: int| 0 <= i < p ==> key_lt(#[trigger] result@[i]@, v@),
        forall|i: int| p <= i < result@.len() ==> !key_lt(#[trigger] result@[i]@, v@),
{
    let mut lo: usize = 0;
    let mut hi: usize = result.len();
    while lo < hi
        invariant
            lo <= hi <= result@.len(),
            keys@.len() == result@.len(),
            forall|i: int| 0 <= i < keys@.len() ==> (#[trigger] keys@[i])@ == result@[i]@.path,
            kv@ == v@.path,
            forall|i: int, j: int|
                0 <= i < j < result@.len() ==> key_lt(#[trigger] result@[i]@, #[trigger] result@[j]@),
            forall|i: int| 0 <= i < lo ==> key_lt(#[trigger] result@[i]@, v@),
            forall|i: int| hi <= i < result@.len() ==> !key_lt(#[trigger] result@[i]@, v@),
        decreases hi - lo,
    {
        let mid = lo + (hi - lo) / 2;
        let less = chars_lt(&keys[mid], kv) || (!chars_lt(kv, &keys[mid]) && result[mid].address
            < v.address);
        proof {
            lemma_seq_lt_total(keys@[mid as int]@, kv@);
            reveal(key_lt);
            assert(less == key_lt(result@[mid as int]@, v@));
        }
        if less {
            proof {
                assert forall|i: int| 0 <= i < mid + 1 implies key_lt(#[trigger] result@[i]@, v@) by {
                    if i < mid {
                        lemma_key_lt_transitive(result@[i]@, result@[mid as int]@, v@);
                    }
                }
            }
            lo = mid + 1;
        } else {
            proof {
                assert forall|i: int| mid <= i < result@.len() implies !key_lt(#[trigger] result@[i]@, v@) by {
                    if i > mid && key_lt(result@[i]@, v@) {
                        lemma_key_lt_transitive(result@[mid as int]@, result@[i]@, v@);
                    }
                }
            }
            hi = mid;
        }
    }
    lo
}

/// Adds `v` to the ordered list `result`, unless an entry with its path and
/// address is already there; `keys` holds the paths of `result`.
fn insert_first(
    result: &mut Vec<ElfVariable>,
    keys: &mut Vec<Vec<char>>,
    v: ElfVariable,
    Ghost(pre): Ghost<Seq<ElfVarView>>,
)
    requires
        old(keys)@.len() == old(result)@.len(),
        forall|i: int| 0 <= i < old(keys)@.len() ==> (#[trigger] old(keys)@[i])@ == old(result)@[i]@.path,
        sorted_first_occurrences(var_views(old(result)@), pre),
    ensures
        final(keys)@.len() == final(result)@.len(),
        forall|i: int| 0 <= i < final(keys)@.len() ==> (#[trigger] final(keys)@[i])@ == final(result)@[i]@.path,
        sorted_first_occurrences(var_views(final(result)@), pre.push(v@)),
{
    let ghost r0 = var_views(result@);
    assert forall|i: int, j: int|
        0 <= i < j < result@.len() implies key_lt(#[trigger] result@[i]@, #[trigger] result@[j]@) by {
        reveal(sorted_by_key);
        assert(r0[i] == result@[i]@ && r0[j] == result@[j]@);
    }
    let kv = chars_of(v.path.as_str());
    let p = lower_bound(result, keys, &v, &kv);
    proof {
        assert forall|i: int| 0 <= i < p implies key_lt(#[trigger] r0[i], v@) by {
            assert(r0[i] == result@[i]@);
        }
        assert forall|i: int| p <= i < r0.len() implies !key_lt(#[trigger] r0[i], v@) by {
            assert(r0[i] == result@[i]@);
        }
    }
    let found = p < result.len() && !chars_lt(&keys[p], &kv) && !chars_lt(&kv, &keys[p])
        && result[p].address == v.address;
    if found {
        proof {
            lemma_seq_lt_total(keys@[p as int]@, kv@);
            assert(r0[p as int] == result@[p as int]@);
            assert(same_key(r0[p as int], v@));
            lemma_skip_duplicate(r0, pre, v@, p as int);
        }
        return;
    }
    proof {
        if p < r0.len() {
            lemma_seq_lt_total(keys@[p as int]@, kv@);
            lemma_seq_lt_irreflexive(kv@);
            assert(r0[p as int] == result@[p as int]@);
        }
        lemma_insert_first(r0, pre, v@, p as int);
    }
    let ghost vv = v@;
    result.insert(p, v);
    keys.insert(p, kv);
    assert(var_views(result@) =~= r0.insert(p as int, vv));
}

/// The variable list holds each path and address once.
pub proof fn lemma_no_repeated_entries(r: Seq<ElfVarView>, s: Seq<ElfVarView>)
    requires
        sorted_first_occurrences(r, s),
    ensures
        forall|i: int, j: int| 0 <= i < j < r.len() ==> !same_key(#[trigger] r[i], #[trigger] r[j]),
{
    reveal(sorted_by_key);
    assert forall|i: int, j: int| 0 <= i < j < r.len() implies !same_key(#[trigger] r[i], #[trigger] r[j]) by {
        lemma_key_total(r[i], r[j]);
    }
}

/// An empty list holds the first entries of an empty sequence.
proof fn lemma_sorted_first_empty()
    ensures
        sorted_first_occurrences(Seq::<ElfVarView>::empty(), Seq::<ElfVarView>::empty()),
{
    reveal(sorted_by_key);
    reveal(only_first_occurrences);
    reveal(all_first_occurrences);
    assert forall|k: int| first_occurrence(Seq::<ElfVarView>::empty(), k) implies false by {
        lemma_first_occurrence_in_range(Seq::<ElfVarView>::empty(), k);
    }
}

// ------------------------------------------------------------
// Building the variable list
// ------------------------------------------------------------

/// Whether some symbol of the table is named `name`.
pub open spec fn has_symbol(symbols: Seq<ElfSymbolRaw>, name: Seq<char>) -> bool {
    exists|i: int| 0 <= i < symbols.len() && (#[trigger] symbols[i]).name@ == name
}

/// A variable of the debug information is kept when the symbol table has a
/// symbol of its name and its address is not 0.
pub open spec fn cross_checked(symbols: Seq<ElfSymbolRaw>, dv: VarView) -> bool {
    has_symbol(symbols, dv.name) && dv.address != 0
}

/// How deep structures and arrays are expanded for a type table of `n`
/// entries: `6 * (n + 1)` levels (at most `u64::MAX`). Along any expansion
/// that ends, at most five structure levels pass the four-dot rule and no
/// type repeats between them, so this never cuts such an expansion short.
pub open spec fn expansion_depth(types: Map<u64, DwarfTypeInfo>) -> nat {
    if types.len() + 1 <= u64::MAX / 6 {
        6 * (types.len() + 1)
    } else {
        u64::MAX as nat
    }
}

/// The leaves of the first `k` variables that pass the cross-check, in order.
pub open spec fn dwarf_leaves(
    vars: Seq<DwarfVarInfo>,
    symbols: Seq<ElfSymbolRaw>,
    types: Map<u64, DwarfTypeInfo>,
    k: nat,
) -> Seq<ElfVarView>
    decreases k,
{
    if k == 0 {
        Seq::empty()
    } else {
        let dv = vars[k - 1]@;
        dwarf_leaves(vars, symbols, types, (k - 1) as nat) + if cross_checked(symbols, dv) {
            expand(dv, resolved(types, dv.type_offset), types, Seq::empty(), expansion_depth(types))
        } else {
            Seq::empty()
        }
    }
}

fn symbol_named(symbols: &[ElfSymbolRaw], name: &String) -> (b: bool)
    ensures
        b == has_symbol(symbols@, name@),
{
    let mut i: usize = 0;
    while i < symbols.len()
        invariant
            i <= symbols@.len(),
            forall|j: int| 0 <= j < i ==> (#[trigger] symbols@[j]).name@ != name@,
        decreases symbols@.len() - i,
    {
        if str_eq(symbols[i].name.as_str(), name.as_str()) {
            return true;
        }
        i = i + 1;
    }
    false
}

/// Builds the variable list from the symbol table and the debug
/// information: the variables whose name is in the symbol table and whose
/// address is not 0, expanded into their leaves, ordered by path and then
/// address, with later entries of the same path and address dropped.
pub fn build_from_dwarf(elf_symbols: &[ElfSymbolRaw], dwarf: &DwarfResult) -> (r: Result<
    Vec<ElfVariable>,
    String,
>)
    ensures
        r is Ok,
        r matches Ok(v) ==> sorted_first_occurrences(
            var_views(v@),
            dwarf_leaves(dwarf.variables@, elf_symbols@, dwarf.types@, dwarf.variables@.len()),
        ),
{
    let ghost vars = dwarf.variables@;
    let ghost types = dwarf.types@;
    let n = dwarf.types.len() as u64;
    let fuel: u64 = if n < u64::MAX / 6 {
        6 * (n + 1)
    } else {
        u64::MAX
    };
    assert(n == types.len());
    let mut all: Vec<ElfVariable> = Vec::new();
    let mut k: usize = 0;
    while k < dwarf.variables.len()
        invariant
            k <= vars.len(),
            vars == dwarf.variables@,
            types == dwarf.types@,
            fuel == expansion_depth(types),
            var_views(all@) == dwarf_leaves(vars, elf_symbols@, types, k as nat),
        decreases vars.len() - k,
    {
        let dv = &dwarf.variables[k];
        if dv.address != 0 && symbol_named(elf_symbols, &dv.name) {
            let resolved = resolve_type(dv.type_offset, &dwarf.types);
            assert(""@ =~= Seq::<char>::empty()) by {
                reveal_strlit("");
            }
            expand_variable(dv, &resolved, &dwarf.types, "", &mut all, fuel);
            assert(var_views(all@) =~= all@.map_values(|v: ElfVariable| v@));
        }
        k = k + 1;
        assert(var_views(all@) =~= dwarf_leaves(vars, elf_symbols@, types, k as nat));
    }
    let mut result: Vec<ElfVariable> = Vec::new();
    let mut keys: Vec<Vec<char>> = Vec::new();
    let ghost leaves = var_views(all@);
    proof {
        lemma_sorted_first_empty();
        assert(var_views(result@) =~= Seq::<ElfVarView>::empty());
        assert(leaves.take(0) =~= Seq::<ElfVarView>::empty());
    }
    let mut i: usize = 0;
    while i < all.len()
        invariant
            i <= all@.len(),
            leaves == var_views(all@),
            keys@.len() == result@.len(),
            forall|j: int| 0 <= j < keys@.len() ==> (#[trigger] keys@[j])@ == result@[j]@.path,
            sorted_first_occurrences(var_views(result@), leaves.take(i as int)),
        decreases all@.len() - i,
    {
        let v = copy_var(&all[i]);
        proof {
            assert(leaves.take(i + 1) =~= leaves.take(i as int).push(v@));
        }
        insert_first(&mut result, &mut keys, v, Ghost(leaves.take(i as int)));
        i = i + 1;
    }
    assert(leaves.take(all@.len() as int) =~= leaves);
    Ok(result)
}

// ------------------------------------------------------------
// The symbol table alone
// ------------------------------------------------------------

/// How a symbol of `size` bytes is shown when no type is known: 8 and 4
/// bytes as a float, 2 as `uint16`, 1 as `uint8`, others as `uint32`.
pub open spec fn symbol_value_type(size: u32) -> ValueType {
    if size == 8 || size == 4 {
        ValueType::Float
    } else if size == 2 {
        ValueType::Uint16
    } else if size == 1 {
        ValueType::Uint8
    } else {
        ValueType::Uint32
    }
}

/// The entry a symbol of the table (name, address, size) stands for.
pub open spec fn symbol_entry(sym: (Seq<char>, u32, u32)) -> ElfVarView {
    ElfVarView {
        name: sym.0,
        path: sym.0,
        address: sym.1,
        byte_size: sym.2,
        value_type: symbol_value_type(sym.2),
        parent_path: None,
        source_file: None,
    }
}

/// How a variable known only from the symbol table is shown: as a float
/// exactly when its symbol is 4 or 8 bytes long; as an unsigned integer of
/// 16 or 8 bits when it is 2 or 1 bytes long; and as a 32-bit unsigned word
/// for every other size (an array, a structure, an odd size). It is never
/// shown as a signed integer.
pub proof fn lemma_symbol_types(sym: (Seq<char>, u32, u32))
    ensures
        symbol_entry(sym).value_type == ValueType::Float <==> (sym.2 == 4 || sym.2 == 8),
        symbol_entry(sym).value_type == ValueType::Uint16 <==> sym.2 == 2,
        symbol_entry(sym).value_type == ValueType::Uint8 <==> sym.2 == 1,
        symbol_entry(sym).value_type == ValueType::Uint32 <==> !(sym.2 == 1 || sym.2 == 2 || sym.2
            == 4 || sym.2 == 8),
        symbol_entry(sym).value_type != ValueType::Int32 && symbol_entry(sym).value_type
            != ValueType::Int16 && symbol_entry(sym).value_type != ValueType::Int8,
{
}

/// The entries of the first `k` symbols whose address and size are not 0.
pub open spec fn symbol_entries(symbols: Seq<(Seq<char>, u32, u32)>, k: nat) -> Seq<ElfVarView>
    decreases k,
{
    if k == 0 {
        Seq::empty()
    } else {
        let sym = symbols[k - 1];
        symbol_entries(symbols, (k - 1) as nat) + if sym.1 != 0 && sym.2 != 0 {
            seq![symbol_entry(sym)]
        } else {
            Seq::empty()
        }
    }
}

/// The position after the last entry of `r`, counted from the back, whose
/// path is not after the path of `x`.
pub open spec fn upper_pos(r: Seq<ElfVarView>, x: ElfVarView) -> int
    decreases r.len(),
{
    if r.len() == 0 {
        0
    } else if seq_lt(x.path, r.last().path) {
        upper_pos(r.drop_last(), x)
    } else {
        r.len() as int
    }
}

/// `s` ordered by path, entries of equal paths kept in their order.
pub open spec fn stable_sort_by_path(s: Seq<ElfVarView>) -> Seq<ElfVarView>
    decreases s.len(),
{
    if s.len() == 0 {
        Seq::empty()
    } else {
        let r = stable_sort_by_path(s.drop_last());
        r.insert(upper_pos(r, s.last()), s.last())
    }
}

proof fn lemma_upper_pos_range(r: Seq<ElfVarView>, x: ElfVarView)
    ensures
        0 <= upper_pos(r, x) <= r.len(),
    decreases r.len(),
{
    if r.len() > 0 {
        lemma_upper_pos_range(r.drop_last(), x);
    }
}

/// Ordering by path neither adds nor drops an entry: the result holds the
/// same entries, each as often.
pub proof fn lemma_stable_sort_permutes(s: Seq<ElfVarView>)
    ensures
        stable_sort_by_path(s).to_multiset() == s.to_multiset(),
    decreases s.len(),
{
    if s.len() > 0 {
        let d = s.drop_last();
        lemma_stable_sort_permutes(d);
        let r = stable_sort_by_path(d);
        lemma_upper_pos_range(r, s.last());
        vstd::seq_lib::to_multiset_insert(r, upper_pos(r, s.last()), s.last());
        vstd::seq_lib::to_multiset_build(d, s.last());
        assert(d.push(s.last()) =~= s);
        assert(stable_sort_by_path(s) == r.insert(upper_pos(r, s.last()), s.last()));
        assert(stable_sort_by_path(s).to_multiset() =~= r.to_multiset().insert(s.last()));
        assert(s.to_multiset() =~= d.to_multiset().insert(s.last()));
    } else {
        assert(stable_sort_by_path(s) =~= s);
    }
}

/// The entries of `s` whose path is `p`, in order.
pub open spec fn with_path(s: Seq<ElfVarView>, p: Seq<char>) -> Seq<ElfVarView> {
    s.filter(|e: ElfVarView| e.path == p)
}

proof fn lemma_after_upper_pos(r: Seq<ElfVarView>, x: ElfVarView)
    ensures
        forall|i: int| upper_pos(r, x) <= i < r.len() ==> seq_lt(x.path, #[trigger] r[i].path),
    decreases r.len(),
{
    lemma_upper_pos_range(r, x);
    if r.len() > 0 && seq_lt(x.path, r.last().path) {
        let d = r.drop_last();
        lemma_upper_pos_range(d, x);
        lemma_after_upper_pos(d, x);
        assert forall|i: int| upper_pos(r, x) <= i < r.len() implies seq_lt(x.path, #[trigger] r[i].path) by {
            if i < r.len() - 1 {
                assert(r[i] == d[i]);
            }
        }
    }
}

proof fn lemma_with_path_none(s: Seq<ElfVarView>, p: Seq<char>)
    requires
        forall|i: int| 0 <= i < s.len() ==> (#[trigger] s[i]).path != p,
    ensures
        with_path(s, p) == Seq::<ElfVarView>::empty(),
    decreases s.len(),
{
    reveal(Seq::filter);
    if s.len() > 0 {
        let d = s.drop_last();
        assert forall|i: int| 0 <= i < d.len() implies (#[trigger] d[i]).path != p by {
            assert(d[i] == s[i]);
        }
        lemma_with_path_none(d, p);
    }
}

proof fn lemma_with_path_push(d: Seq<ElfVarView>, x: ElfVarView, p: Seq<char>)
    ensures
        with_path(d.push(x), p) == if x.path == p {
            with_path(d, p).push(x)
        } else {
            with_path(d, p)
        },
{
    reveal(Seq::filter);
    assert(d.push(x).drop_last() =~= d);
}

/// Ordering by path keeps entries of the same path in their order: for
/// every path, the entries with it come out as they went in.
pub proof fn lemma_stable_sort_keeps_order(s: Seq<ElfVarView>, p: Seq<char>)
    ensures
        with_path(stable_sort_by_path(s), p) == with_path(s, p),
    decreases s.len(),
{
    if s.len() > 0 {
        let d = s.drop_last();
        let x = s.last();
        lemma_stable_sort_keeps_order(d, p);
        let r = stable_sort_by_path(d);
        lemma_upper_pos_range(r, x);
        let u = upper_pos(r, x);
        lemma_after_upper_pos(r, x);
        let pred = |e: ElfVarView| e.path == p;
        let head = r.take(u);
        let tail = r.skip(u);
        assert(r =~= head + tail);
        assert(r.insert(u, x) =~= head.push(x) + tail);
        assert(s =~= d.push(x));
        Seq::filter_distributes_over_add(head, tail, pred);
        Seq::filter_distributes_over_add(head.push(x), tail, pred);
        lemma_with_path_push(head, x, p);
        lemma_with_path_push(d, x, p);
        assert(stable_sort_by_path(s) == r.insert(u, x));
        if x.path == p {
            assert forall|i: int| 0 <= i < tail.len() implies (#[trigger] tail[i]).path != p by {
                assert(tail[i] == r[u + i]);
                lemma_seq_lt_irreflexive(p);
            }
            lemma_with_path_none(tail, p);
            assert(with_path(head, p).push(x) + Seq::<ElfVarView>::empty() =~= with_path(head, p).push(x));
            assert(with_path(head, p) + Seq::<ElfVarView>::empty() =~= with_path(head, p));
        }
    }
}

/// No entry of `r` has a path before that of an entry ahead of it.
pub open spec fn path_sorted(r: Seq<ElfVarView>) -> bool {
    forall|i: int, j: int| 0 <= i < j < r.len() ==> !seq_lt(#[trigger] r[j].path, #[trigger] r[i].path)
}

proof fn lemma_upper_pos(r: Seq<ElfVarView>, x: ElfVarView, p: int)
    requires
        0 <= p <= r.len(),
        forall|i: int| 0 <= i < p ==> !seq_lt(x.path, #[trigger] r[i].path),
        forall|i: int| p <= i < r.len() ==> seq_lt(x.path, #[trigger] r[i].path),
    ensures
        upper_pos(r, x) == p,
    decreases r.len(),
{
    if r.len() > 0 {
        let last = r.len() - 1;
        assert(r.last() == r[last]);
        if p < r.len() {
            let d = r.drop_last();
            assert forall|i: int| 0 <= i < p implies !seq_lt(x.path, #[trigger] d[i].path) by {
                assert(d[i] == r[i]);
            }
            assert forall|i: int| p <= i < d.len() implies seq_lt(x.path, #[trigger] d[i].path) by {
                assert(d[i] == r[i]);
            }
            lemma_upper_pos(d, x, p);
        }
    }
}

proof fn lemma_insert_path_sorted(r: Seq<ElfVarView>, x: ElfVarView, p: int)
    requires
        path_sorted(r),
        0 <= p <= r.len(),
        forall|i: int| 0 <= i < p ==> !seq_lt(x.path, #[trigger] r[i].path),
        forall|i: int| p <= i < r.len() ==> seq_lt(x.path, #[trigger] r[i].path),
    ensures
        path_sorted(r.insert(p, x)),
{
    let r1 = r.insert(p, x);
    assert forall|i: int, j: int| 0 <= i < j < r1.len() implies !seq_lt(
        #[trigger] r1[j].path,
        #[trigger] r1[i].path,
    ) by {
        if i < p && j > p {
            assert(r1[i] == r[i] && r1[j] == r[j - 1]);
        } else if i < p && j < p {
            assert(r1[i] == r[i] && r1[j] == r[j]);
        } else if i < p {
            assert(r1[i] == r[i] && r1[j] == x);
        } else if i == p {
            assert(r1[j] == r[j - 1]);
            lemma_seq_lt_asymmetric(x.path, r[j - 1].path);
        } else {
            assert(r1[i] == r[i - 1] && r1[j] == r[j - 1]);
        }
    }
}

/// Position after every entry whose path is not after `kv`.
fn upper_bound(result: &Vec<ElfVariable>, keys: &Vec<Vec<char>>, kv: &Vec<char>) -> (p: usize)
    requires
        keys@.len() == result@.len(),
        forall|i: int| 0 <= i < keys@.len() ==> (#[trigger] keys@[i])@ == result@[i]@.path,
        path_sorted(var_views(result@)),
    ensures
        p <= result@.len(),
        forall|i: int| 0 <= i < p ==> !seq_lt(kv@, #[trigger] result@[i]@.path),
        forall|i: int| p <= i < result@.len() ==> seq_lt(kv@, #[trigger] result@[i]@.path),
{
    let ghost r = var_views(result@);
    let mut lo: usize = 0;
    let mut hi: usize = result.len();
    while lo < hi
        invariant
            lo <= hi <= result@.len(),
            r == var_views(result@),
            keys@.len() == result@.len(),
            forall|i: int| 0 <= i < keys@.len() ==> (#[trigger] keys@[i])@ == result@[i]@.path,
            path_sorted(r),
            forall|i: int| 0 <= i < lo ==> !seq_lt(kv@, #[trigger] result@[i]@.path),
            forall|i: int| hi <= i < result@.len() ==> seq_lt(kv@, #[trigger] result@[i]@.path),
        decreases hi - lo,
    {
        let mid = lo + (hi - lo) / 2;
        let after = chars_lt(kv, &keys[mid]);
        if after {
            proof {
                assert forall|i: int| mid <= i < result@.len() implies seq_lt(kv@, #[trigger] result@[i]@.path) by {
                    if i > mid {
                        assert(r[mid as int] == result@[mid as int]@ && r[i] == result@[i]@);
                        lemma_seq_lt_total(result@[mid as int]@.path, result@[i]@.path);
                        if result@[mid as int]@.path != result@[i]@.path {
                            lemma_seq_lt_transitive(kv@, result@[mid as int]@.path, result@[i]@.path);
                        }
                    }
                }
            }
            hi = mid;
        } else {
            proof {
                assert forall|i: int| 0 <= i < mid + 1 implies !seq_lt(kv@, #[trigger] result@[i]@.path) by {
                    if i < mid {
                        assert(r[mid as int] == result@[mid as int]@ && r[i] == result@[i]@);
                        lemma_seq_lt_total(result@[i]@.path, result@[mid as int]@.path);
                        if seq_lt(kv@, result@[i]@.path) && result@[mid as int]@.path != result@[i]@.path {
                            lemma_seq_lt_transitive(kv@, result@[i]@.path, result@[mid as int]@.path);
                        }
                    }
                }
            }
            lo = mid + 1;
        }
    }
    lo
}

/// The value type of a symbol of `size` bytes.
fn symbol_type(size: u32) -> (vt: ValueType)
    ensures
        vt == symbol_value_type(size),
{
    if size == 8 || size == 4 {
        ValueType::Float
    } else if size == 2 {
        ValueType::Uint16
    } else if size == 1 {
        ValueType::Uint8
    } else {
        ValueType::Uint32
    }
}

/// Builds the variable list from the symbol table alone: one entry per
/// symbol whose address and size are not 0, typed by its size, ordered by
/// path with symbols of the same name kept in table order.
pub fn build_from_symbols_only(elf_symbols: &[ElfSymbolRaw]) -> (r: Result<Vec<ElfVariable>, String>)
    ensures
        r is Ok,
        r matches Ok(v) ==> var_views(v@) == stable_sort_by_path(
            symbol_entries(raw_views(elf_symbols@), elf_symbols@.len()),
        ),
        r matches Ok(v) ==> path_sorted(var_views(v@)),
{
    let mut result: Vec<ElfVariable> = Vec::new();
    let mut keys: Vec<Vec<char>> = Vec::new();
    let mut k: usize = 0;
    assert(var_views(result@) =~= Seq::<ElfVarView>::empty());
    while k < elf_symbols.len()
        invariant
            k <= elf_symbols@.len(),
            keys@.len() == result@.len(),
            forall|i: int| 0 <= i < keys@.len() ==> (#[trigger] keys@[i])@ == result@[i]@.path,
            var_views(result@) == stable_sort_by_path(symbol_entries(raw_views(elf_symbols@), k as nat)),
            path_sorted(var_views(result@)),
        decreases elf_symbols@.len() - k,
    {
        let sym = &elf_symbols[k];
        let ghost before = symbol_entries(raw_views(elf_symbols@), k as nat);
        assert(raw_views(elf_symbols@)[k as int] == raw_view(elf_symbols@[k as int]));
        if sym.address != 0 && sym.size != 0 {
            let v = ElfVariable {
                name: sym.name.clone(),
                path: sym.name.clone(),
                address: sym.address,
                byte_size: sym.size,
                value_type: symbol_type(sym.size),
                parent_path: None,
                source_file: None,
            };
            let kv = chars_of(sym.name.as_str());
            let p = upper_bound(&result, &keys, &kv);
            let ghost r0 = var_views(result@);
            let ghost x = v@;
            proof {
                assert(raw_views(elf_symbols@)[k as int] == raw_view(elf_symbols@[k as int]));
                assert(x == symbol_entry(raw_views(elf_symbols@)[k as int]));
                assert forall|i: int| 0 <= i < p implies !seq_lt(x.path, #[trigger] r0[i].path) by {
                    assert(r0[i] == result@[i]@);
                }
                assert forall|i: int| p <= i < r0.len() implies seq_lt(x.path, #[trigger] r0[i].path) by {
                    assert(r0[i] == result@[i]@);
                }
                lemma_upper_pos(r0, x, p as int);
                lemma_insert_path_sorted(r0, x, p as int);
                let after = symbol_entries(raw_views(elf_symbols@), (k + 1) as nat);
                assert(after =~= before.push(x));
                assert(after.drop_last() =~= before);
            }
            result.insert(p, v);
            keys.insert(p, kv);
            assert(var_views(result@) =~= r0.insert(p as int, x));
        } else {
            assert(symbol_entries(raw_views(elf_symbols@), (k + 1) as nat) =~= before);
        }
        k = k + 1;
    }
    Ok(result)
}

} // verus!
