//! Variable types and sampling points.
use vstd::prelude::*;
use vstd::string::*;

verus! {

/// How a raw 32-bit value read from the target is interpreted for display.
#[derive(Debug, Clone, Copy, PartialEq, Eq, Structural)]
pub enum ValueType {
    Float,
    Int32,
    Uint32,
    Int16,
    Uint16,
    Int8,
    Uint8,
}

/// An ASCII upper-case letter in lower case; any other character unchanged.
pub open spec fn ascii_lower(c: char) -> char {
    if 'A' <= c <= 'Z' {
        ((c as int) + 32) as char
    } else {
        c
    }
}

/// `s` with its ASCII letters in lower case.
pub open spec fn ascii_lowercase(s: Seq<char>) -> Seq<char> {
    s.map_values(|c: char| ascii_lower(c))
}

/// The type that a name stands for, compared without regard to case.
///
/// Only ASCII letters appear in the names, and no character outside ASCII
/// has a lower case made of ASCII letters found in them, so comparing the
/// ASCII lower case is the same as comparing the full lower case.
pub open spec fn type_from_name(s: Seq<char>) -> Option<ValueType> {
    let l = ascii_lowercase(s);
    if l == "float"@ || l == "f32"@ {
        Some(ValueType::Float)
    } else if l == "int32"@ || l == "i32"@ {
        Some(ValueType::Int32)
    } else if l == "uint32"@ || l == "u32"@ {
        Some(ValueType::Uint32)
    } else if l == "int16"@ || l == "i16"@ {
        Some(ValueType::Int16)
    } else if l == "uint16"@ || l == "u16"@ {
        Some(ValueType::Uint16)
    } else if l == "int8"@ || l == "i8"@ {
        Some(ValueType::Int8)
    } else if l == "uint8"@ || l == "u8"@ {
        Some(ValueType::Uint8)
    } else {
        None
    }
}

/// The message of a type name that is not recognized.
pub open spec fn unknown_type_message(s: Seq<char>) -> Seq<char> {
    "未知类型: "@ + s + "（支持: float, int32, uint32, int16, uint16, int8, uint8）"@
}

/// The display label of a type.
pub open spec fn type_label(t: ValueType) -> Seq<char> {
    match t {
        ValueType::Float => "float"@,
        ValueType::Int32 => "int32"@,
        ValueType::Uint32 => "uint32"@,
        ValueType::Int16 => "int16"@,
        ValueType::Uint16 => "uint16"@,
        ValueType::Int8 => "int8"@,
        ValueType::Uint8 => "uint8"@,
    }
}

/// The label of a type names that type again: what is shown can be typed
/// back on the command line.
pub proof fn lemma_label_names_type(t: ValueType)
    ensures
        type_from_name(type_label(t)) == Some(t),
{
    reveal_strlit("float");
    reveal_strlit("f32");
    reveal_strlit("int32");
    reveal_strlit("i32");
    reveal_strlit("uint32");
    reveal_strlit("u32");
    reveal_strlit("int16");
    reveal_strlit("i16");
    reveal_strlit("uint16");
    reveal_strlit("u16");
    reveal_strlit("int8");
    reveal_strlit("i8");
    reveal_strlit("uint8");
    reveal_strlit("u8");
    let l = type_label(t);
    assert(forall|i: int| 0 <= i < l.len() ==> !('A' <= #[trigger] l[i] <= 'Z'));
    assert(ascii_lowercase(l) =~= l);
    match t {
        ValueType::Int32 => {
            assert(l[0] != "float"@[0]);
        },
        ValueType::Int16 => {
            assert(l[0] != "float"@[0]);
            assert(l[3] != "int32"@[3]);
        },
        ValueType::Uint16 => {
            assert(l[4] != "uint32"@[4]);
        },
        ValueType::Uint8 => {
            assert(l[0] != "float"@[0]);
            assert(l[0] != "int32"@[0]);
            assert(l[0] != "int16"@[0]);
        },
        _ => {},
    }
}

/// Lower-casing turns the letters of `ABCDEFGHIJKLMNOPQRSTUVWXYZ` into
/// those of `abcdefghijklmnopqrstuvwxyz`, letter for letter, and leaves
/// every other character as it is.
pub proof fn lemma_ascii_lower(c: char)
    ensures
        forall|i: int|
            0 <= i < 26 ==> ascii_lower(#[trigger] "ABCDEFGHIJKLMNOPQRSTUVWXYZ"@[i])
                == "abcdefghijklmnopqrstuvwxyz"@[i],
        !"ABCDEFGHIJKLMNOPQRSTUVWXYZ"@.contains(c) ==> ascii_lower(c) == c,
{
    reveal_strlit("ABCDEFGHIJKLMNOPQRSTUVWXYZ");
    reveal_strlit("abcdefghijklmnopqrstuvwxyz");
    let up = "ABCDEFGHIJKLMNOPQRSTUVWXYZ"@;
    let lo = "abcdefghijklmnopqrstuvwxyz"@;
    assert forall|i: int| 0 <= i < 26 implies ascii_lower(#[trigger] up[i]) == lo[i] by {
        assert(up[i] as int == 65 + i);
        assert(lo[i] as int == 97 + i);
    }
    if 'A' <= c <= 'Z' {
        assert(up[(c as int) - 65] == c);
    }
}

/// Each short type name names the same type as its long name (`f32` and
/// `float`, `i32` and `int32`, `u32` and `uint32`, `i16` and `int16`,
/// `u16` and `uint16`, `i8` and `int8`, `u8` and `uint8`), the seven long
/// names name seven different types, and a name read in upper case names
/// what it names in lower case.
pub proof fn lemma_short_names(s: Seq<char>)
    ensures
        type_from_name("f32"@) == type_from_name("float"@),
        type_from_name("i32"@) == type_from_name("int32"@),
        type_from_name("u32"@) == type_from_name("uint32"@),
        type_from_name("i16"@) == type_from_name("int16"@),
        type_from_name("u16"@) == type_from_name("uint16"@),
        type_from_name("i8"@) == type_from_name("int8"@),
        type_from_name("u8"@) == type_from_name("uint8"@),
        forall|t: ValueType, u: ValueType|
            t != u ==> #[trigger] type_from_name(type_label(t)) != #[trigger] type_from_name(
                type_label(u),
            ),
        type_from_name(ascii_lowercase(s)) == type_from_name(s),
{
    reveal_strlit("float");
    reveal_strlit("f32");
    reveal_strlit("int32");
    reveal_strlit("i32");
    reveal_strlit("uint32");
    reveal_strlit("u32");
    reveal_strlit("int16");
    reveal_strlit("i16");
    reveal_strlit("uint16");
    reveal_strlit("u16");
    reveal_strlit("int8");
    reveal_strlit("i8");
    reveal_strlit("uint8");
    reveal_strlit("u8");
    assert forall|t: ValueType, u: ValueType|
        t != u implies #[trigger] type_from_name(type_label(t)) != #[trigger] type_from_name(
            type_label(u),
        ) by {
        lemma_label_names_type(t);
        lemma_label_names_type(u);
    }
    assert(ascii_lowercase(ascii_lowercase(s)) =~= ascii_lowercase(s));
    let names = seq!["f32"@, "i32"@, "u32"@, "i16"@, "u16"@, "i8"@, "u8"@];
    assert forall|k: int| 0 <= k < names.len() implies ascii_lowercase(#[trigger] names[k])
        =~= names[k] by {
        assert(forall|i: int|
            0 <= i < names[k].len() ==> !('A' <= #[trigger] names[k][i] <= 'Z'));
    }
    assert(ascii_lowercase(names[0]) =~= names[0]);
    assert(ascii_lowercase(names[1]) =~= names[1]);
    assert(ascii_lowercase(names[2]) =~= names[2]);
    assert(ascii_lowercase(names[3]) =~= names[3]);
    assert(ascii_lowercase(names[4]) =~= names[4]);
    assert(ascii_lowercase(names[5]) =~= names[5]);
    assert(ascii_lowercase(names[6]) =~= names[6]);
    lemma_label_names_type(ValueType::Float);
    lemma_label_names_type(ValueType::Int32);
    lemma_label_names_type(ValueType::Uint32);
    lemma_label_names_type(ValueType::Int16);
    lemma_label_names_type(ValueType::Uint16);
    lemma_label_names_type(ValueType::Int8);
    lemma_label_names_type(ValueType::Uint8);
    assert("i32"@[0] != "float"@[0]);
    assert("u32"@[0] != "float"@[0]);
    assert("u32"@[0] != "f32"@[0]);
    assert("i16"@[0] != "f32"@[0]);
    assert("i16"@[1] != "i32"@[1]);
    assert("u16"@[0] != "f32"@[0]);
    assert("u16"@[0] != "i32"@[0]);
    assert("u16"@[1] != "u32"@[1]);
    assert("u16"@[0] != "i16"@[0]);
    assert("u8"@[0] != "i8"@[0]);
}

/// Whether `s`, with its ASCII letters in lower case, is `lit`.
fn lower_equals(s: &str, lit: &str) -> (b: bool)
    ensures
        b == (ascii_lowercase(s@) == lit@),
{
    let n = s.unicode_len();
    let m = lit.unicode_len();
    if n != m {
        proof {
            if ascii_lowercase(s@) == lit@ {
                assert(ascii_lowercase(s@).len() == s@.len());
            }
        }
        return false;
    }
    let mut i: usize = 0;
    while i < n
        invariant
            n == s@.len(),
            m == lit@.len(),
            n == m,
            i <= n,
            forall|k: int| 0 <= k < i ==> ascii_lower(s@[k]) == lit@[k],
        decreases n - i,
    {
        let c = s.get_char(i);
        let lc = if 'A' <= c && c <= 'Z' {
            ((c as u32) + 32) as u8 as char
        } else {
            c
        };
        assert(lc == ascii_lower(c)) by {
            if 'A' <= c <= 'Z' {
                assert(((c as u32) + 32) < 256);
            }
        }
        if lc != lit.get_char(i) {
            assert(ascii_lowercase(s@)[i as int] != lit@[i as int]);
            return false;
        }
        i = i + 1;
    }
    assert(ascii_lowercase(s@) =~= lit@);
    true
}

impl ValueType {
    /// Parses a type name, ignoring case (`float`/`f32`, `int32`/`i32`,
    /// `uint32`/`u32`, `int16`/`i16`, `uint16`/`u16`, `int8`/`i8`,
    /// `uint8`/`u8`).
    pub fn parse(s: &str) -> (r: Result<Self, String>)
        ensures
            type_from_name(s@) matches Some(t) ==> r == Ok::<ValueType, String>(t),
            type_from_name(s@) is None ==> r is Err && r->Err_0@ == unknown_type_message(s@),
    {
        if lower_equals(s, "float") || lower_equals(s, "f32") {
            Ok(ValueType::Float)
        } else if lower_equals(s, "int32") || lower_equals(s, "i32") {
            Ok(ValueType::Int32)
        } else if lower_equals(s, "uint32") || lower_equals(s, "u32") {
            Ok(ValueType::Uint32)
        } else if lower_equals(s, "int16") || lower_equals(s, "i16") {
            Ok(ValueType::Int16)
        } else if lower_equals(s, "uint16") || lower_equals(s, "u16") {
            Ok(ValueType::Uint16)
        } else if lower_equals(s, "int8") || lower_equals(s, "i8") {
            Ok(ValueType::Int8)
        } else if lower_equals(s, "uint8") || lower_equals(s, "u8") {
            Ok(ValueType::Uint8)
        } else {
            let mut m = String::from_str("未知类型: ");
            m.append(s);
            m.append("（支持: float, int32, uint32, int16, uint16, int8, uint8）");
            Err(m)
        }
    }

    /// The display label of the type.
    pub fn label(&self) -> (l: &'static str)
        ensures
            l@ == type_label(*self),
    {
        match self {
            ValueType::Float => "float",
            ValueType::Int32 => "int32",
            ValueType::Uint32 => "uint32",
            ValueType::Int16 => "int16",
            ValueType::Uint16 => "uint16",
            ValueType::Int8 => "int8",
            ValueType::Uint8 => "uint8",
        }
    }
}

/// What a sampling point holds.
#[verifier::ext_equal]
pub struct SampleData {
    pub seq: u64,
    pub timestamp_ns: u64,
    pub values: Seq<u32>,
}

/// One sampling point: the values of all sampled variables at one time.
#[derive(Debug)]
pub struct Sample {
    /// Global sample number, counting up from 0.
    pub seq: u64,
    /// Time at which the response arrived, in nanoseconds since the start
    /// of the acquisition.
    pub timestamp_ns: u64,
    /// Raw 32-bit values, one per variable; their type decides how they
    /// are shown.
    pub values: Vec<u32>,
}

impl View for Sample {
    type V = SampleData;

    open spec fn view(&self) -> SampleData {
        SampleData { seq: self.seq, timestamp_ns: self.timestamp_ns, values: self.values@ }
    }
}

impl Clone for Sample {
    fn clone(&self) -> (r: Self)
        ensures
            r@ == self@,
    {
        let values = self.values.clone();
        assert(values@ =~= self.values@);
        Sample { seq: self.seq, timestamp_ns: self.timestamp_ns, values }
    }
}

} // verus!
