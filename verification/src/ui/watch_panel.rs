//! Values of the watch table: entering a value to write to the target and
//! showing a value read from it, for the integer types. Floating-point
//! values are read and shown by the application. Also: finding an entry
//! by name when the table is rebuilt.
use vstd::prelude::*;
use crate::cli::{is_white_space, trim, trim_end, trim_start, trim_str};
use crate::pipeline::sample::ValueType;
use crate::text::{
    decimal_digits, digit_char, push_decimal, push_signed_decimal, signed_decimal, str_eq,
};

verus! {

/// A value to write to the target: channel index and raw 32-bit value.
pub struct WriteRequest {
    pub channel_idx: usize,
    pub raw_value: u32,
}

/// Smallest value of an integer type.
pub open spec fn type_min(vt: ValueType) -> int {
    match vt {
        ValueType::Int32 => -0x8000_0000,
        ValueType::Int16 => -0x8000,
        ValueType::Int8 => -0x80,
        _ => 0,
    }
}

/// Largest value of an integer type.
pub open spec fn type_max(vt: ValueType) -> int {
    match vt {
        ValueType::Int32 => 0x7fff_ffff,
        ValueType::Uint32 => 0xffff_ffff,
        ValueType::Int16 => 0x7fff,
        ValueType::Uint16 => 0xffff,
        ValueType::Int8 => 0x7f,
        ValueType::Uint8 => 0xff,
        ValueType::Float => 0,
    }
}

/// The value of a non-empty run of decimal digits.
pub open spec fn digits_value(d: Seq<char>) -> Option<nat>
    decreases d.len(),
{
    if d.len() == 0 {
        None
    } else if !('0' <= d.last() <= '9') {
        None
    } else if d.len() == 1 {
        Some(((d.last() as int) - 48) as nat)
    } else {
        match digits_value(d.drop_last()) {
            None => None,
            Some(v) => Some(v * 10 + ((d.last() as int) - 48) as nat),
        }
    }
}

/// A decimal integer with an optional sign (`-` only for signed types)
/// that lies in `lo ..= hi`.
pub open spec fn decimal_in_range(s: Seq<char>, lo: int, hi: int) -> Option<int> {
    if s.len() == 0 {
        None
    } else {
        let neg = s[0] == '-';
        let d = if s[0] == '-' || s[0] == '+' {
            s.skip(1)
        } else {
            s
        };
        if neg && lo >= 0 {
            None
        } else {
            match digits_value(d) {
                None => None,
                Some(v) => {
                    let x = if neg {
                        -v
                    } else {
                        v as int
                    };
                    if lo <= x <= hi {
                        Some(x)
                    } else {
                        None
                    }
                },
            }
        }
    }
}

/// The raw 32-bit pattern of an integer of one of the value types.
pub open spec fn raw_bits(x: int) -> u32 {
    (if x < 0 {
        x + 0x1_0000_0000
    } else {
        x
    }) as u32
}

/// The raw value that the text `s` stands for, for an integer type.
pub open spec fn integer_value_of(s: Seq<char>, vt: ValueType) -> Option<u32> {
    match decimal_in_range(trim(s), type_min(vt), type_max(vt)) {
        Some(x) => Some(raw_bits(x)),
        None => None,
    }
}

/// The number that a raw value shows for an integer type.
pub open spec fn shown_integer(raw: u32, vt: ValueType) -> int {
    let raw = raw as int;
    match vt {
        ValueType::Uint32 => raw,
        ValueType::Int32 => if raw >= 0x8000_0000 {
            raw - 0x1_0000_0000
        } else {
            raw
        },
        ValueType::Uint16 => raw % 0x1_0000,
        ValueType::Int16 => if raw % 0x1_0000 >= 0x8000 {
            raw % 0x1_0000 - 0x1_0000
        } else {
            raw % 0x1_0000
        },
        ValueType::Uint8 => raw % 0x100,
        ValueType::Int8 => if raw % 0x100 >= 0x80 {
            raw % 0x100 - 0x100
        } else {
            raw % 0x100
        },
        ValueType::Float => 0,
    }
}

/// The decimal digits of `n` read back give `n`; they are all digits.
proof fn lemma_digits_of_decimal(n: nat)
    ensures
        digits_value(decimal_digits(n)) == Some(n),
        decimal_digits(n).len() > 0,
        forall|i: int|
            0 <= i < decimal_digits(n).len() ==> '0' <= #[trigger] decimal_digits(n)[i] <= '9',
    decreases n,
{
    if n >= 10 {
        lemma_digits_of_decimal(n / 10);
        let d = decimal_digits(n);
        assert(d.drop_last() =~= decimal_digits(n / 10));
        assert(d.last() == digit_char((n % 10) as int));
        assert forall|i: int| 0 <= i < d.len() implies '0' <= #[trigger] d[i] <= '9' by {
            if i < d.len() - 1 {
                assert(d[i] == decimal_digits(n / 10)[i]);
            }
        }
    }
}

/// A shown value lies in the range of its type.
proof fn lemma_shown_in_range(raw: u32, vt: ValueType)
    requires
        vt != ValueType::Float,
    ensures
        type_min(vt) <= shown_integer(raw, vt) <= type_max(vt),
{
}

/// The text shown for an integer value, entered back, stands for the same
/// raw value of the type: a shown value can be written back unchanged.
pub proof fn lemma_shown_value_parses_back(raw: u32, vt: ValueType)
    requires
        vt != ValueType::Float,
    ensures
        integer_value_of(signed_decimal(shown_integer(raw, vt)), vt) == Some(
            raw_bits(shown_integer(raw, vt)),
        ),
{
    let x = shown_integer(raw, vt);
    lemma_shown_in_range(raw, vt);
    let m: nat = if x < 0 {
        (-x) as nat
    } else {
        x as nat
    };
    lemma_digits_of_decimal(m);
    let digits = decimal_digits(m);
    let s = signed_decimal(x);
    assert(s.len() > 0);
    assert(!is_white_space(s[0]));
    assert(s.last() == digits.last());
    assert(!is_white_space(s.last()));
    assert(trim_start(s) == s);
    assert(trim_end(s) == s);
    assert(trim(s) == s);
    if x < 0 {
        assert(s[0] == '-');
        assert(s.skip(1) =~= digits);
    } else {
        assert(s == digits);
        assert(s[0] != '-' && s[0] != '+');
    }
}

fn type_bounds(vt: ValueType) -> (r: (i64, i64))
    ensures
        r.0 == type_min(vt),
        r.1 == type_max(vt),
{
    match vt {
        ValueType::Int32 => (-0x8000_0000, 0x7fff_ffff),
        ValueType::Uint32 => (0, 0xffff_ffff),
        ValueType::Int16 => (-0x8000, 0x7fff),
        ValueType::Uint16 => (0, 0xffff),
        ValueType::Int8 => (-0x80, 0x7f),
        ValueType::Uint8 => (0, 0xff),
        ValueType::Float => (0, 0),
    }
}

proof fn lemma_digits_invalid_persists(d: Seq<char>, k: int)
    requires
        1 <= k <= d.len(),
        digits_value(d.take(k)) is None,
    ensures
        digits_value(d) is None,
    decreases d.len() - k,
{
    if k < d.len() {
        let t = d.take(k + 1);
        assert(t.drop_last() =~= d.take(k));
        lemma_digits_invalid_persists(d, k + 1);
    } else {
        assert(d.take(k) =~= d);
    }
}

proof fn lemma_digits_grow(d: Seq<char>, k: int)
    requires
        1 <= k <= d.len(),
        digits_value(d.take(k)) matches Some(v) && v > 0x1_0000_0000,
    ensures
        digits_value(d) is None || digits_value(d)->0 > 0x1_0000_0000,
    decreases d.len() - k,
{
    if k < d.len() {
        let t = d.take(k + 1);
        assert(t.drop_last() =~= d.take(k));
        if digits_value(t) is None {
            lemma_digits_invalid_persists(d, k + 1);
        } else {
            lemma_digits_grow(d, k + 1);
        }
    } else {
        assert(d.take(k) =~= d);
    }
}

/// Parses the text entered for an integer variable into its raw value;
/// `None` when it is not a decimal number of the type.
pub fn parse_integer_value(s: &str, vt: ValueType) -> (r: Option<u32>)
    requires
        vt != ValueType::Float,
    ensures
        r == integer_value_of(s@, vt),
{
    let t = trim_str(s);
    let n = t.unicode_len();
    if n == 0 {
        return None;
    }
    let (lo, hi) = type_bounds(vt);
    let first = t.get_char(0);
    let neg = first == '-';
    if neg && lo >= 0 {
        return None;
    }
    let start: usize = if first == '-' || first == '+' {
        1
    } else {
        0
    };
    let ghost d = if first == '-' || first == '+' {
        t@.skip(1)
    } else {
        t@
    };
    assert(t@.skip(0) =~= t@);
    if start == n {
        assert(d.len() == 0);
        return None;
    }
    let mut acc: u64 = 0;
    let mut i: usize = start;
    while i < n
        invariant
            n == t@.len(),
            t@ == trim(s@),
            t@[0] == first,
            neg == (first == '-'),
            !(neg && lo >= 0),
            lo == type_min(vt),
            hi == type_max(vt),
            d == if first == '-' || first == '+' {
                t@.skip(1)
            } else {
                t@
            },
            start < n,
            start <= i <= n,
            d == t@.skip(start as int),
            acc <= 0x1_0000_0000,
            i > start ==> digits_value(d.take(i - start)) == Some(acc as nat),
            i == start ==> acc == 0,
        decreases n - i,
    {
        let c = t.get_char(i);
        proof {
            let tk = d.take(i + 1 - start);
            assert(tk.drop_last() =~= d.take(i - start));
            assert(tk.last() == c);
        }
        if !('0' <= c && c <= '9') {
            proof {
                lemma_digits_invalid_persists(d, i + 1 - start);
            }
            return None;
        }
        acc = acc * 10 + (c as u64 - 48);
        if acc > 0x1_0000_0000 {
            proof {
                lemma_digits_grow(d, i + 1 - start);
            }
            return None;
        }
        i = i + 1;
    }
    assert(d.take(n - start) =~= d);
    let x: i64 = if neg {
        0 - (acc as i64)
    } else {
        acc as i64
    };
    if x < lo || x > hi {
        return None;
    }
    let raw: u32 = if x < 0 {
        (x + 0x1_0000_0000) as u32
    } else {
        x as u32
    };
    Some(raw)
}

/// The decimal text shown for a raw value of an integer type.
pub fn format_integer_value(raw: u32, vt: ValueType) -> (s: String)
    requires
        vt != ValueType::Float,
    ensures
        s@ == signed_decimal(shown_integer(raw, vt)),
{
    let v: i64 = match vt {
        ValueType::Uint32 => raw as i64,
        ValueType::Int32 => if raw >= 0x8000_0000 {
            raw as i64 - 0x1_0000_0000
        } else {
            raw as i64
        },
        ValueType::Uint16 => (raw % 0x1_0000) as i64,
        ValueType::Int16 => if raw % 0x1_0000 >= 0x8000 {
            (raw % 0x1_0000) as i64 - 0x1_0000
        } else {
            (raw % 0x1_0000) as i64
        },
        ValueType::Uint8 => (raw % 0x100) as i64,
        ValueType::Int8 => if raw % 0x100 >= 0x80 {
            (raw % 0x100) as i64 - 0x100
        } else {
            (raw % 0x100) as i64
        },
        ValueType::Float => 0,
    };
    let mut s = String::new();
    push_signed_decimal(&mut s, v);
    assert(s@ =~= signed_decimal(shown_integer(raw, vt)));
    s
}

/// The index of the first of `names` that is `name`: where a watch list
/// rebuilt for new channel names finds the settings an entry had before.
pub fn find_by_name(names: &[String], name: &str) -> (r: Option<usize>)
    ensures
        match r {
            Some(i) => i < names@.len() && names@[i as int]@ == name@ && forall|j: int|
                0 <= j < i ==> (#[trigger] names@[j])@ != name@,
            None => forall|j: int| 0 <= j < names@.len() ==> (#[trigger] names@[j])@ != name@,
        },
{
    let mut i: usize = 0;
    while i < names.len()
        invariant
            i <= names@.len(),
            forall|j: int| 0 <= j < i ==> (#[trigger] names@[j])@ != name@,
        decreases names@.len() - i,
    {
        if str_eq(names[i].as_str(), name) {
            return Some(i);
        }
        i = i + 1;
    }
    None
}

} // verus!
