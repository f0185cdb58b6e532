//! Text arguments of the command line.
use vstd::prelude::*;
use vstd::string::*;
use vstd::arithmetic::power::{lemma_pow_positive, pow};
use crate::pipeline::sample::{type_from_name, ValueType};
use crate::text::{decimal_digits, push_decimal};

verus! {

/// Unicode `White_Space` characters, the ones that trimming removes.
pub open spec fn is_white_space(c: char) -> bool {
    ('\u{9}' <= c <= '\u{d}') || c == ' ' || c == '\u{85}' || c == '\u{a0}' || c == '\u{1680}'
        || ('\u{2000}' <= c <= '\u{200a}') || c == '\u{2028}' || c == '\u{2029}' || c
        == '\u{202f}' || c == '\u{205f}' || c == '\u{3000}'
}

/// `s` without its leading white space.
pub open spec fn trim_start(s: Seq<char>) -> Seq<char>
    decreases s.len(),
{
    if s.len() > 0 && is_white_space(s[0]) {
        trim_start(s.skip(1))
    } else {
        s
    }
}

/// `s` without its trailing white space.
pub open spec fn trim_end(s: Seq<char>) -> Seq<char>
    decreases s.len(),
{
    if s.len() > 0 && is_white_space(s.last()) {
        trim_end(s.drop_last())
    } else {
        s
    }
}

/// `s` without leading or trailing white space.
pub open spec fn trim(s: Seq<char>) -> Seq<char> {
    trim_end(trim_start(s))
}

fn is_white_space_char(c: char) -> (b: bool)
    ensures
        b == is_white_space(c),
{
    ('\u{9}' <= c && c <= '\u{d}') || c == ' ' || c == '\u{85}' || c == '\u{a0}' || c
        == '\u{1680}' || ('\u{2000}' <= c && c <= '\u{200a}') || c == '\u{2028}' || c
        == '\u{2029}' || c == '\u{202f}' || c == '\u{205f}' || c == '\u{3000}'
}

proof fn lemma_trim_start_skip(s: Seq<char>, i: int)
    requires
        0 <= i <= s.len(),
        forall|k: int| 0 <= k < i ==> is_white_space(#[trigger] s[k]),
    ensures
        trim_start(s) == trim_start(s.skip(i)),
    decreases i,
{
    if i > 0 {
        assert(is_white_space(s[0]));
        assert(s.skip(1).skip(i - 1) =~= s.skip(i));
        assert forall|k: int| 0 <= k < i - 1 implies is_white_space(#[trigger] s.skip(1)[k]) by {
            assert(s.skip(1)[k] == s[k + 1]);
        }
        lemma_trim_start_skip(s.skip(1), i - 1);
    } else {
        assert(s.skip(0) =~= s);
    }
}

proof fn lemma_trim_end_take(s: Seq<char>, j: int)
    requires
        0 <= j <= s.len(),
        forall|k: int| j <= k < s.len() ==> is_white_space(#[trigger] s[k]),
    ensures
        trim_end(s) == trim_end(s.take(j)),
    decreases s.len() - j,
{
    if j < s.len() {
        assert(s.drop_last().take(j) =~= s.take(j));
        lemma_trim_end_take(s.drop_last(), j);
    } else {
        assert(s.take(j) =~= s);
    }
}

/// `s` without leading or trailing white space (`str::trim`).
pub fn trim_str(s: &str) -> (t: &str)
    ensures
        t@ == trim(s@),
{
    let n = s.unicode_len();
    let mut lo: usize = 0;
    while lo < n && is_white_space_char(s.get_char(lo))
        invariant
            n == s@.len(),
            lo <= n,
            forall|k: int| 0 <= k < lo ==> is_white_space(#[trigger] s@[k]),
        decreases n - lo,
    {
        lo = lo + 1;
    }
    let mut hi: usize = n;
    while hi > lo && is_white_space_char(s.get_char(hi - 1))
        invariant
            n == s@.len(),
            lo <= hi <= n,
            forall|k: int| hi <= k < n ==> is_white_space(#[trigger] s@[k]),
        decreases hi,
    {
        hi = hi - 1;
    }
    proof {
        lemma_trim_start_skip(s@, lo as int);
        let rest = s@.skip(lo as int);
        if lo < n {
            assert(rest[0] == s@[lo as int]);
            assert(!is_white_space(rest[0]));
        }
        assert(trim_start(rest) == rest);
        assert forall|k: int| hi - lo <= k < rest.len() implies is_white_space(#[trigger] rest[k]) by {
            assert(rest[k] == s@[k + lo]);
        }
        lemma_trim_end_take(rest, hi - lo);
        let mid = rest.take(hi - lo);
        if hi > lo {
            assert(mid.last() == s@[hi - 1]);
        }
        assert(trim_end(mid) == mid);
        assert(mid =~= s@.subrange(lo as int, hi as int));
    }
    s.substring_char(lo, hi)
}

/// Why a text is not an unsigned 32-bit integer.
#[derive(Debug, Clone, Copy, PartialEq, Eq, Structural)]
pub enum IntParseFailure {
    Empty,
    InvalidDigit,
    PosOverflow,
}

/// The value of `c` as a digit in base `radix` (10 or 16; letters in either
/// case).
pub open spec fn digit_value(c: char, radix: nat) -> Option<nat> {
    if '0' <= c <= '9' && (c as int) - 48 < radix {
        Some(((c as int) - 48) as nat)
    } else if radix == 16 && 'a' <= c <= 'f' {
        Some(((c as int) - 87) as nat)
    } else if radix == 16 && 'A' <= c <= 'F' {
        Some(((c as int) - 55) as nat)
    } else {
        None
    }
}

/// What the digits of base 10 and base 16 are worth: in base 16 the
/// characters of `0123456789abcdef`, and equally those of
/// `0123456789ABCDEF`, are worth 0 to 15 in that order, so a letter is
/// worth the same in either case; in base 10 those of `0123456789` are
/// worth 0 to 9. No other character is a digit, and no digit reaches its
/// base.
pub proof fn lemma_digit_values(c: char, radix: nat)
    requires
        radix == 10 || radix == 16,
    ensures
        forall|i: int|
            0 <= i < 16 ==> digit_value(#[trigger] "0123456789abcdef"@[i], 16) == Some(i as nat)
                && digit_value("0123456789ABCDEF"@[i], 16) == Some(i as nat),
        forall|i: int| 0 <= i < 10 ==> digit_value(#[trigger] "0123456789"@[i], 10) == Some(i as nat),
        digit_value(c, radix) matches Some(x) ==> x < radix,
        digit_value(c, radix) is Some ==> if radix == 16 {
            "0123456789abcdef"@.contains(c) || "0123456789ABCDEF"@.contains(c)
        } else {
            "0123456789"@.contains(c)
        },
{
    reveal_strlit("0123456789abcdef");
    reveal_strlit("0123456789ABCDEF");
    reveal_strlit("0123456789");
    let lo = "0123456789abcdef"@;
    let up = "0123456789ABCDEF"@;
    let dec = "0123456789"@;
    assert forall|i: int| 0 <= i < 16 implies digit_value(#[trigger] lo[i], 16) == Some(i as nat)
        && digit_value(up[i], 16) == Some(i as nat) by {
        if i < 10 {
            assert(lo[i] == up[i]);
            assert(lo[i] as int == 48 + i);
        } else {
            assert(lo[i] as int == 87 + i);
            assert(up[i] as int == 55 + i);
        }
    }
    assert forall|i: int| 0 <= i < 10 implies digit_value(#[trigger] dec[i], 10) == Some(i as nat) by {
        assert(dec[i] as int == 48 + i);
    }
    if digit_value(c, radix) is Some {
        if '0' <= c <= '9' {
            let i = (c as int) - 48;
            if radix == 16 {
                assert(lo[i] == c);
            } else {
                assert(dec[i] == c);
            }
        } else if 'a' <= c <= 'f' {
            assert(lo[(c as int) - 87] == c);
        } else {
            assert(up[(c as int) - 55] == c);
        }
    }
}

/// The value of the digits `d` in base `radix`, read left to right; the
/// first bad digit or the first overflow of `u32` decides the failure.
pub open spec fn scan_digits(d: Seq<char>, radix: nat) -> Result<nat, IntParseFailure>
    decreases d.len(),
{
    if d.len() == 0 {
        Ok(0)
    } else {
        match scan_digits(d.drop_last(), radix) {
            Err(e) => Err(e),
            Ok(v) => match digit_value(d.last(), radix) {
                None => Err(IntParseFailure::InvalidDigit),
                Some(x) => if v * radix + x > u32::MAX {
                    Err(IntParseFailure::PosOverflow)
                } else {
                    Ok(v * radix + x)
                },
            },
        }
    }
}

/// Digits are read by place: the digits `a` followed by `b` are worth
/// what `a` is worth, moved up one place of the base for each digit of
/// `b`, plus what `b` is worth; and when the whole reads as a number, so
/// does each part.
#[verifier::spinoff_prover]
pub proof fn lemma_digits_positional(a: Seq<char>, b: Seq<char>, radix: nat)
    requires
        radix == 10 || radix == 16,
        scan_digits(a + b, radix) is Ok,
    ensures
        scan_digits(a, radix) is Ok,
        scan_digits(b, radix) is Ok,
        scan_digits(a + b, radix)->Ok_0 == scan_digits(a, radix)->Ok_0 * pow(
            radix as int,
            b.len(),
        ) + scan_digits(b, radix)->Ok_0,
    decreases b.len(),
{
    reveal(pow);
    if b.len() == 0 {
        assert(a + b =~= a);
        assert(pow(radix as int, b.len()) == 1);
        assert(scan_digits(b, radix) == Ok::<nat, IntParseFailure>(0));
        let va = scan_digits(a, radix)->Ok_0;
        assert(va * 1 + 0 == va);
    } else {
        let b1 = b.drop_last();
        assert((a + b).drop_last() =~= a + b1);
        assert((a + b).last() == b.last());
        lemma_digits_positional(a, b1, radix);
        let va = scan_digits(a, radix)->Ok_0;
        let vb1 = scan_digits(b1, radix)->Ok_0;
        let vab1 = scan_digits(a + b1, radix)->Ok_0;
        let x = digit_value(b.last(), radix)->Some_0;
        let p1 = pow(radix as int, b1.len());
        lemma_pow_positive(radix as int, b1.len());
        assert(vb1 <= vab1) by (nonlinear_arith)
            requires
                vab1 == va * p1 + vb1,
                p1 > 0,
                va >= 0,
        ;
        assert(vb1 * radix + x <= vab1 * radix + x) by (nonlinear_arith)
            requires
                vb1 <= vab1,
                radix >= 0,
        ;
        assert(pow(radix as int, b.len()) == radix * p1);
        assert(vab1 * radix + x == va * (radix * p1) + (vb1 * radix + x)) by (nonlinear_arith)
            requires
                vab1 == va * p1 + vb1,
        ;
        assert(scan_digits(b, radix) == Ok::<nat, IntParseFailure>(vb1 * radix + x));
        assert(scan_digits(a + b, radix) == Ok::<nat, IntParseFailure>(vab1 * radix + x));
        assert(va * (radix * p1) == va * pow(radix as int, b.len()));
    }
}

/// `u32::from_str_radix`: optional `+`, then at least one digit.
pub open spec fn u32_from_str_radix(s: Seq<char>, radix: nat) -> Result<u32, IntParseFailure> {
    if s.len() == 0 {
        Err(IntParseFailure::Empty)
    } else if s.len() == 1 && (s[0] == '+' || s[0] == '-') {
        Err(IntParseFailure::InvalidDigit)
    } else {
        let d = if s[0] == '+' {
            s.skip(1)
        } else {
            s
        };
        match scan_digits(d, radix) {
            Ok(v) => Ok(v as u32),
            Err(e) => Err(e),
        }
    }
}

/// The text that describes a failure.
pub open spec fn failure_text(e: IntParseFailure) -> Seq<char> {
    match e {
        IntParseFailure::Empty => "cannot parse integer from empty string"@,
        IntParseFailure::InvalidDigit => "invalid digit found in string"@,
        IntParseFailure::PosOverflow => "number too large to fit in target type"@,
    }
}

fn failure_str(e: IntParseFailure) -> (t: &'static str)
    ensures
        t@ == failure_text(e),
{
    match e {
        IntParseFailure::Empty => "cannot parse integer from empty string",
        IntParseFailure::InvalidDigit => "invalid digit found in string",
        IntParseFailure::PosOverflow => "number too large to fit in target type",
    }
}

fn digit_of(c: char, radix: u32) -> (r: Option<u32>)
    requires
        radix == 10 || radix == 16,
    ensures
        r matches Some(x) ==> digit_value(c, radix as nat) == Some(x as nat),
        r is None ==> digit_value(c, radix as nat) is None,
{
    if '0' <= c && c <= '9' && (c as u32) - 48 < radix {
        Some((c as u32) - 48)
    } else if radix == 16 && 'a' <= c && c <= 'f' {
        Some((c as u32) - 87)
    } else if radix == 16 && 'A' <= c && c <= 'F' {
        Some((c as u32) - 55)
    } else {
        None
    }
}

/// Parses `s` as an unsigned 32-bit integer in base 10 or 16.
#[verifier::spinoff_prover]
#[verifier::rlimit(40)]
pub fn parse_u32_radix(s: &str, radix: u32) -> (r: Result<u32, IntParseFailure>)
    requires
        radix == 10 || radix == 16,
    ensures
        r == u32_from_str_radix(s@, radix as nat),
{
    let n = s.unicode_len();
    if n == 0 {
        return Err(IntParseFailure::Empty);
    }
    let first = s.get_char(0);
    if n == 1 && (first == '+' || first == '-') {
        return Err(IntParseFailure::InvalidDigit);
    }
    let start: usize = if first == '+' {
        1
    } else {
        0
    };
    let ghost d = if first == '+' {
        s@.skip(1)
    } else {
        s@
    };
    assert(s@.skip(0) =~= s@);
    assert(d.take(0) =~= Seq::<char>::empty());
    let mut acc: u32 = 0;
    let mut i: usize = start;
    while i < n
        invariant
            n == s@.len(),
            n >= 1,
            s@[0] == first,
            !(n == 1 && (first == '+' || first == '-')),
            d == if first == '+' {
                s@.skip(1)
            } else {
                s@
            },
            radix == 10 || radix == 16,
            start <= i <= n,
            d == s@.skip(start as int),
            scan_digits(d.take(i - start), radix as nat) == Ok::<nat, IntParseFailure>(acc as nat),
        decreases n - i,
    {
        let c = s.get_char(i);
        proof {
            let t = d.take(i + 1 - start);
            assert(t.drop_last() =~= d.take(i - start));
            assert(t.last() == c);
        }
        match digit_of(c, radix) {
            None => {
                proof {
                    assert(scan_digits(d.take(i + 1 - start), radix as nat) == Err::<nat, IntParseFailure>(IntParseFailure::InvalidDigit));
                    lemma_scan_error_persists(d, (i + 1 - start) as nat, radix as nat);
                    assert(d.take(d.len() as int) =~= d);
                    assert(scan_digits(d, radix as nat) == Err::<nat, IntParseFailure>(IntParseFailure::InvalidDigit));
                    assert(u32_from_str_radix(s@, radix as nat) == Err::<u32, IntParseFailure>(IntParseFailure::InvalidDigit));
                }
                return Err(IntParseFailure::InvalidDigit);
            },
            Some(x) => {
                if acc as u64 * radix as u64 + x as u64 > 0xFFFF_FFFF {
                    proof {
                        assert(scan_digits(d.take(i + 1 - start), radix as nat) == Err::<nat, IntParseFailure>(IntParseFailure::PosOverflow));
                        lemma_scan_error_persists(d, (i + 1 - start) as nat, radix as nat);
                        assert(d.take(d.len() as int) =~= d);
                    }
                    return Err(IntParseFailure::PosOverflow);
                }
                acc = acc * radix + x;
            },
        }
        i = i + 1;
    }
    assert(d.take(n - start) =~= d);
    Ok(acc)
}

/// Once a prefix of the digits fails, the whole text fails the same way.
proof fn lemma_scan_error_persists(d: Seq<char>, k: nat, radix: nat)
    requires
        k <= d.len(),
        scan_digits(d.take(k as int), radix) is Err,
    ensures
        scan_digits(d, radix) == scan_digits(d.take(k as int), radix),
    decreases d.len() - k,
{
    if k < d.len() {
        let t = d.take((k + 1) as int);
        assert(t.drop_last() =~= d.take(k as int));
        lemma_scan_error_persists(d, k + 1, radix);
    } else {
        assert(d.take(k as int) =~= d);
    }
}

/// The value an address argument stands for, after trimming: hexadecimal
/// after a `0x` or `0X` prefix; otherwise decimal, and hexadecimal when it
/// is not decimal (a shell may have turned `0x0000000c` into `12`).
pub open spec fn address_value(s: Seq<char>) -> Result<u32, IntParseFailure> {
    let t = trim(s);
    if t.len() >= 2 && t[0] == '0' && (t[1] == 'x' || t[1] == 'X') {
        u32_from_str_radix(t.skip(2), 16)
    } else if u32_from_str_radix(t, 10) is Ok {
        u32_from_str_radix(t, 10)
    } else {
        u32_from_str_radix(t, 16)
    }
}

/// The message of an address argument that is not a number.
pub open spec fn address_error(s: Seq<char>, e: IntParseFailure) -> Seq<char> {
    "无效的地址格式 '"@ + trim(s) + "': "@ + failure_text(e)
}

/// Parses a memory address given on the command line.
pub fn parse_address(s: &str) -> (r: Result<u32, String>)
    ensures
        address_value(s@) matches Ok(v) ==> r == Ok::<u32, String>(v),
        address_value(s@) matches Err(e) ==> r is Err && r->Err_0@ == address_error(s@, e),
{
    let t = trim_str(s);
    let n = t.unicode_len();
    let parsed = if n >= 2 && t.get_char(0) == '0' && (t.get_char(1) == 'x' || t.get_char(1)
        == 'X') {
        parse_u32_radix(t.substring_char(2, n), 16)
    } else {
        match parse_u32_radix(t, 10) {
            Ok(v) => Ok(v),
            Err(_) => parse_u32_radix(t, 16),
        }
    };
    match parsed {
        Ok(v) => Ok(v),
        Err(e) => {
            let mut m = String::from_str("无效的地址格式 '");
            m.append(t);
            m.append("': ");
            m.append(failure_str(e));
            Err(m)
        },
    }
}

/// The most variables sampled at once.
pub const MAX_VARIABLES: usize = 8;

/// The addresses of the first `k` texts, or the error of the first one that
/// is not an address.
pub open spec fn parsed_addresses(strs: Seq<String>, k: nat) -> Result<Seq<u32>, Seq<char>>
    decreases k,
{
    if k == 0 {
        Ok(Seq::empty())
    } else {
        match parsed_addresses(strs, (k - 1) as nat) {
            Err(m) => Err(m),
            Ok(v) => match address_value(strs[k - 1]@) {
                Ok(a) => Ok(v.push(a)),
                Err(e) => Err(address_error(strs[k - 1]@, e)),
            },
        }
    }
}

/// The message for an empty address list where one is needed.
pub open spec fn no_address_message() -> Seq<char> {
    "至少需要指定一个内存地址"@
}

/// The message for more than eight addresses.
pub open spec fn too_many_message(n: nat) -> Seq<char> {
    "最多支持 8 个变量，当前: "@ + decimal_digits(n)
}

/// Parses the addresses given on the command line: each must parse; the
/// list must hold at least one when `require_one`, and at most eight.
pub fn parse_address_list(strs: &[String], require_one: bool) -> (r: Result<Vec<u32>, String>)
    ensures
        parsed_addresses(strs@, strs@.len()) matches Err(m) ==> (r matches Err(x) && x@ == m),
        parsed_addresses(strs@, strs@.len()) is Ok && require_one && strs@.len() == 0 ==> (
        r matches Err(x) && x@ == no_address_message()),
        parsed_addresses(strs@, strs@.len()) is Ok && !(require_one && strs@.len() == 0)
            && strs@.len() > MAX_VARIABLES ==> (r matches Err(x) && x@ == too_many_message(
            strs@.len(),
        )),
        parsed_addresses(strs@, strs@.len()) is Ok && !(require_one && strs@.len() == 0)
            && strs@.len() <= MAX_VARIABLES ==> (r matches Ok(x) && x@ == parsed_addresses(
            strs@,
            strs@.len(),
        )->Ok_0),
{
    let mut out: Vec<u32> = Vec::new();
    let mut k: usize = 0;
    while k < strs.len()
        invariant
            k <= strs@.len(),
            out@.len() == k,
            parsed_addresses(strs@, k as nat) == Ok::<Seq<u32>, Seq<char>>(out@),
        decreases strs@.len() - k,
    {
        match parse_address(strs[k].as_str()) {
            Ok(a) => {
                out.push(a);
            },
            Err(m) => {
                proof {
                    lemma_parsed_addresses_err(strs@, (k + 1) as nat);
                }
                return Err(m);
            },
        }
        k = k + 1;
    }
    if require_one && out.len() == 0 {
        proof {
            reveal_strlit("至少需要指定一个内存地址");
        }
        return Err(String::from_str("至少需要指定一个内存地址"));
    }
    if out.len() > MAX_VARIABLES {
        let mut m = String::from_str("最多支持 8 个变量，当前: ");
        push_decimal(&mut m, out.len() as u64);
        proof {
            reveal_strlit("最多支持 8 个变量，当前: ");
        }
        return Err(m);
    }
    Ok(out)
}

proof fn lemma_parsed_addresses_err(strs: Seq<String>, k: nat)
    requires
        1 <= k <= strs.len(),
        parsed_addresses(strs, k) is Err,
    ensures
        parsed_addresses(strs, strs.len()) == parsed_addresses(strs, k),
    decreases strs.len() - k,
{
    if k < strs.len() {
        lemma_parsed_addresses_err(strs, k + 1);
    }
}

/// The type of a variable named on the command line: the named type, or
/// `uint32` for a name that is not a type.
pub open spec fn type_or_uint32(s: Seq<char>) -> ValueType {
    match type_from_name(s) {
        Some(t) => t,
        None => ValueType::Uint32,
    }
}

/// The types of the variables given by address: one per type name when
/// names are given (`uint32` for a name that is not a type), else `uint32`
/// for each of the `n` addresses.
pub fn manual_value_types(type_strs: Option<&[String]>, n: usize) -> (v: Vec<ValueType>)
    ensures
        match type_strs {
            Some(t) => v@.len() == t@.len() && forall|i: int|
                0 <= i < t@.len() ==> v@[i] == type_or_uint32((#[trigger] t@[i])@),
            None => v@.len() == n && forall|i: int| 0 <= i < n ==> v@[i] == ValueType::Uint32,
        },
{
    let mut v: Vec<ValueType> = Vec::new();
    match type_strs {
        Some(t) => {
            let mut i: usize = 0;
            while i < t.len()
                invariant
                    i <= t@.len(),
                    v@.len() == i,
                    forall|j: int| 0 <= j < i ==> v@[j] == type_or_uint32((#[trigger] t@[j])@),
                decreases t@.len() - i,
            {
                let vt = match ValueType::parse(t[i].as_str()) {
                    Ok(x) => x,
                    Err(_) => ValueType::Uint32,
                };
                v.push(vt);
                i = i + 1;
            }
        },
        None => {
            let mut i: usize = 0;
            while i < n
                invariant
                    i <= n,
                    v@.len() == i,
                    forall|j: int| 0 <= j < i ==> v@[j] == ValueType::Uint32,
                decreases n - i,
            {
                v.push(ValueType::Uint32);
                i = i + 1;
            }
        },
    }
    v
}

} // verus!
