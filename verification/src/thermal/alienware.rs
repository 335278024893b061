//! The Alienware device (the kernel's `alienware-wmi-wmax` driver, exposed
//! through hwmon): attribute names, the numbers in attribute files and the
//! conversion of raw readings.
use vstd::prelude::*;
use crate::text::{decimal, push_decimal, push_str};
use crate::thermal::error::ThermalError;

verus! {

pub const HWMON_ROOT: &'static str = "/sys/class/hwmon";

/// The `name` of the hwmon directory that belongs to this driver.
pub const HWMON_NAME: &'static str = "alienware_wmi";

pub const DMI_PRODUCT: &'static str = "/sys/class/dmi/id/product_name";

/// Upper bound on enumerated fans/sensors: no real board exposes anywhere
/// near this many, so it just keeps a misbehaving driver from turning the
/// index scan into an unbounded loop.
pub const MAX_ENTRIES: u32 = 64;

/// `prefix`, the index in decimal, then `rest`.
pub open spec fn indexed(prefix: Seq<char>, index: u32, rest: Seq<char>) -> Seq<char> {
    prefix + decimal(index as nat) + rest
}

fn indexed_name(prefix: &str, index: u32, rest: &str) -> (s: String)
    ensures
        s@ == indexed(prefix@, index, rest@),
{
    let mut s = prefix.to_owned();
    push_decimal(&mut s, index as u64);
    push_str(&mut s, rest);
    s
}

/// The attribute file `fan{index}_{suffix}` (e.g. "fan1_boost").
pub fn fan_attr(index: u32, suffix: &str) -> (s: String)
    ensures
        s@ == indexed("fan"@, index, "_"@ + suffix@),
{
    let mut rest = "_".to_owned();
    push_str(&mut rest, suffix);
    indexed_name("fan", index, rest.as_str())
}

/// The attribute file `temp{index}_{suffix}` (e.g. "temp1_input").
pub fn temp_attr(index: u32, suffix: &str) -> (s: String)
    ensures
        s@ == indexed("temp"@, index, "_"@ + suffix@),
{
    let mut rest = "_".to_owned();
    push_str(&mut rest, suffix);
    indexed_name("temp", index, rest.as_str())
}

/// The stable id of fan `index` ("fan1").
pub fn fan_id(index: u32) -> (s: String)
    ensures
        s@ == indexed("fan"@, index, Seq::empty()),
{
    proof {
        reveal_strlit("");
    }
    assert(""@ =~= Seq::<char>::empty());
    indexed_name("fan", index, "")
}

/// Label of a fan whose driver gives none ("Fan 1").
pub fn default_fan_label(index: u32) -> (s: String)
    ensures
        s@ == indexed("Fan "@, index, Seq::empty()),
{
    proof {
        reveal_strlit("");
    }
    assert(""@ =~= Seq::<char>::empty());
    indexed_name("Fan ", index, "")
}

/// Label of a sensor whose driver gives none ("Sensor 1").
pub fn default_sensor_label(index: u32) -> (s: String)
    ensures
        s@ == indexed("Sensor "@, index, Seq::empty()),
{
    proof {
        reveal_strlit("");
    }
    assert(""@ =~= Seq::<char>::empty());
    indexed_name("Sensor ", index, "")
}

/// The boost range of this driver.
pub fn boost_range() -> (r: (u8, u8))
    ensures
        r == (0u8, 255u8),
{
    (0, 255)
}

/// A raw `fanN_boost` value as a boost: clamped into 0-255.
pub fn boost_from_raw(raw: i64) -> (b: u8)
    ensures
        b == if raw < 0 {
            0
        } else if raw > 255 {
            255
        } else {
            raw
        },
{
    if raw < 0 {
        0
    } else if raw > 255 {
        255
    } else {
        raw as u8
    }
}

/// A raw `fanN_input`/`fanN_max` value as RPM (its low 32 bits, as the
/// driver's values always fit).
pub fn rpm_from_raw(raw: i64) -> (r: u32)
    ensures
        r == raw as u32,
{
    raw as u32
}

/// A raw `tempN_input` value (millidegrees) within the range of a reading.
pub fn millicelsius_from_raw(raw: i64) -> (m: i32)
    ensures
        m == if raw < i32::MIN {
            i32::MIN as int
        } else if raw > i32::MAX {
            i32::MAX as int
        } else {
            raw as int
        },
{
    if raw < i32::MIN as i64 {
        i32::MIN
    } else if raw > i32::MAX as i64 {
        i32::MAX
    } else {
        raw as i32
    }
}

// ---------------------------------------------------------------------------
// Numeric attribute files
// ---------------------------------------------------------------------------

/// Whether `c` has Unicode's White_Space property, which `char::is_whitespace`
/// tests: tab through carriage return, space, next line, no-break space,
/// ogham space mark, the spaces from en quad to hair space, line and
/// paragraph separators, narrow no-break space, medium mathematical space
/// and ideographic space.
pub open spec fn unicode_whitespace(c: char) -> bool {
    let u = c as u32;
    (0x9 <= u <= 0xd) || u == 0x20 || u == 0x85 || u == 0xa0 || u == 0x1680 || (0x2000 <= u
        <= 0x200a) || u == 0x2028 || u == 0x2029 || u == 0x202f || u == 0x205f || u == 0x3000
}

/// Whether `c` is whitespace (as `char::is_whitespace`).
pub fn is_whitespace(c: char) -> (r: bool)
    ensures
        r == unicode_whitespace(c),
{
    let u = c as u32;
    (0x9 <= u && u <= 0xd) || u == 0x20 || u == 0x85 || u == 0xa0 || u == 0x1680 || (0x2000 <= u
        && u <= 0x200a) || u == 0x2028 || u == 0x2029 || u == 0x202f || u == 0x205f || u == 0x3000
}

/// `s` without the whitespace at either end.
pub open spec fn trimmed(s: Seq<char>) -> Seq<char>
    decreases s.len(),
{
    if s.len() > 0 && unicode_whitespace(s[0]) {
        trimmed(s.drop_first())
    } else if s.len() > 0 && unicode_whitespace(s.last()) {
        trimmed(s.drop_last())
    } else {
        s
    }
}

/// `s` without the whitespace at either end (as `str::trim`).
pub fn trim_whitespace(s: &str) -> (t: &str)
    ensures
        t@ == trimmed(s@),
{
    let n = s.unicode_len();
    let mut a: usize = 0;
    assert(s@.subrange(0, n as int) =~= s@);
    while a < n && is_whitespace(s.get_char(a))
        invariant
            n == s@.len(),
            a <= n,
            trimmed(s@) == trimmed(s@.subrange(a as int, n as int)),
        decreases n - a,
    {
        proof {
            assert(s@.subrange(a as int, n as int).drop_first() =~= s@.subrange(a + 1, n as int));
        }
        a = a + 1;
    }
    let mut b: usize = n;
    while b > a && is_whitespace(s.get_char(b - 1))
        invariant
            n == s@.len(),
            a <= b <= n,
            a < n ==> !unicode_whitespace(s@[a as int]),
            trimmed(s@) == trimmed(s@.subrange(a as int, b as int)),
        decreases b - a,
    {
        proof {
            let sub = s@.subrange(a as int, b as int);
            assert(sub[0] == s@[a as int]);
            assert(sub.last() == s@[b - 1]);
            assert(sub.drop_last() =~= s@.subrange(a as int, b - 1));
        }
        b = b - 1;
    }
    proof {
        let sub = s@.subrange(a as int, b as int);
        if a < b {
            assert(sub[0] == s@[a as int]);
            assert(sub.last() == s@[b - 1]);
        }
    }
    s.substring_char(a, b)
}

/// An ASCII decimal digit.
pub open spec fn is_digit(c: char) -> bool {
    '0' <= c <= '9'
}

/// The number that a run of decimal digits spells.
pub open spec fn digits_value(s: Seq<char>) -> int
    decreases s.len(),
{
    if s.len() == 0 {
        0
    } else {
        digits_value(s.drop_last()) * 10 + (s.last() as int - '0' as int)
    }
}

/// Only decimal digits.
pub open spec fn all_digits(s: Seq<char>) -> bool {
    forall|i: int| 0 <= i < s.len() ==> is_digit(#[trigger] s[i])
}

/// Whether `t` starts with a sign.
pub open spec fn has_sign(t: Seq<char>) -> bool {
    t.len() > 0 && (t[0] == '+' || t[0] == '-')
}

/// The digits of a literal: `t` without its sign.
pub open spec fn literal_digits(t: Seq<char>) -> Seq<char> {
    if has_sign(t) {
        t.drop_first()
    } else {
        t
    }
}

/// The value of `t` read as an `i64` in decimal: an optional `+` or `-`,
/// then one or more digits and nothing else, within the range of `i64`.
pub open spec fn i64_literal(t: Seq<char>) -> Option<int> {
    let body = literal_digits(t);
    let v = if t.len() > 0 && t[0] == '-' { -digits_value(body) } else { digits_value(body) };
    if body.len() > 0 && all_digits(body) && i64::MIN <= v <= i64::MAX {
        Some(v)
    } else {
        None
    }
}

proof fn lemma_digits_value_prefix(s: Seq<char>, k: int)
    requires
        0 <= k <= s.len(),
        all_digits(s),
    ensures
        0 <= digits_value(s.take(k)) <= digits_value(s),
    decreases s.len(),
{
    if s.len() > 0 {
        let d = s.drop_last();
        assert(all_digits(d)) by {
            assert forall|i: int| 0 <= i < d.len() implies is_digit(#[trigger] d[i]) by {
                assert(d[i] == s[i]);
            }
        }
        assert(is_digit(s[s.len() - 1]));
        if k == s.len() {
            assert(s.take(k) =~= s);
            lemma_digits_value_prefix(d, d.len() as int);
            assert(d.take(d.len() as int) =~= d);
        } else {
            lemma_digits_value_prefix(d, k);
            lemma_digits_value_prefix(d, d.len() as int);
            assert(d.take(k) =~= s.take(k));
            assert(d.take(d.len() as int) =~= d);
        }
    } else {
        assert(s.take(k) =~= s);
    }
}

/// Reads `t` as an `i64` in decimal, as `str::parse::<i64>` does.
pub fn parse_i64(t: &str) -> (r: Option<i64>)
    ensures
        match i64_literal(t@) {
            Some(v) => r == Some(v as i64),
            None => r is None,
        },
{
    let n = t.unicode_len();
    let mut start: usize = 0;
    let mut negative = false;
    if n > 0 {
        let c = t.get_char(0);
        if c == '+' {
            start = 1;
        } else if c == '-' {
            start = 1;
            negative = true;
        }
    }
    let ghost body = t@.subrange(start as int, n as int);
    proof {
        if has_sign(t@) {
            assert(body =~= t@.drop_first());
        } else {
            assert(body =~= t@);
        }
        assert(body == literal_digits(t@));
    }
    if start == n {
        return None;
    }
    let limit: u64 = 9223372036854775808;
    let mut acc: u64 = 0;
    let mut j: usize = start;
    while j < n
        invariant
            n == t@.len(),
            start <= j <= n,
            body == t@.subrange(start as int, n as int),
            body == literal_digits(t@),
            negative == (t@.len() > 0 && t@[0] == '-'),
            limit == 9223372036854775808,
            acc <= limit,
            acc == digits_value(t@.subrange(start as int, j as int)),
            forall|k: int| start <= k < j ==> is_digit(#[trigger] t@[k]),
        decreases n - j,
    {
        let c = t.get_char(j);
        proof {
            assert(body[j - start] == t@[j as int]);
        }
        if !('0' <= c && c <= '9') {
            proof {
                assert(!is_digit(body[j - start]));
            }
            return None;
        }
        let d: u64 = ((c as u32) - 48) as u64;
        let ghost next = t@.subrange(start as int, j + 1);
        proof {
            assert(next.drop_last() =~= t@.subrange(start as int, j as int));
            assert(next.last() == c);
            assert(digits_value(next) == acc * 10 + d);
        }
        if acc > 922337203685477580 || (acc == 922337203685477580 && d > 8) {
            proof {
                if all_digits(body) {
                    lemma_digits_value_prefix(body, j + 1 - start);
                    assert(body.take(j + 1 - start) =~= next);
                    assert(digits_value(next) > limit);
                }
            }
            return None;
        }
        acc = acc * 10 + d;
        j = j + 1;
    }
    proof {
        assert(t@.subrange(start as int, n as int) =~= body);
        assert(all_digits(body)) by {
            assert forall|i: int| 0 <= i < body.len() implies is_digit(#[trigger] body[i]) by {
                assert(body[i] == t@[start + i]);
            }
        }
    }
    if negative {
        if acc == limit {
            Some(i64::MIN)
        } else {
            Some(-(acc as i64))
        }
    } else if acc == limit {
        None
    } else {
        Some(acc as i64)
    }
}

/// The message of an attribute file whose text is not a number.
pub open spec fn invalid_number_message(path: Seq<char>, text: Seq<char>) -> Seq<char> {
    path + ": \""@ + text + "\""@
}

/// The number in the text `raw` of the attribute file `path`: its trimmed
/// text read as an `i64`, or `InvalidValue` naming the file and that text.
pub fn hwmon_number(path: &str, raw: &str) -> (r: Result<i64, ThermalError>)
    ensures
        match i64_literal(trimmed(raw@)) {
            Some(v) => r == Ok::<i64, ThermalError>(v as i64),
            None => r matches Err(ThermalError::InvalidValue(m)) && m@ == invalid_number_message(
                path@,
                trimmed(raw@),
            ),
        },
{
    let text = trim_whitespace(raw);
    match parse_i64(text) {
        Some(v) => Ok(v),
        None => {
            let mut m = path.to_owned();
            push_str(&mut m, ": \"");
            push_str(&mut m, text);
            push_str(&mut m, "\"");
            Err(ThermalError::InvalidValue(m))
        },
    }
}

} // verus!
