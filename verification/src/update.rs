//! Update check: parsing `major.minor.patch` versions and deciding whether
//! the latest release is newer than the running one.
use vstd::prelude::*;
use vstd::string::*;

verus! {

/// What the UI shows about available updates.
#[derive(Debug, Clone)]
pub struct UpdateInfo {
    pub available: bool,
    pub current_version: String,
    pub latest_version: String,
    pub release_url: String,
}

/// The pieces of `s` between '.' separators (at least one, possibly empty).
pub open spec fn split_dots(s: Seq<char>) -> Seq<Seq<char>>
    decreases s.len(),
{
    if s.len() == 0 {
        seq![Seq::<char>::empty()]
    } else {
        let p = split_dots(s.drop_last());
        if s.last() == '.' {
            p.push(Seq::<char>::empty())
        } else {
            p.update(p.len() - 1, p.last().push(s.last()))
        }
    }
}

/// `c` is an ASCII decimal digit.
pub open spec fn is_digit(c: char) -> bool {
    '0' <= c <= '9'
}

/// The value of a string of decimal digits.
pub open spec fn digits_value(d: Seq<char>) -> nat
    decreases d.len(),
{
    if d.len() == 0 {
        0
    } else {
        digits_value(d.drop_last()) * 10 + (d.last() as nat - '0' as nat) as nat
    }
}

/// The digits of a number: the text without one leading '+'.
pub open spec fn unsigned_digits(p: Seq<char>) -> Seq<char> {
    if p.len() > 0 && p[0] == '+' {
        p.drop_first()
    } else {
        p
    }
}

/// `u32`'s parse from text: an optional '+', then one or more ASCII digits
/// whose value fits in a `u32`.
pub open spec fn parse_u32_spec(p: Seq<char>) -> Option<u32> {
    let d = unsigned_digits(p);
    if d.len() == 0 || !(forall|i: int| 0 <= i < d.len() ==> is_digit(d[i])) {
        None
    } else if digits_value(d) > u32::MAX {
        None
    } else {
        Some(digits_value(d) as u32)
    }
}

/// `major.minor.patch`: the first three dot-separated pieces, each a `u32`;
/// anything after a third dot is ignored.
pub open spec fn version_spec(v: Seq<char>) -> Option<(u32, u32, u32)> {
    let parts = split_dots(v);
    if parts.len() < 3 {
        None
    } else {
        match (parse_u32_spec(parts[0]), parse_u32_spec(parts[1]), parse_u32_spec(parts[2])) {
            (Some(a), Some(b), Some(c)) => Some((a, b, c)),
            _ => None,
        }
    }
}

/// Version order: by major, then minor, then patch.
pub open spec fn version_gt(a: (u32, u32, u32), b: (u32, u32, u32)) -> bool {
    a.0 > b.0 || (a.0 == b.0 && (a.1 > b.1 || (a.1 == b.1 && a.2 > b.2)))
}

proof fn lemma_digits_value_grows(d: Seq<char>, i: int)
    requires
        0 <= i <= d.len(),
    ensures
        digits_value(d.take(i)) <= digits_value(d),
    decreases d.len() - i,
{
    if i < d.len() {
        lemma_digits_value_grows(d, i + 1);
        assert(d.take(i + 1).drop_last() =~= d.take(i));
    } else {
        assert(d.take(i) =~= d);
    }
}

/// Parses a `u32` from its characters: an optional '+', then decimal digits.
pub fn parse_u32(p: &Vec<char>) -> (r: Option<u32>)
    ensures
        r == parse_u32_spec(p@),
{
    let n = p.len();
    let start: usize = if n > 0 && p[0] == '+' {
        1
    } else {
        0
    };
    let ghost d = unsigned_digits(p@);
    assert(d =~= p@.skip(start as int));
    if start == n {
        return None;
    }
    let mut acc: u64 = 0;
    let mut i = start;
    while i < n
        invariant
            start <= i <= n,
            n == p@.len(),
            start < n,
            d == p@.skip(start as int),
            d == unsigned_digits(p@),
            forall|k: int| start <= k < i ==> is_digit(p@[k]),
            acc == digits_value(d.take(i - start)),
            acc <= u32::MAX,
        decreases n - i,
    {
        let c = p[i];
        if c < '0' || c > '9' {
            proof {
                assert(d[i - start] == c);
                assert(!is_digit(d[i - start]));
                assert(!(forall|k: int| 0 <= k < d.len() ==> is_digit(d[k])));
            }
            return None;
        }
        let digit: u64 = (c as u32 - '0' as u32) as u64;
        proof {
            assert(d.take(i + 1 - start).drop_last() =~= d.take(i - start));
            assert(d.take(i + 1 - start).last() == c);
        }
        acc = acc * 10 + digit;
        assert(acc == digits_value(d.take(i + 1 - start)));
        if acc > u32::MAX as u64 {
            proof {
                lemma_digits_value_grows(d, i + 1 - start);
                assert(d.len() > 0);
                assert(digits_value(d) > u32::MAX);
            }
            return None;
        }
        i = i + 1;
    }
    proof {
        assert(d.take(n - start) =~= d);
        assert forall|k: int| 0 <= k < d.len() implies is_digit(d[k]) by {
            assert(d[k] == p@[k + start]);
        }
    }
    Some(acc as u32)
}

/// Splits `v` at every '.'.
fn split_version(v: &str) -> (parts: Vec<Vec<char>>)
    ensures
        parts@.map_values(|x: Vec<char>| x@) == split_dots(v@),
{
    let n = v.unicode_len();
    let mut parts: Vec<Vec<char>> = Vec::new();
    parts.push(Vec::new());
    proof {
        assert(parts@.map_values(|x: Vec<char>| x@) =~= split_dots(v@.take(0)));
    }
    for i in 0..n
        invariant
            n == v@.len(),
            parts@.len() >= 1,
            parts@.map_values(|x: Vec<char>| x@) == split_dots(v@.take(i as int)),
    {
        let c = v.get_char(i);
        let ghost before = parts@.map_values(|x: Vec<char>| x@);
        proof {
            assert(v@.take(i + 1).drop_last() =~= v@.take(i as int));
            assert(v@.take(i + 1).last() == c);
        }
        if c == '.' {
            parts.push(Vec::new());
            assert(parts@.map_values(|x: Vec<char>| x@) =~= before.push(Seq::<char>::empty()));
        } else {
            let mut last = parts.pop().unwrap();
            last.push(c);
            parts.push(last);
            assert(parts@.map_values(|x: Vec<char>| x@) =~= before.update(
                before.len() - 1,
                before.last().push(c),
            ));
        }
    }
    proof {
        assert(v@.take(n as int) =~= v@);
    }
    parts
}

/// Parses `major.minor.patch`; anything after a third dot is ignored.
pub fn parse_version(v: &str) -> (r: Option<(u32, u32, u32)>)
    ensures
        r == version_spec(v@),
{
    let parts = split_version(v);
    if parts.len() < 3 {
        return None;
    }
    proof {
        assert(parts@.map_values(|x: Vec<char>| x@)[0] == parts@[0]@);
        assert(parts@.map_values(|x: Vec<char>| x@)[1] == parts@[1]@);
        assert(parts@.map_values(|x: Vec<char>| x@)[2] == parts@[2]@);
    }
    let major = parse_u32(&parts[0]);
    let minor = parse_u32(&parts[1]);
    let patch = parse_u32(&parts[2]);
    match (major, minor, patch) {
        (Some(a), Some(b), Some(c)) => Some((a, b, c)),
        _ => None,
    }
}

/// Whether the version `latest` is newer than `current`; false when either
/// does not parse.
pub fn is_newer(latest: &str, current: &str) -> (r: bool)
    ensures
        r == match (version_spec(latest@), version_spec(current@)) {
            (Some(l), Some(c)) => version_gt(l, c),
            _ => false,
        },
{
    match (parse_version(latest), parse_version(current)) {
        (Some(l), Some(c)) => l.0 > c.0 || (l.0 == c.0 && (l.1 > c.1 || (l.1 == c.1 && l.2
            > c.2))),
        _ => false,
    }
}

/// How many 'v's start `s`.
pub open spec fn leading_vs(s: Seq<char>) -> nat
    decreases s.len(),
{
    if s.len() > 0 && s[0] == 'v' {
        1 + leading_vs(s.drop_first())
    } else {
        0
    }
}

/// The release tag without its leading 'v's ("v1.2.3" → "1.2.3").
pub fn tag_version(tag: &str) -> (v: String)
    ensures
        v@ == tag@.skip(leading_vs(tag@) as int),
{
    let n = tag.unicode_len();
    let mut i: usize = 0;
    assert(tag@.skip(0) =~= tag@);
    while i < n && tag.get_char(i) == 'v'
        invariant
            n == tag@.len(),
            i <= n,
            leading_vs(tag@) == i + leading_vs(tag@.skip(i as int)),
        decreases n - i,
    {
        proof {
            assert(tag@.skip(i as int).drop_first() =~= tag@.skip(i + 1));
        }
        i = i + 1;
    }
    proof {
        if i < n {
            assert(tag@.skip(i as int)[0] != 'v');
        }
    }
    tag.substring_char(i, n).to_owned()
}

/// What the UI shows once the latest release is known: its version (the
/// tag without leading 'v's), its page, and whether it is newer than the
/// running version.
pub fn update_info(current_version: String, tag_name: &str, release_url: String) -> (u: UpdateInfo)
    ensures
        u.current_version == current_version,
        u.latest_version@ == tag_name@.skip(leading_vs(tag_name@) as int),
        u.release_url == release_url,
        u.available == match (
            version_spec(u.latest_version@),
            version_spec(current_version@),
        ) {
            (Some(l), Some(c)) => version_gt(l, c),
            _ => false,
        },
{
    let latest_version = tag_version(tag_name);
    let available = is_newer(latest_version.as_str(), current_version.as_str());
    UpdateInfo { available, current_version, latest_version, release_url }
}

/// No '.' in `s`.
pub open spec fn dot_free(s: Seq<char>) -> bool {
    forall|i: int| 0 <= i < s.len() ==> s[i] != '.'
}

proof fn lemma_split_dot_free(s: Seq<char>)
    requires
        dot_free(s),
    ensures
        split_dots(s) == seq![s],
    decreases s.len(),
{
    if s.len() > 0 {
        lemma_split_dot_free(s.drop_last());
        assert(s.drop_last().push(s.last()) =~= s);
    } else {
        assert(s =~= Seq::<char>::empty());
    }
}

proof fn lemma_split_after_dot(s: Seq<char>, t: Seq<char>)
    ensures
        split_dots(s.push('.') + t) == split_dots(s) + split_dots(t),
    decreases t.len(),
{
    if t.len() == 0 {
        assert(s.push('.') + t =~= s.push('.'));
        assert(s.push('.').drop_last() =~= s);
        assert(split_dots(s).push(Seq::<char>::empty()) =~= split_dots(s) + seq![Seq::<char>::empty()]);
    } else {
        lemma_split_after_dot(s, t.drop_last());
        let u = s.push('.') + t;
        assert(u.drop_last() =~= s.push('.') + t.drop_last());
        assert(u.last() == t.last());
        let p = split_dots(t.drop_last());
        assert(p.len() >= 1) by {
            lemma_split_nonempty(t.drop_last());
        }
        if t.last() == '.' {
            assert((split_dots(s) + p).push(Seq::<char>::empty()) =~= split_dots(s) + p.push(
                Seq::<char>::empty(),
            ));
        } else {
            let q = split_dots(s) + p;
            assert(q.update(q.len() - 1, q.last().push(t.last())) =~= split_dots(s) + p.update(
                p.len() - 1,
                p.last().push(t.last()),
            ));
        }
    }
}

proof fn lemma_split_nonempty(s: Seq<char>)
    ensures
        split_dots(s).len() >= 1,
    decreases s.len(),
{
    if s.len() > 0 {
        lemma_split_nonempty(s.drop_last());
    }
}

proof fn lemma_decimal_parses(n: nat)
    ensures
        dot_free(crate::text::decimal(n)),
        crate::text::decimal(n).len() > 0,
        crate::text::decimal(n)[0] != '+',
        forall|i: int|
            0 <= i < crate::text::decimal(n).len() ==> is_digit(crate::text::decimal(n)[i]),
        digits_value(crate::text::decimal(n)) == n,
    decreases n,
{
    let d = crate::text::decimal(n);
    assert(crate::text::digit_char((n % 10) as nat) as nat == '0' as nat + n % 10);
    if n >= 10 {
        lemma_decimal_parses(n / 10);
        let e = crate::text::decimal(n / 10);
        assert(d == e.push(crate::text::digit_char(n % 10)));
        assert(d.drop_last() =~= e);
        assert(d[0] == e[0]);
        assert(digits_value(d) == digits_value(e) * 10 + (d.last() as nat - '0' as nat) as nat);
    } else {
        assert(d.drop_last() =~= Seq::<char>::empty());
        assert(digits_value(d) == digits_value(d.drop_last()) * 10 + (d.last() as nat - '0' as nat) as nat);
    }
}

/// Writing three numbers as `a.b.c` and parsing the text gives them back:
/// well-formed versions parse.
pub proof fn lemma_version_roundtrip(a: u32, b: u32, c: u32)
    ensures
        version_spec(
            crate::text::decimal(a as nat).push('.') + crate::text::decimal(b as nat).push('.')
                + crate::text::decimal(c as nat),
        ) == Some((a, b, c)),
{
    let da = crate::text::decimal(a as nat);
    let db = crate::text::decimal(b as nat);
    let dc = crate::text::decimal(c as nat);
    lemma_decimal_parses(a as nat);
    lemma_decimal_parses(b as nat);
    lemma_decimal_parses(c as nat);
    lemma_split_dot_free(da);
    lemma_split_dot_free(db);
    lemma_split_dot_free(dc);
    lemma_split_after_dot(db, dc);
    lemma_split_after_dot(da, db.push('.') + dc);
    let v = da.push('.') + db.push('.') + dc;
    assert(v =~= da.push('.') + (db.push('.') + dc));
    let parts = split_dots(v);
    assert(parts =~= seq![da, db, dc]);
    assert(unsigned_digits(da) == da);
    assert(unsigned_digits(db) == db);
    assert(unsigned_digits(dc) == dc);
}

/// Versions written from numbers compare numerically (major, then minor,
/// then patch), not as text.
pub proof fn lemma_newer_is_numeric(l: (u32, u32, u32), c: (u32, u32, u32))
    ensures
        ({
            let lt = crate::text::decimal(l.0 as nat).push('.') + crate::text::decimal(l.1 as nat).push('.')
                + crate::text::decimal(l.2 as nat);
            let ct = crate::text::decimal(c.0 as nat).push('.') + crate::text::decimal(c.1 as nat).push('.')
                + crate::text::decimal(c.2 as nat);
            (match (version_spec(lt), version_spec(ct)) {
                (Some(x), Some(y)) => version_gt(x, y),
                _ => false,
            }) == version_gt(l, c)
        }),
{
    lemma_version_roundtrip(l.0, l.1, l.2);
    lemma_version_roundtrip(c.0, c.1, c.2);
}

/// Versions are ordered strictly and totally: no version is newer than
/// itself, "newer" is transitive, and of two different versions exactly one
/// is newer; a higher major version is newer whatever follows, and so is a
/// higher patch version with the same major and minor.
pub proof fn lemma_version_order(a: (u32, u32, u32), b: (u32, u32, u32), c: (u32, u32, u32))
    ensures
        !version_gt(a, a),
        version_gt(a, b) ==> !version_gt(b, a),
        version_gt(a, b) && version_gt(b, c) ==> version_gt(a, c),
        a != b ==> version_gt(a, b) || version_gt(b, a),
        a.0 > b.0 ==> version_gt(a, b),
        a.0 == b.0 && a.1 > b.1 ==> version_gt(a, b),
        a.0 == b.0 && a.1 == b.1 ==> (version_gt(a, b) <==> a.2 > b.2),
{
}

} // verus!
