//! The huge-page probe: parsing the kernel's line-based memory-info text
//! for the keys describing huge pages, and the decisions built on it —
//! whether the frame pool should ask for huge pages, and how a mapping
//! size is rounded up to the chosen page size. Reading the text itself is
//! I/O and stays with the caller; every byte of interpretation is here.

use vstd::arithmetic::div_mod::{lemma_fundamental_div_mod, lemma_mod_multiples_basic};
use vstd::arithmetic::mul::lemma_mul_is_commutative;
use vstd::prelude::*;

verus! {

/// System huge-page facts read from the memory-info text.
#[derive(Debug, Clone, Copy, PartialEq, Eq, Structural)]
pub struct HugePageInfo {
    /// The huge-page size in kilobytes.
    pub size_kb: Option<u64>,
    /// How many huge pages the system holds.
    pub total: Option<u64>,
    /// How many huge pages are free.
    pub free: Option<u64>,
}

impl Default for HugePageInfo {
    /// Nothing known yet.
    fn default() -> (r: HugePageInfo)
        ensures
            r == (HugePageInfo { size_kb: None, total: None, free: None }),
    {
        HugePageInfo { size_kb: None, total: None, free: None }
    }
}

/// An ASCII decimal digit.
pub open spec fn is_digit(b: u8) -> bool {
    0x30 <= b <= 0x39
}

/// Every byte a digit.
pub open spec fn all_digits(s: Seq<u8>) -> bool {
    forall|i: int| 0 <= i < s.len() ==> is_digit(#[trigger] s[i])
}

/// The value of a digit string read as decimal.
pub open spec fn dec_val(s: Seq<u8>) -> int
    decreases s.len(),
{
    if s.len() == 0 {
        0
    } else {
        dec_val(s.drop_last()) * 10 + (s.last() - 0x30)
    }
}

/// A decimal value only grows as more digits follow.
proof fn lemma_dec_val_extend(s: Seq<u8>, j: int)
    requires
        all_digits(s),
        0 <= j <= s.len(),
    ensures
        0 <= dec_val(s.subrange(0, j)) <= dec_val(s),
    decreases s.len() - j,
{
    if j == s.len() {
        assert(s.subrange(0, j) =~= s);
        lemma_dec_val_nonneg(s);
    } else {
        lemma_dec_val_extend(s, j + 1);
        let a = s.subrange(0, j);
        let b = s.subrange(0, j + 1);
        assert(b.drop_last() =~= a);
        lemma_dec_val_nonneg(a);
        assert(dec_val(b) == dec_val(a) * 10 + (b.last() - 0x30));
        assert(dec_val(a) * 10 >= dec_val(a));
    }
}

/// A digit string's value is never negative.
proof fn lemma_dec_val_nonneg(s: Seq<u8>)
    requires
        all_digits(s),
    ensures
        dec_val(s) >= 0,
    decreases s.len(),
{
    if s.len() > 0 {
        assert(all_digits(s.drop_last()));
        lemma_dec_val_nonneg(s.drop_last());
        assert(dec_val(s.drop_last()) * 10 >= 0);
    }
}

/// Reads a decimal number: defined exactly for a nonempty all-digit string
/// whose value fits, and then returns that value.
pub fn parse_decimal(s: &[u8]) -> (r: Option<u64>)
    ensures
        r is Some <==> s@.len() > 0 && all_digits(s@) && dec_val(s@) <= u64::MAX,
        r is Some ==> r->0 == dec_val(s@),
{
    if s.len() == 0 {
        return None;
    }
    let mut acc: u64 = 0;
    let mut i: usize = 0;
    while i < s.len()
        invariant
            0 < s@.len() <= usize::MAX,
            i <= s@.len(),
            all_digits(s@.subrange(0, i as int)),
            acc == dec_val(s@.subrange(0, i as int)),
        decreases s@.len() - i,
    {
        let b = s[i];
        if b < 0x30 || b > 0x39 {
            proof {
                assert(!is_digit(s@[i as int]));
            }
            return None;
        }
        let d: u64 = (b - 0x30) as u64;
        if acc > (u64::MAX - d) / 10 {
            proof {
                let t = s@.subrange(0, i + 1);
                assert(t.drop_last() =~= s@.subrange(0, i as int));
                lemma_fundamental_div_mod((u64::MAX - d) as int, 10);
                assert(dec_val(t) > u64::MAX);
                if all_digits(s@) && dec_val(s@) <= u64::MAX {
                    lemma_dec_val_extend(s@, i + 1);
                }
            }
            return None;
        }
        proof {
            let t = s@.subrange(0, i + 1);
            assert(t.drop_last() =~= s@.subrange(0, i as int));
            lemma_fundamental_div_mod((u64::MAX - d) as int, 10);
        }
        acc = acc * 10 + d;
        i = i + 1;
    }
    proof {
        assert(s@.subrange(0, s@.len() as int) =~= s@);
    }
    Some(acc)
}

/// The index of the first colon, or the length when there is none.
pub open spec fn before_colon(s: Seq<u8>) -> int
    decreases s.len(),
{
    if s.len() == 0 {
        0
    } else if s[0] == 0x3au8 {
        0
    } else {
        1 + before_colon(s.drop_first())
    }
}

/// `before_colon` names the first colon: everything before it is not one,
/// and it is one unless the string has none.
proof fn lemma_before_colon(s: Seq<u8>)
    ensures
        0 <= before_colon(s) <= s.len(),
        before_colon(s) < s.len() ==> s[before_colon(s)] == 0x3au8,
        forall|j: int| 0 <= j < before_colon(s) ==> s[j] != 0x3au8,
    decreases s.len(),
{
    if s.len() > 0 && s[0] != 0x3au8 {
        lemma_before_colon(s.drop_first());
        assert forall|j: int| 0 <= j < before_colon(s) implies s[j] != 0x3au8 by {
            if j > 0 {
                assert(s.drop_first()[j - 1] != 0x3au8);
            }
        }
    }
}

/// Finds the first colon, or the length when there is none.
fn find_colon(s: &[u8]) -> (r: usize)
    ensures
        r == before_colon(s@),
{
    let mut i: usize = 0;
    while i < s.len()
        invariant
            i <= s@.len(),
            forall|j: int| 0 <= j < i ==> s@[j] != 0x3au8,
        decreases s@.len() - i,
    {
        if s[i] == 0x3a {
            proof {
                lemma_before_colon(s@);
            }
            return i;
        }
        i = i + 1;
    }
    proof {
        lemma_before_colon(s@);
    }
    i
}

/// A blank byte: space or tab.
pub open spec fn is_blank(b: u8) -> bool {
    b == 0x20 || b == 0x09
}

/// How many blanks open the string.
pub open spec fn trim_lo(s: Seq<u8>) -> int
    decreases s.len(),
{
    if s.len() == 0 {
        0
    } else if is_blank(s[0]) {
        1 + trim_lo(s.drop_first())
    } else {
        0
    }
}

/// Where the trailing blanks start.
pub open spec fn trim_hi(s: Seq<u8>) -> int
    decreases s.len(),
{
    if s.len() == 0 {
        0
    } else if is_blank(s.last()) {
        trim_hi(s.drop_last())
    } else {
        s.len() as int
    }
}

/// The string without leading and trailing blanks.
pub open spec fn trimmed(s: Seq<u8>) -> Seq<u8> {
    if trim_lo(s) < trim_hi(s) {
        s.subrange(trim_lo(s), trim_hi(s))
    } else {
        Seq::empty()
    }
}

/// `trim_lo` counts exactly the leading blanks.
proof fn lemma_trim_lo(s: Seq<u8>)
    ensures
        0 <= trim_lo(s) <= s.len(),
        trim_lo(s) < s.len() ==> !is_blank(s[trim_lo(s)]),
        forall|j: int| 0 <= j < trim_lo(s) ==> is_blank(s[j]),
    decreases s.len(),
{
    if s.len() > 0 && is_blank(s[0]) {
        lemma_trim_lo(s.drop_first());
        assert forall|j: int| 0 <= j < trim_lo(s) implies is_blank(s[j]) by {
            if j > 0 {
                assert(is_blank(s.drop_first()[j - 1]));
            }
        }
    }
}

/// `trim_hi` stops exactly before the trailing blanks.
proof fn lemma_trim_hi(s: Seq<u8>)
    ensures
        0 <= trim_hi(s) <= s.len(),
        trim_hi(s) > 0 ==> !is_blank(s[trim_hi(s) - 1]),
        forall|j: int| trim_hi(s) <= j < s.len() ==> is_blank(s[j]),
    decreases s.len(),
{
    if s.len() > 0 && is_blank(s.last()) {
        lemma_trim_hi(s.drop_last());
        assert forall|j: int| trim_hi(s) <= j < s.len() implies is_blank(s[j]) by {
            if j < s.len() - 1 {
                assert(is_blank(s.drop_last()[j]));
            }
        }
    }
}

/// Computes the trimmed bounds of `s@.subrange(lo, hi)` within `s`.
fn trim_range(s: &[u8], lo: usize, hi: usize) -> (r: (usize, usize))
    requires
        lo <= hi <= s@.len(),
    ensures
        lo <= r.0 <= r.1 <= hi,
        s@.subrange(lo as int, hi as int).subrange(
            r.0 - lo,
            r.1 - lo,
        ) == trimmed(s@.subrange(lo as int, hi as int)) || r.0 == r.1,
        trimmed(s@.subrange(lo as int, hi as int)) == s@.subrange(r.0 as int, r.1 as int),
{
    let ghost t = s@.subrange(lo as int, hi as int);
    proof {
        lemma_trim_lo(t);
        lemma_trim_hi(t);
    }
    let mut a: usize = lo;
    while a < hi && (s[a] == 0x20 || s[a] == 0x09)
        invariant
            lo <= a <= hi <= s@.len(),
            t == s@.subrange(lo as int, hi as int),
            a - lo <= trim_lo(t),
            forall|j: int| 0 <= j < a - lo ==> is_blank(t[j]),
        decreases hi - a,
    {
        proof {
            lemma_trim_lo(t);
            if a - lo == trim_lo(t) {
                assert(!is_blank(t[a - lo]));
                assert(t[a - lo] == s@[a as int]);
            }
        }
        a = a + 1;
    }
    proof {
        lemma_trim_lo(t);
        if a < hi {
            assert(!is_blank(t[a - lo]));
            assert(a - lo >= trim_lo(t) || is_blank(t[a - lo]));
        }
        assert(a - lo == trim_lo(t) || a == hi);
    }
    let mut b: usize = hi;
    while b > a && (s[b - 1] == 0x20 || s[b - 1] == 0x09)
        invariant
            a <= b <= hi,
            lo <= a <= hi <= s@.len(),
            t == s@.subrange(lo as int, hi as int),
            b - lo >= trim_hi(t),
            forall|j: int| b - lo <= j < t.len() ==> is_blank(t[j]),
        decreases b,
    {
        proof {
            lemma_trim_hi(t);
            if b - lo == trim_hi(t) {
                assert(!is_blank(t[b - lo - 1]));
                assert(t[b - lo - 1] == s@[b - 1]);
            }
        }
        b = b - 1;
    }
    proof {
        lemma_trim_hi(t);
        lemma_trim_lo(t);
        if b > a {
            assert(!is_blank(t[b - lo - 1]));
            assert(b - lo == trim_hi(t));
            assert(a - lo == trim_lo(t));
            assert(trimmed(t) =~= s@.subrange(a as int, b as int));
        } else {
            assert(b == a);
            if trim_lo(t) < trim_hi(t) {
                assert(is_blank(t[trim_lo(t)]) || trim_lo(t) >= b - lo);
                assert(false);
            }
            assert(trimmed(t) =~= s@.subrange(a as int, b as int));
        }
    }
    (a, b)
}

/// The string with every trailing ` kB` unit stripped.
pub open spec fn strip_kb(s: Seq<u8>) -> Seq<u8>
    decreases s.len(),
{
    if s.len() >= 3 && s[s.len() - 3] == 0x20u8 && s[s.len() - 2] == 0x6bu8 && s[s.len() - 1]
        == 0x42u8 {
        strip_kb(s.subrange(0, s.len() - 3))
    } else {
        s
    }
}

/// Strips every trailing ` kB` from `s@.subrange(lo, hi)`, returning the
/// new upper bound.
fn strip_kb_range(s: &[u8], lo: usize, hi: usize) -> (r: usize)
    requires
        lo <= hi <= s@.len(),
    ensures
        lo <= r <= hi,
        strip_kb(s@.subrange(lo as int, hi as int)) == s@.subrange(lo as int, r as int),
{
    let mut b: usize = hi;
    while b - lo >= 3 && s[b - 3] == 0x20 && s[b - 2] == 0x6b && s[b - 1] == 0x42
        invariant
            lo <= b <= hi <= s@.len(),
            strip_kb(s@.subrange(lo as int, hi as int)) == strip_kb(
                s@.subrange(lo as int, b as int),
            ),
        decreases b,
    {
        proof {
            let cur = s@.subrange(lo as int, b as int);
            assert(cur.subrange(0, cur.len() - 3) =~= s@.subrange(lo as int, b - 3));
        }
        b = b - 3;
    }
    proof {
        let cur = s@.subrange(lo as int, b as int);
        assert(strip_kb(cur) == cur);
    }
    b
}

/// The bytes of the key naming the huge-page size.
pub open spec fn key_size_kb() -> Seq<u8> {
    seq![
        0x48u8,
        0x75u8,
        0x67u8,
        0x65u8,
        0x70u8,
        0x61u8,
        0x67u8,
        0x65u8,
        0x73u8,
        0x69u8,
        0x7au8,
        0x65u8,
    ]
}

/// The bytes of the key counting all huge pages.
pub open spec fn key_total() -> Seq<u8> {
    seq![
        0x48u8,
        0x75u8,
        0x67u8,
        0x65u8,
        0x50u8,
        0x61u8,
        0x67u8,
        0x65u8,
        0x73u8,
        0x5fu8,
        0x54u8,
        0x6fu8,
        0x74u8,
        0x61u8,
        0x6cu8,
    ]
}

/// The bytes of the key counting free huge pages.
pub open spec fn key_free() -> Seq<u8> {
    seq![
        0x48u8,
        0x75u8,
        0x67u8,
        0x65u8,
        0x50u8,
        0x61u8,
        0x67u8,
        0x65u8,
        0x73u8,
        0x5fu8,
        0x46u8,
        0x72u8,
        0x65u8,
        0x65u8,
    ]
}

/// Whether `s@.subrange(lo, hi)` equals `pat@`.
fn range_matches(s: &[u8], lo: usize, hi: usize, pat: &Vec<u8>) -> (r: bool)
    requires
        lo <= hi <= s@.len(),
    ensures
        r == (s@.subrange(lo as int, hi as int) == pat@),
{
    if hi - lo != pat.len() {
        proof {
            assert(s@.subrange(lo as int, hi as int).len() != pat@.len());
        }
        return false;
    }
    let n = pat.len();
    let mut i: usize = 0;
    while i < n
        invariant
            i <= n,
            n == pat@.len(),
            lo <= hi <= s@.len(),
            hi - lo == n,
            forall|j: int| 0 <= j < i ==> s@[lo + j] == pat@[j],
        decreases n - i,
    {
        if s[lo + i] != pat[i] {
            proof {
                assert(s@.subrange(lo as int, hi as int)[i as int] != pat@[i as int]);
            }
            return false;
        }
        i = i + 1;
    }
    proof {
        assert(s@.subrange(lo as int, hi as int) =~= pat@);
    }
    true
}

/// Builds the huge-page size key as bytes.
fn key_size_kb_bytes() -> (r: Vec<u8>)
    ensures
        r@ == key_size_kb(),
{
    let mut v: Vec<u8> = Vec::new();
    v.push(0x48);
    v.push(0x75);
    v.push(0x67);
    v.push(0x65);
    v.push(0x70);
    v.push(0x61);
    v.push(0x67);
    v.push(0x65);
    v.push(0x73);
    v.push(0x69);
    v.push(0x7a);
    v.push(0x65);
    proof {
        assert(v@ =~= key_size_kb());
    }
    v
}

/// Builds the total-pages key as bytes.
fn key_total_bytes() -> (r: Vec<u8>)
    ensures
        r@ == key_total(),
{
    let mut v: Vec<u8> = Vec::new();
    v.push(0x48);
    v.push(0x75);
    v.push(0x67);
    v.push(0x65);
    v.push(0x50);
    v.push(0x61);
    v.push(0x67);
    v.push(0x65);
    v.push(0x73);
    v.push(0x5f);
    v.push(0x54);
    v.push(0x6f);
    v.push(0x74);
    v.push(0x61);
    v.push(0x6c);
    proof {
        assert(v@ =~= key_total());
    }
    v
}

/// Builds the free-pages key as bytes.
fn key_free_bytes() -> (r: Vec<u8>)
    ensures
        r@ == key_free(),
{
    let mut v: Vec<u8> = Vec::new();
    v.push(0x48);
    v.push(0x75);
    v.push(0x67);
    v.push(0x65);
    v.push(0x50);
    v.push(0x61);
    v.push(0x67);
    v.push(0x65);
    v.push(0x73);
    v.push(0x5f);
    v.push(0x46);
    v.push(0x72);
    v.push(0x65);
    v.push(0x65);
    proof {
        assert(v@ =~= key_free());
    }
    v
}

/// What one line contributes: a line without exactly one colon, or whose
/// key is not a huge-page key, changes nothing; a huge-page line sets its
/// field to the parsed value, and fails the probe when the value (with any
/// trailing ` kB` stripped) is not a number.
pub open spec fn line_apply(acc: HugePageInfo, line: Seq<u8>) -> Option<HugePageInfo> {
    let c = before_colon(line);
    if c == line.len() {
        Some(acc)
    } else {
        let rest = line.subrange(c + 1, line.len() as int);
        if before_colon(rest) != rest.len() {
            Some(acc)
        } else {
            let key = trimmed(line.subrange(0, c));
            let value = strip_kb(trimmed(rest));
            if key == key_size_kb() {
                if value.len() > 0 && all_digits(value) && dec_val(value) <= u64::MAX {
                    Some(HugePageInfo { size_kb: Some(dec_val(value) as u64), ..acc })
                } else {
                    None
                }
            } else if key == key_total() {
                if value.len() > 0 && all_digits(value) && dec_val(value) <= u64::MAX {
                    Some(HugePageInfo { total: Some(dec_val(value) as u64), ..acc })
                } else {
                    None
                }
            } else if key == key_free() {
                if value.len() > 0 && all_digits(value) && dec_val(value) <= u64::MAX {
                    Some(HugePageInfo { free: Some(dec_val(value) as u64), ..acc })
                } else {
                    None
                }
            } else {
                Some(acc)
            }
        }
    }
}

/// Applies one memory-info line to the gathered facts. Returns false —
/// leaving the facts alone — exactly when the line names a huge-page key
/// with an unreadable value.
pub fn apply_meminfo_line(info: &mut HugePageInfo, line: &[u8]) -> (ok: bool)
    ensures
        match line_apply(*old(info), line@) {
            Some(i2) => ok && *final(info) == i2,
            None => !ok && *final(info) == *old(info),
        },
{
    let c = find_colon(line);
    if c == line.len() {
        return true;
    }
    proof {
        lemma_before_colon(line@);
    }
    let ghost rest = line@.subrange(c + 1, line@.len() as int);
    let c2 = find_colon_from(line, c + 1);
    if c2 != line.len() {
        proof {
            lemma_before_colon(rest);
            assert(rest[c2 - (c + 1)] == 0x3au8);
            assert(before_colon(rest) != rest.len());
        }
        return true;
    }
    proof {
        lemma_before_colon(rest);
        if before_colon(rest) < rest.len() {
            assert(line@[c + 1 + before_colon(rest)] == 0x3au8);
        }
    }
    let (klo, khi) = trim_range(line, 0, c);
    let (vlo0, vhi0) = trim_range(line, c + 1, line.len());
    let vhi = strip_kb_range(line, vlo0, vhi0);
    let ghost key = trimmed(line@.subrange(0, c as int));
    let ghost value = strip_kb(trimmed(rest));
    proof {
        assert(line@.subrange(klo as int, khi as int) == key);
        assert(line@.subrange(vlo0 as int, vhi as int) == value);
    }
    let ks = key_size_kb_bytes();
    let kt = key_total_bytes();
    let kf = key_free_bytes();
    if range_matches(line, klo, khi, &ks) {
        match parse_decimal_range(line, vlo0, vhi) {
            Some(v) => {
                info.size_kb = Some(v);
                true
            },
            None => false,
        }
    } else if range_matches(line, klo, khi, &kt) {
        match parse_decimal_range(line, vlo0, vhi) {
            Some(v) => {
                info.total = Some(v);
                true
            },
            None => false,
        }
    } else if range_matches(line, klo, khi, &kf) {
        match parse_decimal_range(line, vlo0, vhi) {
            Some(v) => {
                info.free = Some(v);
                true
            },
            None => false,
        }
    } else {
        true
    }
}

/// Finds the first colon at or after `from`, or the length.
fn find_colon_from(s: &[u8], from: usize) -> (r: usize)
    requires
        from <= s@.len(),
    ensures
        r == from + before_colon(s@.subrange(from as int, s@.len() as int)),
        r <= s@.len(),
{
    let ghost t = s@.subrange(from as int, s@.len() as int);
    let mut i: usize = from;
    while i < s.len()
        invariant
            from <= i <= s@.len(),
            t == s@.subrange(from as int, s@.len() as int),
            forall|j: int| 0 <= j < i - from ==> t[j] != 0x3au8,
        decreases s@.len() - i,
    {
        if s[i] == 0x3a {
            proof {
                lemma_before_colon(t);
                assert(t[i - from] == 0x3au8);
            }
            return i;
        }
        i = i + 1;
    }
    proof {
        lemma_before_colon(t);
    }
    i
}

/// Reads a decimal number out of `s@.subrange(lo, hi)`.
fn parse_decimal_range(s: &[u8], lo: usize, hi: usize) -> (r: Option<u64>)
    requires
        lo <= hi <= s@.len(),
    ensures
        ({
            let t = s@.subrange(lo as int, hi as int);
            &&& (r is Some <==> t.len() > 0 && all_digits(t) && dec_val(t) <= u64::MAX)
            &&& (r is Some ==> r->0 == dec_val(t))
        }),
{
    let mut part: Vec<u8> = Vec::new();
    let mut i: usize = lo;
    while i < hi
        invariant
            lo <= i <= hi <= s@.len(),
            part@ == s@.subrange(lo as int, i as int),
        decreases hi - i,
    {
        let b = s[i];
        part.push(b);
        proof {
            assert(part@ =~= s@.subrange(lo as int, i + 1));
        }
        i = i + 1;
    }
    proof {
        assert(part@ =~= s@.subrange(lo as int, hi as int));
    }
    parse_decimal(part.as_slice())
}

/// Folds the lines of the memory-info text into the gathered facts, or
/// nothing once a line fails.
pub open spec fn meminfo_fold(lines: Seq<Seq<u8>>, acc: HugePageInfo) -> Option<HugePageInfo>
    decreases lines.len(),
{
    if lines.len() == 0 {
        Some(acc)
    } else {
        match line_apply(acc, lines[0]) {
            Some(acc2) => meminfo_fold(lines.drop_first(), acc2),
            None => None,
        }
    }
}

/// Gathers the huge-page facts from the memory-info text, one line a
/// record. Returns nothing exactly when some huge-page line carries an
/// unreadable value; unknown keys and malformed lines are ignored.
pub fn parse_meminfo(lines: &Vec<Vec<u8>>) -> (r: Option<HugePageInfo>)
    ensures
        r == meminfo_fold(lines.deep_view(), HugePageInfo { size_kb: None, total: None, free: None }),
{
    let mut info: HugePageInfo = Default::default();
    let mut i: usize = 0;
    let ghost all = lines.deep_view();
    let ghost start = HugePageInfo { size_kb: None, total: None, free: None };
    proof {
        assert(all.subrange(0, all.len() as int) =~= all);
    }
    while i < lines.len()
        invariant
            i <= lines@.len(),
            all == lines.deep_view(),
            start == (HugePageInfo { size_kb: None, total: None, free: None }),
            all.len() == lines@.len(),
            forall|j: int| 0 <= j < all.len() ==> all[j] == #[trigger] lines@[j]@,
            meminfo_fold(all, start) == meminfo_fold(all.subrange(i as int, all.len() as int), info),
        decreases lines@.len() - i,
    {
        let line = &lines[i];
        let ghost before = info;
        let ok = apply_meminfo_line(&mut info, line.as_slice());
        proof {
            let restlines = all.subrange(i as int, all.len() as int);
            assert(restlines[0] == lines@[i as int]@);
            assert(restlines.drop_first() =~= all.subrange(i + 1, all.len() as int));
        }
        if !ok {
            proof {
                let restlines = all.subrange(i as int, all.len() as int);
                assert(line_apply(before, restlines[0]) is None);
                assert(meminfo_fold(restlines, before) is None);
                assert(meminfo_fold(all, start) is None);
            }
            return None;
        }
        i = i + 1;
    }
    proof {
        assert(all.subrange(all.len() as int, all.len() as int) =~= Seq::<Seq<u8>>::empty());
    }
    Some(info)
}

/// Whether the probed facts allow huge pages: the page size is 2 MiB and
/// at least one page is free.
pub fn huge_pages_usable(info: &HugePageInfo) -> (r: bool)
    ensures
        r == (info.size_kb == Some(2048u64) && info.free is Some && info.free->0 > 0),
{
    match (info.free, info.size_kb) {
        (Some(x), Some(sz)) => sz == 2048 && x > 0,
        _ => false,
    }
}

/// The huge-page decision for a policy: an explicit policy wins; an absent
/// one defers to the probe.
pub fn huge_page_choice(policy: Option<bool>, info: &HugePageInfo) -> (r: bool)
    ensures
        r == (match policy {
            Some(b) => b,
            None => info.size_kb == Some(2048u64) && info.free is Some && info.free->0 > 0,
        }),
{
    match policy {
        Some(b) => b,
        None => huge_pages_usable(info),
    }
}

/// The size of one huge page in bytes.
pub const HUGE_PAGE_BYTES: usize = 2 * 1024 * 1024;

/// Rounds a mapping size up to a whole number of pages: the result is the
/// least multiple of `page_size` at or above `size`. Nothing is returned
/// when the page size is zero or the rounded size would not fit.
pub fn aligned_size(size: usize, page_size: usize) -> (r: Option<usize>)
    ensures
        r is Some <==> 0 < page_size && size + page_size - 1 <= usize::MAX,
        r is Some ==> {
            &&& (r->0 as int) % (page_size as int) == 0
            &&& size <= r->0 < size + page_size
        },
{
    if page_size == 0 {
        return None;
    }
    if size > usize::MAX - (page_size - 1) {
        return None;
    }
    let q = (size + (page_size - 1)) / page_size;
    proof {
        lemma_fundamental_div_mod((size + page_size - 1) as int, page_size as int);
        lemma_mul_is_commutative(page_size as int, q as int);
        lemma_mod_multiples_basic(q as int, page_size as int);
    }
    Some(q * page_size)
}

} // verus!
