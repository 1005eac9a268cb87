//! Spring Boot version strings: parsing, ordering, range checks and
//! human-readable range descriptions.
use vstd::prelude::*;
use crate::order::{lex_compare, lex_order, order_int, Order};
use crate::text::{
    extend, from_chars,
    index_of_char_from, lemma_find_char_from_bounds, slice_range, spec_find_char_from, spec_trim,
    split_char, split_on, to_chars, trim_chars,
};

verus! {




pub open spec fn is_digit(c: char) -> bool {
    '0' <= c && c <= '9'
}

pub open spec fn digit_value(c: char) -> int {
    c as int - '0' as int
}

/// Decimal value of a string of digits.
pub open spec fn decimal_value(d: Seq<char>) -> int
    decreases d.len(),
{
    if d.len() == 0 {
        0
    } else {
        decimal_value(d.drop_last()) * 10 + digit_value(d.last())
    }
}

/// The ASCII digits of `s`, in order.
pub open spec fn digits_of(s: Seq<char>) -> Seq<char>
    decreases s.len(),
{
    if s.len() == 0 {
        s
    } else if is_digit(s.last()) {
        digits_of(s.drop_last()).push(s.last())
    } else {
        digits_of(s.drop_last())
    }
}

/// What `str::parse::<u32>` gives on a string of digits, with 0 for an
/// empty or overflowing one.
pub open spec fn u32_or_zero(d: Seq<char>) -> int {
    if d.len() > 0 && decimal_value(d) <= u32::MAX {
        decimal_value(d)
    } else {
        0
    }
}

pub open spec fn all_digits(s: Seq<char>) -> bool {
    forall|i: int| 0 <= i < s.len() ==> is_digit(#[trigger] s[i])
}

pub open spec fn strip_leading_v(s: Seq<char>) -> Seq<char>
    decreases s.len(),
{
    if s.len() > 0 && (s[0] == 'v' || s[0] == 'V') {
        strip_leading_v(s.drop_first())
    } else {
        s
    }
}

/// The part of `s` before the first `c` (all of `s` when there is none).
pub open spec fn before_char(s: Seq<char>, c: char) -> Seq<char> {
    match spec_find_char_from(s, c, 0) {
        Some(i) => s.take(i),
        None => s,
    }
}

/// The part of `s` after the first `c`, if there is one.
pub open spec fn after_char(s: Seq<char>, c: char) -> Option<Seq<char>> {
    match spec_find_char_from(s, c, 0) {
        Some(i) => Some(s.skip(i + 1)),
        None => None,
    }
}

/// The trimmed, non-empty pieces among `parts`, in order.
pub open spec fn nonempty_trimmed(parts: Seq<Seq<char>>) -> Seq<Seq<char>>
    decreases parts.len(),
{
    if parts.len() == 0 {
        Seq::empty()
    } else if spec_trim(parts.last()).len() > 0 {
        nonempty_trimmed(parts.drop_last()).push(spec_trim(parts.last()))
    } else {
        nonempty_trimmed(parts.drop_last())
    }
}

/// The version text that counts: trimmed, leading `v`s dropped, and build
/// metadata after `+` cut off.
pub open spec fn version_body(s: Seq<char>) -> Seq<char> {
    before_char(strip_leading_v(spec_trim(s)), '+')
}

/// Numeric components of a version: the digits of each `.`-separated piece
/// before the first `-`.
pub open spec fn version_core(s: Seq<char>) -> Seq<int> {
    split_char(before_char(version_body(s), '-'), '.').map_values(
        |p: Seq<char>| u32_or_zero(digits_of(p)),
    )
}

/// Pre-release identifiers: the trimmed, non-empty `.`-separated pieces
/// after the first `-`.
pub open spec fn version_prerelease(s: Seq<char>) -> Seq<Seq<char>> {
    match after_char(version_body(s), '-') {
        Some(pr) => nonempty_trimmed(split_char(pr, '.')),
        None => Seq::empty(),
    }
}

pub open spec fn core_at(core: Seq<int>, i: int) -> int {
    if 0 <= i < core.len() {
        core[i]
    } else {
        0
    }
}

/// Core components compared from index `i` on, missing ones counting as 0.
pub open spec fn compare_core_from(l: Seq<int>, r: Seq<int>, i: int) -> Order
    decreases l.len() + r.len() - i,
{
    if i < 0 || (i >= l.len() && i >= r.len()) {
        Order::Equal
    } else if core_at(l, i) == core_at(r, i) {
        compare_core_from(l, r, i + 1)
    } else {
        order_int(core_at(l, i), core_at(r, i))
    }
}

pub open spec fn ascii_lower(c: char) -> char {
    if 'A' <= c && c <= 'Z' {
        ((c as u8) + 32) as u8 as char
    } else {
        c
    }
}


pub open spec fn lower_seq(s: Seq<char>) -> Seq<char> {
    s.map_values(|c: char| ascii_lower(c))
}

/// Order of two pre-release identifiers: numeric ones by value and before
/// the others, the others by their ASCII-lowercased text.
pub open spec fn spec_compare_prerelease_part(l: Seq<char>, r: Seq<char>) -> Order {
    if all_digits(l) && all_digits(r) {
        order_int(u32_or_zero(l), u32_or_zero(r))
    } else if all_digits(l) {
        Order::Less
    } else if all_digits(r) {
        Order::Greater
    } else {
        lex_order(lower_seq(l), lower_seq(r))
    }
}

/// Pre-release lists compared from index `i` on; a list that runs out first
/// is the lesser.
pub open spec fn compare_prerelease_from(l: Seq<Seq<char>>, r: Seq<Seq<char>>, i: int) -> Order
    decreases l.len() + r.len() - i,
{
    if i < 0 || (i >= l.len() && i >= r.len()) {
        Order::Equal
    } else if i >= l.len() {
        Order::Less
    } else if i >= r.len() {
        Order::Greater
    } else if spec_compare_prerelease_part(l[i], r[i]) != Order::Equal {
        spec_compare_prerelease_part(l[i], r[i])
    } else {
        compare_prerelease_from(l, r, i + 1)
    }
}

/// Order of two parsed versions: the core first, then a release above any
/// pre-release, then the pre-release identifiers.
pub open spec fn compare_parsed(
    lc: Seq<int>,
    lp: Seq<Seq<char>>,
    rc: Seq<int>,
    rp: Seq<Seq<char>>,
) -> Order {
    let c = compare_core_from(lc, rc, 0);
    if c != Order::Equal {
        c
    } else if lp.len() == 0 && rp.len() == 0 {
        Order::Equal
    } else if lp.len() == 0 {
        Order::Greater
    } else if rp.len() == 0 {
        Order::Less
    } else {
        compare_prerelease_from(lp, rp, 0)
    }
}

pub open spec fn spec_compare_version(l: Seq<char>, r: Seq<char>) -> Order {
    compare_parsed(version_core(l), version_prerelease(l), version_core(r), version_prerelease(r))
}

// ───────────────────────── lemmas ─────────────────────────

proof fn lemma_digits_of_take(s: Seq<char>, i: int)
    requires
        0 <= i < s.len(),
    ensures
        digits_of(s.take(i + 1)) == if is_digit(s[i]) {
            digits_of(s.take(i)).push(s[i])
        } else {
            digits_of(s.take(i))
        },
{
    assert(s.take(i + 1).drop_last() == s.take(i));
}

proof fn lemma_decimal_push(d: Seq<char>, c: char)
    ensures
        decimal_value(d.push(c)) == decimal_value(d) * 10 + digit_value(c),
{
    assert(d.push(c).drop_last() == d);
}

proof fn lemma_decimal_nonneg(d: Seq<char>)
    requires
        all_digits(d),
    ensures
        decimal_value(d) >= 0,
    decreases d.len(),
{
    if d.len() > 0 {
        assert(all_digits(d.drop_last()));
        lemma_decimal_nonneg(d.drop_last());
    }
}

proof fn lemma_digits_of_all_digits(s: Seq<char>)
    ensures
        all_digits(digits_of(s)),
    decreases s.len(),
{
    if s.len() > 0 {
        lemma_digits_of_all_digits(s.drop_last());
    }
}

proof fn lemma_digits_of_identity(s: Seq<char>)
    requires
        all_digits(s),
    ensures
        digits_of(s) == s,
    decreases s.len(),
{
    if s.len() > 0 {
        assert(all_digits(s.drop_last()));
        lemma_digits_of_identity(s.drop_last());
        assert(s.drop_last().push(s.last()) == s);
    }
}

proof fn lemma_strip_v_skip(s: Seq<char>, i: int)
    requires
        0 <= i < s.len(),
        s[i] == 'v' || s[i] == 'V',
    ensures
        strip_leading_v(s.skip(i)) == strip_leading_v(s.skip(i + 1)),
{
    assert(s.skip(i).drop_first() == s.skip(i + 1));
}

proof fn lemma_nonempty_trimmed_take(parts: Seq<Seq<char>>, i: int)
    requires
        0 <= i < parts.len(),
    ensures
        nonempty_trimmed(parts.take(i + 1)) == if spec_trim(parts[i]).len() > 0 {
            nonempty_trimmed(parts.take(i)).push(spec_trim(parts[i]))
        } else {
            nonempty_trimmed(parts.take(i))
        },
{
    assert(parts.take(i + 1).drop_last() == parts.take(i));
}

// ───────────────────────── exec ─────────────────────────

/// `u32_or_zero(digits_of(p))`: the value of the digits in `p`.
fn digits_value(p: &Vec<char>) -> (r: u32)
    ensures
        r as int == u32_or_zero(digits_of(p@)),
{
    let big: u64 = 0x1_0000_0000;
    let mut acc: u64 = 0;
    let mut seen = false;
    let mut i: usize = 0;
    assert(p@.take(0) == Seq::<char>::empty());
    while i < p.len()
        invariant
            i <= p.len(),
            big == 0x1_0000_0000u64,
            seen == (digits_of(p@.take(i as int)).len() > 0),
            all_digits(digits_of(p@.take(i as int))),
            decimal_value(digits_of(p@.take(i as int))) >= 0,
            acc as int == if decimal_value(digits_of(p@.take(i as int))) < big {
                decimal_value(digits_of(p@.take(i as int)))
            } else {
                big as int
            },
        decreases p.len() - i,
    {
        let c = p[i];
        proof {
            lemma_digits_of_take(p@, i as int);
        }
        if '0' <= c && c <= '9' {
            let ghost d = digits_of(p@.take(i as int));
            proof {
                lemma_decimal_push(d, c);
            }
            let dv: u64 = (c as u32 - '0' as u32) as u64;
            assert(dv as int == digit_value(c));
            if acc >= big {
                assert(decimal_value(d) * 10 + digit_value(c) >= big) by (nonlinear_arith)
                    requires
                        decimal_value(d) >= big,
                        big == 0x1_0000_0000int,
                        digit_value(c) >= 0,
                ;
            } else {
                let next = acc * 10 + dv;
                if next >= big {
                    acc = big;
                } else {
                    acc = next;
                }
            }
            seen = true;
        }
        i = i + 1;
    }
    assert(p@.take(p.len() as int) == p@);
    if !seen || acc >= big {
        0
    } else {
        acc as u32
    }
}

/// Whether every character of `s` is an ASCII digit.
fn all_digits_exec(s: &Vec<char>) -> (r: bool)
    ensures
        r == all_digits(s@),
{
    let mut i: usize = 0;
    while i < s.len()
        invariant
            i <= s.len(),
            forall|k: int| 0 <= k < i ==> is_digit(#[trigger] s@[k]),
        decreases s.len() - i,
    {
        if !('0' <= s[i] && s[i] <= '9') {
            return false;
        }
        i = i + 1;
    }
    true
}

struct ParsedVersion {
    core: Vec<u32>,
    prerelease: Vec<Vec<char>>,
}

fn parse_version(version: &str) -> (r: ParsedVersion)
    ensures
        r.core@.len() == version_core(version@).len(),
        forall|k: int| 0 <= k < r.core@.len() ==> #[trigger] r.core@[k] as int == version_core(version@)[k],
        r.prerelease@.len() == version_prerelease(version@).len(),
        forall|k: int| 0 <= k < r.prerelease@.len() ==> #[trigger] r.prerelease@[k]@ == version_prerelease(version@)[k],
{
    let all = to_chars(version);
    let trimmed = trim_chars(&all);
    let mut i: usize = 0;
    assert(trimmed@.skip(0) == trimmed@);
    while i < trimmed.len() && (trimmed[i] == 'v' || trimmed[i] == 'V')
        invariant
            i <= trimmed.len(),
            strip_leading_v(trimmed@) == strip_leading_v(trimmed@.skip(i as int)),
        decreases trimmed.len() - i,
    {
        proof {
            lemma_strip_v_skip(trimmed@, i as int);
        }
        i = i + 1;
    }
    let normalized = slice_range(&trimmed, i, trimmed.len());
    assert(normalized@ == trimmed@.skip(i as int));
    assert(strip_leading_v(normalized@) == normalized@);
    proof {
        lemma_find_char_from_bounds(normalized@, '+', 0);
    }
    let body = match index_of_char_from(&normalized, '+', 0) {
        Some(k) => slice_range(&normalized, 0, k),
        None => normalized,
    };
    assert(body@ == version_body(version@));
    let dash = index_of_char_from(&body, '-', 0);
    proof {
        lemma_find_char_from_bounds(body@, '-', 0);
    }
    let core_raw = match dash {
        Some(k) => slice_range(&body, 0, k),
        None => slice_range(&body, 0, body.len()),
    };
    assert(body@.subrange(0, body@.len() as int) == body@);
    assert(core_raw@ == before_char(version_body(version@), '-'));

    let pieces = split_on(&core_raw, '.');
    let mut core: Vec<u32> = Vec::new();
    let mut j: usize = 0;
    while j < pieces.len()
        invariant
            j <= pieces.len(),
            pieces@.len() == split_char(core_raw@, '.').len(),
            forall|k: int| 0 <= k < pieces@.len() ==> #[trigger] pieces@[k]@ == split_char(core_raw@, '.')[k],
            core_raw@ == before_char(version_body(version@), '-'),
            core@.len() == j,
            forall|k: int| 0 <= k < j ==> #[trigger] core@[k] as int == version_core(version@)[k],
        decreases pieces.len() - j,
    {
        let v = digits_value(&pieces[j]);
        assert(version_core(version@)[j as int] == u32_or_zero(digits_of(pieces@[j as int]@)));
        core.push(v);
        j = j + 1;
    }

    let mut prerelease: Vec<Vec<char>> = Vec::new();
    match dash {
        Some(k) => {
            let pr = slice_range(&body, k + 1, body.len());
            assert(pr@ == body@.skip(k + 1));
            let parts = split_on(&pr, '.');
            let ghost sp = split_char(pr@, '.');
            let mut m: usize = 0;
            assert(sp.take(0) == Seq::<Seq<char>>::empty());
            while m < parts.len()
                invariant
                    m <= parts.len(),
                    parts@.len() == sp.len(),
                    forall|q: int| 0 <= q < parts@.len() ==> #[trigger] parts@[q]@ == sp[q],
                    prerelease@.len() == nonempty_trimmed(sp.take(m as int)).len(),
                    forall|q: int| 0 <= q < prerelease@.len() ==> #[trigger] prerelease@[q]@
                        == nonempty_trimmed(sp.take(m as int))[q],
                decreases parts.len() - m,
            {
                proof {
                    lemma_nonempty_trimmed_take(sp, m as int);
                }
                let t = trim_chars(&parts[m]);
                if t.len() > 0 {
                    prerelease.push(t);
                }
                m = m + 1;
            }
            assert(sp.take(parts.len() as int) == sp);
        },
        None => {},
    }
    ParsedVersion { core, prerelease }
}

fn compare_u32(a: u32, b: u32) -> (r: Order)
    ensures
        r == order_int(a as int, b as int),
{
    if a < b {
        Order::Less
    } else if a == b {
        Order::Equal
    } else {
        Order::Greater
    }
}

fn ascii_lower_exec(c: char) -> (r: char)
    ensures
        r == ascii_lower(c),
{
    if 'A' <= c && c <= 'Z' {
        ((c as u8) + 32) as char
    } else {
        c
    }
}

fn lower_chars(a: &Vec<char>) -> (r: Vec<char>)
    ensures
        r@ == lower_seq(a@),
{
    let mut r: Vec<char> = Vec::new();
    let mut i: usize = 0;
    while i < a.len()
        invariant
            i <= a.len(),
            r@.len() == i,
            forall|k: int| 0 <= k < i ==> #[trigger] r@[k] == ascii_lower(a@[k]),
        decreases a.len() - i,
    {
        r.push(ascii_lower_exec(a[i]));
        i = i + 1;
    }
    assert(r@ == lower_seq(a@));
    r
}

fn compare_prerelease_part(left: &Vec<char>, right: &Vec<char>) -> (r: Order)
    ensures
        r == spec_compare_prerelease_part(left@, right@),
{
    let left_is_numeric = all_digits_exec(left);
    let right_is_numeric = all_digits_exec(right);
    if left_is_numeric && right_is_numeric {
        proof {
            lemma_digits_of_identity(left@);
            lemma_digits_of_identity(right@);
        }
        compare_u32(digits_value(left), digits_value(right))
    } else if left_is_numeric {
        Order::Less
    } else if right_is_numeric {
        Order::Greater
    } else {
        lex_compare(&lower_chars(left), &lower_chars(right))
    }
}

/// Orders two version strings as the Spring Initializr metadata uses them.
pub fn compare_version(left: &str, right: &str) -> (r: Order)
    ensures
        r == spec_compare_version(left@, right@),
{
    let lp = parse_version(left);
    let rp = parse_version(right);
    let ghost lc = version_core(left@);
    let ghost rc = version_core(right@);
    let max_length = if lp.core.len() > rp.core.len() {
        lp.core.len()
    } else {
        rp.core.len()
    };
    let mut i: usize = 0;
    while i < max_length
        invariant
            i <= max_length,
            max_length == if lc.len() > rc.len() { lc.len() } else { rc.len() },
            lp.core@.len() == lc.len(),
            rp.core@.len() == rc.len(),
            forall|k: int| 0 <= k < lp.core@.len() ==> #[trigger] lp.core@[k] as int == lc[k],
            forall|k: int| 0 <= k < rp.core@.len() ==> #[trigger] rp.core@[k] as int == rc[k],
            compare_core_from(lc, rc, 0) == compare_core_from(lc, rc, i as int),
            lc == version_core(left@),
            rc == version_core(right@),
            spec_compare_version(left@, right@) == compare_parsed(
                lc,
                version_prerelease(left@),
                rc,
                version_prerelease(right@),
            ),
        decreases max_length - i,
    {
        let a: u32 = if i < lp.core.len() {
            lp.core[i]
        } else {
            0
        };
        let b: u32 = if i < rp.core.len() {
            rp.core[i]
        } else {
            0
        };
        assert(a as int == core_at(lc, i as int));
        assert(b as int == core_at(rc, i as int));
        if a != b {
            return compare_u32(a, b);
        }
        i = i + 1;
    }
    let ghost lpr = version_prerelease(left@);
    let ghost rpr = version_prerelease(right@);
    let left_is_release = lp.prerelease.len() == 0;
    let right_is_release = rp.prerelease.len() == 0;
    if left_is_release && right_is_release {
        return Order::Equal;
    }
    if left_is_release && !right_is_release {
        return Order::Greater;
    }
    if !left_is_release && right_is_release {
        return Order::Less;
    }
    let max_pre = if lp.prerelease.len() > rp.prerelease.len() {
        lp.prerelease.len()
    } else {
        rp.prerelease.len()
    };
    let mut j: usize = 0;
    while j < max_pre
        invariant
            j <= max_pre,
            max_pre == if lpr.len() > rpr.len() { lpr.len() } else { rpr.len() },
            lp.prerelease@.len() == lpr.len(),
            rp.prerelease@.len() == rpr.len(),
            forall|k: int| 0 <= k < lp.prerelease@.len() ==> #[trigger] lp.prerelease@[k]@ == lpr[k],
            forall|k: int| 0 <= k < rp.prerelease@.len() ==> #[trigger] rp.prerelease@[k]@ == rpr[k],
            compare_prerelease_from(lpr, rpr, 0) == compare_prerelease_from(lpr, rpr, j as int),
            lpr.len() > 0,
            rpr.len() > 0,
            spec_compare_version(left@, right@) == compare_prerelease_from(lpr, rpr, 0),
        decreases max_pre - j,
    {
        if j >= lp.prerelease.len() {
            return Order::Less;
        }
        if j >= rp.prerelease.len() {
            return Order::Greater;
        }
        let c = compare_prerelease_part(&lp.prerelease[j], &rp.prerelease[j]);
        if c != Order::Equal {
            return c;
        }
        j = j + 1;
    }
    Order::Equal
}

pub open spec fn has_char(s: Seq<char>, c: char) -> bool {
    spec_find_char_from(s, c, 0) is Some
}

/// A bound of a range rejects `boot` when `boot` lies beyond it, or on it
/// while the bound is exclusive.
pub open spec fn lower_bound_admits(boot: Seq<char>, lower: Seq<char>, inclusive: bool) -> bool {
    lower.len() == 0 || {
        let o = spec_compare_version(boot, lower);
        !(o == Order::Less || (o == Order::Equal && !inclusive))
    }
}

pub open spec fn upper_bound_admits(boot: Seq<char>, upper: Seq<char>, inclusive: bool) -> bool {
    upper.len() == 0 || {
        let o = spec_compare_version(boot, upper);
        !(o == Order::Greater || (o == Order::Equal && !inclusive))
    }
}

/// Whether `boot` satisfies a Maven-style version range: a bare version is
/// a lower bound, `[a,b)` and the like bound both ends, and a range that
/// cannot be read admits everything.
pub open spec fn spec_in_range(boot: Seq<char>, range: Option<Seq<char>>) -> bool {
    match range {
        None => true,
        Some(raw) => {
            let r = spec_trim(raw);
            if r.len() == 0 {
                true
            } else if !has_char(r, ',') {
                spec_compare_version(boot, r) != Order::Less
            } else if !(r[0] == '[' || r[0] == '(') {
                true
            } else if !(r.last() == ']' || r.last() == ')') {
                true
            } else {
                let bounds = split_char(r.subrange(1, r.len() - 1), ',');
                if bounds.len() < 2 {
                    true
                } else {
                    lower_bound_admits(boot, spec_trim(bounds[0]), r[0] == '[')
                        && upper_bound_admits(boot, spec_trim(bounds[1]), r.last() == ']')
                }
            }
        },
    }
}

/// Putting a bracketed range in words cuts its last byte off; that is
/// defined only when the last character is one byte long.
pub open spec fn format_range_defined(range: Seq<char>) -> bool {
    let r = spec_trim(range);
    !(r.len() > 0 && has_char(r, ',') && (r[0] == '[' || r[0] == '(') && r.last() as u32 >= 0x80)
}

pub open spec fn bound_text(op: Seq<char>, bound: Seq<char>) -> Seq<char> {
    op + " "@ + bound
}

/// The human-readable form of a version range, such as `>= 3.0.0, < 3.5.0`.
pub open spec fn spec_format_range(range: Seq<char>) -> Seq<char> {
    let r = spec_trim(range);
    if r.len() == 0 {
        Seq::empty()
    } else if !has_char(r, ',') {
        ">= "@ + r
    } else if !(r[0] == '[' || r[0] == '(') {
        ">= "@ + r
    } else {
        let bounds = split_char(r.subrange(1, r.len() - 1), ',');
        if bounds.len() < 2 {
            r
        } else {
            let lower = spec_trim(bounds[0]);
            let upper = spec_trim(bounds[1]);
            let lower_part = bound_text(if r[0] == '[' { ">="@ } else { ">"@ }, lower);
            let upper_part = bound_text(if r.last() == ']' { "<="@ } else { "<"@ }, upper);
            if lower.len() > 0 && upper.len() > 0 {
                lower_part + ", "@ + upper_part
            } else if lower.len() > 0 {
                lower_part
            } else if upper.len() > 0 {
                upper_part
            } else {
                Seq::empty()
            }
        }
    }
}

/// Whether `boot_version` satisfies `version_range` (no range admits all).
pub fn is_boot_version_in_range(boot_version: &str, version_range: Option<&str>) -> (r: bool)
    ensures
        r == spec_in_range(boot_version@, match version_range {
            Some(v) => Some(v@),
            None => None,
        }),
{
    let range_str = match version_range {
        Some(v) => v,
        None => return true,
    };
    let raw = to_chars(range_str);
    let range = trim_chars(&raw);
    if range.len() == 0 {
        return true;
    }
    proof {
        lemma_find_char_from_bounds(range@, ',', 0);
    }
    if index_of_char_from(&range, ',', 0).is_none() {
        return compare_version(boot_version, &from_chars(&range)) != Order::Less;
    }
    let last = range[range.len() - 1];
    let is_lower_inclusive = range[0] == '[';
    let is_upper_inclusive = last == ']';
    if !(range[0] == '[' || range[0] == '(') {
        return true;
    }
    if !(last == ']' || last == ')') {
        return true;
    }
    let body = slice_range(&range, 1, range.len() - 1);
    let bounds = split_on(&body, ',');
    if bounds.len() < 2 {
        return true;
    }
    let lower = trim_chars(&bounds[0]);
    let upper = trim_chars(&bounds[1]);
    if lower.len() > 0 {
        let o = compare_version(boot_version, &from_chars(&lower));
        if o == Order::Less || (o == Order::Equal && !is_lower_inclusive) {
            return false;
        }
    }
    if upper.len() > 0 {
        let o = compare_version(boot_version, &from_chars(&upper));
        if o == Order::Greater || (o == Order::Equal && !is_upper_inclusive) {
            return false;
        }
    }
    true
}

fn bound_text_exec(op: &str, bound: &Vec<char>) -> (r: Vec<char>)
    ensures
        r@ == bound_text(op@, bound@),
{
    let mut r = to_chars(op);
    extend(&mut r, &to_chars(" "));
    extend(&mut r, bound);
    r
}

/// Describes a version range for people, e.g. `[3.0.0,3.5.0)` as
/// `>= 3.0.0, < 3.5.0`.
pub fn format_version_range(version_range: &str) -> (r: String)
    requires
        format_range_defined(version_range@),
    ensures
        r@ == spec_format_range(version_range@),
{
    let raw = to_chars(version_range);
    let range = trim_chars(&raw);
    if range.len() == 0 {
        return String::new();
    }
    proof {
        lemma_find_char_from_bounds(range@, ',', 0);
    }
    if index_of_char_from(&range, ',', 0).is_none() {
        let mut out = to_chars(">= ");
        extend(&mut out, &range);
        return from_chars(&out);
    }
    let last = range[range.len() - 1];
    let is_lower_inclusive = range[0] == '[';
    let is_upper_inclusive = last == ']';
    if !(range[0] == '[' || range[0] == '(') {
        let mut out = to_chars(">= ");
        extend(&mut out, &range);
        return from_chars(&out);
    }
    let body = slice_range(&range, 1, range.len() - 1);
    let bounds = split_on(&body, ',');
    if bounds.len() < 2 {
        return from_chars(&range);
    }
    let lower = trim_chars(&bounds[0]);
    let upper = trim_chars(&bounds[1]);
    let lower_part = bound_text_exec(if is_lower_inclusive { ">=" } else { ">" }, &lower);
    let upper_part = bound_text_exec(if is_upper_inclusive { "<=" } else { "<" }, &upper);
    let mut out: Vec<char> = Vec::new();
    if lower.len() > 0 && upper.len() > 0 {
        extend(&mut out, &lower_part);
        extend(&mut out, &to_chars(", "));
        extend(&mut out, &upper_part);
    } else if lower.len() > 0 {
        extend(&mut out, &lower_part);
    } else if upper.len() > 0 {
        extend(&mut out, &upper_part);
    }
    from_chars(&out)
}

} // verus!
