//! Character-level text primitives over `Seq<char>`, with executable
//! counterparts on `Vec<char>` and conversions from and to `str`/`String`.
use vstd::prelude::*;

verus! {

/// `String::push` appends one character to the end of the string.
pub assume_specification[ String::push ](s: &mut String, ch: char)
    ensures
        final(s)@ == old(s)@.push(ch),
;

/// What `str::to_lowercase` gives for `s`.
pub uninterp spec fn str_lowercase(s: Seq<char>) -> Seq<char>;

/// `str::to_lowercase`: the result is `str_lowercase(s)`, the lower-case
/// mapping the standard library's Unicode tables give.
#[verifier::external_body]
pub(crate) fn lowercase_of(s: &str) -> (r: String)
    ensures
        r@ == str_lowercase(s@),
{
    s.to_lowercase()
}

// ───────────────────────── spec model ─────────────────────────

/// Unicode `White_Space`, the set `char::is_whitespace` and `str::trim` use.
pub open spec fn spec_is_ws(c: char) -> bool {
    ||| ('\t' <= c && c <= '\r')
    ||| c == ' '
    ||| c == '\u{85}'
    ||| c == '\u{A0}'
    ||| c == '\u{1680}'
    ||| ('\u{2000}' <= c && c <= '\u{200A}')
    ||| c == '\u{2028}'
    ||| c == '\u{2029}'
    ||| c == '\u{202F}'
    ||| c == '\u{205F}'
    ||| c == '\u{3000}'
}

pub open spec fn trim_start(s: Seq<char>) -> Seq<char>
    decreases s.len(),
{
    if s.len() > 0 && spec_is_ws(s[0]) {
        trim_start(s.drop_first())
    } else {
        s
    }
}

pub open spec fn trim_end(s: Seq<char>) -> Seq<char>
    decreases s.len(),
{
    if s.len() > 0 && spec_is_ws(s.last()) {
        trim_end(s.drop_last())
    } else {
        s
    }
}

/// What `str::trim` gives: leading and trailing white space removed.
pub open spec fn spec_trim(s: Seq<char>) -> Seq<char> {
    trim_end(trim_start(s))
}

/// `p` occurs in `s` starting at index `i`.
pub open spec fn spec_occurs_at(s: Seq<char>, p: Seq<char>, i: int) -> bool {
    0 <= i && i + p.len() <= s.len() && s.subrange(i, i + p.len()) == p
}

/// Index of the first occurrence of `p` in `s` at or after `from`.
pub open spec fn spec_find_from(s: Seq<char>, p: Seq<char>, from: int) -> Option<int>
    decreases s.len() - from,
{
    if from < 0 || from + p.len() > s.len() {
        None
    } else if spec_occurs_at(s, p, from) {
        Some(from)
    } else if from < s.len() {
        spec_find_from(s, p, from + 1)
    } else {
        None
    }
}

/// What `str::find` gives, counted in characters.
pub open spec fn spec_find(s: Seq<char>, p: Seq<char>) -> Option<int> {
    spec_find_from(s, p, 0)
}

/// What `str::contains` gives.
pub open spec fn spec_contains(s: Seq<char>, p: Seq<char>) -> bool {
    spec_find(s, p) is Some
}

/// Start of the last occurrence of `p` that ends at or before `end`.
pub open spec fn spec_rfind_before(s: Seq<char>, p: Seq<char>, end: int) -> Option<int>
    decreases end,
{
    if end < p.len() || end > s.len() {
        None
    } else if spec_occurs_at(s, p, end - p.len()) {
        Some(end - p.len())
    } else if end > 0 {
        spec_rfind_before(s, p, end - 1)
    } else {
        None
    }
}

/// What `str::rfind` gives, counted in characters.
pub open spec fn spec_rfind(s: Seq<char>, p: Seq<char>) -> Option<int> {
    spec_rfind_before(s, p, s.len() as int)
}

pub open spec fn spec_starts_with(s: Seq<char>, p: Seq<char>) -> bool {
    p.len() <= s.len() && s.take(p.len() as int) == p
}

pub open spec fn spec_ends_with(s: Seq<char>, p: Seq<char>) -> bool {
    p.len() <= s.len() && s.skip(s.len() - p.len()) == p
}

/// What `str::replace` gives for a non-empty pattern: every
/// non-overlapping occurrence, from left to right, replaced.
pub open spec fn replace_all(s: Seq<char>, from: Seq<char>, to: Seq<char>) -> Seq<char>
    decreases s.len(),
{
    if from.len() == 0 {
        s
    } else {
        match spec_find(s, from) {
            None => s,
            Some(i) => if 0 <= i && i + from.len() <= s.len() {
                s.take(i) + to + replace_all(s.skip(i + from.len()), from, to)
            } else {
                s
            },
        }
    }
}

/// Index of the first `c` in `s` at or after `from`.
pub open spec fn spec_find_char_from(s: Seq<char>, c: char, from: int) -> Option<int>
    decreases s.len() - from,
{
    if from < 0 || from >= s.len() {
        None
    } else if s[from] == c {
        Some(from)
    } else {
        spec_find_char_from(s, c, from + 1)
    }
}

/// What `str::split` gives for a single-character separator.
pub open spec fn split_char(s: Seq<char>, c: char) -> Seq<Seq<char>>
    decreases s.len(),
{
    match spec_find_char_from(s, c, 0) {
        None => seq![s],
        Some(i) => if 0 <= i < s.len() {
            seq![s.take(i)].add(split_char(s.skip(i + 1), c))
        } else {
            seq![s]
        },
    }
}

// ───────────────────────── lemmas ─────────────────────────

pub proof fn lemma_find_char_from_bounds(s: Seq<char>, c: char, from: int)
    ensures
        spec_find_char_from(s, c, from) matches Some(i) ==> from <= i < s.len() && s[i] == c,
        spec_find_char_from(s, c, from) is None && from >= 0 ==> forall|j: int|
            from <= j < s.len() ==> s[j] != c,
    decreases s.len() - from,
{
    if from >= 0 && from < s.len() && s[from] != c {
        lemma_find_char_from_bounds(s, c, from + 1);
    }
}

pub proof fn lemma_find_from_bounds(s: Seq<char>, p: Seq<char>, from: int)
    ensures
        spec_find_from(s, p, from) matches Some(i) ==> from <= i && spec_occurs_at(s, p, i),
        spec_find_from(s, p, from) matches Some(i) ==> forall|j: int|
            from <= j < i ==> !spec_occurs_at(s, p, j),
        spec_find_from(s, p, from) is None && from >= 0 ==> forall|j: int|
            from <= j ==> !spec_occurs_at(s, p, j),
    decreases s.len() - from,
{
    if from < 0 || from + p.len() > s.len() {
    } else if spec_occurs_at(s, p, from) {
    } else if from < s.len() {
        lemma_find_from_bounds(s, p, from + 1);
    }
}

pub proof fn lemma_rfind_before_bounds(s: Seq<char>, p: Seq<char>, end: int)
    ensures
        spec_rfind_before(s, p, end) matches Some(i) ==> i + p.len() <= end && spec_occurs_at(s, p, i),
        spec_rfind_before(s, p, end) matches Some(i) ==> forall|j: int|
            i < j && j + p.len() <= end ==> !spec_occurs_at(s, p, j),
        spec_rfind_before(s, p, end) is None && end <= s.len() ==> forall|j: int|
            j + p.len() <= end ==> !spec_occurs_at(s, p, j),
    decreases end,
{
    if end < p.len() || end > s.len() {
    } else if spec_occurs_at(s, p, end - p.len()) {
    } else if end > 0 {
        lemma_rfind_before_bounds(s, p, end - 1);
    }
}

pub proof fn lemma_find_from_skip(s: Seq<char>, p: Seq<char>, i: int, k: int)
    requires
        0 <= i <= s.len(),
        0 <= k,
    ensures
        spec_find_from(s.skip(i), p, k) == (match spec_find_from(s, p, i + k) {
            Some(j) => Some(j - i),
            None => None,
        }),
    decreases s.len() - i - k,
{
    let t = s.skip(i);
    if k + p.len() > t.len() {
    } else {
        assert(t.subrange(k, k + p.len()) == s.subrange(i + k, i + k + p.len()));
        if spec_occurs_at(t, p, k) {
        } else if k < t.len() {
            lemma_find_from_skip(s, p, i, k + 1);
        }
    }
}

pub proof fn lemma_find_char_from_skip(s: Seq<char>, c: char, i: int, k: int)
    requires
        0 <= i <= s.len(),
        0 <= k,
    ensures
        spec_find_char_from(s.skip(i), c, k) == (match spec_find_char_from(s, c, i + k) {
            Some(j) => Some(j - i),
            None => None,
        }),
    decreases s.len() - i - k,
{
    if k < s.len() - i && s[i + k] != c {
        lemma_find_char_from_skip(s, c, i, k + 1);
    }
}

// ───────────────────────── exec ─────────────────────────

pub fn to_chars(s: &str) -> (v: Vec<char>)
    ensures
        v@ == s@,
{
    let mut v: Vec<char> = Vec::new();
    for c in it: s.chars()
        invariant
            v@ == it.seq().take(it.index() as int),
    {
        v.push(c);
    }
    v
}

pub fn from_chars(v: &Vec<char>) -> (s: String)
    ensures
        s@ == v@,
{
    let mut s = String::new();
    let mut i: usize = 0;
    while i < v.len()
        invariant
            i <= v.len(),
            s@ == v@.take(i as int),
        decreases v.len() - i,
    {
        s.push(v[i]);
        assert(v@.take(i as int + 1) == v@.take(i as int).push(v@[i as int]));
        i = i + 1;
    }
    assert(v@.take(v.len() as int) == v@);
    s
}

/// The characters of `v` from `lo` to `hi`, as a `String`.
pub fn string_of_range(v: &Vec<char>, lo: usize, hi: usize) -> (s: String)
    requires
        lo <= hi <= v.len(),
    ensures
        s@ == v@.subrange(lo as int, hi as int),
{
    let mut s = String::new();
    let mut i: usize = lo;
    while i < hi
        invariant
            lo <= i <= hi <= v.len(),
            s@ == v@.subrange(lo as int, i as int),
        decreases hi - i,
    {
        s.push(v[i]);
        assert(v@.subrange(lo as int, i as int + 1) == v@.subrange(lo as int, i as int).push(
            v@[i as int],
        ));
        i = i + 1;
    }
    s
}

pub fn slice_range(v: &Vec<char>, lo: usize, hi: usize) -> (r: Vec<char>)
    requires
        lo <= hi <= v.len(),
    ensures
        r@ == v@.subrange(lo as int, hi as int),
{
    let mut r: Vec<char> = Vec::new();
    let mut i: usize = lo;
    while i < hi
        invariant
            lo <= i <= hi <= v.len(),
            r@ == v@.subrange(lo as int, i as int),
        decreases hi - i,
    {
        r.push(v[i]);
        assert(v@.subrange(lo as int, i as int + 1) == v@.subrange(lo as int, i as int).push(
            v@[i as int],
        ));
        i = i + 1;
    }
    r
}

/// Appends all of `w` to `v`.
pub fn extend(v: &mut Vec<char>, w: &Vec<char>)
    ensures
        final(v)@ == old(v)@ + w@,
{
    let mut i: usize = 0;
    while i < w.len()
        invariant
            i <= w.len(),
            v@ == old(v)@ + w@.take(i as int),
        decreases w.len() - i,
    {
        v.push(w[i]);
        assert(w@.take(i as int + 1) == w@.take(i as int).push(w@[i as int]));
        i = i + 1;
    }
    assert(w@.take(w.len() as int) == w@);
}

pub fn char_is_ws(c: char) -> (r: bool)
    ensures
        r == spec_is_ws(c),
{
    ('\t' <= c && c <= '\r') || c == ' ' || c == '\u{85}' || c == '\u{A0}' || c == '\u{1680}'
        || ('\u{2000}' <= c && c <= '\u{200A}') || c == '\u{2028}' || c == '\u{2029}'
        || c == '\u{202F}' || c == '\u{205F}' || c == '\u{3000}'
}

pub proof fn lemma_trim_start_skip(s: Seq<char>, i: int)
    requires
        0 <= i < s.len(),
        spec_is_ws(s[i]),
    ensures
        trim_start(s.skip(i)) == trim_start(s.skip(i + 1)),
{
    assert(s.skip(i).drop_first() == s.skip(i + 1));
}

pub proof fn lemma_trim_end_take(s: Seq<char>, j: int)
    requires
        0 < j <= s.len(),
        spec_is_ws(s[j - 1]),
    ensures
        trim_end(s.take(j)) == trim_end(s.take(j - 1)),
{
    assert(s.take(j).drop_last() == s.take(j - 1));
}

/// Trimming keeps the first character of a text that starts with no white
/// space.
pub proof fn lemma_trim_keeps_first(s: Seq<char>)
    requires
        s.len() > 0,
        !spec_is_ws(s[0]),
    ensures
        spec_trim(s).len() > 0,
        spec_trim(s)[0] == s[0],
{
    assert(trim_start(s) == s);
    lemma_trim_end_keeps_first(s);
}

pub proof fn lemma_trim_end_keeps_first(s: Seq<char>)
    requires
        s.len() > 0,
        !spec_is_ws(s[0]),
    ensures
        trim_end(s).len() > 0,
        trim_end(s)[0] == s[0],
    decreases s.len(),
{
    if spec_is_ws(s.last()) {
        assert(s.len() > 1);
        assert(s.drop_last()[0] == s[0]);
        lemma_trim_end_keeps_first(s.drop_last());
    }
}

proof fn lemma_trim_start_edge(s: Seq<char>)
    ensures
        trim_start(s).len() == 0 || !spec_is_ws(trim_start(s)[0]),
    decreases s.len(),
{
    if s.len() > 0 && spec_is_ws(s[0]) {
        lemma_trim_start_edge(s.drop_first());
    }
}

proof fn lemma_trim_end_edge(s: Seq<char>)
    ensures
        trim_end(s).len() == 0 || !spec_is_ws(trim_end(s).last()),
    decreases s.len(),
{
    if s.len() > 0 && spec_is_ws(s.last()) {
        lemma_trim_end_edge(s.drop_last());
    }
}

/// A text with no white space at either end is its own trim.
pub proof fn lemma_trim_of_trimmed(s: Seq<char>)
    requires
        s.len() > 0 ==> !spec_is_ws(s[0]) && !spec_is_ws(s.last()),
    ensures
        spec_trim(s) == s,
{
    assert(trim_start(s) == s);
    assert(trim_end(s) == s);
}

/// Trimming twice is trimming once.
pub proof fn lemma_trim_idempotent(s: Seq<char>)
    ensures
        spec_trim(spec_trim(s)) == spec_trim(s),
{
    let y = trim_start(s);
    lemma_trim_start_edge(s);
    lemma_trim_end_edge(y);
    if y.len() > 0 {
        lemma_trim_end_keeps_first(y);
    }
    lemma_trim_of_trimmed(trim_end(y));
}

/// Bounds of `spec_trim(v)` inside `v`.
pub fn trim_bounds(v: &Vec<char>) -> (r: (usize, usize))
    ensures
        r.0 <= r.1 <= v.len(),
        spec_trim(v@) == v@.subrange(r.0 as int, r.1 as int),
{
    let mut i: usize = 0;
    assert(v@.skip(0) == v@);
    while i < v.len() && char_is_ws(v[i])
        invariant
            i <= v.len(),
            trim_start(v@) == trim_start(v@.skip(i as int)),
        decreases v.len() - i,
    {
        proof {
            lemma_trim_start_skip(v@, i as int);
        }
        i = i + 1;
    }
    let ghost ts = v@.skip(i as int);
    assert(trim_start(v@) == ts);
    let mut j: usize = v.len();
    assert(ts.take(ts.len() as int) == ts);
    while j > i && char_is_ws(v[j - 1])
        invariant
            i <= j <= v.len(),
            ts == v@.skip(i as int),
            trim_end(ts) == trim_end(ts.take(j - i)),
        decreases j,
    {
        proof {
            lemma_trim_end_take(ts, (j - i) as int);
        }
        j = j - 1;
    }
    assert(ts.take(j - i) == v@.subrange(i as int, j as int));
    (i, j)
}

pub fn trim_chars(v: &Vec<char>) -> (r: Vec<char>)
    ensures
        r@ == spec_trim(v@),
{
    let (lo, hi) = trim_bounds(v);
    slice_range(v, lo, hi)
}

pub fn trim_str(s: &str) -> (r: String)
    ensures
        r@ == spec_trim(s@),
{
    let v = to_chars(s);
    let (lo, hi) = trim_bounds(&v);
    string_of_range(&v, lo, hi)
}

/// Whether `p` occurs in `s` at `i`.
pub fn matches_at(s: &Vec<char>, p: &Vec<char>, i: usize) -> (r: bool)
    ensures
        r == spec_occurs_at(s@, p@, i as int),
{
    if i > s.len() || p.len() > s.len() - i {
        return false;
    }
    let mut k: usize = 0;
    while k < p.len()
        invariant
            i + p.len() <= s.len(),
            k <= p.len(),
            forall|m: int| 0 <= m < k ==> s@[i + m] == p@[m],
        decreases p.len() - k,
    {
        if s[i + k] != p[k] {
            assert(s@.subrange(i as int, i + p.len())[k as int] != p@[k as int]);
            return false;
        }
        k = k + 1;
    }
    assert(s@.subrange(i as int, i + p.len()) == p@);
    true
}

pub fn index_of_from(s: &Vec<char>, p: &Vec<char>, from: usize) -> (r: Option<usize>)
    ensures
        r matches Some(i) ==> spec_find_from(s@, p@, from as int) == Some(i as int),
        r is None ==> spec_find_from(s@, p@, from as int) is None,
{
    let mut i: usize = from;
    while i <= s.len()
        invariant
            from <= i,
            spec_find_from(s@, p@, from as int) == spec_find_from(s@, p@, i as int),
        decreases s.len() + 1 - i,
    {
        if p.len() > s.len() - i {
            return None;
        }
        if matches_at(s, p, i) {
            return Some(i);
        }
        if i == s.len() {
            return None;
        }
        i = i + 1;
    }
    None
}

pub fn index_of(s: &Vec<char>, p: &Vec<char>) -> (r: Option<usize>)
    ensures
        r matches Some(i) ==> spec_find(s@, p@) == Some(i as int),
        r is None ==> spec_find(s@, p@) is None,
{
    index_of_from(s, p, 0)
}

pub fn contains_text(s: &Vec<char>, p: &Vec<char>) -> (r: bool)
    ensures
        r == spec_contains(s@, p@),
{
    index_of(s, p).is_some()
}

pub fn last_index_before(s: &Vec<char>, p: &Vec<char>, end: usize) -> (r: Option<usize>)
    requires
        end <= s.len(),
    ensures
        r matches Some(i) ==> spec_rfind_before(s@, p@, end as int) == Some(i as int),
        r is None ==> spec_rfind_before(s@, p@, end as int) is None,
{
    let mut e: usize = end;
    loop
        invariant
            e <= end <= s.len(),
            spec_rfind_before(s@, p@, end as int) == spec_rfind_before(s@, p@, e as int),
        decreases e,
    {
        if e < p.len() {
            return None;
        }
        if matches_at(s, p, e - p.len()) {
            return Some(e - p.len());
        }
        if e == 0 {
            return None;
        }
        e = e - 1;
    }
}

pub fn last_index_of(s: &Vec<char>, p: &Vec<char>) -> (r: Option<usize>)
    ensures
        r matches Some(i) ==> spec_rfind(s@, p@) == Some(i as int),
        r is None ==> spec_rfind(s@, p@) is None,
{
    last_index_before(s, p, s.len())
}

pub fn has_prefix(s: &Vec<char>, p: &Vec<char>) -> (r: bool)
    ensures
        r == spec_starts_with(s@, p@),
{
    let r = matches_at(s, p, 0);
    assert(s@.subrange(0, p@.len() as int) == s@.take(p@.len() as int));
    r
}

pub fn has_suffix(s: &Vec<char>, p: &Vec<char>) -> (r: bool)
    ensures
        r == spec_ends_with(s@, p@),
{
    if p.len() > s.len() {
        return false;
    }
    let r = matches_at(s, p, s.len() - p.len());
    assert(s@.subrange(s.len() - p.len(), s.len() as int) == s@.skip(s.len() - p.len()));
    r
}

pub fn index_of_char_from(s: &Vec<char>, c: char, from: usize) -> (r: Option<usize>)
    ensures
        r matches Some(i) ==> spec_find_char_from(s@, c, from as int) == Some(i as int),
        r is None ==> spec_find_char_from(s@, c, from as int) is None,
{
    let mut i: usize = from;
    while i < s.len()
        invariant
            from <= i,
            spec_find_char_from(s@, c, from as int) == spec_find_char_from(s@, c, i as int),
        decreases s.len() - i,
    {
        if s[i] == c {
            return Some(i);
        }
        i = i + 1;
    }
    None
}

pub fn replace_all_chars(s: &Vec<char>, from: &Vec<char>, to: &Vec<char>) -> (r: Vec<char>)
    requires
        from.len() > 0,
    ensures
        r@ == replace_all(s@, from@, to@),
{
    let mut out: Vec<char> = Vec::new();
    let mut i: usize = 0;
    assert(s@.skip(0) == s@);
    loop
        invariant
            i <= s.len(),
            from.len() > 0,
            replace_all(s@, from@, to@) == out@ + replace_all(s@.skip(i as int), from@, to@),
        decreases s.len() - i,
    {
        proof {
            lemma_find_from_skip(s@, from@, i as int, 0);
            lemma_find_from_bounds(s@, from@, i as int);
        }
        match index_of_from(s, from, i) {
            None => {
                let rest = slice_range(s, i, s.len());
                assert(rest@ == s@.skip(i as int));
                extend(&mut out, &rest);
                return out;
            },
            Some(j) => {
                let ghost t = s@.skip(i as int);
                let piece = slice_range(s, i, j);
                assert(piece@ == t.take(j - i));
                assert(t.skip(j - i + from.len()) == s@.skip(j + from.len()));
                extend(&mut out, &piece);
                extend(&mut out, to);
                i = j + from.len();
            },
        }
    }
}

pub fn split_on(s: &Vec<char>, c: char) -> (r: Vec<Vec<char>>)
    ensures
        r@.len() == split_char(s@, c).len(),
        forall|k: int| 0 <= k < r@.len() ==> #[trigger] r@[k]@ == split_char(s@, c)[k],
{
    let mut out: Vec<Vec<char>> = Vec::new();
    let mut i: usize = 0;
    let ghost mut done: Seq<Seq<char>> = Seq::empty();
    assert(s@.skip(0) == s@);
    loop
        invariant
            i <= s.len(),
            out@.len() == done.len(),
            forall|k: int| 0 <= k < out@.len() ==> #[trigger] out@[k]@ == done[k],
            split_char(s@, c) == done + split_char(s@.skip(i as int), c),
        decreases s.len() - i,
    {
        proof {
            lemma_find_char_from_skip(s@, c, i as int, 0);
            lemma_find_char_from_bounds(s@, c, i as int);
        }
        let ghost t = s@.skip(i as int);
        match index_of_char_from(s, c, i) {
            None => {
                let rest = slice_range(s, i, s.len());
                assert(rest@ == t);
                proof {
                    done = done.push(t);
                }
                out.push(rest);
                assert(split_char(s@, c) == done);
                return out;
            },
            Some(j) => {
                let piece = slice_range(s, i, j);
                assert(piece@ == t.take(j - i));
                assert(t.skip(j - i + 1) == s@.skip(j + 1));
                proof {
                    done = done.push(t.take(j - i));
                }
                out.push(piece);
                i = j + 1;
            },
        }
    }
}

} // verus!

verus! {

/// Whether two character vectors hold the same text.
pub fn same_chars(a: &Vec<char>, b: &Vec<char>) -> (r: bool)
    ensures
        r == (a@ == b@),
{
    if a.len() != b.len() {
        return false;
    }
    let mut i: usize = 0;
    while i < a.len()
        invariant
            a.len() == b.len(),
            i <= a.len(),
            forall|k: int| 0 <= k < i ==> a@[k] == b@[k],
        decreases a.len() - i,
    {
        if a[i] != b[i] {
            return false;
        }
        i = i + 1;
    }
    assert(a@ =~= b@);
    true
}

/// Whether a text equals a literal.
pub fn is_text(a: &Vec<char>, lit: &str) -> (r: bool)
    ensures
        r == (a@ == lit@),
{
    same_chars(a, &to_chars(lit))
}

} // verus!

verus! {

/// The views of a sequence of character vectors.
pub open spec fn views(v: Seq<Vec<char>>) -> Seq<Seq<char>> {
    v.map_values(|x: Vec<char>| x@)
}

pub proof fn lemma_views_push(v: Seq<Vec<char>>, x: Vec<char>)
    ensures
        views(v.push(x)) == views(v).push(x@),
{
    assert(views(v.push(x)) =~= views(v).push(x@));
}

pub proof fn lemma_views_empty()
    ensures
        views(Seq::<Vec<char>>::empty()) == Seq::<Seq<char>>::empty(),
{
    assert(views(Seq::<Vec<char>>::empty()) =~= Seq::<Seq<char>>::empty());
}


/// The views of a sequence of strings.
pub open spec fn string_views(v: Seq<String>) -> Seq<Seq<char>> {
    v.map_values(|x: String| x@)
}

pub fn strings_of(v: &Vec<Vec<char>>) -> (r: Vec<String>)
    ensures
        string_views(r@) == views(v@),
{
    let mut r: Vec<String> = Vec::new();
    let mut i: usize = 0;
    while i < v.len()
        invariant
            i <= v.len(),
            r@.len() == i,
            forall|k: int| 0 <= k < i ==> #[trigger] r@[k]@ == v@[k]@,
        decreases v.len() - i,
    {
        r.push(from_chars(&v[i]));
        i = i + 1;
    }
    assert(string_views(r@) =~= views(v@));
    r
}

pub fn chars_of_strings(v: &[String]) -> (r: Vec<Vec<char>>)
    ensures
        views(r@) == string_views(v@),
{
    let mut r: Vec<Vec<char>> = Vec::new();
    let mut i: usize = 0;
    while i < v.len()
        invariant
            i <= v.len(),
            r@.len() == i,
            forall|k: int| 0 <= k < i ==> #[trigger] r@[k]@ == v@[k]@,
        decreases v.len() - i,
    {
        r.push(to_chars(v[i].as_str()));
        i = i + 1;
    }
    assert(views(r@) =~= string_views(v@));
    r
}

} // verus!

verus! {

/// The texts of `parts` joined by `sep`.
pub open spec fn joined(parts: Seq<Seq<char>>, sep: Seq<char>) -> Seq<char>
    decreases parts.len(),
{
    if parts.len() == 0 {
        Seq::empty()
    } else if parts.len() == 1 {
        parts[0]
    } else {
        joined(parts.drop_last(), sep) + sep + parts.last()
    }
}

pub fn join(parts: &[String], sep: &str) -> (r: String)
    ensures
        r@ == joined(string_views(parts@), sep@),
{
    let ghost ps = string_views(parts@);
    let mut out: Vec<char> = Vec::new();
    let sep_chars = to_chars(sep);
    let mut i: usize = 0;
    assert(ps.take(0) =~= Seq::<Seq<char>>::empty());
    while i < parts.len()
        invariant
            i <= parts.len(),
            ps == string_views(parts@),
            sep_chars@ == sep@,
            out@ == joined(ps.take(i as int), sep@),
        decreases parts.len() - i,
    {
        assert(ps.take(i + 1).drop_last() == ps.take(i as int));
        assert(ps.take(i + 1).last() == parts@[i as int]@);
        if i > 0 {
            extend(&mut out, &sep_chars);
        } else {
            assert(ps.take(1) =~= seq![parts@[0]@]);
        }
        extend(&mut out, &to_chars(parts[i].as_str()));
        i = i + 1;
    }
    assert(ps.take(parts.len() as int) == ps);
    from_chars(&out)
}

} // verus!
