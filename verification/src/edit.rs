//! Editing primitives on build-file text: inserting, cutting out lines and
//! XML blocks, and walking the blocks and lines of a snippet.
use vstd::prelude::*;
use crate::text::{
    extend, index_of, index_of_from, last_index_before, lemma_find_from_bounds,
    lemma_rfind_before_bounds, lemma_views_empty, lemma_views_push, slice_range, spec_find,
    spec_find_from, spec_rfind_before, to_chars, views,
};

verus! {

pub open spec fn spec_insert_at(s: Seq<char>, pos: int, t: Seq<char>) -> Seq<char> {
    s.take(pos) + t + s.skip(pos)
}

pub open spec fn spec_cut(s: Seq<char>, a: int, b: int) -> Seq<char> {
    s.take(a) + s.skip(b)
}

pub fn insert_at(s: &Vec<char>, pos: usize, t: &Vec<char>) -> (r: Vec<char>)
    requires
        pos <= s.len(),
    ensures
        r@ == spec_insert_at(s@, pos as int, t@),
{
    let mut r = slice_range(s, 0, pos);
    extend(&mut r, t);
    extend(&mut r, &slice_range(s, pos, s.len()));
    r
}

pub fn cut(s: &Vec<char>, a: usize, b: usize) -> (r: Vec<char>)
    requires
        a <= b <= s.len(),
    ensures
        r@ == spec_cut(s@, a as int, b as int),
{
    let mut r = slice_range(s, 0, a);
    extend(&mut r, &slice_range(s, b, s.len()));
    r
}

/// `s` with the line around index `idx` cut out: from the last line break
/// before `idx` up to (not including) the first line break at or after it.
/// Nothing when either break is missing.
pub open spec fn spec_cut_line_at(s: Seq<char>, idx: int) -> Option<Seq<char>> {
    match spec_rfind_before(s, "\n"@, idx) {
        None => None,
        Some(start) => match spec_find_from(s, "\n"@, idx) {
            None => None,
            Some(end) => if 0 <= start <= end <= s.len() {
                Some(spec_cut(s, start, end))
            } else {
                None
            },
        },
    }
}

/// `s` with the line holding the first occurrence of `t` cut out.
pub open spec fn spec_cut_line_with(s: Seq<char>, t: Seq<char>) -> Option<Seq<char>> {
    match spec_find(s, t) {
        None => None,
        Some(idx) => spec_cut_line_at(s, idx),
    }
}

pub fn cut_line_at(s: &Vec<char>, idx: usize) -> (r: Option<Vec<char>>)
    requires
        idx <= s.len(),
    ensures
        match r {
            Some(v) => spec_cut_line_at(s@, idx as int) == Some(v@),
            None => spec_cut_line_at(s@, idx as int) is None,
        },
{
    let nl = to_chars("\n");
    proof {
        lemma_rfind_before_bounds(s@, nl@, idx as int);
        lemma_find_from_bounds(s@, nl@, idx as int);
    }
    let start = match last_index_before(s, &nl, idx) {
        None => return None,
        Some(v) => v,
    };
    let end = match index_of_from(s, &nl, idx) {
        None => return None,
        Some(v) => v,
    };
    assert(start + nl@.len() <= idx);
    assert(end + nl@.len() <= s.len());
    Some(cut(s, start, end))
}

pub fn cut_line_with(s: &Vec<char>, t: &Vec<char>) -> (r: Option<Vec<char>>)
    ensures
        match r {
            Some(v) => spec_cut_line_with(s@, t@) == Some(v@),
            None => spec_cut_line_with(s@, t@) is None,
        },
{
    proof {
        lemma_find_from_bounds(s@, t@, 0);
    }
    match index_of(s, t) {
        None => None,
        Some(idx) => cut_line_at(s, idx),
    }
}

/// `s` with the XML block around index `idx` cut out: from the last `open`
/// that ends at or before `idx` through the first `close` at or after it.
pub open spec fn spec_cut_block_at(s: Seq<char>, idx: int, open: Seq<char>, close: Seq<char>) -> Option<Seq<char>> {
    match spec_rfind_before(s, open, idx) {
        None => None,
        Some(start) => match spec_find_from(s, close, idx) {
            None => None,
            Some(end) => if 0 <= start <= end + close.len() <= s.len() {
                Some(spec_cut(s, start, end + close.len()))
            } else {
                None
            },
        },
    }
}

pub fn cut_block_at(s: &Vec<char>, idx: usize, open: &Vec<char>, close: &Vec<char>) -> (r: Option<Vec<char>>)
    requires
        idx <= s.len(),
    ensures
        match r {
            Some(v) => spec_cut_block_at(s@, idx as int, open@, close@) == Some(v@),
            None => spec_cut_block_at(s@, idx as int, open@, close@) is None,
        },
{
    proof {
        lemma_rfind_before_bounds(s@, open@, idx as int);
        lemma_find_from_bounds(s@, close@, idx as int);
    }
    let start = match last_index_before(s, open, idx) {
        None => return None,
        Some(v) => v,
    };
    let end = match index_of_from(s, close, idx) {
        None => return None,
        Some(v) => v,
    };
    assert(end + close@.len() <= s.len());
    assert(start <= idx);
    Some(cut(s, start, end + close.len()))
}

/// The first `open` in `s` and the first `close` at or after it.
pub open spec fn spec_section(s: Seq<char>, open: Seq<char>, close: Seq<char>) -> Option<(int, int)> {
    match spec_find(s, open) {
        None => None,
        Some(a) => match spec_find_from(s, close, a) {
            None => None,
            Some(b) => Some((a, b)),
        },
    }
}

pub fn section(s: &Vec<char>, open: &Vec<char>, close: &Vec<char>) -> (r: Option<(usize, usize)>)
    ensures
        match r {
            Some((a, b)) => spec_section(s@, open@, close@) == Some((a as int, b as int)) && a
                <= b && a + open@.len() <= s.len() && b + close@.len() <= s.len(),
            None => spec_section(s@, open@, close@) is None,
        },
{
    proof {
        lemma_find_from_bounds(s@, open@, 0);
    }
    let a = match index_of(s, open) {
        None => return None,
        Some(v) => v,
    };
    proof {
        lemma_find_from_bounds(s@, close@, a as int);
    }
    match index_of_from(s, close, a) {
        None => None,
        Some(b) => Some((a, b)),
    }
}

/// The blocks from each `open` through the next `close` (searched from the
/// block's start), scanning from `from` on while both keep being found.
pub open spec fn spec_blocks_from(s: Seq<char>, open: Seq<char>, close: Seq<char>, from: int) -> Seq<Seq<char>>
    decreases s.len() - from,
{
    if from < 0 || from > s.len() || close.len() == 0 {
        Seq::empty()
    } else {
        match spec_find_from(s, open, from) {
            None => Seq::empty(),
            Some(st) => match spec_find_from(s, close, st) {
                None => Seq::empty(),
                Some(e) => if from <= st <= e && e + close.len() <= s.len() {
                    seq![s.subrange(st, e + close.len())].add(
                        spec_blocks_from(s, open, close, e + close.len()),
                    )
                } else {
                    Seq::empty()
                },
            },
        }
    }
}

pub fn blocks(s: &Vec<char>, open: &Vec<char>, close: &Vec<char>) -> (r: Vec<Vec<char>>)
    requires
        close.len() > 0,
    ensures
        views(r@) == spec_blocks_from(s@, open@, close@, 0),
{
    let mut out: Vec<Vec<char>> = Vec::new();
    let mut from: usize = 0;
    proof {
        lemma_views_empty();
    }
    loop
        invariant
            close.len() > 0,
            from <= s.len(),
            spec_blocks_from(s@, open@, close@, 0) == views(out@) + spec_blocks_from(
                s@,
                open@,
                close@,
                from as int,
            ),
        decreases s.len() - from,
    {
        proof {
            lemma_find_from_bounds(s@, open@, from as int);
        }
        let st = match index_of_from(s, open, from) {
            None => {
                assert(views(out@) + Seq::<Seq<char>>::empty() == views(out@));
                return out;
            },
            Some(v) => v,
        };
        proof {
            lemma_find_from_bounds(s@, close@, st as int);
        }
        let e = match index_of_from(s, close, st) {
            None => {
                assert(views(out@) + Seq::<Seq<char>>::empty() == views(out@));
                return out;
            },
            Some(v) => v,
        };
        let block = slice_range(s, st, e + close.len());
        proof {
            lemma_views_push(out@, block);
            assert(views(out@) + seq![block@].add(
                spec_blocks_from(s@, open@, close@, (e + close.len()) as int),
            ) == views(out@).push(block@) + spec_blocks_from(
                s@,
                open@,
                close@,
                (e + close.len()) as int,
            ));
        }
        out.push(block);
        from = e + close.len();
    }
}

/// The raw text of the first `open` ... `close` element of `block`, the
/// closing tag searched from the opening one.
pub open spec fn spec_tag_value(block: Seq<char>, open: Seq<char>, close: Seq<char>) -> Option<Seq<char>> {
    match spec_find(block, open) {
        None => None,
        Some(a) => match spec_find_from(block, close, a) {
            None => None,
            Some(b) => if a + open.len() <= b <= block.len() {
                Some(block.subrange(a + open.len(), b))
            } else {
                None
            },
        },
    }
}

pub fn tag_value(block: &Vec<char>, open: &Vec<char>, close: &Vec<char>) -> (r: Option<Vec<char>>)
    ensures
        match r {
            Some(v) => spec_tag_value(block@, open@, close@) == Some(v@),
            None => spec_tag_value(block@, open@, close@) is None,
        },
{
    proof {
        lemma_find_from_bounds(block@, open@, 0);
    }
    let a = match index_of(block, open) {
        None => return None,
        Some(v) => v,
    };
    proof {
        lemma_find_from_bounds(block@, close@, a as int);
    }
    let b = match index_of_from(block, close, a) {
        None => return None,
        Some(v) => v,
    };
    assert(a + open@.len() <= block.len());
    if a + open.len() <= b {
        Some(slice_range(block, a + open.len(), b))
    } else {
        None
    }
}

/// The artifact id of an XML block.
pub open spec fn spec_artifact_id_of(block: Seq<char>) -> Option<Seq<char>> {
    spec_tag_value(block, "<artifactId>"@, "</artifactId>"@)
}

pub fn artifact_id_of(block: &Vec<char>) -> (r: Option<Vec<char>>)
    ensures
        match r {
            Some(v) => spec_artifact_id_of(block@) == Some(v@),
            None => spec_artifact_id_of(block@) is None,
        },
{
    tag_value(block, &to_chars("<artifactId>"), &to_chars("</artifactId>"))
}

} // verus!
