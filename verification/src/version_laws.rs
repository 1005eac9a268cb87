//! Order laws of version comparison: it is reflexive, antisymmetric and
//! transitive, so versions sort consistently.
use vstd::prelude::*;
use crate::order::{
    flip, lemma_lex_antisymmetric, lemma_lex_reflexive, lemma_lex_transitive, order_int, Order,
};
use crate::version::{
    compare_core_from, compare_prerelease_from, core_at, lower_seq, spec_compare_prerelease_part,
    spec_compare_version, version_core, version_prerelease,
};

verus! {

pub open spec fn not_greater(o: Order) -> bool {
    o != Order::Greater
}

// ── core components ──

proof fn lemma_core_unfold(a: Seq<int>, b: Seq<int>, i: int)
    requires
        0 <= i,
    ensures
        compare_core_from(a, b, i) == if core_at(a, i) != core_at(b, i) {
            order_int(core_at(a, i), core_at(b, i))
        } else {
            compare_core_from(a, b, i + 1)
        },
{
    if i >= a.len() && i >= b.len() {
        assert(compare_core_from(a, b, i + 1) == Order::Equal);
    }
}

proof fn lemma_core_reflexive(a: Seq<int>, i: int)
    requires
        0 <= i,
    ensures
        compare_core_from(a, a, i) == Order::Equal,
    decreases a.len() + a.len() - i,
{
    if i < a.len() {
        lemma_core_reflexive(a, i + 1);
    }
}

proof fn lemma_core_antisymmetric(a: Seq<int>, b: Seq<int>, i: int)
    requires
        0 <= i,
    ensures
        compare_core_from(a, b, i) == flip(compare_core_from(b, a, i)),
    decreases a.len() + b.len() - i,
{
    if !(i >= a.len() && i >= b.len()) && core_at(a, i) == core_at(b, i) {
        lemma_core_antisymmetric(a, b, i + 1);
    }
}

proof fn lemma_core_transitive(a: Seq<int>, b: Seq<int>, c: Seq<int>, i: int)
    requires
        0 <= i,
    ensures
        not_greater(compare_core_from(a, b, i)) && not_greater(compare_core_from(b, c, i))
            ==> not_greater(compare_core_from(a, c, i)),
        compare_core_from(a, b, i) == Order::Less && not_greater(compare_core_from(b, c, i))
            ==> compare_core_from(a, c, i) == Order::Less,
        not_greater(compare_core_from(a, b, i)) && compare_core_from(b, c, i) == Order::Less
            ==> compare_core_from(a, c, i) == Order::Less,
    decreases a.len() + b.len() + c.len() - i,
{
    if i >= a.len() && i >= b.len() && i >= c.len() {
    } else {
        lemma_core_unfold(a, b, i);
        lemma_core_unfold(b, c, i);
        lemma_core_unfold(a, c, i);
        lemma_core_transitive(a, b, c, i + 1);
    }
}

// ── pre-release identifiers ──

proof fn lemma_part_reflexive(a: Seq<char>)
    ensures
        spec_compare_prerelease_part(a, a) == Order::Equal,
{
    lemma_lex_reflexive(lower_seq(a));
}

proof fn lemma_part_antisymmetric(a: Seq<char>, b: Seq<char>)
    ensures
        spec_compare_prerelease_part(a, b) == flip(spec_compare_prerelease_part(b, a)),
{
    lemma_lex_antisymmetric(lower_seq(a), lower_seq(b));
}

proof fn lemma_part_transitive(a: Seq<char>, b: Seq<char>, c: Seq<char>)
    ensures
        not_greater(spec_compare_prerelease_part(a, b)) && not_greater(
            spec_compare_prerelease_part(b, c),
        ) ==> not_greater(spec_compare_prerelease_part(a, c)),
        spec_compare_prerelease_part(a, b) == Order::Less && not_greater(
            spec_compare_prerelease_part(b, c),
        ) ==> spec_compare_prerelease_part(a, c) == Order::Less,
        not_greater(spec_compare_prerelease_part(a, b)) && spec_compare_prerelease_part(b, c)
            == Order::Less ==> spec_compare_prerelease_part(a, c) == Order::Less,
{
    lemma_lex_transitive(lower_seq(a), lower_seq(b), lower_seq(c));
}

proof fn lemma_pre_unfold(a: Seq<Seq<char>>, b: Seq<Seq<char>>, i: int)
    requires
        0 <= i,
        i < a.len(),
        i < b.len(),
    ensures
        compare_prerelease_from(a, b, i) == if spec_compare_prerelease_part(a[i], b[i])
            != Order::Equal {
            spec_compare_prerelease_part(a[i], b[i])
        } else {
            compare_prerelease_from(a, b, i + 1)
        },
{
}

proof fn lemma_pre_reflexive(a: Seq<Seq<char>>, i: int)
    requires
        0 <= i,
    ensures
        compare_prerelease_from(a, a, i) == Order::Equal,
    decreases a.len() + a.len() - i,
{
    if i < a.len() {
        lemma_part_reflexive(a[i]);
        lemma_pre_reflexive(a, i + 1);
    }
}

proof fn lemma_pre_antisymmetric(a: Seq<Seq<char>>, b: Seq<Seq<char>>, i: int)
    requires
        0 <= i,
    ensures
        compare_prerelease_from(a, b, i) == flip(compare_prerelease_from(b, a, i)),
    decreases a.len() + b.len() - i,
{
    if i < a.len() && i < b.len() {
        lemma_part_antisymmetric(a[i], b[i]);
        lemma_pre_antisymmetric(a, b, i + 1);
    }
}

proof fn lemma_pre_transitive(a: Seq<Seq<char>>, b: Seq<Seq<char>>, c: Seq<Seq<char>>, i: int)
    requires
        0 <= i,
    ensures
        not_greater(compare_prerelease_from(a, b, i)) && not_greater(
            compare_prerelease_from(b, c, i),
        ) ==> not_greater(compare_prerelease_from(a, c, i)),
        compare_prerelease_from(a, b, i) == Order::Less && not_greater(
            compare_prerelease_from(b, c, i),
        ) ==> compare_prerelease_from(a, c, i) == Order::Less,
        not_greater(compare_prerelease_from(a, b, i)) && compare_prerelease_from(b, c, i)
            == Order::Less ==> compare_prerelease_from(a, c, i) == Order::Less,
    decreases a.len() + b.len() + c.len() - i,
{
    if i < a.len() && i < b.len() && i < c.len() {
        lemma_part_transitive(a[i], b[i], c[i]);
        lemma_part_antisymmetric(a[i], b[i]);
        lemma_part_antisymmetric(b[i], c[i]);
        lemma_part_antisymmetric(a[i], c[i]);
        lemma_part_transitive(c[i], b[i], a[i]);
        lemma_pre_transitive(a, b, c, i + 1);
    }
}

// ── whole versions ──

/// Every version is equal to itself.
pub proof fn lemma_compare_version_reflexive(v: Seq<char>)
    ensures
        spec_compare_version(v, v) == Order::Equal,
{
    lemma_core_reflexive(version_core(v), 0);
    lemma_pre_reflexive(version_prerelease(v), 0);
}

/// Comparing the other way round gives the opposite answer.
pub proof fn lemma_compare_version_antisymmetric(a: Seq<char>, b: Seq<char>)
    ensures
        spec_compare_version(a, b) == flip(spec_compare_version(b, a)),
{
    lemma_core_antisymmetric(version_core(a), version_core(b), 0);
    lemma_pre_antisymmetric(version_prerelease(a), version_prerelease(b), 0);
}

/// If `a` is not above `b` and `b` is not above `c`, then `a` is not above
/// `c`, and it is strictly below when either step is.
pub proof fn lemma_compare_version_transitive(a: Seq<char>, b: Seq<char>, c: Seq<char>)
    ensures
        not_greater(spec_compare_version(a, b)) && not_greater(spec_compare_version(b, c))
            ==> not_greater(spec_compare_version(a, c)),
        spec_compare_version(a, b) == Order::Less && not_greater(spec_compare_version(b, c))
            ==> spec_compare_version(a, c) == Order::Less,
        not_greater(spec_compare_version(a, b)) && spec_compare_version(b, c) == Order::Less
            ==> spec_compare_version(a, c) == Order::Less,
{
    let (ac, bc, cc) = (version_core(a), version_core(b), version_core(c));
    let (ap, bp, cp) = (version_prerelease(a), version_prerelease(b), version_prerelease(c));
    lemma_core_transitive(ac, bc, cc, 0);
    lemma_core_transitive(cc, bc, ac, 0);
    lemma_core_antisymmetric(ac, bc, 0);
    lemma_core_antisymmetric(bc, cc, 0);
    lemma_core_antisymmetric(ac, cc, 0);
    lemma_pre_transitive(ap, bp, cp, 0);
}

} // verus!
