//! Stable ordering of augmented scans under the ranking rules.
//!
//! Every ranking protocol is a stable sort under a total preorder on
//! augmented scans. The sort is specified as repeated ordered insertion:
//! each record is inserted after all earlier records that compare
//! less-or-equal to it, so records the rule considers equal keep their
//! relative input order.

use vstd::prelude::*;

use crate::scan::AugmentedScan;

verus! {

/// The ranking rules: which total preorder a stable sort runs under.
#[derive(Clone, Copy, Debug)]
pub enum SortRule {
    /// Ascending by distance to the origin.
    Closest,
    /// Descending by distance to the origin.
    Furthest,
    /// Ascending by allied-unit count; a record without a count goes last.
    Allies,
    /// Mech enemies before soldier enemies.
    Mech,
}

/// Ascending order on optional ally counts, where an absent count is
/// greater than any present one.
pub open spec fn allies_le(a: Option<u32>, b: Option<u32>) -> bool {
    match (a, b) {
        (Some(x), Some(y)) => x <= y,
        (Some(_), None) => true,
        (None, Some(_)) => false,
        (None, None) => true,
    }
}

/// The total preorder a rule sorts by: `a` may stand before `b`.
pub open spec fn rule_le(rule: SortRule, a: AugmentedScan, b: AugmentedScan) -> bool {
    match rule {
        SortRule::Closest => a.distance <= b.distance,
        SortRule::Furthest => a.distance >= b.distance,
        SortRule::Allies => allies_le(a.scan.allies, b.scan.allies),
        SortRule::Mech => a.scan.enemies.spec_is_mech() || !b.scan.enemies.spec_is_mech(),
    }
}

/// Each rule's order is total: of any two records, one may stand before
/// the other.
pub proof fn lemma_rule_le_total(rule: SortRule, a: AugmentedScan, b: AugmentedScan)
    ensures
        rule_le(rule, a, b) || rule_le(rule, b, a),
{
}

/// Each rule's order is transitive.
pub proof fn lemma_rule_le_trans(rule: SortRule, a: AugmentedScan, b: AugmentedScan, c: AugmentedScan)
    requires
        rule_le(rule, a, b),
        rule_le(rule, b, c),
    ensures
        rule_le(rule, a, c),
{
}

/// `x` inserted into `s` after every leading record that compares
/// less-or-equal to it. On a sorted sequence this keeps the order and
/// places `x` after its ties.
pub open spec fn ordered_insert(rule: SortRule, s: Seq<AugmentedScan>, x: AugmentedScan) -> Seq<
    AugmentedScan,
>
    decreases s.len(),
{
    if s.len() == 0 {
        seq![x]
    } else if rule_le(rule, s[0], x) {
        seq![s[0]] + ordered_insert(rule, s.drop_first(), x)
    } else {
        seq![x] + s
    }
}

/// The stable sort of `s` under a rule: every record inserted, in input
/// order, after its ties.
pub open spec fn stable_sorted(rule: SortRule, s: Seq<AugmentedScan>) -> Seq<AugmentedScan>
    decreases s.len(),
{
    if s.len() == 0 {
        Seq::empty()
    } else {
        ordered_insert(rule, stable_sorted(rule, s.drop_last()), s.last())
    }
}

/// `s` is ordered under a rule: no later record may stand strictly
/// before an earlier one.
pub open spec fn sorted_under(rule: SortRule, s: Seq<AugmentedScan>) -> bool {
    forall|i: int, j: int| 0 <= i < j < s.len() ==> rule_le(rule, s[i], s[j])
}

/// Ordered insertion adds exactly the new record, and keeps a sorted
/// sequence sorted.
pub proof fn lemma_ordered_insert_props(rule: SortRule, s: Seq<AugmentedScan>, x: AugmentedScan)
    ensures
        ordered_insert(rule, s, x).to_multiset() =~= s.to_multiset().insert(x),
        ordered_insert(rule, s, x).len() == s.len() + 1,
        sorted_under(rule, s) ==> sorted_under(rule, ordered_insert(rule, s, x)),
    decreases s.len(),
{
    broadcast use vstd::seq_lib::group_to_multiset_ensures;

    let out = ordered_insert(rule, s, x);
    if s.len() == 0 {
        assert(seq![x] =~= Seq::<AugmentedScan>::empty().push(x));
    } else if rule_le(rule, s[0], x) {
        let rest = s.drop_first();
        let ins = ordered_insert(rule, rest, x);
        lemma_ordered_insert_props(rule, rest, x);
        assert(out =~= seq![s[0]] + ins);
        assert(out.drop_first() =~= ins);
        assert(out =~= ins.insert(0, s[0]));
        assert(out.to_multiset() =~= ins.to_multiset().insert(s[0]));
        assert(s =~= rest.insert(0, s[0]));
        assert(s.to_multiset() =~= rest.to_multiset().insert(s[0]));
        assert(out.to_multiset() =~= s.to_multiset().insert(x)) by {
            assert(ins.to_multiset() =~= rest.to_multiset().insert(x));
        }
        if sorted_under(rule, s) {
            assert(sorted_under(rule, rest)) by {
                assert(forall|i: int, j: int|
                    0 <= i < j < rest.len() ==> rest[i] == s[i + 1] && rest[j] == s[j + 1]);
            }
            assert(sorted_under(rule, ins));
            assert forall|i: int, j: int| 0 <= i < j < out.len() implies rule_le(
                rule,
                out[i],
                out[j],
            ) by {
                if i == 0 {
                    let y = out[j];
                    assert(ins[j - 1] == y);
                    assert(ins.contains(y));
                    assert(ins.to_multiset().count(y) > 0);
                    if y == x {
                        assert(rule_le(rule, s[0], y));
                    } else {
                        assert(rest.to_multiset().count(y) > 0);
                        assert(rest.contains(y));
                        let k = choose|k: int| 0 <= k < rest.len() && rest[k] == y;
                        assert(s[k + 1] == y);
                        assert(rule_le(rule, s[0], y));
                    }
                } else {
                    assert(out[i] == ins[i - 1] && out[j] == ins[j - 1]);
                }
            }
        }
    } else {
        assert(out =~= seq![x] + s);
        assert(out =~= s.insert(0, x));
        assert(out.to_multiset() =~= s.to_multiset().insert(x));
        if sorted_under(rule, s) {
            assert forall|i: int, j: int| 0 <= i < j < out.len() implies rule_le(
                rule,
                out[i],
                out[j],
            ) by {
                if i == 0 {
                    let y = out[j];
                    assert(s[j - 1] == y);
                    if j == 1 {
                        lemma_rule_le_total(rule, x, s[0]);
                    } else {
                        lemma_rule_le_total(rule, x, s[0]);
                        lemma_rule_le_trans(rule, x, s[0], y);
                    }
                } else {
                    assert(out[i] == s[i - 1] && out[j] == s[j - 1]);
                }
            }
        }
    }
}

/// The stable sort is a permutation of its input, keeps its length, and
/// is ordered under the rule.
pub proof fn lemma_stable_sorted_props(rule: SortRule, s: Seq<AugmentedScan>)
    ensures
        stable_sorted(rule, s).to_multiset() =~= s.to_multiset(),
        stable_sorted(rule, s).len() == s.len(),
        sorted_under(rule, stable_sorted(rule, s)),
    decreases s.len(),
{
    broadcast use vstd::seq_lib::group_to_multiset_ensures;

    if s.len() == 0 {
    } else {
        let head = s.drop_last();
        lemma_stable_sorted_props(rule, head);
        lemma_ordered_insert_props(rule, stable_sorted(rule, head), s.last());
        assert(s =~= head.push(s.last()));
        assert(s.to_multiset() =~= head.to_multiset().insert(s.last()));
    }
}

/// The stable sort invents no record: whatever it hands back was in its
/// input.
pub proof fn lemma_stable_sorted_membership(rule: SortRule, s: Seq<AugmentedScan>, x: AugmentedScan)
    requires
        stable_sorted(rule, s).contains(x),
    ensures
        s.contains(x),
{
    broadcast use vstd::seq_lib::group_to_multiset_ensures;

    lemma_stable_sorted_props(rule, s);
    assert(stable_sorted(rule, s).to_multiset().count(x) > 0);
    assert(s.to_multiset().count(x) > 0);
}

/// Inserting a record that every record of `s` may stand before appends
/// it at the end.
proof fn lemma_ordered_insert_all_le(rule: SortRule, s: Seq<AugmentedScan>, x: AugmentedScan)
    requires
        forall|k: int| 0 <= k < s.len() ==> rule_le(rule, s[k], x),
    ensures
        ordered_insert(rule, s, x) == s.push(x),
    decreases s.len(),
{
    if s.len() == 0 {
        assert(ordered_insert(rule, s, x) =~= s.push(x));
    } else {
        let rest = s.drop_first();
        assert(forall|k: int| 0 <= k < rest.len() ==> rest[k] == s[k + 1]);
        lemma_ordered_insert_all_le(rule, rest, x);
        assert(ordered_insert(rule, s, x) =~= s.push(x));
    }
}

/// Stability at its sharpest: when the rule considers every pair of
/// records tied, the sort returns its input unchanged.
pub proof fn lemma_stable_sorted_all_tied(rule: SortRule, s: Seq<AugmentedScan>)
    requires
        forall|i: int, j: int|
            0 <= i < s.len() && 0 <= j < s.len() ==> rule_le(rule, #[trigger] s[i], #[trigger] s[j]),
    ensures
        stable_sorted(rule, s) == s,
    decreases s.len(),
{
    if s.len() == 0 {
        assert(stable_sorted(rule, s) =~= s);
    } else {
        let head = s.drop_last();
        assert(forall|k: int| 0 <= k < head.len() ==> head[k] == s[k]);
        lemma_stable_sorted_all_tied(rule, head);
        lemma_ordered_insert_all_le(rule, head, s.last());
        assert(stable_sorted(rule, s) == head.push(s.last()));
        assert(head.push(s.last()) =~= s);
    }
}

/// The rule considers `a` and `b` tied: either may stand before the
/// other.
pub open spec fn tied(rule: SortRule, a: AugmentedScan, b: AugmentedScan) -> bool {
    rule_le(rule, a, b) && rule_le(rule, b, a)
}

/// The subsequence of records tied with `pivot`, in their order in `s`.
pub open spec fn tied_with(rule: SortRule, pivot: AugmentedScan, s: Seq<AugmentedScan>) -> Seq<
    AugmentedScan,
>
    decreases s.len(),
{
    if s.len() == 0 {
        Seq::empty()
    } else if tied(rule, s.last(), pivot) {
        tied_with(rule, pivot, s.drop_last()).push(s.last())
    } else {
        tied_with(rule, pivot, s.drop_last())
    }
}

proof fn lemma_tied_with_singleton(rule: SortRule, pivot: AugmentedScan, e: AugmentedScan)
    ensures
        tied(rule, e, pivot) ==> tied_with(rule, pivot, seq![e]) == seq![e],
        !tied(rule, e, pivot) ==> tied_with(rule, pivot, seq![e]) == Seq::<AugmentedScan>::empty(),
{
    let u = seq![e];
    assert(u.len() == 1);
    assert(u.last() == e);
    assert(u.drop_last() =~= Seq::<AugmentedScan>::empty());
    assert(tied_with(rule, pivot, Seq::<AugmentedScan>::empty())
        == Seq::<AugmentedScan>::empty());
    if tied(rule, e, pivot) {
        assert(tied_with(rule, pivot, u) == Seq::<AugmentedScan>::empty().push(e));
        assert(Seq::<AugmentedScan>::empty().push(e) =~= seq![e]);
    } else {
        assert(tied_with(rule, pivot, u) == tied_with(rule, pivot, u.drop_last()));
    }
}

proof fn lemma_tied_with_add(rule: SortRule, pivot: AugmentedScan, a: Seq<AugmentedScan>, b: Seq<
    AugmentedScan,
>)
    ensures
        tied_with(rule, pivot, a + b) == tied_with(rule, pivot, a) + tied_with(rule, pivot, b),
    decreases b.len(),
{
    if b.len() == 0 {
        assert(a + b =~= a);
        assert(tied_with(rule, pivot, a) + tied_with(rule, pivot, b) =~= tied_with(
            rule,
            pivot,
            a,
        ));
    } else {
        let whole = a + b;
        assert(whole.len() > 0);
        assert(whole.last() == b.last());
        assert(whole.drop_last() =~= a + b.drop_last());
        lemma_tied_with_add(rule, pivot, a, b.drop_last());
        if tied(rule, b.last(), pivot) {
            assert(tied_with(rule, pivot, a) + tied_with(rule, pivot, b.drop_last()).push(b.last())
                =~= (tied_with(rule, pivot, a) + tied_with(rule, pivot, b.drop_last())).push(
                b.last(),
            ));
        }
    }
}

proof fn lemma_tied_with_none(rule: SortRule, pivot: AugmentedScan, s: Seq<AugmentedScan>)
    requires
        forall|k: int| 0 <= k < s.len() ==> !tied(rule, #[trigger] s[k], pivot),
    ensures
        tied_with(rule, pivot, s) == Seq::<AugmentedScan>::empty(),
    decreases s.len(),
{
    if s.len() == 0 {
    } else {
        let head = s.drop_last();
        assert(forall|k: int| 0 <= k < head.len() ==> head[k] == s[k]);
        lemma_tied_with_none(rule, pivot, head);
        assert(!tied(rule, s.last(), pivot));
    }
}

/// Inserting `x` into a sorted sequence puts it exactly at the end of
/// the records tied with `x`, and moves no other tie class.
proof fn lemma_ordered_insert_tied_with(
    rule: SortRule,
    t: Seq<AugmentedScan>,
    x: AugmentedScan,
    pivot: AugmentedScan,
)
    requires
        sorted_under(rule, t),
    ensures
        tied(rule, x, pivot) ==> tied_with(rule, pivot, ordered_insert(rule, t, x)) == tied_with(
            rule,
            pivot,
            t,
        ).push(x),
        !tied(rule, x, pivot) ==> tied_with(rule, pivot, ordered_insert(rule, t, x)) == tied_with(
            rule,
            pivot,
            t,
        ),
    decreases t.len(),
{
    if t.len() == 0 {
        lemma_tied_with_singleton(rule, pivot, x);
        if tied(rule, x, pivot) {
            assert(tied_with(rule, pivot, t).push(x) =~= seq![x]);
        }
    } else if rule_le(rule, t[0], x) {
        let t2 = t.drop_first();
        assert(forall|k: int| 0 <= k < t2.len() ==> t2[k] == t[k + 1]);
        lemma_ordered_insert_tied_with(rule, t2, x, pivot);
        let ins2 = ordered_insert(rule, t2, x);
        assert(ordered_insert(rule, t, x) == seq![t[0]] + ins2);
        lemma_tied_with_add(rule, pivot, seq![t[0]], ins2);
        lemma_tied_with_add(rule, pivot, seq![t[0]], t2);
        assert(t =~= seq![t[0]] + t2);
        if tied(rule, x, pivot) {
            assert(tied_with(rule, pivot, seq![t[0]]) + tied_with(rule, pivot, t2).push(x) =~= (
            tied_with(rule, pivot, seq![t[0]]) + tied_with(rule, pivot, t2)).push(x));
        }
    } else {
        assert(ordered_insert(rule, t, x) == seq![x] + t);
        lemma_tied_with_add(rule, pivot, seq![x], t);
        lemma_tied_with_singleton(rule, pivot, x);
        if tied(rule, x, pivot) {
            assert forall|k: int| 0 <= k < t.len() implies !tied(rule, #[trigger] t[k], pivot) by {
                if tied(rule, t[k], pivot) {
                    lemma_rule_le_trans(rule, t[k], pivot, x);
                    if k > 0 {
                        lemma_rule_le_trans(rule, t[0], t[k], x);
                    }
                }
            }
            lemma_tied_with_none(rule, pivot, t);
            assert(seq![x] + tied_with(rule, pivot, t) =~= tied_with(rule, pivot, t).push(x));
        } else {
            assert(Seq::<AugmentedScan>::empty() + tied_with(rule, pivot, t) =~= tied_with(
                rule,
                pivot,
                t,
            ));
        }
    }
}

/// Stability in full: the records tied with any given record come out of
/// the sort in exactly their relative input order.
pub proof fn lemma_stable_sorted_stability(rule: SortRule, s: Seq<AugmentedScan>, pivot: AugmentedScan)
    ensures
        tied_with(rule, pivot, stable_sorted(rule, s)) == tied_with(rule, pivot, s),
    decreases s.len(),
{
    if s.len() == 0 {
    } else {
        let head = s.drop_last();
        let x = s.last();
        lemma_stable_sorted_stability(rule, head, pivot);
        lemma_stable_sorted_props(rule, head);
        lemma_ordered_insert_tied_with(rule, stable_sorted(rule, head), x, pivot);
    }
}

/// Two sequences ordered under one rule, holding the same records, are
/// the same sequence, provided the rule ties none of their records.
proof fn lemma_sorted_perm_unique(rule: SortRule, u: Seq<AugmentedScan>, v: Seq<AugmentedScan>)
    requires
        sorted_under(rule, u),
        sorted_under(rule, v),
        u.to_multiset() == v.to_multiset(),
        forall|a: AugmentedScan, b: AugmentedScan|
            #[trigger] u.contains(a) && #[trigger] u.contains(b) && rule_le(rule, a, b)
                && rule_le(rule, b, a) ==> a == b,
    ensures
        u == v,
    decreases u.len(),
{
    broadcast use vstd::seq_lib::group_to_multiset_ensures;

    if u.len() == 0 {
        assert(v.len() == 0);
        assert(u =~= v);
    } else {
        assert(u.contains(u[0]));
        assert(u.to_multiset().count(u[0]) > 0);
        assert(v.to_multiset().count(u[0]) > 0);
        assert(v.contains(u[0]));
        assert(v.len() > 0);
        assert(v.contains(v[0]));
        assert(u.to_multiset().count(v[0]) > 0);
        assert(u.contains(v[0]));
        let j = v.index_of(u[0]);
        let k = u.index_of(v[0]);
        if j > 0 {
            assert(rule_le(rule, v[0], v[j]));
        }
        if k > 0 {
            assert(rule_le(rule, u[0], u[k]));
        }
        assert(u[0] == v[0]);
        let ut = u.drop_first();
        let vt = v.drop_first();
        assert(u.remove(0) =~= ut);
        assert(v.remove(0) =~= vt);
        assert(ut.to_multiset() =~= u.to_multiset().remove(u[0]));
        assert(vt.to_multiset() =~= v.to_multiset().remove(v[0]));
        assert(forall|i: int| 0 <= i < ut.len() ==> ut[i] == u[i + 1]);
        assert(forall|i: int| 0 <= i < vt.len() ==> vt[i] == v[i + 1]);
        assert forall|a: AugmentedScan| #[trigger] ut.contains(a) implies u.contains(a) by {
            let i = ut.index_of(a);
            assert(u[i + 1] == a);
        }
        lemma_sorted_perm_unique(rule, ut, vt);
        assert(u.len() == u.to_multiset().len());
        assert(v.len() == v.to_multiset().len());
        assert forall|i: int| 0 <= i < u.len() implies u[i] == v[i] by {
            if i > 0 {
                assert(ut[i - 1] == u[i]);
                assert(vt[i - 1] == v[i]);
                assert(ut[i - 1] == vt[i - 1]);
            }
        }
        assert(u =~= v);
    }
}

/// Closest-first and furthest-first are exact reverses of each other
/// whenever no two records lie at the same distance.
pub proof fn lemma_closest_furthest_reverse(s: Seq<AugmentedScan>)
    requires
        forall|i: int, j: int| 0 <= i < j < s.len() ==> s[i].distance != s[j].distance,
    ensures
        stable_sorted(SortRule::Furthest, s) == stable_sorted(SortRule::Closest, s).reverse(),
{
    broadcast use vstd::seq_lib::group_to_multiset_ensures;

    let c = stable_sorted(SortRule::Closest, s);
    let f = stable_sorted(SortRule::Furthest, s);
    let r = c.reverse();
    lemma_stable_sorted_props(SortRule::Closest, s);
    lemma_stable_sorted_props(SortRule::Furthest, s);
    c.lemma_reverse_to_multiset();
    assert(f.to_multiset() == r.to_multiset());
    assert forall|i: int, j: int| 0 <= i < j < r.len() implies rule_le(
        SortRule::Furthest,
        r[i],
        r[j],
    ) by {
        assert(r[i] == c[c.len() - 1 - i]);
        assert(r[j] == c[c.len() - 1 - j]);
        assert(rule_le(SortRule::Closest, c[c.len() - 1 - j], c[c.len() - 1 - i]));
    }
    assert forall|a: AugmentedScan, b: AugmentedScan|
        #[trigger] f.contains(a) && #[trigger] f.contains(b) && rule_le(SortRule::Furthest, a, b)
            && rule_le(SortRule::Furthest, b, a) implies a == b by {
        assert(s.to_multiset().count(a) > 0);
        assert(s.contains(a));
        assert(s.to_multiset().count(b) > 0);
        assert(s.contains(b));
        let ia = s.index_of(a);
        let ib = s.index_of(b);
        if ia != ib {
            assert(s[ia].distance != s[ib].distance);
        }
    }
    lemma_sorted_perm_unique(SortRule::Furthest, f, r);
}

/// Whether `a` may stand before `b` under the rule, decided at run time.
pub fn rule_le_exec(rule: SortRule, a: &AugmentedScan, b: &AugmentedScan) -> (r: bool)
    ensures
        r == rule_le(rule, *a, *b),
{
    match rule {
        SortRule::Closest => a.distance <= b.distance,
        SortRule::Furthest => a.distance >= b.distance,
        SortRule::Allies => match (a.scan.allies, b.scan.allies) {
            (Some(x), Some(y)) => x <= y,
            (Some(_), None) => true,
            (None, Some(_)) => false,
            (None, None) => true,
        },
        SortRule::Mech => a.scan.enemies.is_mech() || !b.scan.enemies.is_mech(),
    }
}

/// Ordered insertion lands at the first position whose record may not
/// stand before `x`.
proof fn lemma_ordered_insert_at(rule: SortRule, s: Seq<AugmentedScan>, x: AugmentedScan, i: int)
    requires
        0 <= i <= s.len(),
        forall|j: int| 0 <= j < i ==> rule_le(rule, s[j], x),
        i < s.len() ==> !rule_le(rule, s[i], x),
    ensures
        ordered_insert(rule, s, x) == s.insert(i, x),
    decreases s.len(),
{
    if s.len() == 0 {
        assert(ordered_insert(rule, s, x) =~= s.insert(0, x));
    } else if i == 0 {
        assert(ordered_insert(rule, s, x) =~= s.insert(0, x));
    } else {
        let rest = s.drop_first();
        assert(forall|j: int| 0 <= j < rest.len() ==> rest[j] == s[j + 1]);
        lemma_ordered_insert_at(rule, rest, x, i - 1);
        assert(ordered_insert(rule, s, x) =~= s.insert(i, x));
    }
}

/// Insert one record into an already ordered vector, after its ties.
fn insert_sorted(rule: SortRule, records: &mut Vec<AugmentedScan>, x: AugmentedScan)
    ensures
        final(records)@ == ordered_insert(rule, old(records)@, x),
{
    let mut i: usize = 0;
    while i < records.len() && rule_le_exec(rule, &records[i], &x)
        invariant
            i <= records@.len(),
            records@ == old(records)@,
            forall|j: int| 0 <= j < i ==> rule_le(rule, records@[j], x),
        decreases records@.len() - i,
    {
        i = i + 1;
    }
    proof {
        lemma_ordered_insert_at(rule, records@, x, i as int);
    }
    records.insert(i, x);
}

/// The stable sort of a vector of records under a rule.
pub fn sort_records(rule: SortRule, records: Vec<AugmentedScan>) -> (out: Vec<AugmentedScan>)
    ensures
        out@ == stable_sorted(rule, records@),
{
    let mut out: Vec<AugmentedScan> = Vec::new();
    let mut i: usize = 0;
    while i < records.len()
        invariant
            i <= records@.len(),
            out@ == stable_sorted(rule, records@.subrange(0, i as int)),
        decreases records@.len() - i,
    {
        insert_sorted(rule, &mut out, records[i]);
        proof {
            let next = records@.subrange(0, i + 1 as int);
            assert(next.drop_last() =~= records@.subrange(0, i as int));
            assert(next.last() == records@[i as int]);
        }
        i = i + 1;
    }
    proof {
        assert(records@.subrange(0, records@.len() as int) =~= records@);
    }
    out
}

} // verus!
