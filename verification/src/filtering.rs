//! Order-preserving filters over augmented scans.

use vstd::prelude::*;

use crate::scan::AugmentedScan;

verus! {

/// The filtering rules: which records a filtering protocol keeps.
#[derive(Clone, Copy, Debug)]
pub enum FilterRule {
    /// Keep records no further from the origin than the given range.
    MaxRange(u32),
    /// Keep records whose enemies are not mechs.
    NotMech,
    /// Keep records at whose coordinates no allies were seen.
    NoAllies,
}

/// Whether a rule keeps one record.
pub open spec fn keeps(rule: FilterRule, r: AugmentedScan) -> bool {
    match rule {
        FilterRule::MaxRange(range) => r.distance <= range,
        FilterRule::NotMech => !r.scan.enemies.spec_is_mech(),
        FilterRule::NoAllies => r.scan.allies is None,
    }
}

/// The subsequence of records a rule keeps, in their input order.
pub open spec fn kept(rule: FilterRule, s: Seq<AugmentedScan>) -> Seq<AugmentedScan>
    decreases s.len(),
{
    if s.len() == 0 {
        Seq::empty()
    } else if keeps(rule, s.last()) {
        kept(rule, s.drop_last()).push(s.last())
    } else {
        kept(rule, s.drop_last())
    }
}

/// Every record a filter hands back satisfies its rule and came from the
/// input, and the filter never grows the sequence.
pub proof fn lemma_kept_props(rule: FilterRule, s: Seq<AugmentedScan>)
    ensures
        kept(rule, s).len() <= s.len(),
        forall|k: int| 0 <= k < kept(rule, s).len() ==> keeps(rule, #[trigger] kept(rule, s)[k]),
        forall|x: AugmentedScan| kept(rule, s).contains(x) ==> s.contains(x),
    decreases s.len(),
{
    if s.len() == 0 {
    } else {
        let head = s.drop_last();
        lemma_kept_props(rule, head);
        assert(forall|k: int| 0 <= k < head.len() ==> head[k] == s[k]);
        assert forall|x: AugmentedScan| kept(rule, s).contains(x) implies s.contains(x) by {
            let out = kept(rule, s);
            let k = choose|k: int| 0 <= k < out.len() && out[k] == x;
            if keeps(rule, s.last()) && k == out.len() - 1 {
                assert(s[s.len() - 1] == x);
            } else {
                assert(kept(rule, head)[k] == x);
                assert(kept(rule, head).contains(x));
                assert(head.contains(x));
                let j = head.index_of(x);
                assert(head[j] == x);
                assert(s[j] == x);
            }
        }
    }
}

/// A filter invents no record: whatever it kept was in its input.
pub proof fn lemma_kept_membership(rule: FilterRule, s: Seq<AugmentedScan>, x: AugmentedScan)
    requires
        kept(rule, s).contains(x),
    ensures
        s.contains(x),
        keeps(rule, x),
{
    lemma_kept_props(rule, s);
    let k = kept(rule, s).index_of(x);
    assert(keeps(rule, kept(rule, s)[k]));
}

/// A filter leaves a sequence alone when its rule keeps every record.
pub proof fn lemma_kept_all(rule: FilterRule, s: Seq<AugmentedScan>)
    requires
        forall|k: int| 0 <= k < s.len() ==> keeps(rule, #[trigger] s[k]),
    ensures
        kept(rule, s) == s,
    decreases s.len(),
{
    if s.len() == 0 {
        assert(kept(rule, s) =~= s);
    } else {
        let head = s.drop_last();
        assert(forall|k: int| 0 <= k < head.len() ==> head[k] == s[k]);
        lemma_kept_all(rule, head);
        assert(kept(rule, s) =~= s);
    }
}

/// Filtering twice under one rule is the same as filtering once.
pub proof fn lemma_kept_idempotent(rule: FilterRule, s: Seq<AugmentedScan>)
    ensures
        kept(rule, kept(rule, s)) == kept(rule, s),
{
    lemma_kept_props(rule, s);
    lemma_kept_all(rule, kept(rule, s));
}

/// Whether a rule keeps one record, decided at run time.
pub fn keeps_exec(rule: FilterRule, r: &AugmentedScan) -> (res: bool)
    ensures
        res == keeps(rule, *r),
{
    match rule {
        FilterRule::MaxRange(range) => r.distance <= range,
        FilterRule::NotMech => !r.scan.enemies.is_mech(),
        FilterRule::NoAllies => r.scan.allies.is_none(),
    }
}

/// The records of a vector that a rule keeps, in their input order.
pub fn filter_records(rule: FilterRule, records: Vec<AugmentedScan>) -> (out: Vec<AugmentedScan>)
    ensures
        out@ == kept(rule, records@),
{
    let mut out: Vec<AugmentedScan> = Vec::new();
    let mut i: usize = 0;
    while i < records.len()
        invariant
            i <= records@.len(),
            out@ == kept(rule, records@.subrange(0, i as int)),
        decreases records@.len() - i,
    {
        let keep = keeps_exec(rule, &records[i]);
        if keep {
            out.push(records[i]);
        }
        proof {
            let next = records@.subrange(0, i + 1 as int);
            assert(next.drop_last() =~= records@.subrange(0, i as int));
            assert(next.last() == records@[i as int]);
        }
        i = i + 1;
    }
    proof {
        assert(records@.subrange(0, records@.len() as int) =~= records@);
    }
    out
}

} // verus!
