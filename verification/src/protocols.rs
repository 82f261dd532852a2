//! The selection protocols and their composition.

use vstd::prelude::*;

use crate::filtering;
use crate::filtering::FilterRule;
use crate::ordering;
use crate::ordering::SortRule;
use crate::scan::AugmentedScan;

verus! {

/// Protocol interface: a pure transformation over an ordered sequence of
/// augmented scans. A protocol may drop records or reorder them, never
/// invent or alter them.
pub trait Protocol {
    /// The sequence this protocol leaves behind, as a function of its
    /// input alone.
    spec fn spec_apply(&self, records: Seq<AugmentedScan>) -> Seq<AugmentedScan>;

    /// Receives a list of radar scans and returns the objects conforming
    /// to the protocol rules.
    fn apply(&self, scan: Vec<AugmentedScan>) -> (out: Vec<AugmentedScan>)
        ensures
            out@ == self.spec_apply(scan@),
    ;
}

/// Protocol that ignores enemies being too far away.
#[derive(Clone, Copy, Debug)]
pub struct IgnoreOutOfRange {
    /// Records further from the origin than this are dropped.
    pub range: u32,
}

impl IgnoreOutOfRange {
    /// Ignore enemies that reside at more than `range_in_meters` distance.
    pub fn new(range_in_meters: u32) -> (r: Self)
        ensures
            r.range == range_in_meters,
    {
        Self { range: range_in_meters }
    }
}

impl Protocol for IgnoreOutOfRange {
    open spec fn spec_apply(&self, records: Seq<AugmentedScan>) -> Seq<AugmentedScan> {
        filtering::kept(FilterRule::MaxRange(self.range), records)
    }

    fn apply(&self, scan: Vec<AugmentedScan>) -> (out: Vec<AugmentedScan>) {
        filtering::filter_records(FilterRule::MaxRange(self.range), scan)
    }
}

/// Protocol that prioritizes the closest point with enemies.
#[derive(Clone, Copy, Debug)]
pub struct ClosestEnemies;

impl Protocol for ClosestEnemies {
    open spec fn spec_apply(&self, records: Seq<AugmentedScan>) -> Seq<AugmentedScan> {
        ordering::stable_sorted(SortRule::Closest, records)
    }

    fn apply(&self, scan: Vec<AugmentedScan>) -> (out: Vec<AugmentedScan>) {
        ordering::sort_records(SortRule::Closest, scan)
    }
}

/// Protocol that prioritizes the furthest point with enemies.
#[derive(Clone, Copy, Debug)]
pub struct FurthestEnemies;

impl Protocol for FurthestEnemies {
    open spec fn spec_apply(&self, records: Seq<AugmentedScan>) -> Seq<AugmentedScan> {
        ordering::stable_sorted(SortRule::Furthest, records)
    }

    fn apply(&self, scan: Vec<AugmentedScan>) -> (out: Vec<AugmentedScan>) {
        ordering::sort_records(SortRule::Furthest, scan)
    }
}

/// Protocol that prioritizes points with fewer allies, and puts points
/// with no reported allies last.
#[derive(Clone, Copy, Debug)]
pub struct AssistAllies;

impl Protocol for AssistAllies {
    open spec fn spec_apply(&self, records: Seq<AugmentedScan>) -> Seq<AugmentedScan> {
        ordering::stable_sorted(SortRule::Allies, records)
    }

    fn apply(&self, scan: Vec<AugmentedScan>) -> (out: Vec<AugmentedScan>) {
        ordering::sort_records(SortRule::Allies, scan)
    }
}

/// Protocol that prioritizes points with mech enemies.
#[derive(Clone, Copy, Debug)]
pub struct PrioritizeMech;

impl Protocol for PrioritizeMech {
    open spec fn spec_apply(&self, records: Seq<AugmentedScan>) -> Seq<AugmentedScan> {
        ordering::stable_sorted(SortRule::Mech, records)
    }

    fn apply(&self, scan: Vec<AugmentedScan>) -> (out: Vec<AugmentedScan>) {
        ordering::sort_records(SortRule::Mech, scan)
    }
}

/// Protocol that avoids attacking mech enemies.
#[derive(Clone, Copy, Debug)]
pub struct AvoidMech;

impl Protocol for AvoidMech {
    open spec fn spec_apply(&self, records: Seq<AugmentedScan>) -> Seq<AugmentedScan> {
        filtering::kept(FilterRule::NotMech, records)
    }

    fn apply(&self, scan: Vec<AugmentedScan>) -> (out: Vec<AugmentedScan>) {
        filtering::filter_records(FilterRule::NotMech, scan)
    }
}

/// Protocol that avoids attacking enemies being attacked by allies.
#[derive(Clone, Copy, Debug)]
pub struct AvoidCrossfire;

impl Protocol for AvoidCrossfire {
    open spec fn spec_apply(&self, records: Seq<AugmentedScan>) -> Seq<AugmentedScan> {
        filtering::kept(FilterRule::NoAllies, records)
    }

    fn apply(&self, scan: Vec<AugmentedScan>) -> (out: Vec<AugmentedScan>) {
        filtering::filter_records(FilterRule::NoAllies, scan)
    }
}

/// One stage of a pipeline: the concrete protocols as a closed set, so a
/// pipeline can hold any mix of them and a match can dispatch.
#[derive(Clone, Copy, Debug)]
pub enum ProtocolStep {
    /// The mandatory range filter.
    IgnoreOutOfRange(IgnoreOutOfRange),
    /// Ascending by distance.
    ClosestEnemies(ClosestEnemies),
    /// Descending by distance.
    FurthestEnemies(FurthestEnemies),
    /// Ascending by allied-unit count.
    AssistAllies(AssistAllies),
    /// Mechs first.
    PrioritizeMech(PrioritizeMech),
    /// Mechs dropped.
    AvoidMech(AvoidMech),
    /// Records with allies present dropped.
    AvoidCrossfire(AvoidCrossfire),
}

impl Protocol for ProtocolStep {
    open spec fn spec_apply(&self, records: Seq<AugmentedScan>) -> Seq<AugmentedScan> {
        match self {
            ProtocolStep::IgnoreOutOfRange(p) => p.spec_apply(records),
            ProtocolStep::ClosestEnemies(p) => p.spec_apply(records),
            ProtocolStep::FurthestEnemies(p) => p.spec_apply(records),
            ProtocolStep::AssistAllies(p) => p.spec_apply(records),
            ProtocolStep::PrioritizeMech(p) => p.spec_apply(records),
            ProtocolStep::AvoidMech(p) => p.spec_apply(records),
            ProtocolStep::AvoidCrossfire(p) => p.spec_apply(records),
        }
    }

    fn apply(&self, scan: Vec<AugmentedScan>) -> (out: Vec<AugmentedScan>) {
        match self {
            ProtocolStep::IgnoreOutOfRange(p) => p.apply(scan),
            ProtocolStep::ClosestEnemies(p) => p.apply(scan),
            ProtocolStep::FurthestEnemies(p) => p.apply(scan),
            ProtocolStep::AssistAllies(p) => p.apply(scan),
            ProtocolStep::PrioritizeMech(p) => p.apply(scan),
            ProtocolStep::AvoidMech(p) => p.apply(scan),
            ProtocolStep::AvoidCrossfire(p) => p.apply(scan),
        }
    }
}

/// The records left after threading `records` through every step, in
/// order: the first step's output feeds the second step's input.
pub open spec fn apply_all(steps: Seq<ProtocolStep>, records: Seq<AugmentedScan>) -> Seq<
    AugmentedScan,
>
    decreases steps.len(),
{
    if steps.len() == 0 {
        records
    } else {
        apply_all(steps.drop_first(), steps.first().spec_apply(records))
    }
}

/// Running one more step after a pipeline is that step applied to the
/// pipeline's output.
pub proof fn lemma_apply_all_snoc(steps: Seq<ProtocolStep>, step: ProtocolStep, records: Seq<
    AugmentedScan,
>)
    ensures
        apply_all(steps.push(step), records) == step.spec_apply(apply_all(steps, records)),
    decreases steps.len(),
{
    let whole = steps.push(step);
    assert(whole.len() == steps.len() + 1);
    assert(apply_all(whole, records) == apply_all(
        whole.drop_first(),
        whole.first().spec_apply(records),
    ));
    if steps.len() == 0 {
        assert(whole.drop_first() =~= Seq::<ProtocolStep>::empty());
        assert(whole.first() == step);
        assert(apply_all(whole.drop_first(), step.spec_apply(records)) == step.spec_apply(
            records,
        ));
        assert(apply_all(steps, records) == records);
    } else {
        assert(whole.first() == steps.first());
        assert(whole.drop_first() =~= steps.drop_first().push(step));
        lemma_apply_all_snoc(steps.drop_first(), step, steps.first().spec_apply(records));
        assert(apply_all(steps, records) == apply_all(
            steps.drop_first(),
            steps.first().spec_apply(records),
        ));
    }
}

/// No step invents a record: whatever one stage hands on was in the
/// stage's input.
pub proof fn lemma_step_membership(step: ProtocolStep, records: Seq<AugmentedScan>, x: AugmentedScan)
    requires
        step.spec_apply(records).contains(x),
    ensures
        records.contains(x),
{
    match step {
        ProtocolStep::IgnoreOutOfRange(p) => {
            assert(filtering::kept(FilterRule::MaxRange(p.range), records).contains(x));
            filtering::lemma_kept_membership(FilterRule::MaxRange(p.range), records, x);
        },
        ProtocolStep::AvoidMech(_) => {
            assert(filtering::kept(FilterRule::NotMech, records).contains(x));
            filtering::lemma_kept_membership(FilterRule::NotMech, records, x);
        },
        ProtocolStep::AvoidCrossfire(_) => {
            assert(filtering::kept(FilterRule::NoAllies, records).contains(x));
            filtering::lemma_kept_membership(FilterRule::NoAllies, records, x);
        },
        ProtocolStep::ClosestEnemies(_) => {
            assert(ordering::stable_sorted(SortRule::Closest, records).contains(x));
            ordering::lemma_stable_sorted_membership(SortRule::Closest, records, x);
        },
        ProtocolStep::FurthestEnemies(_) => {
            assert(ordering::stable_sorted(SortRule::Furthest, records).contains(x));
            ordering::lemma_stable_sorted_membership(SortRule::Furthest, records, x);
        },
        ProtocolStep::AssistAllies(_) => {
            assert(ordering::stable_sorted(SortRule::Allies, records).contains(x));
            ordering::lemma_stable_sorted_membership(SortRule::Allies, records, x);
        },
        ProtocolStep::PrioritizeMech(_) => {
            assert(ordering::stable_sorted(SortRule::Mech, records).contains(x));
            ordering::lemma_stable_sorted_membership(SortRule::Mech, records, x);
        },
    }
}

/// No step grows the sequence: a protocol may drop or reorder records,
/// never add any.
pub proof fn lemma_step_len(step: ProtocolStep, records: Seq<AugmentedScan>)
    ensures
        step.spec_apply(records).len() <= records.len(),
{
    match step {
        ProtocolStep::IgnoreOutOfRange(p) => {
            filtering::lemma_kept_props(FilterRule::MaxRange(p.range), records);
        },
        ProtocolStep::AvoidMech(_) => {
            filtering::lemma_kept_props(FilterRule::NotMech, records);
        },
        ProtocolStep::AvoidCrossfire(_) => {
            filtering::lemma_kept_props(FilterRule::NoAllies, records);
        },
        ProtocolStep::ClosestEnemies(_) => {
            ordering::lemma_stable_sorted_props(SortRule::Closest, records);
        },
        ProtocolStep::FurthestEnemies(_) => {
            ordering::lemma_stable_sorted_props(SortRule::Furthest, records);
        },
        ProtocolStep::AssistAllies(_) => {
            ordering::lemma_stable_sorted_props(SortRule::Allies, records);
        },
        ProtocolStep::PrioritizeMech(_) => {
            ordering::lemma_stable_sorted_props(SortRule::Mech, records);
        },
    }
}

/// No pipeline grows the sequence; in particular an empty scan list
/// comes out empty.
pub proof fn lemma_apply_all_len(steps: Seq<ProtocolStep>, records: Seq<AugmentedScan>)
    ensures
        apply_all(steps, records).len() <= records.len(),
    decreases steps.len(),
{
    if steps.len() == 0 {
    } else {
        lemma_step_len(steps.first(), records);
        lemma_apply_all_len(steps.drop_first(), steps.first().spec_apply(records));
    }
}

/// No pipeline invents a record: whatever comes out went in.
pub proof fn lemma_apply_all_membership(steps: Seq<ProtocolStep>, records: Seq<AugmentedScan>, x: AugmentedScan)
    requires
        apply_all(steps, records).contains(x),
    ensures
        records.contains(x),
    decreases steps.len(),
{
    if steps.len() == 0 {
    } else {
        lemma_apply_all_membership(steps.drop_first(), steps.first().spec_apply(records), x);
        lemma_step_membership(steps.first(), records, x);
    }
}

/// A collection of combined protocols, applied in order.
#[derive(Debug)]
pub struct Protocols {
    /// The stages, first to last.
    pub protocols: Vec<ProtocolStep>,
}

impl Protocols {
    /// A pipeline out of the given stages, kept in the given order.
    pub fn new(protocols: Vec<ProtocolStep>) -> (r: Self)
        ensures
            r.protocols == protocols,
    {
        Self { protocols }
    }
}

impl Protocol for Protocols {
    open spec fn spec_apply(&self, records: Seq<AugmentedScan>) -> Seq<AugmentedScan> {
        apply_all(self.protocols@, records)
    }

    fn apply(&self, scan: Vec<AugmentedScan>) -> (out: Vec<AugmentedScan>) {
        let ghost all = scan@;
        let mut current = scan;
        let mut i: usize = 0;
        while i < self.protocols.len()
            invariant
                i <= self.protocols@.len(),
                current@ == apply_all(self.protocols@.subrange(0, i as int), all),
            decreases self.protocols@.len() - i,
        {
            let step = self.protocols[i];
            current = step.apply(current);
            proof {
                let done = self.protocols@.subrange(0, i as int);
                assert(self.protocols@.subrange(0, i + 1 as int) =~= done.push(
                    self.protocols@[i as int],
                ));
                lemma_apply_all_snoc(done, self.protocols@[i as int], all);
            }
            i = i + 1;
        }
        proof {
            assert(self.protocols@.subrange(0, self.protocols@.len() as int) =~= self.protocols@);
        }
        current
    }
}

} // verus!
