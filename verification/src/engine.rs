//! The engine: building the pipeline for a request and selecting the
//! top-priority target.

use vstd::prelude::*;

use crate::filtering;
use crate::filtering::FilterRule;
use crate::protocols;
use crate::protocols::AssistAllies;
use crate::protocols::AvoidCrossfire;
use crate::protocols::AvoidMech;
use crate::protocols::ClosestEnemies;
use crate::protocols::FurthestEnemies;
use crate::protocols::IgnoreOutOfRange;
use crate::protocols::PrioritizeMech;
use crate::protocols::Protocol;
use crate::protocols::ProtocolStep;
use crate::protocols::Protocols;
use crate::requests;
use crate::requests::ProtocolName;
use crate::requests::spec_parse_protocol;
use crate::scan::AugmentedScan;
use crate::scan::Coordinates;
use crate::scan::Scan;
use crate::scan::augmented_all;

verus! {

/// Enemies outside of this range will be ignored, whatever else a
/// request asks for.
pub const MAX_ATTACK_RANGE: u32 = 100;

/// Why a request yields no coordinate.
#[derive(Clone, Copy, Debug, PartialEq, Eq, Structural)]
pub enum SelectionError {
    /// A requested protocol name matches none of the recognized
    /// identifiers; noticed while the pipeline is built, before any
    /// record is touched.
    UnknownProtocol,
    /// Every record was filtered out, or the scan list was empty.
    NoEligibleTarget,
}

/// The pipeline stage a protocol name selects.
pub open spec fn spec_protocol_by_name(name: ProtocolName) -> ProtocolStep {
    match name {
        ProtocolName::ClosestEnemies => ProtocolStep::ClosestEnemies(ClosestEnemies),
        ProtocolName::FurthestEnemies => ProtocolStep::FurthestEnemies(FurthestEnemies),
        ProtocolName::AssistAllies => ProtocolStep::AssistAllies(AssistAllies),
        ProtocolName::AvoidCrossfire => ProtocolStep::AvoidCrossfire(AvoidCrossfire),
        ProtocolName::PrioritizeMech => ProtocolStep::PrioritizeMech(PrioritizeMech),
        ProtocolName::AvoidMech => ProtocolStep::AvoidMech(AvoidMech),
    }
}

/// Return the concrete protocol for the specified protocol name.
pub fn get_protocol_by_name(name: ProtocolName) -> (r: ProtocolStep)
    ensures
        r == spec_protocol_by_name(name),
{
    match name {
        ProtocolName::ClosestEnemies => ProtocolStep::ClosestEnemies(ClosestEnemies),
        ProtocolName::FurthestEnemies => ProtocolStep::FurthestEnemies(FurthestEnemies),
        ProtocolName::AssistAllies => ProtocolStep::AssistAllies(AssistAllies),
        ProtocolName::AvoidCrossfire => ProtocolStep::AvoidCrossfire(AvoidCrossfire),
        ProtocolName::PrioritizeMech => ProtocolStep::PrioritizeMech(PrioritizeMech),
        ProtocolName::AvoidMech => ProtocolStep::AvoidMech(AvoidMech),
    }
}

/// The stages the caller requested, in the order given.
pub open spec fn requested_steps(names: Seq<ProtocolName>) -> Seq<ProtocolStep> {
    names.map_values(|n: ProtocolName| spec_protocol_by_name(n))
}

/// The whole pipeline of a request: the mandatory range filter first,
/// then the requested stages in order.
pub open spec fn pipeline_steps(names: Seq<ProtocolName>) -> Seq<ProtocolStep> {
    seq![ProtocolStep::IgnoreOutOfRange(IgnoreOutOfRange { range: MAX_ATTACK_RANGE })]
        + requested_steps(names)
}

/// The records that survive a request's pipeline, in their final order.
pub open spec fn pipeline_result(scans: Seq<Scan>, names: Seq<ProtocolName>) -> Seq<
    AugmentedScan,
> {
    protocols::apply_all(pipeline_steps(names), augmented_all(scans))
}

/// What a request selects: the coordinates of the first record that
/// survives the pipeline, or `NoEligibleTarget` when none does.
pub open spec fn spec_select(scans: Seq<Scan>, names: Seq<ProtocolName>) -> Result<
    Coordinates,
    SelectionError,
> {
    let survivors = pipeline_result(scans, names);
    if survivors.len() == 0 {
        Err(SelectionError::NoEligibleTarget)
    } else {
        Ok(survivors[0].scan.coordinates)
    }
}

/// Augment every record of a request with its distance and build the
/// request's pipeline.
pub fn extract_scan_request(request: requests::Scan) -> (r: (Vec<AugmentedScan>, Protocols))
    ensures
        r.0@ == augmented_all(request.scan@),
        r.1.protocols@ == pipeline_steps(request.protocols@),
{
    let requests::Scan { scan, protocols } = request;
    let mut records: Vec<AugmentedScan> = Vec::new();
    let mut i: usize = 0;
    while i < scan.len()
        invariant
            i <= scan@.len(),
            records@ == augmented_all(scan@.subrange(0, i as int)),
        decreases scan@.len() - i,
    {
        records.push(AugmentedScan::from(scan[i]));
        proof {
            assert(augmented_all(scan@.subrange(0, i + 1 as int)) =~= augmented_all(
                scan@.subrange(0, i as int),
            ).push(crate::scan::augmented(scan@[i as int])));
        }
        i = i + 1;
    }
    let mut steps: Vec<ProtocolStep> = Vec::new();
    steps.push(ProtocolStep::IgnoreOutOfRange(IgnoreOutOfRange::new(MAX_ATTACK_RANGE)));
    let mut j: usize = 0;
    while j < protocols.len()
        invariant
            j <= protocols@.len(),
            steps@ == pipeline_steps(protocols@.subrange(0, j as int)),
        decreases protocols@.len() - j,
    {
        steps.push(get_protocol_by_name(protocols[j]));
        proof {
            assert(pipeline_steps(protocols@.subrange(0, j + 1 as int)) =~= pipeline_steps(
                protocols@.subrange(0, j as int),
            ).push(spec_protocol_by_name(protocols@[j as int])));
        }
        j = j + 1;
    }
    proof {
        assert(scan@.subrange(0, scan@.len() as int) =~= scan@);
        assert(protocols@.subrange(0, protocols@.len() as int) =~= protocols@);
    }
    (records, Protocols::new(steps))
}

/// Apply a request's pipeline and select the top-priority target's
/// coordinates; with no surviving record the outcome is
/// `NoEligibleTarget`, never a crash.
pub fn select_target(request: requests::Scan) -> (r: Result<Coordinates, SelectionError>)
    ensures
        r == spec_select(request.scan@, request.protocols@),
{
    let ghost scans = request.scan@;
    let ghost names = request.protocols@;
    let (records, pipeline) = extract_scan_request(request);
    let survivors = pipeline.apply(records);
    proof {
        assert(survivors@ == pipeline_result(scans, names));
    }
    if survivors.len() == 0 {
        Err(SelectionError::NoEligibleTarget)
    } else {
        Ok(survivors[0].scan.coordinates)
    }
}

/// No record outside the mandatory attack range survives any pipeline,
/// whatever other protocols a request asks for.
pub proof fn lemma_out_of_range_never_selected(
    scans: Seq<Scan>,
    names: Seq<ProtocolName>,
    x: AugmentedScan,
)
    requires
        pipeline_result(scans, names).contains(x),
    ensures
        x.distance <= MAX_ATTACK_RANGE,
{
    let aug = augmented_all(scans);
    let steps = pipeline_steps(names);
    let range_step = ProtocolStep::IgnoreOutOfRange(IgnoreOutOfRange { range: MAX_ATTACK_RANGE });
    assert(steps.first() == range_step);
    assert(steps.drop_first() =~= requested_steps(names));
    assert(protocols::apply_all(steps, aug) == protocols::apply_all(
        requested_steps(names),
        range_step.spec_apply(aug),
    ));
    protocols::lemma_apply_all_membership(requested_steps(names), range_step.spec_apply(aug), x);
    assert(filtering::kept(FilterRule::MaxRange(MAX_ATTACK_RANGE), aug).contains(x));
    filtering::lemma_kept_membership(FilterRule::MaxRange(MAX_ATTACK_RANGE), aug, x);
}

/// Whatever a pipeline hands back is an input record carrying its true
/// distance: the augmentation of one of the request's scans.
pub proof fn lemma_survivor_is_an_input_record(
    scans: Seq<Scan>,
    names: Seq<ProtocolName>,
    x: AugmentedScan,
)
    requires
        pipeline_result(scans, names).contains(x),
    ensures
        x.wf(),
        exists|i: int| 0 <= i < scans.len() && x == crate::scan::augmented(#[trigger] scans[i]),
{
    protocols::lemma_apply_all_membership(pipeline_steps(names), augmented_all(scans), x);
    let aug = augmented_all(scans);
    let i = aug.index_of(x);
    assert(aug[i] == crate::scan::augmented(scans[i]));
}

/// An empty scan list yields `NoEligibleTarget`, whatever protocols the
/// request asks for.
pub proof fn lemma_empty_scan_yields_no_eligible_target(names: Seq<ProtocolName>)
    ensures
        spec_select(Seq::empty(), names) == Err::<Coordinates, SelectionError>(
            SelectionError::NoEligibleTarget,
        ),
{
    protocols::lemma_apply_all_len(pipeline_steps(names), augmented_all(Seq::empty()));
}

/// What a list of string identifiers names: the protocol of each, or
/// nothing as soon as any identifier is unrecognized.
pub open spec fn spec_parse_names(names: Seq<String>) -> Option<Seq<ProtocolName>>
    decreases names.len(),
{
    if names.len() == 0 {
        Some(Seq::empty())
    } else {
        match spec_parse_protocol(names.first()@) {
            None => None,
            Some(p) => match spec_parse_names(names.drop_first()) {
                None => None,
                Some(rest) => Some(seq![p] + rest),
            },
        }
    }
}

/// A list of identifiers resolves exactly when every identifier does,
/// and then element by element.
pub proof fn lemma_parse_names_characterization(names: Seq<String>)
    ensures
        (spec_parse_names(names) is Some) <==> (forall|j: int|
            0 <= j < names.len() ==> spec_parse_protocol(#[trigger] names[j]@) is Some),
        spec_parse_names(names) is Some ==> spec_parse_names(names).unwrap() == Seq::new(
            names.len(),
            |j: int| spec_parse_protocol(names[j]@).unwrap(),
        ),
    decreases names.len(),
{
    if names.len() == 0 {
        assert(spec_parse_names(names).unwrap() =~= Seq::new(
            names.len(),
            |j: int| spec_parse_protocol(names[j]@).unwrap(),
        ));
    } else {
        let rest = names.drop_first();
        lemma_parse_names_characterization(rest);
        assert(forall|j: int| 0 <= j < rest.len() ==> rest[j] == names[j + 1]);
        assert(names.first() == names[0]);
        if spec_parse_names(names) is Some {
            assert(spec_parse_protocol(names[0]@) is Some);
            assert(spec_parse_names(rest) is Some);
            assert forall|j: int| 0 <= j < names.len() implies spec_parse_protocol(
                #[trigger] names[j]@,
            ) is Some by {
                if j > 0 {
                    assert(spec_parse_protocol(rest[j - 1]@) is Some);
                }
            }
            assert(spec_parse_names(names).unwrap() =~= Seq::new(
                names.len(),
                |j: int| spec_parse_protocol(names[j]@).unwrap(),
            ));
        }
        if forall|j: int| 0 <= j < names.len() ==> spec_parse_protocol(#[trigger] names[j]@)
            is Some {
            assert(forall|j: int|
                0 <= j < rest.len() ==> spec_parse_protocol(#[trigger] rest[j]@) is Some);
            assert(spec_parse_names(rest) is Some);
            assert(spec_parse_protocol(names.first()@) is Some);
            assert(spec_parse_names(names) is Some);
        }
    }
}

/// What a request with string identifiers selects: `UnknownProtocol` as
/// soon as any identifier is unrecognized, else what the resolved
/// request selects.
pub open spec fn spec_select_by_names(scans: Seq<Scan>, names: Seq<String>) -> Result<
    Coordinates,
    SelectionError,
> {
    match spec_parse_names(names) {
        None => Err(SelectionError::UnknownProtocol),
        Some(ps) => spec_select(scans, ps),
    }
}

/// Resolve the requested protocol names and select the top-priority
/// target. An unrecognized name yields `UnknownProtocol` before any
/// record is touched.
pub fn select_target_by_names(scan: Vec<Scan>, names: Vec<String>) -> (r: Result<
    Coordinates,
    SelectionError,
>)
    ensures
        r == spec_select_by_names(scan@, names@),
{
    let mut parsed: Vec<ProtocolName> = Vec::new();
    let mut i: usize = 0;
    while i < names.len()
        invariant
            i <= names@.len(),
            parsed@.len() == i,
            forall|j: int| 0 <= j < i ==> spec_parse_protocol(#[trigger] names@[j]@) is Some,
            forall|j: int|
                0 <= j < i ==> parsed@[j] == spec_parse_protocol(#[trigger] names@[j]@).unwrap(),
        decreases names@.len() - i,
    {
        match ProtocolName::parse(&names[i]) {
            None => {
                proof {
                    lemma_parse_names_characterization(names@);
                }
                return Err(SelectionError::UnknownProtocol);
            },
            Some(p) => {
                parsed.push(p);
            },
        }
        i = i + 1;
    }
    proof {
        lemma_parse_names_characterization(names@);
        assert(parsed@ =~= Seq::new(
            names@.len(),
            |j: int| spec_parse_protocol(names@[j]@).unwrap(),
        ));
    }
    select_target(requests::Scan { scan, protocols: parsed })
}

} // verus!
