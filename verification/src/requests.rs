//! The request a caller hands to the engine, with the named protocol
//! identifiers the boundary accepts.

use vstd::prelude::*;

verus! {

/// Scan request: the records of one sensor sweep and the protocols the
/// caller selected, in the order they are to run.
pub struct Scan {
    /// The scan records.
    pub scan: Vec<crate::scan::Scan>,
    /// The requested protocols, in order.
    pub protocols: Vec<ProtocolName>,
}

/// Protocol names that can be used in requests.
#[derive(Clone, Copy, Debug, PartialEq, Eq, Structural)]
pub enum ProtocolName {
    /// Ascending by distance.
    ClosestEnemies,
    /// Descending by distance.
    FurthestEnemies,
    /// Ascending by allied-unit count.
    AssistAllies,
    /// Records with allies present dropped.
    AvoidCrossfire,
    /// Mechs first.
    PrioritizeMech,
    /// Mechs dropped.
    AvoidMech,
}

/// The protocol a string identifier names, or nothing for an
/// unrecognized identifier.
pub open spec fn spec_parse_protocol(name: Seq<char>) -> Option<ProtocolName> {
    if name == "closest-enemies"@ {
        Some(ProtocolName::ClosestEnemies)
    } else if name == "furthest-enemies"@ {
        Some(ProtocolName::FurthestEnemies)
    } else if name == "assist-allies"@ {
        Some(ProtocolName::AssistAllies)
    } else if name == "avoid-crossfire"@ {
        Some(ProtocolName::AvoidCrossfire)
    } else if name == "prioritize-mech"@ {
        Some(ProtocolName::PrioritizeMech)
    } else if name == "avoid-mech"@ {
        Some(ProtocolName::AvoidMech)
    } else {
        None
    }
}

impl ProtocolName {
    /// Resolve a string identifier to the protocol name it denotes.
    pub fn parse(name: &String) -> (r: Option<ProtocolName>)
        ensures
            r == spec_parse_protocol(name@),
    {
        if *name == "closest-enemies".to_owned() {
            Some(ProtocolName::ClosestEnemies)
        } else if *name == "furthest-enemies".to_owned() {
            Some(ProtocolName::FurthestEnemies)
        } else if *name == "assist-allies".to_owned() {
            Some(ProtocolName::AssistAllies)
        } else if *name == "avoid-crossfire".to_owned() {
            Some(ProtocolName::AvoidCrossfire)
        } else if *name == "prioritize-mech".to_owned() {
            Some(ProtocolName::PrioritizeMech)
        } else if *name == "avoid-mech".to_owned() {
            Some(ProtocolName::AvoidMech)
        } else {
            None
        }
    }
}

} // verus!
