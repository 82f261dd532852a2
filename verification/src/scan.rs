//! Radar scan records and their distance-augmented form.

use vstd::prelude::*;

use crate::distance;
use crate::enemies::Enemies;

verus! {

/// Coordinates of a radar scan object.
#[derive(Clone, Copy, Debug, PartialEq, Eq, Structural)]
pub struct Coordinates {
    /// The X coordinate.
    pub x: i32,
    /// The Y coordinate.
    pub y: i32,
}

/// Denotes a radar scan, which yields the enemies residing at a given
/// coordinate.
#[derive(Clone, Copy, Debug)]
pub struct Scan {
    /// Coordinates of the radar scan.
    pub coordinates: Coordinates,
    /// Enemies residing at that coordinate.
    pub enemies: Enemies,
    /// Allies residing at that coordinate, when any were seen.
    pub allies: Option<u32>,
}

/// A radar scan together with its precomputed distance to the origin.
#[derive(Clone, Copy, Debug)]
pub struct AugmentedScan {
    /// The underlying scan.
    pub scan: Scan,
    /// The distance from the scan's coordinates to the origin.
    pub distance: u32,
}

/// The augmented form of one scan: the record paired with its distance
/// to the origin.
pub open spec fn augmented(scan: Scan) -> AugmentedScan {
    AugmentedScan { scan, distance: distance::spec_to_origin(scan.coordinates) as u32 }
}

/// The augmented form of a whole scan list, in the same order.
pub open spec fn augmented_all(scans: Seq<Scan>) -> Seq<AugmentedScan> {
    scans.map_values(|scan: Scan| augmented(scan))
}

impl AugmentedScan {
    /// The stored distance is in fact the distance of the stored scan's
    /// coordinates to the origin.
    pub open spec fn wf(self) -> bool {
        self == augmented(self.scan)
    }

    /// Return the distance from this scan to the origin.
    pub fn distance(&self) -> (r: u32)
        ensures
            r == self.distance,
    {
        self.distance
    }

    /// Return a reference to the underlying scan.
    pub fn scan(&self) -> (r: &Scan)
        ensures
            r == self.scan,
    {
        &self.scan
    }
}

impl From<Scan> for AugmentedScan {
    /// Pair the scan with its distance to the origin, computed once here.
    fn from(scan: Scan) -> (r: Self)
        ensures
            r == augmented(scan),
            r.wf(),
    {
        let distance = distance::to_origin(&scan.coordinates);
        Self { scan, distance }
    }
}

impl vstd::std_specs::convert::FromSpecImpl<Scan> for AugmentedScan {
    open spec fn obeys_from_spec() -> bool {
        true
    }

    open spec fn from_spec(scan: Scan) -> Self {
        augmented(scan)
    }
}

} // verus!
