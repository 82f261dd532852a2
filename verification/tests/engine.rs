use yvh::engine::select_target;
use yvh::engine::select_target_by_names;
use yvh::engine::SelectionError;
use yvh::requests;
use yvh::requests::ProtocolName;
use yvh::AugmentedScan;
use yvh::AvoidMech;
use yvh::ClosestEnemies;
use yvh::Coordinates;
use yvh::Enemies;
use yvh::EnemyKind;
use yvh::FurthestEnemies;
use yvh::IgnoreOutOfRange;
use yvh::PrioritizeMech;
use yvh::Protocol;
use yvh::Scan;

fn soldier_at(x: i32, y: i32, allies: Option<u32>) -> Scan {
    Scan {
        coordinates: Coordinates { x, y },
        enemies: Enemies {
            kind: EnemyKind::Soldier,
            number: 10,
        },
        allies,
    }
}

fn mech_at(x: i32, y: i32, allies: Option<u32>) -> Scan {
    Scan {
        coordinates: Coordinates { x, y },
        enemies: Enemies {
            kind: EnemyKind::Mech,
            number: 1,
        },
        allies,
    }
}

#[test]
fn test_range_filter_twice_is_idempotent() {
    let records = vec![
        AugmentedScan::from(soldier_at(0, 30, None)),
        AugmentedScan::from(soldier_at(0, 90, None)),
        AugmentedScan::from(soldier_at(60, 60, None)),
        AugmentedScan::from(mech_at(0, 45, Some(2))),
    ];
    let protocol = IgnoreOutOfRange::new(50);
    let once = protocol.apply(records);
    let once_coords: Vec<(i32, i32)> = once
        .iter()
        .map(|r| (r.scan().coordinates.x, r.scan().coordinates.y))
        .collect();
    let twice = protocol.apply(once);
    let twice_coords: Vec<(i32, i32)> = twice
        .iter()
        .map(|r| (r.scan().coordinates.x, r.scan().coordinates.y))
        .collect();

    assert_eq!(vec![(0, 30), (0, 45)], once_coords);
    assert_eq!(once_coords, twice_coords);
}

#[test]
fn test_closest_and_furthest_are_reverses_without_ties() {
    // Distances 31, 35, 50, 80: pairwise distinct.
    let records = vec![
        AugmentedScan::from(soldier_at(10, 30, None)),
        AugmentedScan::from(soldier_at(5, 35, Some(1))),
        AugmentedScan::from(mech_at(30, 40, None)),
        AugmentedScan::from(mech_at(0, 80, Some(4))),
    ];
    let closest: Vec<u32> = ClosestEnemies
        .apply(records.clone())
        .iter()
        .map(|r| r.distance())
        .collect();
    let furthest: Vec<u32> = FurthestEnemies
        .apply(records)
        .iter()
        .map(|r| r.distance())
        .collect();

    assert_eq!(vec![31, 35, 50, 80], closest);
    let mut reversed = closest.clone();
    reversed.reverse();
    assert_eq!(reversed, furthest);
}

#[test]
fn test_assist_allies_ordering() {
    let with_three = AugmentedScan::from(soldier_at(1, 0, Some(3)));
    let with_five = AugmentedScan::from(soldier_at(2, 0, Some(5)));
    let without = AugmentedScan::from(soldier_at(3, 0, None));

    let results = yvh::AssistAllies.apply(vec![with_five, without, with_three]);
    let allies: Vec<Option<u32>> = results.iter().map(|r| r.scan().allies).collect();

    assert_eq!(vec![Some(3), Some(5), None], allies);
}

#[test]
fn test_prioritize_mech_is_stable() {
    let mech_a = AugmentedScan::from(mech_at(0, 10, None));
    let mech_b = AugmentedScan::from(mech_at(0, 20, None));

    let results = PrioritizeMech.apply(vec![mech_a, mech_b]);
    let ys: Vec<i32> = results.iter().map(|r| r.scan().coordinates.y).collect();

    // Two records the rule considers equal keep their input order.
    assert_eq!(vec![10, 20], ys);

    let soldier = AugmentedScan::from(soldier_at(0, 40, None));
    let mech = AugmentedScan::from(mech_at(0, 80, Some(5)));
    let results = PrioritizeMech.apply(vec![soldier, mech]);

    assert_eq!(80, results.first().unwrap().scan().coordinates.y);
}

#[test]
fn test_end_to_end_avoid_mech() {
    let request = requests::Scan {
        scan: vec![soldier_at(0, 40, None), mech_at(0, 80, Some(5))],
        protocols: vec![ProtocolName::AvoidMech],
    };

    assert_eq!(Ok(Coordinates { x: 0, y: 40 }), select_target(request));
}

#[test]
fn test_end_to_end_no_requested_protocols() {
    let request = requests::Scan {
        scan: vec![soldier_at(0, 40, None), mech_at(0, 80, Some(5))],
        protocols: vec![],
    };

    assert_eq!(Ok(Coordinates { x: 0, y: 40 }), select_target(request));
}

#[test]
fn test_out_of_range_record_is_never_selectable() {
    // Distance 200 exceeds the attack range; even the protocol that
    // prefers far records cannot select it.
    let request = requests::Scan {
        scan: vec![soldier_at(0, 200, None), soldier_at(0, 40, None)],
        protocols: vec![ProtocolName::FurthestEnemies],
    };
    assert_eq!(Ok(Coordinates { x: 0, y: 40 }), select_target(request));

    let request = requests::Scan {
        scan: vec![soldier_at(0, 200, None)],
        protocols: vec![],
    };
    assert_eq!(Err(SelectionError::NoEligibleTarget), select_target(request));
}

#[test]
fn test_unknown_protocol_name_is_rejected() {
    let result = select_target_by_names(
        vec![soldier_at(0, 40, None)],
        vec!["avoid-mech".to_owned(), "self-destruct".to_owned()],
    );

    assert_eq!(Err(SelectionError::UnknownProtocol), result);
}

#[test]
fn test_select_by_names_resolves_identifiers() {
    let result = select_target_by_names(
        vec![soldier_at(0, 40, None), mech_at(0, 80, Some(5))],
        vec!["avoid-mech".to_owned()],
    );

    assert_eq!(Ok(Coordinates { x: 0, y: 40 }), result);
}

#[test]
fn test_empty_scan_yields_no_eligible_target() {
    let request = requests::Scan {
        scan: vec![],
        protocols: vec![ProtocolName::ClosestEnemies],
    };

    assert_eq!(Err(SelectionError::NoEligibleTarget), select_target(request));
}

#[test]
fn test_fully_filtered_scan_yields_no_eligible_target() {
    let request = requests::Scan {
        scan: vec![mech_at(0, 40, None), mech_at(3, 4, Some(1))],
        protocols: vec![ProtocolName::AvoidMech],
    };

    assert_eq!(Err(SelectionError::NoEligibleTarget), select_target(request));
}

#[test]
fn test_avoid_mech_keeps_survivor_order() {
    let request_records = vec![
        AugmentedScan::from(soldier_at(0, 30, None)),
        AugmentedScan::from(mech_at(0, 10, None)),
        AugmentedScan::from(soldier_at(0, 20, Some(1))),
        AugmentedScan::from(mech_at(0, 50, Some(2))),
        AugmentedScan::from(soldier_at(0, 5, None)),
    ];
    let results = AvoidMech.apply(request_records);
    let ys: Vec<i32> = results.iter().map(|r| r.scan().coordinates.y).collect();

    assert_eq!(vec![30, 20, 5], ys);
}

#[test]
fn test_avoid_crossfire_removes_every_record_with_allies() {
    let request_records = vec![
        AugmentedScan::from(soldier_at(0, 30, Some(0))),
        AugmentedScan::from(mech_at(0, 10, None)),
        AugmentedScan::from(soldier_at(0, 20, Some(7))),
        AugmentedScan::from(soldier_at(0, 5, None)),
    ];
    let results = yvh::AvoidCrossfire.apply(request_records);
    let ys: Vec<i32> = results.iter().map(|r| r.scan().coordinates.y).collect();

    assert_eq!(vec![10, 5], ys);
}

#[test]
fn test_pipeline_composes_in_request_order() {
    // PreferMech then ClosestFirst: the final order is by distance, and
    // among equal distances the mech-first order would persist; here the
    // closest record wins outright.
    let request = requests::Scan {
        scan: vec![
            mech_at(0, 80, None),
            soldier_at(0, 40, None),
            mech_at(0, 60, None),
        ],
        protocols: vec![ProtocolName::PrioritizeMech, ProtocolName::ClosestEnemies],
    };

    assert_eq!(Ok(Coordinates { x: 0, y: 40 }), select_target(request));
}
