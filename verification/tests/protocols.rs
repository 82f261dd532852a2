use yvh::AssistAllies;
use yvh::AugmentedScan;
use yvh::AvoidCrossfire;
use yvh::AvoidMech;
use yvh::ClosestEnemies;
use yvh::Coordinates;
use yvh::Enemies;
use yvh::EnemyKind;
use yvh::FurthestEnemies;
use yvh::IgnoreOutOfRange;
use yvh::PrioritizeMech;
use yvh::Protocol;
use yvh::Scan;

#[test]
fn test_ignore_out_of_range_protocol() {
    let scan = vec![
        AugmentedScan::from(Scan {
            coordinates: Coordinates { x: 3, y: 3 },
            enemies: Enemies {
                kind: EnemyKind::Soldier,
                number: 2,
            },
            allies: None,
        }),
        AugmentedScan::from(Scan {
            coordinates: Coordinates { x: 5, y: 5 },
            enemies: Enemies {
                kind: EnemyKind::Soldier,
                number: 2,
            },
            allies: None,
        }),
    ];
    let protocol = IgnoreOutOfRange::new(5);

    assert_eq!(1, protocol.apply(scan).len());
}

#[test]
fn test_closest_enemies_protocol() {
    let scan = vec![
        AugmentedScan::from(Scan {
            coordinates: Coordinates { x: 5, y: 35 },
            enemies: Enemies {
                kind: EnemyKind::Soldier,
                number: 10,
            },
            allies: None,
        }),
        AugmentedScan::from(Scan {
            coordinates: Coordinates { x: 10, y: 30 },
            enemies: Enemies {
                kind: EnemyKind::Soldier,
                number: 20,
            },
            allies: None,
        }),
    ];
    let protocol = ClosestEnemies;
    let distances = protocol
        .apply(scan)
        .into_iter()
        .map(|scan| scan.distance())
        .collect::<Vec<_>>();

    assert_eq!(vec![31, 35], distances);
}

#[test]
fn test_furthest_enemies_protocol() {
    let scan = vec![
        AugmentedScan::from(Scan {
            coordinates: Coordinates { x: 5, y: 35 },
            enemies: Enemies {
                kind: EnemyKind::Soldier,
                number: 10,
            },
            allies: None,
        }),
        AugmentedScan::from(Scan {
            coordinates: Coordinates { x: 10, y: 30 },
            enemies: Enemies {
                kind: EnemyKind::Soldier,
                number: 20,
            },
            allies: None,
        }),
    ];
    let protocol = FurthestEnemies;
    let distances = protocol
        .apply(scan)
        .into_iter()
        .map(|scan| scan.distance())
        .collect::<Vec<_>>();

    assert_eq!(vec![35, 31], distances);
}

#[test]
fn test_assist_allies_protocol() {
    let scan = vec![
        AugmentedScan::from(Scan {
            coordinates: Coordinates { x: 5, y: 35 },
            enemies: Enemies {
                kind: EnemyKind::Soldier,
                number: 10,
            },
            allies: Some(3),
        }),
        AugmentedScan::from(Scan {
            coordinates: Coordinates { x: 10, y: 30 },
            enemies: Enemies {
                kind: EnemyKind::Soldier,
                number: 20,
            },
            allies: None,
        }),
    ];
    let protocol = AssistAllies;
    let results = protocol.apply(scan);
    let first = results.first().unwrap();

    assert_eq!(5, first.scan().coordinates.x);
    assert_eq!(35, first.scan().coordinates.y);
}

#[test]
fn test_prioritize_mech_protocol() {
    let scan = vec![
        AugmentedScan::from(Scan {
            coordinates: Coordinates { x: 0, y: 40 },
            enemies: Enemies {
                kind: EnemyKind::Soldier,
                number: 10,
            },
            allies: None,
        }),
        AugmentedScan::from(Scan {
            coordinates: Coordinates { x: 0, y: 80 },
            enemies: Enemies {
                kind: EnemyKind::Mech,
                number: 1,
            },
            allies: Some(5),
        }),
    ];
    let protocol = PrioritizeMech;
    let results = protocol.apply(scan);
    let first = results.first().unwrap();

    assert_eq!(0, first.scan().coordinates.x);
    assert_eq!(80, first.scan().coordinates.y);
}

#[test]
fn test_avoid_mech_protocol() {
    let scan = vec![
        AugmentedScan::from(Scan {
            coordinates: Coordinates { x: 0, y: 40 },
            enemies: Enemies {
                kind: EnemyKind::Soldier,
                number: 10,
            },
            allies: None,
        }),
        AugmentedScan::from(Scan {
            coordinates: Coordinates { x: 0, y: 80 },
            enemies: Enemies {
                kind: EnemyKind::Mech,
                number: 1,
            },
            allies: Some(5),
        }),
    ];
    let protocol = AvoidMech;
    let results = protocol.apply(scan);
    let first = results.first().unwrap();

    assert_eq!(0, first.scan().coordinates.x);
    assert_eq!(40, first.scan().coordinates.y);
}

#[test]
fn test_avoid_crossfire_protocol() {
    let scan = vec![
        AugmentedScan::from(Scan {
            coordinates: Coordinates { x: 5, y: 35 },
            enemies: Enemies {
                kind: EnemyKind::Soldier,
                number: 10,
            },
            allies: Some(3),
        }),
        AugmentedScan::from(Scan {
            coordinates: Coordinates { x: 35, y: 5 },
            enemies: Enemies {
                kind: EnemyKind::Soldier,
                number: 20,
            },
            allies: None,
        }),
    ];
    let protocol = AvoidCrossfire;
    let results = protocol.apply(scan);
    let first = results.first().unwrap();

    assert_eq!(35, first.scan().coordinates.x);
    assert_eq!(5, first.scan().coordinates.y);
}
