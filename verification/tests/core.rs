use yvh::distance::to_origin;
use yvh::Coordinates;

#[test]
fn test_distance_to_origin() {
    assert_eq!(2, to_origin(&Coordinates { x: 2, y: 2 }));
    assert_eq!(4, to_origin(&Coordinates { x: 3, y: 3 }));
}

#[test]
fn test_something() {
    assert!(true)
}

#[test]
fn test_distance_exact_values() {
    assert_eq!(5, to_origin(&Coordinates { x: 3, y: 4 }));
    assert_eq!(10, to_origin(&Coordinates { x: 6, y: 8 }));
    assert_eq!(1, to_origin(&Coordinates { x: 1, y: 1 }));
    assert_eq!(100, to_origin(&Coordinates { x: 0, y: 100 }));
    assert_eq!(0, to_origin(&Coordinates { x: 0, y: 0 }));
}

#[test]
fn test_distance_symmetry() {
    let d = to_origin(&Coordinates { x: 3, y: -4 });
    assert_eq!(d, to_origin(&Coordinates { x: -3, y: 4 }));
    assert_eq!(d, to_origin(&Coordinates { x: 3, y: 4 }));
    assert_eq!(5, d);
}

#[test]
fn test_distance_large_coordinates() {
    // The largest magnitudes: squaring must not overflow.
    let d = to_origin(&Coordinates { x: i32::MIN, y: i32::MIN });
    assert_eq!(3037000499, d);
    assert_eq!(2147483647, to_origin(&Coordinates { x: i32::MAX, y: 0 }));
}
