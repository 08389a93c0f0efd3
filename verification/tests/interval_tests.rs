use rustle::interval::Interval;
use rustle::interval::IntervalError;
use std::cmp::Ordering;

#[test]
fn new_good() {
    let intervals = vec![(-2, -1), (-1, -1), (-1, 0), (0, 0), (0, 1), (1, 1), (1, 2)];

    for (start, end) in intervals {
        let interval = Interval::new(start, end).unwrap();
        assert_eq!(interval.start, start);
        assert_eq!(interval.end, end);
    }
}

#[test]
fn new_bad() {
    let intervals = vec![(-1, -2), (0, -1), (1, 0), (2, 1)];

    for (start, end) in intervals {
        let error = Interval::new(start, end).unwrap_err();
        assert_eq!(IntervalError::StartEndRangeInvalid, error);
    }
}

#[test]
fn overlapping() {
    let a = Interval::new(0, 0).unwrap();
    let b = Interval::new(0, 0).unwrap();
    assert!(a.overlaps(&b));
    assert!(b.overlaps(&a));

    let a = Interval::new(-1, 0).unwrap();
    let b = Interval::new(0, 0).unwrap();
    assert!(a.overlaps(&b));
    assert!(b.overlaps(&a));

    let a = Interval::new(-1, 0).unwrap();
    let b = Interval::new(0, 1).unwrap();
    assert!(a.overlaps(&b));
    assert!(b.overlaps(&a));

    let a = Interval::new(0, 0).unwrap();
    let b = Interval::new(0, 1).unwrap();
    assert!(a.overlaps(&b));
    assert!(b.overlaps(&a));

    let a = Interval::new(0, 1).unwrap();
    let b = Interval::new(1, 1).unwrap();
    assert!(a.overlaps(&b));
    assert!(b.overlaps(&a));

    let a = Interval::new(0, 1).unwrap();
    let b = Interval::new(1, 2).unwrap();
    assert!(a.overlaps(&b));
    assert!(b.overlaps(&a));
}

#[test]
fn non_overlapping() {
    let a = Interval::new(-4, -3).unwrap();
    let b = Interval::new(-2, -1).unwrap();
    assert!(!a.overlaps(&b));

    let a = Interval::new(-3, -2).unwrap();
    let b = Interval::new(-1, 0).unwrap();
    assert!(!a.overlaps(&b));

    let a = Interval::new(-2, -1).unwrap();
    let b = Interval::new(0, 1).unwrap();
    assert!(!a.overlaps(&b));

    let a = Interval::new(-1, 0).unwrap();
    let b = Interval::new(1, 2).unwrap();
    assert!(!a.overlaps(&b));

    let a = Interval::new(0, 1).unwrap();
    let b = Interval::new(2, 3).unwrap();
    assert!(!a.overlaps(&b));
}

#[test]
fn merge_good() {
    let a = Interval::new(0, 0).unwrap();
    let b = Interval::new(0, 0).unwrap();
    let c = a.merge(&b).unwrap();
    assert_eq!(c.start, 0);
    assert_eq!(c.end, 0);

    let a = Interval::new(-3, -2).unwrap();
    let b = Interval::new(-2, -1).unwrap();
    let c = a.merge(&b).unwrap();
    assert_eq!(c.start, -3);
    assert_eq!(c.end, -1);

    let a = Interval::new(-2, -1).unwrap();
    let b = Interval::new(-1, 0).unwrap();
    let c = a.merge(&b).unwrap();
    assert_eq!(c.start, -2);
    assert_eq!(c.end, 0);

    let a = Interval::new(-1, 0).unwrap();
    let b = Interval::new(0, 1).unwrap();
    let c = a.merge(&b).unwrap();
    assert_eq!(c.start, -1);
    assert_eq!(c.end, 1);

    let a = Interval::new(0, 1).unwrap();
    let b = Interval::new(1, 2).unwrap();
    let c = a.merge(&b).unwrap();
    assert_eq!(c.start, 0);
    assert_eq!(c.end, 2);

    let a = Interval::new(1, 2).unwrap();
    let b = Interval::new(2, 3).unwrap();
    let c = a.merge(&b).unwrap();
    assert_eq!(c.start, 1);
    assert_eq!(c.end, 3);
}

#[test]
fn merge_bad() {
    let a = Interval::new(-1, -1).unwrap();
    let b = Interval::new(0, 0).unwrap();
    let c = a.merge(&b).unwrap_err();
    assert_eq!(IntervalError::NonOverlappingInterval, c);

    let a = Interval::new(0, 0).unwrap();
    let b = Interval::new(1, 1).unwrap();
    let c = a.merge(&b).unwrap_err();
    assert_eq!(IntervalError::NonOverlappingInterval, c);

    let a = Interval::new(-3, -2).unwrap();
    let b = Interval::new(-1, 0).unwrap();
    let c = a.merge(&b).unwrap_err();
    assert_eq!(IntervalError::NonOverlappingInterval, c);

    let a = Interval::new(-2, -1).unwrap();
    let b = Interval::new(0, 1).unwrap();
    let c = a.merge(&b).unwrap_err();
    assert_eq!(IntervalError::NonOverlappingInterval, c);

    let a = Interval::new(-1, 0).unwrap();
    let b = Interval::new(1, 2).unwrap();
    let c = a.merge(&b).unwrap_err();
    assert_eq!(IntervalError::NonOverlappingInterval, c);

    let a = Interval::new(0, 1).unwrap();
    let b = Interval::new(2, 3).unwrap();
    let c = a.merge(&b).unwrap_err();
    assert_eq!(IntervalError::NonOverlappingInterval, c);

    let a = Interval::new(1, 2).unwrap();
    let b = Interval::new(3, 4).unwrap();
    let c = a.merge(&b).unwrap_err();
    assert_eq!(IntervalError::NonOverlappingInterval, c);
}

#[test]
fn new_exact_bounds() {
    let interval = Interval::new(1, 10).unwrap();
    assert_eq!(interval.start, 1);
    assert_eq!(interval.end, 10);

    let interval = Interval::new(i128::MIN, i128::MAX).unwrap();
    assert_eq!(interval.start, i128::MIN);
    assert_eq!(interval.end, i128::MAX);
}

#[test]
fn overlap_symmetry_pairs() {
    let bounds = vec![(-3, -1), (-2, 2), (0, 0), (0, 3), (2, 5), (6, 7)];
    for &(s1, e1) in &bounds {
        for &(s2, e2) in &bounds {
            let a = Interval::new(s1, e1).unwrap();
            let b = Interval::new(s2, e2).unwrap();
            assert_eq!(a.overlaps(&b), b.overlaps(&a));
        }
    }
}

#[test]
fn merge_keeps_left_start_and_right_end() {
    let a = Interval::new(-5, 0).unwrap();
    let b = Interval::new(-1, 7).unwrap();
    let merged = a.merge(&b).unwrap();
    assert_eq!(merged.start, -5);
    assert_eq!(merged.end, 7);
}

#[test]
fn partial_order_of_intervals() {
    let a = Interval::new(0, 1).unwrap();
    let b = Interval::new(3, 4).unwrap();
    let c = Interval::new(1, 3).unwrap();
    assert_eq!(a.partial_cmp(&b), Some(Ordering::Less));
    assert_eq!(b.partial_cmp(&a), Some(Ordering::Greater));
    assert_eq!(a.partial_cmp(&a), Some(Ordering::Equal));
    assert_eq!(a.partial_cmp(&c), None);
    assert!(a < b);
    assert!(!(a < c) && !(c < a) && a != c);
}
