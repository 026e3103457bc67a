use engine::rect::Rect;

// +--------+--------+--------+
// |   r1   |   r2   |   r3   |
// +--------+--------+--------+
// |   r4   |        |   r6   |
// +--------+--------+--------+
// |   r7   |   r8   |   r9   |
// +--------+--------+--------+
#[test]
fn test_overlap() {
    let r1 = Rect::<i32>::new(0, 0, 10, 10);
    let r2 = Rect::<i32>::new(10, 0, 10, 10);
    let r3 = Rect::<i32>::new(20, 0, 10, 10);
    let r4 = Rect::<i32>::new(0, 10, 10, 10);
    let r6 = Rect::<i32>::new(20, 10, 10, 10);
    let r7 = Rect::<i32>::new(0, 20, 10, 10);
    let r8 = Rect::<i32>::new(10, 20, 10, 10);
    let r9 = Rect::<i32>::new(20, 20, 10, 10);

    let middle_large = Rect::<i32>::new(9, 9, 12, 12);
    assert!(r1.overlaps(&middle_large));
    assert!(r2.overlaps(&middle_large));
    assert!(r3.overlaps(&middle_large));
    assert!(r4.overlaps(&middle_large));
    assert!(r6.overlaps(&middle_large));
    assert!(r7.overlaps(&middle_large));
    assert!(r8.overlaps(&middle_large));
    assert!(r9.overlaps(&middle_large));

    let middle_small = Rect::<i32>::new(11, 11, 8, 8);
    assert!(!r1.overlaps(&middle_small));
    assert!(!r2.overlaps(&middle_small));
    assert!(!r3.overlaps(&middle_small));
    assert!(!r4.overlaps(&middle_small));
    assert!(!r6.overlaps(&middle_small));
    assert!(!r7.overlaps(&middle_small));
    assert!(!r8.overlaps(&middle_small));
    assert!(!r9.overlaps(&middle_small));
}

#[test]
fn test_bounds() {
    let r1 = Rect::<i32>::new(2, 3, 4, 5);
    assert_eq!(r1.right(), 6);
    assert_eq!(r1.bottom(), 8);
}

#[test]
fn test_copy_clone() {
    let r1 = Rect::<i32>::new(1, 2, 3, 4);
    let r2 = r1;
    let r3 = r1.clone();
    assert_eq!(r2.left, 1);
    assert_eq!(r3.left, 1);
    assert_eq!(r2.top, 2);
    assert_eq!(r3.top, 2);
    assert_eq!(r2.width, 3);
    assert_eq!(r3.width, 3);
    assert_eq!(r2.height, 4);
    assert_eq!(r3.height, 4);
}

#[test]
fn test_debug() {
    let r1 = Rect::<i32>::new(1, 2, 3, 4);
    assert_eq!(
        "Rect { left: 1, top: 2, width: 3, height: 4 }",
        format!("{:?}", r1)
    );
}

#[test]
fn touching_edges_do_not_overlap() {
    let a = Rect::<i32>::new(0, 0, 10, 10);
    let b = Rect::<i32>::new(10, 0, 10, 10);
    assert!(!a.overlaps(&b));
    assert!(!b.overlaps(&a));
}

#[test]
fn overlap_near_the_integer_limits() {
    let a = Rect::<i32>::new(i32::MAX - 5, 0, 10, 10);
    let b = Rect::<i32>::new(i32::MAX - 1, 5, 1, 1);
    assert!(a.overlaps(&b));
}
