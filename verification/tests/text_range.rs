use havi::text_range::{ByteIndex, TextByteRange};

#[test]
fn byte_range_length_and_bounds() {
    let r = TextByteRange::new(ByteIndex(3), ByteIndex(8));
    assert_eq!(r.len(), ByteIndex(5));
    assert_eq!(r.start(), ByteIndex(3));
    assert_eq!(r.end(), ByteIndex(8));
    assert_eq!(ByteIndex(4).get(), 4);
}

#[test]
fn byte_range_intersection() {
    let a = TextByteRange::new(ByteIndex(2), ByteIndex(10));
    let b = TextByteRange::new(ByteIndex(5), ByteIndex(12));
    assert_eq!(a.intersect(&b), TextByteRange::new(ByteIndex(5), ByteIndex(10)));
    let c = TextByteRange::new(ByteIndex(11), ByteIndex(12));
    assert_eq!(a.intersect(&c), TextByteRange::default());
    let d = TextByteRange::new(ByteIndex(10), ByteIndex(14));
    assert_eq!(a.intersect(&d), TextByteRange::new(ByteIndex(10), ByteIndex(10)));
}

#[test]
fn byte_range_contains_inclusive() {
    let r = TextByteRange::new(ByteIndex(3), ByteIndex(8));
    assert!(r.contains_inclusive(ByteIndex(3)));
    assert!(r.contains_inclusive(ByteIndex(8)));
    assert!(!r.contains_inclusive(ByteIndex(2)));
    assert!(!r.contains_inclusive(ByteIndex(9)));
}

#[test]
fn byte_range_iterates_both_ways() {
    let mut r = TextByteRange::new(ByteIndex(1), ByteIndex(4));
    assert_eq!(r.next(), Some(ByteIndex(1)));
    assert_eq!(r.next_back(), Some(ByteIndex(3)));
    assert_eq!(r.next(), Some(ByteIndex(2)));
    assert_eq!(r.next(), None);
    assert_eq!(r.next_back(), None);
    let whole = TextByteRange::new(ByteIndex(0), ByteIndex(3)).iter();
    assert_eq!(whole.start, ByteIndex(0));
    assert_eq!(whole.end, ByteIndex(3));
}

#[test]
fn intersection_is_symmetric_and_inside_both() {
    let a = TextByteRange::new(ByteIndex(2), ByteIndex(10));
    let b = TextByteRange::new(ByteIndex(5), ByteIndex(12));
    let ab = a.intersect(&b);
    assert_eq!(ab, b.intersect(&a));
    assert!(a.contains_inclusive(ab.start()) && a.contains_inclusive(ab.end()));
    assert!(b.contains_inclusive(ab.start()) && b.contains_inclusive(ab.end()));
}

#[test]
fn reversed_range_still_steps() {
    let mut r = TextByteRange::new(ByteIndex(5), ByteIndex(3));
    assert_eq!(r.next(), Some(ByteIndex(5)));
    assert_eq!(r.start(), ByteIndex(6));
    assert_eq!(r.end(), ByteIndex(3));
    assert_eq!(r.next_back(), Some(ByteIndex(2)));
    assert_eq!(r.end(), ByteIndex(2));
    let mut r = TextByteRange::new(ByteIndex(2), ByteIndex(5));
    let all: Vec<ByteIndex> = std::iter::from_fn(|| r.next()).collect();
    assert_eq!(all, vec![ByteIndex(2), ByteIndex(3), ByteIndex(4)]);
}
