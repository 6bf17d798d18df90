use havi::block_margins::{CollapsedBlockMargins, CollapsedMargin};

const MAX_AU: i32 = (1 << 30) - 1;

#[test]
fn single_margins_collapse_to_themselves() {
    assert_eq!(CollapsedMargin::new(120).solve(), 120);
    assert_eq!(CollapsedMargin::new(-45).solve(), -45);
    assert_eq!(CollapsedMargin::new(0).solve(), 0);
    assert_eq!(CollapsedMargin::zero().solve(), 0);
    assert_eq!(CollapsedMargin::new(MAX_AU).solve(), MAX_AU);
    assert_eq!(CollapsedMargin::new(-MAX_AU).solve(), -MAX_AU);
}

#[test]
fn positive_and_negative_margins_collapse_as_css_says() {
    let both_positive = CollapsedMargin::new(60).adjoin(&CollapsedMargin::new(180));
    assert_eq!(both_positive.solve(), 180);
    let both_negative = CollapsedMargin::new(-60).adjoin(&CollapsedMargin::new(-180));
    assert_eq!(both_negative.solve(), -180);
    let mixed = CollapsedMargin::new(-5).adjoin(&CollapsedMargin::new(7));
    assert_eq!(mixed.solve(), 2);
    let extremes = CollapsedMargin::new(MAX_AU).adjoin(&CollapsedMargin::new(-MAX_AU));
    assert_eq!(extremes.solve(), 0);
}

#[test]
fn adjoining_is_order_independent_and_zero_is_neutral() {
    let a = CollapsedMargin::new(30);
    let b = CollapsedMargin::new(-12);
    let c = CollapsedMargin::new(45);
    assert_eq!(a.adjoin(&b).solve(), b.adjoin(&a).solve());
    assert_eq!(a.adjoin(&b).adjoin(&c).solve(), a.adjoin(&b.adjoin(&c)).solve());
    assert_eq!(a.adjoin(&a).solve(), a.solve());
    assert_eq!(b.adjoin(&CollapsedMargin::zero()).solve(), b.solve());
    let mut m = CollapsedMargin::zero();
    m.adjoin_assign(&a);
    m.adjoin_assign(&b);
    m.adjoin_assign(&c);
    assert_eq!(m.solve(), 45 - 12);
}

#[test]
fn block_margins_from_sides() {
    let m = CollapsedBlockMargins::from_margin(24, -8);
    assert!(!m.collapsed_through);
    assert_eq!(m.start.solve(), 24);
    assert_eq!(m.end.solve(), -8);
    let z = CollapsedBlockMargins::zero();
    assert!(!z.collapsed_through);
    assert_eq!((z.start.solve(), z.end.solve()), (0, 0));
}
