use kona_diagnostic::pos::Pos;
use kona_diagnostic::span::Span;

fn span(a: u32, b: u32) -> Span {
    Span::new(Pos::from_u32(a), Pos::from_u32(b))
}

#[test]
fn across_covers_gap() {
    assert_eq!(span(2, 5).across(span(8, 10)), span(2, 10));
    assert_eq!(span(3, 9).across(span(8, 15)), span(3, 15));
}

#[test]
fn across_is_commutative_and_associative() {
    let (a, b, c) = (span(2, 5), span(8, 10), span(4, 20));
    assert_eq!(a.across(b), b.across(a));
    assert_eq!(a.across(b).across(c), a.across(b.across(c)));
    assert_eq!(a.across(b).across(c), span(2, 20));
}

#[test]
fn across_dummy_gives_dummy() {
    assert!(span(2, 5).across(Span::dummy()).is_dummy());
    assert!(Span::dummy().across(span(2, 5)).is_dummy());
}

#[test]
fn contains_is_half_open() {
    let s = span(3, 6);
    assert!(!s.contains(Pos::from_u32(2)));
    assert!(s.contains(Pos::from_u32(3)));
    assert!(s.contains(Pos::from_u32(5)));
    assert!(!s.contains(Pos::from_u32(6)));
    assert!(!Span::dummy().contains(Pos::from_u32(0)));
}

#[test]
fn cross_over_checks_cover() {
    assert!(span(1, 10).cross_over(span(2, 5)));
    assert!(!span(2, 5).cross_over(span(1, 10)));
}

#[test]
fn dummy_and_default() {
    assert!(Span::dummy().is_dummy());
    assert!(Span::default().is_dummy());
    assert!(!span(1, 1).is_dummy());
    assert_eq!(span(4, 7).start().to_u32(), 4);
    assert_eq!(span(4, 7).end().to_u32(), 7);
}

#[test]
fn pos_arithmetic() {
    let p = Pos::from_usize(10);
    assert_eq!(p.add_bytes(5).to_u32(), 15);
    assert_eq!(p.sub_bytes(3).to_usize(), 7);
    assert!(Pos::from_u32(0).is_dummy());
}
