use teksilo_widgets::segment_id::FRESH_BASE;
use teksilo_widgets::SegmentId;

#[test]
fn fresh_ids_are_unique_and_non_zero() {
    let a = SegmentId::fresh();
    let b = SegmentId::fresh();
    assert_ne!(a, b);
    assert!(a.get() > 0);
    assert!(b.get() > 0);
}

#[test]
fn raw_round_trips() {
    let id = SegmentId::from_u64(42);
    assert_eq!(id.get(), 42);
    assert_eq!(SegmentId::from_raw(id.raw()), id);
}

#[test]
fn const_construction_is_usable_in_a_const_item() {
    let a: SegmentId = SegmentId::from_u64(7);
    assert_eq!(a.get(), 7);
}

#[test]
fn fresh_ids_never_collide_with_small_app_constants() {
    let app: SegmentId = SegmentId::from_u64(1);
    for _ in 0..64 {
        assert_ne!(SegmentId::fresh(), app);
    }
    assert!(SegmentId::fresh().get() >= FRESH_BASE);
}

#[test]
fn fresh_ids_increase_from_the_base() {
    let a = SegmentId::fresh();
    let b = SegmentId::fresh();
    assert!(a.get() >= FRESH_BASE);
    assert!(b.get() > a.get());
}

#[test]
fn the_count_maps_above_the_base() {
    // The counter's first draw is 1, and the first fresh id is the base.
    assert_eq!(SegmentId::from_count(1).get(), FRESH_BASE);
    assert_eq!(SegmentId::from_count(41).get(), FRESH_BASE + 40);
    assert!(SegmentId::from_count(5) < SegmentId::from_count(6), "later draws give larger ids");
    // The one draw whose wrapped value would be zero yields 1.
    assert_eq!(SegmentId::from_count(u64::MAX - FRESH_BASE + 2).get(), 1);
}

#[test]
fn an_id_renders_its_value() {
    assert_eq!(SegmentId::from_u64(42).to_text(), "SegmentId(42)");
    assert_eq!(SegmentId::from_u64(7).to_text(), "SegmentId(7)");
    assert_eq!(SegmentId::from_u64(1000).to_text(), "SegmentId(1000)");
    assert_eq!(SegmentId::from_u64(u64::MAX).to_text(), "SegmentId(18446744073709551615)");
    assert_eq!(SegmentId::from_count(1).to_text(), "SegmentId(281474976710656)");
}

#[test]
fn ids_compare_by_value() {
    assert_eq!(SegmentId::from_u64(9), SegmentId::from_raw(9));
    assert_ne!(SegmentId::from_u64(9), SegmentId::from_u64(10));
    assert!(SegmentId::from_u64(9) < SegmentId::from_u64(10));
    assert!(SegmentId::from_u64(11) > SegmentId::from_u64(10));
    assert!(SegmentId::from_u64(10) <= SegmentId::from_u64(10));
    assert_eq!(SegmentId::from_u64(3).partial_cmp(&SegmentId::from_u64(3)), Some(std::cmp::Ordering::Equal));
}
