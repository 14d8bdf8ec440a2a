use teksilo_widgets::overflow::{distribute, plan, Plan};
use teksilo_widgets::SegmentSizing;

/// Width units per dp.
const DP: u32 = 1000;

/// 100 dp per segment.
fn widths_of(n: usize) -> Vec<u32> {
    vec![100 * DP; n]
}

#[test]
fn everything_fits_means_no_chevron() {
    let p = plan(500 * DP, &widths_of(4), None, 30 * DP, SegmentSizing::Uniform, false);
    assert_eq!(p.visible, vec![0, 1, 2, 3]);
    assert!(p.overflowed.is_empty());
    assert!(!p.show_chevron);
    // Uniform fills the whole width.
    assert!(p.widths.iter().all(|w| *w == 125 * DP as u64));
}

#[test]
fn exact_fit_does_not_overflow_and_one_pixel_less_does() {
    let fits = plan(400 * DP, &widths_of(4), None, 30 * DP, SegmentSizing::Uniform, false);
    assert!(!fits.show_chevron, "exactly 400 dp must fit 4 x 100 dp");

    let over = plan(399 * DP, &widths_of(4), None, 30 * DP, SegmentSizing::Uniform, false);
    assert!(over.show_chevron, "399 dp must not fit 4 x 100 dp");
    // budget = 399 - 30 = 369 -> 3 segments fit.
    assert_eq!(over.visible, vec![0, 1, 2]);
    assert_eq!(over.overflowed, vec![3]);
}

#[test]
fn overflow_takes_from_the_end_in_declaration_order() {
    let p = plan(360 * DP, &widths_of(7), None, 30 * DP, SegmentSizing::Uniform, false);
    assert_eq!(p.visible, vec![0, 1, 2]);
    assert_eq!(p.overflowed, vec![3, 4, 5, 6]);
    assert!(p.show_chevron);
}

#[test]
fn must_inside_the_prefix_causes_no_reordering() {
    let p = plan(360 * DP, &widths_of(7), Some(1), 30 * DP, SegmentSizing::Uniform, false);
    assert_eq!(p.visible, vec![0, 1, 2], "a segment that already fits must keep its natural slot");
}

#[test]
fn must_outside_the_prefix_takes_the_last_slot() {
    let p = plan(360 * DP, &widths_of(7), Some(5), 30 * DP, SegmentSizing::Uniform, false);
    assert_eq!(
        p.visible,
        vec![0, 1, 5],
        "the forced segment evicts the trailing prefix entry and lands last"
    );
    assert_eq!(p.overflowed, vec![2, 3, 4, 6]);
}

#[test]
fn at_least_one_segment_survives_an_impossibly_narrow_control() {
    let p = plan(20 * DP, &widths_of(5), Some(3), 30 * DP, SegmentSizing::Uniform, false);
    assert_eq!(p.visible, vec![3], "the forced segment is the last to go");
    assert_eq!(p.visible.len(), 1);
    assert!(p.widths.iter().all(|w| *w >= 0));
}

#[test]
fn at_least_one_segment_survives_with_no_forced_segment() {
    let p = plan(20 * DP, &widths_of(5), None, 30 * DP, SegmentSizing::Uniform, false);
    assert_eq!(p.visible, vec![0]);
}

#[test]
fn compress_mode_keeps_every_segment_and_never_shows_a_chevron() {
    let p = plan(120 * DP, &widths_of(7), Some(6), 30 * DP, SegmentSizing::Uniform, true);
    assert_eq!(p.visible.len(), 7);
    assert!(!p.show_chevron);
    assert!(p.overflowed.is_empty());
}

#[test]
fn uniform_measures_against_the_widest_segment() {
    let natural = vec![50 * DP, 50 * DP, 200 * DP, 50 * DP];
    let p = plan(300 * DP, &natural, None, 30 * DP, SegmentSizing::Uniform, false);
    // widest = 200 -> total 800 > 300; budget 270 -> only 1 slot.
    assert_eq!(p.visible, vec![0]);
}

#[test]
fn fit_measures_each_segment_against_itself() {
    let natural = vec![50 * DP, 50 * DP, 200 * DP, 50 * DP];
    let p = plan(300 * DP, &natural, None, 30 * DP, SegmentSizing::Fit, false);
    assert_eq!(p.visible, vec![0, 1]);
    assert_eq!(p.overflowed, vec![2, 3]);
    // Leftover 270 - 100 = 170 shared equally.
    assert_eq!(p.widths[0], 135 * DP as u64);
    assert_eq!(p.widths[1], 135 * DP as u64);
}

#[test]
fn fit_compresses_proportionally_when_below_natural() {
    let natural = vec![100 * DP, 300 * DP];
    let p = plan(200 * DP, &natural, None, 30 * DP, SegmentSizing::Fit, true);
    assert_eq!(p.widths[0], 50 * DP as u64);
    assert_eq!(p.widths[1], 150 * DP as u64);
}

#[test]
fn empty_input_yields_an_empty_plan() {
    let p = plan(300 * DP, &vec![], None, 30 * DP, SegmentSizing::Uniform, false);
    assert!(p.visible.is_empty());
    assert!(p.widths.is_empty());
    assert!(!p.show_chevron);
}

#[test]
fn widening_past_full_fit_restores_declaration_order_even_with_a_forced_segment() {
    let p = plan(900 * DP, &widths_of(7), Some(5), 30 * DP, SegmentSizing::Uniform, false);
    assert_eq!(p.visible, vec![0, 1, 2, 3, 4, 5, 6]);
    assert!(!p.show_chevron);
}

#[test]
fn slot_lookup_tracks_promotion() {
    let p = plan(360 * DP, &widths_of(7), Some(5), 30 * DP, SegmentSizing::Uniform, false);
    assert_eq!(p.slot_of(5), Some(2), "the promoted segment is last");
    assert_eq!(p.slot_of(0), Some(0));
    assert_eq!(p.slot_of(4), None);
    assert!(p.is_visible(5));
    assert!(!p.is_visible(4));
}

#[test]
fn the_chevron_decision_is_monotonic_in_the_width() {
    let natural = widths_of(4);
    let mut first_fit: Option<u32> = None;
    for step in 0..=200u32 {
        let w = 300 * DP + step * 500;
        let p = plan(w, &natural, None, 30 * DP, SegmentSizing::Uniform, false);
        match (p.show_chevron, first_fit) {
            (false, None) => first_fit = Some(w),
            (true, Some(fit)) => {
                panic!("chevron reappeared at {w} units after everything already fit at {fit} units")
            }
            _ => {}
        }
    }
    assert!(first_fit.is_some(), "the sweep must cross the fit boundary or it proves nothing");
}

#[test]
fn a_narrower_width_never_shows_more_segments() {
    let natural = widths_of(6);
    let mut previous = usize::MAX;
    for step in 0..=120u32 {
        let w = 700 * DP - step * 5 * DP;
        let p = plan(w, &natural, None, 30 * DP, SegmentSizing::Uniform, false);
        assert!(
            p.visible.len() <= previous,
            "narrowing to {w} units revealed a segment ({} > {previous})",
            p.visible.len()
        );
        previous = p.visible.len();
    }
    assert_eq!(previous, 1, "the floor is one visible segment");
}

#[test]
fn a_lone_segment_that_does_not_fit_shows_no_chevron() {
    let p = plan(50 * DP, &widths_of(1), None, 30 * DP, SegmentSizing::Uniform, false);
    assert_eq!(p.visible, vec![0]);
    assert!(p.overflowed.is_empty());
    assert!(!p.show_chevron);
    // Without a chevron the lone segment gets the whole width.
    assert_eq!(p.widths, vec![50 * DP as u64]);
}

#[test]
fn the_fit_tolerance_is_half_a_dp() {
    // 400 dp of segments fit in 399.5 dp, but not in 399.4 dp.
    let fits = plan(399_500, &widths_of(4), None, 30 * DP, SegmentSizing::Uniform, false);
    assert!(!fits.show_chevron);
    let over = plan(399_400, &widths_of(4), None, 30 * DP, SegmentSizing::Uniform, false);
    assert!(over.show_chevron);
}

#[test]
fn overflow_flags_mark_the_menu_segments() {
    let p = plan(360 * DP, &widths_of(7), Some(5), 30 * DP, SegmentSizing::Uniform, false);
    assert_eq!(
        p.overflow_flags(7),
        vec![false, false, true, true, true, false, true]
    );
}

#[test]
fn distribute_shares_leftover_and_fills_the_space() {
    // Shares are cut at whole units and still add up to the space.
    assert_eq!(distribute(100, &vec![0, 1, 2], &vec![1, 1, 1], SegmentSizing::Uniform), vec![33, 33, 34]);
    assert_eq!(distribute(1000, &vec![0, 1, 2], &vec![1, 1, 1], SegmentSizing::Uniform).iter().sum::<u64>(), 1000);
    // Fit with room to spare: natural width plus a share of the leftover.
    assert_eq!(distribute(50, &vec![0, 1, 2], &vec![10, 10, 10], SegmentSizing::Fit), vec![16, 17, 17]);
    // Fit when short: proportional, still filling the space.
    assert_eq!(distribute(20, &vec![0, 1, 2], &vec![10, 10, 10], SegmentSizing::Fit), vec![6, 7, 7]);
    assert_eq!(distribute(100, &vec![1, 0], &vec![10, 20], SegmentSizing::Fit), vec![55, 45]);
    // All-zero natural widths under Fit split evenly.
    assert_eq!(distribute(90, &vec![0, 1], &vec![0, 0], SegmentSizing::Fit), vec![45, 45]);
    assert!(distribute(90, &vec![], &vec![5], SegmentSizing::Fit).is_empty());
}

#[test]
fn the_empty_plan_is_empty() {
    let p = Plan::empty();
    assert!(p.visible.is_empty() && p.widths.is_empty() && p.overflowed.is_empty() && !p.show_chevron);
}
