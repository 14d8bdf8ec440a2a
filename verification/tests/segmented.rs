use teksilo_widgets::segmented::{content_width, layout_slots};
use teksilo_widgets::segmented::{cell_text_role, cell_tooltip, key_target, CellTooltip, SelectionKey};
use teksilo_widgets::split_button::LabelRole;
use teksilo_widgets::segmented::{
    edge_selection, index_of_selection, live_indices, resolve_plan, seed_from_position, select_live,
    settle_hover, shows_icon, shows_label, step_selection, sync_selection,
};
use teksilo_widgets::overflow::plan;
use teksilo_widgets::{SegmentDisplay, SegmentId, SegmentOverflow, SegmentSizing};

const A: u64 = 101;
const B: u64 = 102;
const C: u64 = 103;

fn ids(values: &[u64]) -> Vec<SegmentId> {
    values.iter().map(|&v| SegmentId::from_u64(v)).collect()
}

#[test]
fn knobs_default_to_auto_uniform_menu() {
    assert_eq!(SegmentDisplay::default(), SegmentDisplay::Auto);
    assert_eq!(SegmentSizing::default(), SegmentSizing::Uniform);
    assert_eq!(SegmentOverflow::default(), SegmentOverflow::Menu);
}

#[test]
fn icon_only_display_falls_back_to_the_label_without_an_icon() {
    assert!(shows_icon(SegmentDisplay::Icon, true));
    assert!(!shows_label(SegmentDisplay::Icon, true));
    assert!(shows_label(SegmentDisplay::Icon, false));
    assert!(!shows_icon(SegmentDisplay::Text, true));
    assert!(shows_icon(SegmentDisplay::Auto, true) && shows_label(SegmentDisplay::Auto, true));
    assert!(shows_icon(SegmentDisplay::IconText, true) && shows_label(SegmentDisplay::IconText, true));
    assert!(!shows_icon(SegmentDisplay::Auto, false));
}

#[test]
fn index_signal_maps_ids_onto_switcher_positions() {
    let list = ids(&[A, B, C]);
    assert_eq!(index_of_selection(Some(SegmentId::from_u64(B)), &list), 1);
    assert_eq!(index_of_selection(Some(SegmentId::from_u64(C)), &list), 2);
    assert_eq!(index_of_selection(None, &list), 0, "an absent id resolves to the first pane");
    assert_eq!(index_of_selection(Some(SegmentId::from_u64(7777)), &list), 0, "an unknown id resolves to the first pane");
}

#[test]
fn arrows_cycle_and_wrap() {
    let none_disabled = vec![false, false, false];
    assert_eq!(step_selection(0, true, &none_disabled), 1);
    assert_eq!(step_selection(2, true, &none_disabled), 0, "wraps past the end");
    assert_eq!(step_selection(0, false, &none_disabled), 2, "wraps past the start");
    assert_eq!(step_selection(1, false, &none_disabled), 0);
}

#[test]
fn arrows_skip_disabled_segments() {
    let middle_disabled = vec![false, true, false];
    assert_eq!(step_selection(0, true, &middle_disabled), 2, "the disabled middle is skipped");
    assert_eq!(step_selection(2, false, &middle_disabled), 0);
}

/// Presses a key on a focused control whose selection is `selected`, and
/// returns the id the selection moves to.
fn press(key: SelectionKey, selected: u64, list: &[u64], disabled: &Vec<bool>) -> u64 {
    let ids = ids(list);
    let current = index_of_selection(Some(SegmentId::from_u64(selected)), &ids);
    let target = key_target(key, false, current, disabled).unwrap();
    list[target]
}

#[test]
fn arrow_keys_cycle_and_wrap() {
    let list = [A, B, C];
    let enabled = vec![false, false, false];
    let mut selected = A;
    selected = press(SelectionKey::ArrowRight, selected, &list, &enabled);
    assert_eq!(selected, B);
    selected = press(SelectionKey::ArrowRight, selected, &list, &enabled);
    assert_eq!(selected, C);
    selected = press(SelectionKey::ArrowRight, selected, &list, &enabled);
    assert_eq!(selected, A, "wraps past the end");
    selected = press(SelectionKey::ArrowLeft, selected, &list, &enabled);
    assert_eq!(selected, C, "wraps past the start");
}

#[test]
fn home_and_end_jump_to_the_ends() {
    let list = [A, B, C];
    let enabled = vec![false, false, false];
    let mut selected = B;
    selected = press(SelectionKey::End, selected, &list, &enabled);
    assert_eq!(selected, C);
    selected = press(SelectionKey::Home, selected, &list, &enabled);
    assert_eq!(selected, A);
}

#[test]
fn arrow_keys_skip_disabled_segments() {
    let list = [A, B, C];
    let middle_disabled = vec![false, true, false];
    assert_eq!(press(SelectionKey::ArrowRight, A, &list, &middle_disabled), C, "the disabled middle is skipped");
}

#[test]
fn all_disabled_segments_make_the_arrows_no_ops() {
    let all = vec![true, true, true];
    assert_eq!(step_selection(1, true, &all), 1);
    assert_eq!(step_selection(1, false, &all), 1);
    assert_eq!(edge_selection(1, false, &all), 1);
    assert_eq!(edge_selection(1, true, &all), 1);
    assert_eq!(step_selection(0, true, &vec![]), 0);
}

#[test]
fn a_lone_enabled_segment_steps_onto_itself() {
    assert_eq!(step_selection(1, true, &vec![true, false, true]), 1);
}

#[test]
fn home_and_end_jump_to_the_enabled_ends() {
    let ends_disabled = vec![true, false, false, true];
    assert_eq!(edge_selection(2, false, &ends_disabled), 1);
    assert_eq!(edge_selection(1, true, &ends_disabled), 2);
}

#[test]
fn hidden_segments_leave_the_live_list() {
    assert_eq!(live_indices(&vec![true, false, true, true]), vec![0, 2, 3]);
    assert!(live_indices(&vec![false, false]).is_empty());
}

#[test]
fn an_unknown_id_clamps_to_a_real_segment_and_restamps() {
    let live = ids(&[A, B, C]);
    let mut selected = Some(SegmentId::from_u64(4242));
    let mut index = 7;
    sync_selection(&mut selected, &mut index, &live);
    assert_eq!(index, 2);
    assert_eq!(selected, Some(SegmentId::from_u64(C)), "a stale id must resolve to a segment that exists");
}

#[test]
fn a_live_id_moves_the_index_onto_it() {
    let live = ids(&[A, B, C]);
    let mut selected = Some(SegmentId::from_u64(B));
    let mut index = 0;
    sync_selection(&mut selected, &mut index, &live);
    assert_eq!((selected, index), (Some(SegmentId::from_u64(B)), 1));
}

#[test]
fn an_empty_control_clears_the_selection() {
    let mut selected = Some(SegmentId::from_u64(A));
    let mut index = 3;
    sync_selection(&mut selected, &mut index, &vec![]);
    assert_eq!(selected, None);
    assert_eq!(index, 3);
}

#[test]
fn selecting_reports_the_new_id_once() {
    let live = ids(&[A, B, C]);
    let mut index = 0;
    assert_eq!(select_live(&mut index, 2, &live), Some(SegmentId::from_u64(C)));
    assert_eq!(index, 2);
    assert_eq!(select_live(&mut index, 2, &live), None, "no change, no notification");
}

#[test]
fn a_positional_binding_seeds_an_unknown_selection() {
    let declared = ids(&[A, B, C]);
    assert_eq!(seed_from_position(None, &declared, 1), Some(SegmentId::from_u64(B)));
    assert_eq!(seed_from_position(Some(SegmentId::from_u64(C)), &declared, 0), Some(SegmentId::from_u64(C)));
    assert_eq!(seed_from_position(Some(SegmentId::from_u64(9)), &declared, 5), None);
}

/// Seven segments of 100 dp, a 30 dp chevron: 460 dp fits four plus the
/// chevron.
fn seven() -> (Vec<SegmentId>, Vec<u32>) {
    (ids(&[201, 202, 203, 204, 205, 206, 207]), vec![100_000; 7])
}

#[test]
fn a_promoted_segment_keeps_its_slot_until_another_is_promoted() {
    let (live, natural) = seven();
    let mut promoted = None;
    // start, A selected: [A][B][C][D][v]
    let p = resolve_plan(&mut promoted, &live, 0, 460_000, &natural, 30_000, SegmentSizing::Uniform, SegmentOverflow::Menu);
    assert_eq!(p.visible, vec![0, 1, 2, 3]);
    assert_eq!(promoted, None);
    // pick F from the menu: [A][B][C][F][v]
    let p = resolve_plan(&mut promoted, &live, 5, 460_000, &natural, 30_000, SegmentSizing::Uniform, SegmentOverflow::Menu);
    assert_eq!(p.visible, vec![0, 1, 2, 5]);
    assert_eq!(promoted, Some(live[5]));
    // click A, F stays
    let p = resolve_plan(&mut promoted, &live, 0, 460_000, &natural, 30_000, SegmentSizing::Uniform, SegmentOverflow::Menu);
    assert_eq!(p.visible, vec![0, 1, 2, 5], "the promoted segment must stay put when a visible one is chosen");
    // widen to a full fit: declaration order, promotion forgotten
    let p = resolve_plan(&mut promoted, &live, 0, 900_000, &natural, 30_000, SegmentSizing::Uniform, SegmentOverflow::Menu);
    assert_eq!(p.visible, vec![0, 1, 2, 3, 4, 5, 6]);
    assert_eq!(promoted, None, "a stale promotion must not survive a full-fit interlude");
}

#[test]
fn a_resize_sweep_never_loses_the_selection() {
    let (live, natural) = seven();
    for selected in 0..7 {
        let mut promoted = None;
        for step in 0..40u32 {
            let width = 900_000 - step * 20_000;
            let p = resolve_plan(&mut promoted, &live, selected, width, &natural, 30_000, SegmentSizing::Uniform, SegmentOverflow::Menu);
            assert!(!p.visible.is_empty(), "at {width} units the strip went empty");
            assert!(p.is_visible(selected), "at {width} units the selected segment was pushed off the strip");
        }
    }
}

#[test]
fn an_out_of_range_selection_resolves_to_the_last_segment() {
    let (live, natural) = seven();
    let mut promoted = None;
    let p = resolve_plan(&mut promoted, &live, 40, 300_000, &natural, 30_000, SegmentSizing::Uniform, SegmentOverflow::Menu);
    assert!(p.is_visible(6));
    assert_eq!(promoted, Some(live[6]));
}

#[test]
fn compress_mode_keeps_every_segment_on_the_strip() {
    let (live, natural) = seven();
    let mut promoted = None;
    let p = resolve_plan(&mut promoted, &live, 6, 180_000, &natural, 30_000, SegmentSizing::Uniform, SegmentOverflow::Compress);
    assert_eq!(p.visible.len(), 7, "Compress must never move a segment into a menu");
    assert!(!p.show_chevron);
}

#[test]
fn a_segment_that_overflows_while_hovered_clears_the_hover() {
    let p = plan(360_000, &vec![100_000; 7], None, 30_000, SegmentSizing::Uniform, false);
    assert_eq!(settle_hover(Some(5), &p), None);
    assert_eq!(settle_hover(Some(1), &p), Some(1));
    assert_eq!(settle_hover(None, &p), None);
}

#[test]
fn rtl_swaps_the_arrow_directions() {
    let enabled = vec![false, false, false];
    assert_eq!(key_target(SelectionKey::ArrowRight, false, 0, &enabled), Some(1));
    assert_eq!(key_target(SelectionKey::ArrowLeft, true, 0, &enabled), Some(1), "in RTL, ArrowLeft advances in reading order");
    assert_eq!(key_target(SelectionKey::ArrowRight, true, 0, &enabled), Some(2));
    assert_eq!(key_target(SelectionKey::Increment, true, 2, &enabled), Some(0));
    assert_eq!(key_target(SelectionKey::Decrement, false, 0, &enabled), Some(2));
    assert_eq!(key_target(SelectionKey::End, false, 0, &vec![false, false, true]), Some(1));
    assert_eq!(key_target(SelectionKey::Home, false, 9, &vec![true, false, false]), Some(1));
    assert_eq!(key_target(SelectionKey::Home, false, 0, &vec![]), None, "an empty control ignores keys");
}

#[test]
fn the_strip_lays_its_slots_out_in_reading_order() {
    let p = plan(360_000, &vec![100_000; 7], Some(5), 30_000, SegmentSizing::Uniform, false);
    let ltr = layout_slots(&p.widths, 360_000, false, p.show_chevron);
    assert_eq!(ltr.starts, vec![0, 110_000, 220_000]);
    assert_eq!(ltr.chevron, Some((330_000, 30_000)));
    let rtl = layout_slots(&p.widths, 360_000, true, p.show_chevron);
    assert_eq!(rtl.starts, vec![250_000, 140_000, 30_000]);
    assert_eq!(rtl.chevron, Some((0, 30_000)), "the chevron sits after the last slot in reading order");
    assert_eq!(content_width(&vec![50, 200, 50], SegmentSizing::Uniform), 600);
    assert_eq!(content_width(&vec![50, 200, 50], SegmentSizing::Fit), 300);
}

/// Resolves the strip of the seven 100 dp segments at `width` dp.
fn strip_at(promoted: &mut Option<SegmentId>, selected: usize, width: u32) -> Vec<usize> {
    let (live, natural) = seven();
    resolve_plan(promoted, &live, selected, width * 1000, &natural, 30_000, SegmentSizing::Uniform, SegmentOverflow::Menu).visible
}

#[test]
fn a_narrow_control_overflows_and_a_wide_one_does_not() {
    let mut promoted = None;
    assert_eq!(strip_at(&mut promoted, 0, 900).len(), 7, "a wide control shows every segment");
    let narrow = strip_at(&mut promoted, 0, 200).len();
    assert!((1..7).contains(&narrow), "a narrow control must overflow but keep at least one segment, got {narrow}");
    assert_eq!(strip_at(&mut promoted, 0, 900).len(), 7, "re-widening must restore every segment");
}

#[test]
fn a_resize_sweep_never_loses_the_selection_and_always_settles() {
    let (live, _) = seven();
    let selected = index_of_selection(Some(SegmentId::from_u64(205)), &live);
    let mut promoted = None;
    for width in [900, 500, 300, 160, 240, 900] {
        let cells = strip_at(&mut promoted, selected, width);
        assert!(!cells.is_empty(), "at {width} dp the strip went empty");
        assert!(cells.contains(&selected), "at {width} dp the selected segment was pushed off the strip");
        let again = strip_at(&mut promoted, selected, width);
        assert_eq!(cells, again, "at {width} dp the plan never settled");
    }
}

#[test]
fn widening_to_a_full_fit_forgets_the_promotion() {
    let mut promoted = None;
    strip_at(&mut promoted, 0, 300);
    strip_at(&mut promoted, 6, 300);
    strip_at(&mut promoted, 6, 1200);
    let cells = strip_at(&mut promoted, 0, 300);
    assert!(!cells.contains(&6), "a stale promotion must not survive a full-fit interlude");
}

#[test]
fn a_hidden_segment_leaves_the_strip_the_menu_and_the_keyboard_order() {
    let declared = [A, B, C];
    let shown = live_indices(&vec![true, true, true]);
    assert_eq!(plan(400_000, &vec![50_000; shown.len()], None, 30_000, SegmentSizing::Uniform, false).visible.len(), 3);
    let shown = live_indices(&vec![true, false, true]);
    assert_eq!(plan(400_000, &vec![50_000; shown.len()], None, 30_000, SegmentSizing::Uniform, false).visible.len(), 2);
    let live: Vec<u64> = shown.iter().map(|&i| declared[i]).collect();
    let enabled = vec![false; live.len()];
    assert_eq!(press(SelectionKey::ArrowRight, A, &live, &enabled), C, "a hidden segment is skipped entirely, not merely disabled");
}

#[test]
fn hiding_every_segment_is_survivable() {
    let shown = live_indices(&vec![false, false]);
    assert!(plan(300_000, &vec![], None, 30_000, SegmentSizing::Uniform, false).visible.is_empty());
    let live: Vec<SegmentId> = shown.iter().map(|&i| SegmentId::from_u64([A, B][i])).collect();
    let mut selected = Some(SegmentId::from_u64(A));
    let mut index = 0;
    sync_selection(&mut selected, &mut index, &live);
    assert_eq!(selected, None);
    assert_eq!(key_target(SelectionKey::ArrowRight, false, index, &vec![]), None);
    assert_eq!(selected, None);
}

/// A fixed-advance measure of a label, 8 dp a character, in width units.
fn measured(label: &str) -> u32 {
    label.chars().count() as u32 * 8_000
}

/// The natural width of a hugging control over the given labels.
fn hugged_width(labels: &[&str]) -> u128 {
    let natural: Vec<u32> = labels.iter().map(|l| measured(l)).collect();
    content_width(&natural, SegmentSizing::default())
}

#[test]
fn intrinsic_width_tracks_the_measured_labels() {
    let short = hugged_width(&["A", "B"]);
    let long = hugged_width(&["A rather long label", "Another long one"]);
    assert!(short > 0, "a hugging control must have a width");
    assert!(long * 2 > short * 3, "intrinsic width must follow the measured labels ({long} vs {short})");
}

#[test]
fn an_index_past_the_end_wraps_before_stepping() {
    let enabled = vec![false, false, false];
    assert_eq!(step_selection(4, true, &enabled), 2);
    assert_eq!(step_selection(4, false, &enabled), 0);
    assert_eq!(step_selection(9, true, &vec![true, true, true]), 9, "nothing enabled keeps the index as it was");
}

#[test]
fn icon_only_display_promotes_the_label_to_a_tooltip() {
    // Two icon-only segments with no tooltips of their own.
    let paints_label = shows_label(SegmentDisplay::Icon, true);
    assert_eq!(cell_tooltip(false, false, false, paints_label), CellTooltip::Label, "an icon-only segment must still say what it is");
}

#[test]
fn a_tooltip_appears_on_hover() {
    // Segment B declares a plain tooltip; A and C declare none and paint
    // their labels.
    assert_eq!(cell_tooltip(false, false, true, true), CellTooltip::Plain);
    assert_eq!(cell_tooltip(false, false, false, true), CellTooltip::NoTooltip);
    assert_eq!(cell_tooltip(true, true, true, false), CellTooltip::Composite, "composite beats rich and plain");
    assert_eq!(cell_tooltip(false, true, true, false), CellTooltip::Rich, "rich beats plain");
}

#[test]
fn the_selected_cell_is_tinted_for_the_accent_only_under_focus() {
    assert_eq!(cell_text_role(true, 1, 1, true), LabelRole::OnAccent);
    assert_eq!(cell_text_role(true, 1, 1, false), LabelRole::Primary);
    assert_eq!(cell_text_role(true, 1, 0, true), LabelRole::Primary);
    assert_eq!(cell_text_role(false, 1, 1, true), LabelRole::Disabled);
}
