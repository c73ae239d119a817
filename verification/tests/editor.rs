//! The editing layer: gradients, ranged values, and the change signal.

use han_ed::change::{Change, WidgetResponse};
use han_ed::gradient::{ColorGradient, GradientKey, KeyInteraction, POS_HALF, POS_ONE};
use han_ed::value::{Rgba, Value, ValueEdit, UNBOUNDED};

fn color(r: u16) -> Rgba {
    Rgba { r, g: 0, b: 0, a: 65535 }
}

#[test]
fn fresh_gradient_has_one_middle_key() {
    let g = ColorGradient::new(color(1));
    assert_eq!(g.len(), 1);
    assert_eq!(g.key(0).pos, POS_HALF);
    assert_eq!(g.key(0).value, color(1));
}

#[test]
fn initial_value_is_first_key_when_right_of_zero() {
    let g = ColorGradient::new(color(7));
    assert_eq!(*g.initial_value(), color(7));
}

#[test]
fn initial_value_is_last_of_zero_run() {
    let mut g = ColorGradient::new(color(1));
    g.add_key(color(2));
    g.add_key(color(3));
    // Put the first two keys at position zero: the run's last key paints
    // the left edge; the first is an inert placeholder.
    g.drag_key(0, 0);
    g.drag_key(1, 0);
    assert_eq!(*g.initial_value(), color(2));
}

#[test]
fn deleting_the_last_key_is_rejected() {
    let mut g = ColorGradient::new(color(1));
    assert!(!g.remove_key(0));
    assert_eq!(g.len(), 1);
}

#[test]
fn deleting_one_of_two_keys_works() {
    let mut g = ColorGradient::new(color(1));
    g.add_key(color(2));
    assert!(g.remove_key(0));
    assert_eq!(g.len(), 1);
    assert_eq!(g.key(0).value, color(2));
}

#[test]
fn drag_clamps_to_the_strip() {
    let mut g = ColorGradient::new(color(1));
    g.drag_key(0, POS_ONE + 999);
    assert_eq!(g.key(0).pos, POS_ONE);
}

#[test]
fn sort_is_non_decreasing_and_stable() {
    let mut g = ColorGradient::new(color(1));
    g.add_key(color(2));
    g.add_key(color(3));
    g.add_key(color(4));
    // Positions: 100, 50, 50, 20 — the two keys at 50 must keep their order.
    g.drag_key(0, 100);
    g.drag_key(1, 50);
    g.drag_key(2, 50);
    g.drag_key(3, 20);
    g.sort_keys();
    let positions: Vec<u32> = (0..g.len()).map(|i| g.key(i).pos).collect();
    assert_eq!(positions, vec![20, 50, 50, 100]);
    assert_eq!(g.key(1).value, color(2));
    assert_eq!(g.key(2).value, color(3));
    assert_eq!(g.key(3).value, color(1));
}

#[test]
fn interactions_defer_sort_to_release() {
    let mut g = ColorGradient::new(color(1));
    g.add_key(color(2));
    // Drag the second key left of the first: no sort yet.
    let changed = g.apply_interactions(&vec![KeyInteraction::Idle, KeyInteraction::Drag(100)]);
    assert!(!changed);
    assert_eq!(g.key(1).pos, 100);
    assert_eq!(g.key(1).value, color(2));
    // Release: now the keys are sorted and the change is reported.
    let changed = g.apply_interactions(&vec![KeyInteraction::Idle, KeyInteraction::Release]);
    assert!(changed);
    assert_eq!(g.key(0).pos, 100);
    assert_eq!(g.key(0).value, color(2));
    assert_eq!(g.key(1).pos, POS_HALF);
}

#[test]
fn interactions_first_delete_wins_and_stops() {
    let mut g = ColorGradient::new(color(1));
    g.add_key(color(2));
    g.add_key(color(3));
    let changed = g.apply_interactions(
        &vec![KeyInteraction::Remove, KeyInteraction::Remove, KeyInteraction::Idle],
    );
    assert!(changed);
    assert_eq!(g.len(), 2);
    assert_eq!(g.key(0).value, color(2));
}

#[test]
fn interactions_never_delete_the_last_key() {
    let mut g = ColorGradient::new(color(1));
    let changed = g.apply_interactions(&vec![KeyInteraction::Remove]);
    assert!(!changed);
    assert_eq!(g.len(), 1);
}

#[test]
fn preview_strip_layout() {
    let mut g = ColorGradient::new(color(1));
    g.add_key(color(2));
    g.add_key(color(3));
    g.drag_key(0, 0);
    g.drag_key(1, 0);
    g.drag_key(2, 16384);
    let strip = g.preview();
    // Left edge: the last key of the zero run.
    assert_eq!(strip.start, color(2));
    // One segment per key right of the zero run.
    assert_eq!(strip.segments.len(), 1);
    assert_eq!(strip.segments[0].width, 16384);
    assert_eq!(strip.segments[0].value, color(3));
    // Trailing gap to the right edge, painted with the last key's value.
    assert_eq!(strip.tail, POS_ONE - 16384);
    assert_eq!(strip.tail_value, color(3));
}

#[test]
fn keyframes_preserve_order() {
    let mut g = ColorGradient::new(color(1));
    g.add_key(color(2));
    let ks: Vec<GradientKey<Rgba>> = g.to_keyframes();
    assert_eq!(ks.len(), 2);
    assert_eq!(ks[0].value, color(1));
    assert_eq!(ks[1].value, color(2));
}

#[test]
fn scalar_lower_bound_clamps_to_upper() {
    let mut v: Value<u32> = Value::Uniform(10, 20);
    let changed = v.apply_edit(ValueEdit::SetLower(35));
    assert!(changed);
    assert_eq!(v, Value::Uniform(20, 20));
}

#[test]
fn scalar_upper_bound_clamps_to_lower() {
    let mut v: Value<u32> = Value::Uniform(10, 20);
    let changed = v.apply_edit(ValueEdit::SetUpper(3));
    assert!(changed);
    assert_eq!(v, Value::Uniform(10, 10));
}

#[test]
fn scalar_form_switch_duplicates_the_bound() {
    let mut v: Value<u32> = Value::Single(6);
    assert!(v.apply_edit(ValueEdit::ChooseUniform));
    assert_eq!(v, Value::Uniform(6, 6));
    assert!(v.apply_edit(ValueEdit::ChooseSingle));
    assert_eq!(v, Value::Single(6));
    assert!(!v.apply_edit(ValueEdit::ChooseSingle));
}

#[test]
fn scalar_unbounded_request() {
    let mut v: Value<u32> = Value::Single(5);
    assert!(v.apply_edit(ValueEdit::SetUnbounded));
    assert_eq!(v, Value::Single(UNBOUNDED));
    assert!(!v.apply_edit(ValueEdit::SetUnbounded));
}

#[test]
fn drag_to_same_value_reports_no_change() {
    let mut v: Value<u32> = Value::Single(5);
    assert!(!v.apply_edit(ValueEdit::SetSingle(5)));
    assert!(v.apply_edit(ValueEdit::SetSingle(6)));
}

#[test]
fn free_edit_has_no_clamp() {
    let mut v: Value<Rgba> = Value::Uniform(color(1), color(2));
    assert!(v.apply_free_edit(ValueEdit::SetLower(color(9))));
    assert_eq!(v, Value::Uniform(color(9), color(2)));
}

#[test]
fn option_toggle_creates_and_destroys() {
    let mut slot: Option<u32> = None;
    assert!(han_ed::value::ui_option(&mut slot, true, 7));
    assert_eq!(slot, Some(7));
    assert!(!han_ed::value::ui_option(&mut slot, true, 9));
    assert_eq!(slot, Some(7));
    assert!(han_ed::value::ui_option(&mut slot, false, 0));
    assert_eq!(slot, None);
    assert!(!han_ed::value::ui_option(&mut slot, false, 0));
}

#[test]
fn composing_two_unchanged_flags_stays_unchanged() {
    let a = Change::Change(false);
    let b = Change::Change(false);
    let merged = a.merge(b);
    assert_eq!(merged, Change::Change(false));
    assert!(!merged.changed());
}

#[test]
fn composing_flag_with_response_marks_it_without_touching_the_rest() {
    let r = WidgetResponse { changed: false, hovered: true, clicked: false };
    let merged = Change::Change(true).merge(Change::Response(r));
    assert_eq!(
        merged,
        Change::Response(WidgetResponse { changed: true, hovered: true, clicked: false })
    );
    let unmarked = Change::Change(false).merge(Change::Response(r));
    assert_eq!(unmarked, Change::Response(r));
}

#[test]
fn change_reading_is_order_independent() {
    let r = Change::Response(WidgetResponse { changed: true, hovered: false, clicked: true });
    let f = Change::Change(false);
    assert_eq!(r.merge(f).changed(), f.merge(r).changed());
    assert!(r.merge(f).changed());
}
