# teksilo-widgets (verified core)

The decision logic of the Teksilo widget set, written in Verus and proved
against its contracts.

- `src/` — the verified library:
  - `segment_id` — non-zero segment identities, minted from a process-wide
    counter (the `uid` crate) or taken from the caller.
  - `overflow` — the segmented control's overflow plan: which segments stay
    on the strip, which go into the chevron menu, and how the remaining space
    is shared. Widths are whole units of a thousandth of a dp.
  - `segmented` — selection stepping, keyboard targets, hover settling,
    sticky promotion of the selected segment and slot placement.
  - `stepper`, `nav` — the stepper's navigation state machine, the footer's
    buttons and the two-phase finish gate.
  - `split_button` — the split button's press/release/pick transitions.
  - `splitter` — collapse targeting, resize limits and the drag latch.
  - `shadow`, `styles` — small shared value types.
- `tests/` — tests run against the compiled library.

Sizes are whole units of a thousandth of a dp, where the widget framework
works in fractional dp. Shares of a width are cut at whole units and still
add up to the whole width (three equal slots of 1000 units get 333, 333
and 334); halves and fractions of a splitter size are rounded down.

What is not here: the widgets themselves — the `Segment` and
`SegmentedControl`, `Slider`, `SplitButton`, splitter-handle and stepper
builders, their build / paint / layout / accessibility code, the style
recipes and the stepper's reactive signals. They are written against the
Teksilo framework crates (`teksilo_core`, `teksilo_canvas`, `teksilo_tokens`,
`teksilo_i18n`) and in `f32`, and those crates are not part of this project;
the stepper's signals are replaced by a version counter.
- `app/` — unverified plumbing: conversions between floating-point dp and
  width units, a shared stepper handle, and the slider's `f32` arithmetic.
