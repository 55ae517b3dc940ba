# widget_layers

Widgets that stack in the Z-direction, overlays that are shown relative to
widgets in other layers, and progress indicators, with their behaviour stated
and proved in Verus.

- `src/layers.rs`: a stack of widgets. Which children to mount and unmount when
  they change, how large the stack is, which layer decides about the window.
- `src/placement.rs`, `src/arrange.rs`: where an overlay goes beside a widget,
  and what it keeps clear of.
- `src/stack.rs`, `src/state.rs`, `src/overlay.rs`: the overlays of a layer. How
  they are shown, admitted, laid out, hovered and dismissed.
- `src/laws.rs`: what holds of a layer across these operations.
- `src/progress.rs`: progress bars.
- `src/geometry.rs`, `src/widget.rs`, `src/value.rs`: what the others are made of.
- `app/`: the same widgets, connected to a window.

Nothing in `src/` measures, mounts or draws a widget. An operation that needs it
returns a request, and goes on when it is told what came of it. Where a function
has a precondition that a caller cannot see, a `check_` function beside it tells
whether it holds.

The overlays are kept in `alot::OrderedLots`, and coordinates are compared and
converted by `kludgine::figures`. What is taken for granted of these crates is
written above each function that calls them, in `src/stack.rs` and
`src/geometry.rs`.
