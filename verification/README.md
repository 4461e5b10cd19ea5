# regui

**re**tained **egui**: run a part of a ui in a viewport of its own, paint the result into the
parent ui, and keep the image until something it shows actually changes.

The decisions are made in a library that is verified with [Verus](https://github.com/verus-lang/verus).
What talks to egui is ordinary Rust around it.

## Layout

- `src/rounding.rs`, `src/float.rs`, `src/scalar.rs`: the numbers. Coordinates are IEEE 754
  singles and times are doubles, held by bit pattern and computed with integers. Every sum,
  product and quotient is proved to be the nearest value of the format, ties to even.
- `src/geometry.rs`, `src/transform.rs`: vectors, rectangles, rotations, and the transform from
  a child to its parent.
- `src/exact.rs`, `src/accuracy.rs`, `src/transform_laws.rs`, `src/agreement.rs`: the algebra of
  transforms over the reals, how far rounding can take a result from it, and what is left of
  the algebra after rounding.
- `src/input.rs`, `src/output.rs`, `src/output_laws.rs`: what a child is shown of its parent's
  input, and what it hands on.
- `src/viewport.rs`, `src/pass.rs`, `src/pass_laws.rs`: how a child is set up, what is decided in
  the course of a pass, and what holds from one pass to the next.
- `src/root.rs`: handing ui out of a child to its host.
- `src/swipe_back.rs`, `src/swipe_laws.rs`: the swipe from the left edge that goes back a page.
- `app/`: the adapter to egui. Sines, cosines and arc tangents are computed there, since they are
  floating point functions of the platform.

A settled, retained child costs one textured quad per frame: `law_unchanged_child_is_reused` in
`src/pass_laws.rs` says when, and `law_busy_child_keeps_running` says when not.
