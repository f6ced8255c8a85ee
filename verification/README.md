# dubsync

Aligns the audio tracks of one release of a film (the donor) to the picture of
another (the master). The two anchors are correlated window by window, the
anchor points become a map of piecewise-constant offsets, and every dub is cut,
shifted and cross-faded along that map before it is muxed next to the master's
video. Donor subtitles are moved along the same map.

## Layout

- `src/` is the library. Every item is verified with Verus: what a function
  returns is stated in its `ensures`, and the properties that span functions are
  proof functions whose names begin with `law_`.
- `tests/` runs the library on concrete values.
- `app/` is ordinary Rust around the library: processes, files, floating-point
  signal processing and prompts. `app/main.rs` is the command-line program,
  `app/dubsync_gui.rs` the windowed one.

## Units

The library computes with integers only.

| quantity | unit |
| --- | --- |
| time, duration, offset of a map | nanoseconds, at most 2^60 in magnitude |
| subtitle time | nanoseconds, in 128 bits |
| level | millionths of a decibel |
| confidence, share | millionths |
| frame rate | a fraction of two integers, times a power of ten |
| stretch ratio | a fraction of two frame rates, or billionths where it is given |
| sample | the bits of a 32-bit float |

`app/units.rs` converts between these and floating point.
