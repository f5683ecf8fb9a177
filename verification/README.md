# scenedetect

Scene detection for decoded video: scene lists, Detection Stats, exact media
timing, and the decisions that turn per-frame scores into scene boundaries.

- `src/` is the library, written in Verus. Each public function states its result
  in `requires` / `ensures` over spec functions, and the laws of the library
  (scenes partition the video, Detection Stats rebuild the same scene list,
  timelines keep exact endpoints, minimum scene lengths hold, the similarity
  report keeps the best pairs, a Detection Stats path is its own Detection Stats
  path, ...) are public proof functions named `law_*`.
- `tests/` runs the library on concrete values.
- `app/` is the command line and browser front end: frame decoding through
  `ffmpeg`, file I/O, JSON and CSV output, and the floating-point scoring of
  frames, which hands its comparisons to the verified gates in `src/decisions.rs`.
