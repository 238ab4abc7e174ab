# Video Squeezer

A batch video compressor for macOS: it scans a folder, plans how each video
should be fitted under a size and resolution limit, encodes with FFmpeg
(VideoToolbox when available), and writes previews and contact sheets.

The planning, naming and presentation rules form a library verified with
Verus; the window, the worker threads and every call to FFmpeg, FFprobe and
the filesystem form the application around it.

## Layout

- `src/` — the verified library
  - `binary64.rs`: an exact integer model of IEEE 754 double rounding, used
    wherever the planner computes in doubles
  - `compression.rs`: output frame fitting, size targets, strategy bitrates,
    retry bitrates, advisor messages, plan assembly
  - `encoder.rs`: encoder selection and FFmpeg arguments
  - `paths.rs`: video detection, file-name sanitizing, output names
  - `probe.rs`: finding the video stream in FFprobe's report
  - `settings.rs`: turning the window's controls into a job
  - `scheduler.rs`: worker count, skip/keep/encode, and the step after each
    encode attempt
  - `view.rs`, `formatting.rs`, `text.rs`, `models.rs`: queue text, sizes,
    clock times, labels
- `tests/` — tests of the library, including cross-checks of every modelled
  double computation against Rust's own `f64` arithmetic
- `app/` — the application: Slint window, dialogs, FFprobe parsing, the
  worker pool, and the floating-point parts of the advisor (duration- and
  frame-rate-based budgets)
