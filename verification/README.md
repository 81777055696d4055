# mv_toolkit

Tools around motion-vector extraction from H.264 video: extractors that dump
the motion vectors FFmpeg exports, a benchmark that runs them side by side,
a comparison of two dumps, profiling (VTune call trees, perf flame graphs),
motion-vector videos, and publishing of the results to Confluence.

- `src/` is the library, verified with Verus: the CSV format of motion
  vectors and its reading back, the comparison of two dumps, benchmark
  bookkeeping (stream sweeps, extractor command lines, averaging, speedup
  pairing), the text formats the publishing steps read and write, report
  page bodies, flame graphs, call trees and video layouts. Calls into
  `itoa`, `regex`, `chrono`, `serde_json`, `minijinja`, `inferno` and `uuid`
  go through a few trusted wrappers whose contracts are stated in their
  doc comments.
- `app/` is the command-line program around it: processes, files, HTTP,
  FFmpeg and OpenCV calls, and the floating-point measurements and charts.
- `tests/` exercises the library on concrete inputs.
