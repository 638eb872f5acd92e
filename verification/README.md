# quick_media_organizer

The logic of a desktop media organiser, written in Verus: scanning and
grouping photos and videos, planning and running batch conversions with
ffmpeg, resuming interrupted jobs from checkpoints, and replacing originals
safely.

- `src/` is the verified library. Every function carries a `requires` /
  `ensures` contract, and the laws that span several functions are public
  `law_*` proof functions (checkpoint monotonicity and crash safety, the
  replacement script restoring the originals when a step fails, grouping each
  file into exactly one item, the binary cache reading back what it stored,
  the error log keeping the newest entries, the bounds on encoder retries,
  each run ending in one final state, the shape of image flags, output names
  staying in their folder, and the JPEG quality map being monotone).
- Paths are read the way `std::path` reads them: `/` and `\` separate
  components, and trailing separators and `.` components do not count.
- `src/batch/` holds the batch pipeline: planning, ffmpeg arguments, encoder
  choice and fallback, the per-item run state machine, reports, checkpoints
  and the final replacement of files.
- `tests/` exercises the library on concrete values.
- `app/` is the unverified shell around it: file system and process I/O,
  serde copies of the library's types, threads, and the floating-point
  parts (progress parsing and size estimates).
