# Meowverter core

The logic of Meowverter, a small FFmpeg / yt-dlp front end, as a Verus-verified library,
with the desktop program around it.

- `src/` — the verified library:
  - `convert.rs`: every ffmpeg pass of a conversion (trim, scale, codec, CRF or target-size
    bitrate, two-pass logs, GIF palettes);
  - `encoder.rs`: CPU and hardware encoders, their argument lists, the probe cache and the
    NVIDIA → AMD → Intel → CPU fallback chain;
  - `jobs.rs`: one job at a time, the pass-by-pass walk down the fallback chain, cached tool
    locations;
  - `paths.rs`: file names, free output names, output ≠ input, tool locations (Windows
    path rules: drives, shares, devices, verbatim `\\?\` paths, roots, `.` and `..`);
  - `media.rs`: thumbnails (Base64 by the `base64` crate), GIF estimates, VMAF, ffmpeg
    progress and error output;
  - `ytdlp.rs`: yt-dlp format selectors, downloads, per-quality sizes, its output;
  - `web.rs`: Open Graph tags, HTML entities and song queries for music links;
  - `tools.rs`: the FFmpeg update marker, what to unpack from its archive, and the yt-dlp
    refresh interval;
  - `text.rs`, `num.rs`: strings and decimal numbers over `Seq<char>`.
- `app/` — the Tauri program: processes, files, network, dialogs and the UI events.
- `tests/` — tests of the library.

Times in the library are integer milliseconds, sizes KiB and frame rates thousandths; the
program converts the UI's floating-point seconds and megabytes at the boundary. Where the
program's output depends on double arithmetic (times written with `{:.2}` / `{:.3}`, the
hardware peak bitrate, the GIF estimate), the library computes the same doubles exactly.
