# ferrotone

Core of the FerroTone vocal pitch trainer, verified with Verus.

## Layout

- `src/` — the verified library.
  - `music/note.rs` — names of MIDI notes ("A#4"), and the proof that
    distinct notes of `0..=127` get distinct names.
  - `music/transcriber.rs` — the note segmenter: a state machine that turns
    per-frame pitch observations into `Started`/`Ended` note events. Its
    contract is the transition function `segment_step`.
  - `music/segment_laws.rs` — properties of the segmenter over single steps
    and over whole runs: events alternate, each `Ended` closes the note its
    `Started` opened, reported notes last at least the minimum duration,
    and every event carries the note of its segment's first observation and
    the mean deviation and clarity of the segment's voiced observations.
  - `music/summary.rs` — pairing of `Started` and `Ended` events for the
    detected-notes table.
  - `gate/confidence.rs` — confidence gate with hysteresis.
  - `gate/noise_suppression.rs` — cutting sample buffers into whole
    denoiser frames.
  - `pitch.rs`, `pitch/dummy.rs` — pitch frames, frame timestamps and a
    fixed-pitch detector.
  - `pitch/stabilizer.rs` — the discrete state of the pitch stabilizer: the
    hold over silent frames, the limit on octave jumps in a row, and the
    window of recent pitches.
  - `audio/chunker.rs` — grouping captured samples into analysis chunks.
  - `audio/device.rs` — input device listing and selection, and the choice
    of stream configuration among a device's supported ranges.
  - `config.rs`, `error.rs` — settings sections and error types.
  - `dataset.rs` — unpacking of the downloaded MIR-1K archive: the zip
    members are read with the `zip` crate (the one trusted function of the
    library), and a verified plan says which directories and files they
    become, in order, and where unpacking stops.
  - `samples.rs` — file names of the vocal sample library ("G#9" for note
    128), for any note number, and their agreement with the note names on
    `0..=127`.
- `app/` — the `ferrotone-cli` program: argument parsing, WAV and
  microphone input (hound, cpal), the SWIPE' detector (pitch-core), RNNoise
  (nnnoiseless), settings files (toml, dirs), JSON logs, and the signal
  arithmetic on `f32` samples and frequencies.
  `--generate-samples` regenerates the vocal sample library and
  `--download-mir1k` fetches the MIR-1K dataset.
- `tests/` — tests of the library.

The desktop shell of FerroTone (the Tauri window with its capture commands,
settings commands and frame events) is not part of this crate: Tauri is not
among its dependencies. The library holds the decisions that shell relies
on: device choice, stream configuration, gating, segmentation.

## Units

The library holds no floating-point values. Quantities measured as real
numbers enter it in fixed units:

| quantity | unit |
|----------|------|
| frequency | thousandths of a hertz |
| deviation from the equal-tempered pitch | thousandths of a cent |
| detector clarity (confidence, nominally 0..1) | millionths |

Note numbers are MIDI numbers rounded to the nearest integer. The
conversions from `f32` live in `app/music.rs`; clarity is rounded up so that
exactly the non-positive clarities map to non-positive values.
