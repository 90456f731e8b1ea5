# rastro

Satellite astrodynamics toolkit whose text-handling core is verified with Verus.

## Layout

- `src/` — the verified library:
  - `time.rs`: time systems, their names, and the grammar of epoch strings
    (`parse_epoch_string` returns the calendar fields and time system an
    epoch string denotes);
  - `eop.rs`: Earth orientation parameter settings, the fixed-column line
    formats of IERS C04 and standard (finals2000) files, whole-file loading
    into an `EopTable` with its date bookkeeping, the messages of rejected
    lines, and the lookup decision (interpolate, prior value, zero, hold,
    error) for a date;
  - `text.rs`: whitespace trimming and the `u32` / `f64` literal grammars
    used by the line parsers;
  - `coordinates.rs`: the ellipsoidal conversion kind.
- `tests/` — tests of the library on concrete inputs.
- `app/` — floating-point astrodynamics (coordinates, frames, orbits,
  epochs and time-system offsets through SOFA), file and network access,
  and the global EOP store, built on the library.

Parameter values read from EOP files are kept by the library as the decimal
text found in the file; the floating-point conversion and interpolation
happen in `app/`.
