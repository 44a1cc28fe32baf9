# tar_differential

Reads one tar archive with two readers, the `tar` crate and tar-core's sans-IO parser, brings both
readings into one owned form, and compares them. It is made for fuzzing tar-core: any input of at
most 256 KiB is examined, and a divergence that is not on the list of known differences is a defect.
So is a sum that overflows in a reader; such an input is recognised and reported before it is read.

- `src/` is the verified library.
  - `bytes`, `octal`, `fixup`: byte strings, octal fields, repair of header checksums.
  - `entry`: the owned snapshot of an entry, `OwnedEntry`.
  - `core_event`, `core_reader`: reading with tar-core.
  - `tar_header`, `tar_archive`, `rs_reader`: reading with the `tar` crate.
  - `raw_header`, `pax`: what the readers look at to find the next header.
  - `core_sums`, `rs_sums`: where each reader adds up sizes unchecked, and whether a sum overflows.
  - `differential`: the comparison, and what is done with one input of the fuzzer.
  - `dump`: the blocks of an archive, for a report.
- `tests/` runs the library with the real readers.
- `app/` is the fuzz target: it examines an input, and prints a report and panics where a sum
  overflows or the readings diverge.

What the two outside readers compute is named, not proved: each call stands in a small function
whose contract says what is relied on, with the word "Trusted" in its documentation.
