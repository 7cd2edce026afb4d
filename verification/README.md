# ft8lib

The decision logic of an FT8 decoder, written in Verus and proved against
its contracts: message frames (CRC-14, the LDPC 174/91 encoder, tones),
call-sign and grid checks, the false-decode filters, the pass and AP
planning of the WSJT-X and JTDX decoders, the QSO memory of the JTDX
decoder, the DX-target chase (frequency memory, foci, deep-search stacks,
reports) and the merge of several decoders' results.

Frequencies are held in millihertz and times in milliseconds, so that the
library computes on integers only.

Layout:

- `src/` — the verified library, one module per subject; `src/lib.rs`
  lists them.
- `tests/` — tests of the library on concrete values.
- `app/` — the floating-point signal processing (FFTs, sync and bit
  metrics) around the library, which Verus does not check.
