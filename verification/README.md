# treeboost

The decisions of a gradient-boosted-tree library, written in Verus: the contracts under
`src/` say what its functions return, and Verus proves them. The few calls into other
crates stand behind small functions whose doc comments say what is taken on trust.

Numbers with a fraction are held as their IEEE-754 bits. The library compares them,
orders them and turns them into whole numbers; sums, gains and logarithms are
computed by the code around it and handed in.

## Layout

- `src/float.rs`, `src/float_int.rs`, `src/fractions.rs`: numbers as bits, their order,
  and the way between them and whole numbers.
- `src/seqs.rs`, `src/sorting.rs`, `src/text.rs`: counting, stable sorting and text.
- `src/dataset.rs`, `src/backend.rs`, `src/defaults.rs`: binned data, backends, defaults.
- `src/tree/`: constraints on features, the search for splits with and without eras,
  the partition of rows, and best-first growth as a state machine that never loses a
  row, never outgrows its limits, keeps every path within the interaction constraints
  and depends on no other rows than its own.
- `src/serialize/`: the TRB container, a base model followed by updates. Laws state
  that what was written is read back, that a journal that is cut or damaged reads as
  the updates before, and that a blob with the wrong checksum is never handed out.
- `src/tuner/`: parameters, bounds, spaces, grids, trials, metrics, the curve of a
  ranking, earlier runs, and the tuning of a linear model followed by trees.
- `src/interface/`: what scripts may ask for, and the messages that they get.
- `app/`: files, threads, floating-point arithmetic and the Python module.
- `tests/`: the library in use.
