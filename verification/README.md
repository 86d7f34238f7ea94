# flowstation

The core of a TETRA base station, written in Rust and proved with Verus: the functions state in their
contracts what they return and change, and Verus checks it. Where chance, the clock or the order in
which a hash map is walked has a part in it (starting an authentication, collecting the challenges
that have expired, reading the keys of a configuration), the contract ties the result to what was
drawn, read or walked, and leaves open which of them came.

- `src/` is the library.
  - `bitbuffer`, `bits`, `pdu_parse_error`, `typed_pdu_fields`: PDUs bit by bit, with their optional
    type 2, type 3 and type 4 elements.
  - `mm`: the U-AUTHENTICATION and D-AUTHENTICATION PDUs, and the one-way authentication of
    terminals.
  - `cmce`: bringing a terminal back into its call (U-CALL RESTORE).
  - `tdma_time`, `phy`: TDMA time, and sample counts that run on where it wraps.
  - `config`: access control, keys and restart recovery.
  - `crypto`: combining cipher key components (TB4).
  - `net_dashboard`: the update check, as a row of git commands and what they lead to, and its JSON.
  - `text`: trimming, decimal and hexadecimal notation.
- `tests/` runs the library on concrete values.
- `app/` is what surrounds it: configuration files, wire formats of other processes, the TAA1
  functions in C, and running git.

The public proof functions whose names start with `law_` state what holds of several functions
together: that what is written is read back, that a challenge can be answered once, that no two
parties of a simplex call talk at a time, and so on.

What is taken on trust stands at the functions of the standard library and of `rand` that the
library calls: `String::push`, `Vec::from_iter` on a `HashMap`, `Formatter::write_str`,
`Instant::now`, `Instant::elapsed`, `Duration::as_nanos` and `rand::random_range`. Each has a doc comment that says what is claimed of it.
