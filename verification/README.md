# sam_toolkit

The logic of the `sam` command-line toolkit and of the terminal view of the
developersam.com site, written in Verus: the functions in `src/` carry contracts
that the verifier proves, and the laws the toolkit promises (what a key press
keeps, what one action undoes, what a round trip gives back) are stated as
proof functions beside the code they speak of. The exceptions are the small
`#[verifier::external_body]` wrappers around calls into `chrono` and std
(the clock, dates, paths, formatting): their contracts are trusted, each
doc comment says what it claims of the call, and a wrapper that reads the
clock claims nothing of its result.

- `src/` — the verified library. Each module states its model in spec
  functions and views, and its public functions' contracts over them.
- `tests/` — ordinary tests that run the library on concrete values.
- `app/` — the `sam` binary around the library: argument parsing, the
  network and file I/O, terminal drawing, and the floating-point money and
  layout arithmetic that the library does not hold.

Interactive apps (the knowledge graph, the budget editor, the site's
screen) are state machines in the library: a key press or click goes in,
the next state and any request for the outside world come out, and the
binary performs the request and reports back.
