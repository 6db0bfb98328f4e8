# vecgra_studio

The verified core of the `vecgra` command line and of Vecgra Studio: parsing
of commands, import of GitHub history and JSON lines, embeddings and their
cache, reports and benchmarks, the scene that the studio shows, and every state
that the studio can be in.

- `src/` is the library. Every function has a contract that Verus proves, and
  the laws of the library are public proof functions whose names begin with
  `law_`. Floating-point values are carried by their bits; a graph database is
  seen as plain records.
- `tests/` holds the tests of the library.
- `app/` is the program around it: the graph engine behind the `Store` and
  `Engine` traits, the GitHub and embedding requests, floating-point geometry,
  and a studio session without its window.

What is trusted is marked `#[verifier::external_body]` or
`assume_specification` in `src/digits.rs`, `src/fields.rs`, `src/json.rs` and
`src/text.rs`, each with a comment that names the function it stands for.
