# pixeleagle_cli

A client for the Pixel Eagle visual regression testing service: it creates
runs, uploads screenshots (only those the service does not have yet),
triggers and fetches comparisons of runs, and downloads screenshots and diff
images.

The library under `src/` is verified with Verus. Every public function
states what it returns in its contract, and `src/laws.rs` proves the
properties that span several functions.

- `src/text.rs`: decimal numbers and character scans on texts.
- `src/string_map.rs`: a map of texts that keeps the order in which keys
  arrived.
- `src/cli.rs`, `src/grammar.rs`: the command line, its model and its parser.
- `src/types.rs`: runs, screenshots and comparisons, and how a comparison is
  reported.
- `src/project.rs`: the requests that the client sends to the service.
- `src/upload.rs`: screenshot names, content hashes and the choice of what
  to upload.
- `src/retry.rs`: the decisions taken after each sending of a request.
- `src/external.rs`: the calls into `url`, `sha2`, `hex`, `uuid`,
  `serde_json` and std that the library relies on, with their contracts.
- `src/laws.rs`: the library's laws.

The program under `app/` reads the command line and the environment, sends
the requests with `reqwest` on `tokio`, reads and writes files, and prints
results. It holds no decision of its own: it asks the library.
