# datex_cli

The DATEX command line program (REPL, running `.dx` files, language server,
workbench, native communication interfaces), with its logic as a library
verified by Verus.

## Layout

- `src/` — the verified library:
  - `text.rs`: UTF-8 byte lengths of character sequences, splitting at a
    character, the line view of a text (as `str::lines` yields it).
  - `lsp.rs` and `lsp/`: positions and byte offsets of documents, the
    completion prefix, the per-file store of compiler errors, variable
    lookups for completion and hover, and the AST visitors.
  - `config.rs`: configuration paths, choice of the configuration file, the
    DATEX base directory and the runtime header box.
  - `repl.rs`: classification of REPL input and the REPL's answers.
  - `command_line_args.rs`: what the program does for a command line.
  - `workbench.rs`: the workbench's views as styled lines and its key
    handling.
  - `com_interfaces.rs`: checks of interface setup data, socket read
    decisions, WebRTC mappings and the offer/answer negotiation.
- `tests/` — tests of the library on concrete values.
- `app/` — the program around the library: argument parsing, terminal,
  files, network and the async runtime.

Run Verus on `src/lib.rs` to check the proofs; the tests run with the
outside crates linked.
