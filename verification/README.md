# protodefc

Support library for the protodef specification (PDS) compiler: PDS files
describe binary formats, and the compiler writes codecs for them in other
languages. The functions in `src/` are verified with Verus against their
contracts, except two small trusted wrappers around the standard library
(`String::push` and `str::parse::<usize>`), whose contracts state what the
standard library documents.

Layout of `src/`:

- `frontend::protocol_spec::ast` — the PDS syntax tree; `grammar` states the
  grammar over characters, `parser` reads text into a tree, `printer` writes a
  tree back out, and `roundtrip` proves that written text reads back as the
  tree it came from. `value_helpers` checks and looks up item arguments.
- `frontend::protocol_spec::to_ir` — reading type specifications
  (`integer("u8")`, `binary("utf8")`, ...) and native type arguments.
- `context::compilation_unit` — namespaces of named types and their lookup.
- `field_reference` — references such as `../../field`.
- `backend` — syntax trees and printers for JavaScript, Python and Rust, an
  indenting text writer, and the imperative form of generated code with its
  JavaScript and Rust writers.

The tests under `tests/` run the library on concrete inputs.
