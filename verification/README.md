# modkei-core

Code statistics and file dependency graphs for source trees, as a library
whose behaviour is stated in Verus contracts and proved.

- `src/` is the verified library: line counting (`stats`), import
  extraction from syntax trees for Rust, TypeScript/JavaScript, Python, Go,
  C/C++, Java, shell, Make and CMake (`parser`), resolution of imports to
  files (`resolver`, `graph::module`, `graph::rust`), dependency edges of
  Rust files (`backend`), the graph (`graph`), the report's file layout
  (`report`) and the per-language tables of the terminal view (`tui`).
  Syntax trees come from tree-sitter and from rust-analyzer's parser through
  a few trusted wrappers in `syntax`; everything that reads them is verified
  over a flat list of nodes.
- `app/` is the command line program around it: walking the directory,
  reading files, rendering the terminal view, writing and serving the
  report.
- `tests/` exercises the library on concrete inputs.
