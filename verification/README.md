# Khawrizm

The computational core of the Khawrizm Enterprise Grid and its Ring-0 text
refinery, written in Verus: every operation carries a contract, and Verus
proves the code against it.

- `src/taco.rs`, `src/taco_laws.rs`: tabular locality-based compression of
  formula dependencies (RR, RF, FR and FF patterns), the spatial index, and
  the laws they keep.
- `src/grid.rs`, `src/lexer.rs`, `src/console.rs`: the sheet, the formula
  lexer and the engine console.
- `src/desktop.rs`, `src/desktop_ipc.rs`: the desktop grid's formula commands.
- `src/browser.rs`: the sovereign browser's renderer and network guard.
- `src/refinery.rs`, `src/pattern.rs`, `src/sanitizer.rs`, `src/monolith.rs`,
  `src/unikernel.rs`, `src/provenance.rs`, `src/llm.rs`: the Ring-0 corpus
  pipeline (extraction, normalisation, chunking, assembly, signing).
- `src/text.rs`: character-level helpers.
- `app/`: the command-line programs, which do the file, network and terminal
  I/O around the library.
