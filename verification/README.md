# unidis

A disassembler for many processor families, driven by Ghidra's SLEIGH
specifications through `libsla`.

- `src/` is the verified library: the table of known specifications and
  their identifiers, the disassembler over a byte buffer, the analysis of an
  instruction's p-code inputs, loader opinions and compiler specifications
  (read from XML), the web and command-line listings, request handling for the
  web front ends, and the planning of an ELF file's disassembly.
- `app/` holds the programs: the command-line disassembler, the web server and
  the browser bridge. One binary serves all three, chosen by the name it is
  started under (`unidis-web`, `web-bridge`, anything else is the command line).
- The SLEIGH files (`.pspec`, `.sla`, `.opinion`) are read at start-up from the
  directory named by `UNIDIS_DATA` (default `data`), laid out as the paths in
  `src/arch.rs` give them.
