# wild_macho

The Mach-O (arm64 macOS) back end of a linker, written in Verus: each function carries a
`requires`/`ensures` contract over mathematical models (`Seq`, `Map`, spec functions), and
Verus proves the code against it.

## Layout

- `src/` — the verified library, one module per concern:
  - input: `symtab` (nlist records), `sections` (section flags and attributes),
    `relocations` and `aarch64` (relocation pairing, decoding and the branch-island and
    thunk decisions), `unwind_records`, `eh_frame`, `eh_frame_relocations`, `objc_references`;
  - text-based stubs: `text` (byte scanning with Unicode whitespace), `tapi` (the regular
    TAPI v4 spelling), `stub_library` (the breadth-first walk over reexported libraries,
    stated as a step function `spec_step` and its run `spec_run`), `export_list`;
  - layout: `layout`, `output_section_id`, `header_sizes`, `finalise_sizes`, `segment`,
    `image`, `options`;
  - output: `headers`, `load_commands`, `chained_fixups`, `fixup_collection`, `fixup_table`,
    `relocation_writer`, `section_copy`, `eh_frame_writer`, `compact_unwind`,
    `unwind_writer`, `symbol_output`, `symbols`, `synthetic`, `signature`;
  - shared: `bytes`, `byte_order`, `sorting`, `atoms`.
- `tests/` — tests that run the compiled library on concrete inputs.
- `app/` — unverified code around the library: reading files and the YAML fallback for TBD
  files outside the regular spelling.

Calls into outside crates (`object`, `sha2`, `blake3`) stand behind small trusted wrappers
whose doc comments say what their contracts claim.
