# revdeck_index

The binary indexer of RevDeck: it reads an ELF or PE file, indexes its sections, symbols,
imports and strings, seeds and refines function boundaries, decodes x86-64 code into
instructions, basic blocks and control-flow edges, tracks register, constant and flag facts
through each block, and derives cross references and the job records of an analysis run.

The library under `src/` is written in Verus; every executable function carries a contract
and is verified. The `object` crate parses object files and `sha2` hashes them; both are
called through small trusted wrappers whose contracts name what they return.

## Layout

- `text`, `width`: text helpers (hex and decimal rendering, comparisons) and fixed-width
  integer arithmetic.
- `decode`: the x86-64 decoder. Its contract fixes, from the bytes alone, every instruction's
  length, mnemonic, typed operands, operand text, control flow and branch target.
- `registers`, `constants`, `conditions`, `frame`: register reads and writes, constant
  propagation, flag producers and branch outcomes, stack frames, slots and arguments.
- `cfg`: basic blocks, control-flow edges and per-instruction cross references of a function.
- `layout`, `writers`: laws of a function scan: block, instruction and edge layout, condition
  sources, and register sources as the latest writers in a block.
- `sections`, `surface`, `strings`, `binary`: executable sections, string scanning,
  symbol and import collection and the trusted calls into `object`.
- `functions`, `extents`, `annotate`, `native`: function seeding, boundary refinement,
  frame annotation and the native pass over all functions.
- `profile`, `diagnostics`, `parse`, `jobs`: analysis profiles, diagnostics, the whole
  indexing of one file and the jobs an analysis records.

`tests/` exercises the library on concrete bytes; `app/` holds what stays outside Verus:
reading files, canonical paths and section entropy.
