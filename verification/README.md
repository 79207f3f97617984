# libre99

The verified core of the Libre99 TI-99/4A tools: a two-pass TMS9900
assembler with its instruction table, expression evaluator and `COPY`
expansion; the console-ROM and disk-DSR firmware builders with their layout
gates; a table-driven disassembler; and the emulator frontend's logic —
command line, key mapping and routing, speed and frame pacing, the 5×7 text
overlay, framebuffer presentation, PNG screenshots, media prompts and paths.

- `src/` — the library, verified with Verus against its contracts. A few
  calls into std (`str::to_uppercase`, `{:?}` quoting, `Path::extension`,
  `Path::file_name`, `Path::file_stem`, `Path::parent`, `MAIN_SEPARATOR`)
  sit in small trusted wrappers, and `String::push` has a trusted
  specification; Verus takes those contracts on trust; everything else is proved. Laws that span functions are
  public proof functions (`lemma_*`).
- `tests/` — ordinary Rust tests of the library.
- `app/` — the `libre99asm` command line: argument handling and file I/O
  around the library.
