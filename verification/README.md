# asm_annotate

The verified core of a terminal tool that shows a function of an ELF file as assembly
next to the source lines it was compiled from.

- `src/` is the library, verified with Verus: reading symbols and sections of an ELF
  image (through goblin), choosing a function, disassembling it (through capstone),
  demangling C++ names (through cpp_demangle), reading DWARF line tables (through
  gimli) and mapping addresses to source lines from them, coloring instructions by
  source location, the source panel with its context ranges, the plain-text dump, the
  interactive viewer's state and keys, and the side-by-side, unified and split text
  layouts.
- `app/` is the program around it: command line parsing, file access, the fuzzy picker
  (skim), the terminal interface (ratatui, crossterm) and the file watcher (notify).
- `tests/` holds the tests of the library.
