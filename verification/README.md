# fpp_phases

Navigation from the init specifiers of an FPP model to the C++ code that is generated for
them, as a language server needs it: which specifier the cursor is on, which topologies
include its instance, where their generated files lie in a build cache, at which line of
such a file the code of the specifier stands, and what to show when hovering over it.

- `src/` is the library. Every function states what it does, and Verus proves it. Functions
  whose names begin with `law_` state what holds of the library as a whole.
- `tests/` runs the library on concrete values.
- `app/` connects the library to the file system and to the types of the language server
  protocol.

The library does no input or output. `generated_targets` gives a `TargetSearch`, which says
what it wants to know of the file system, is given the answer, and goes on until it is done.
Paths are those of Unix-like systems: `/` is the only separator, and there are no drives.

Two things are taken on trust: that `String::push` appends a character, and that
`lsp_types::Uri` accepts or refuses a text by the text alone and keeps it as it is.
