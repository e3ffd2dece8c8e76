# xdeb

Converts Debian `.deb` packages into Void Linux `.xbps` packages. The
library under `src/` holds the logic of the `xdeb` command and is verified
with Verus; `app/main.rs` is the command itself, which runs the external
tools (`ar`, `tar`, `objdump`, `curl`, the XBPS tools), reads and writes
files, and prints.

- `text`, `order`: strings as character sequences, their lines and words,
  and the order used for sorted sets of names.
- `control`, `metadata`: Debian control fields and the package metadata
  derived from them.
- `config`, `env`, `args`, `install`: settings, from the environment and
  from the command line of each mode.
- `deps`: shared-library dependencies from `objdump` listings and Void's
  `shlibs` list.
- `paths`, `packaging`, `run`: path checks, the destination-tree check, the
  arguments of the XBPS tools, and the stages of a conversion.
- `render`, `numbers`, `system`, `clock`: printed text, JSON and shell
  quoting, decimal numbers, the shlibs metadata file, host decisions and
  the system clock.

Laws about these functions are stated as public proof functions beside
them (names beginning with `lemma_`).
