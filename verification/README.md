# alien

Converts binary packages between formats. It reads RPM packages, makes Debian
source packages of unpacked ones, and writes the spec files that RPM packages
are built from.

- `src/` is the library. It decides what is asked of the packaging tools, what
  their replies mean, and what goes into every generated file. Each function
  has a contract that Verus proves; `src/outside.rs` lists what the proofs take
  on trust.
- `app/` runs the tools and reads and writes the files.
- `tests/` runs the library on concrete packages.
