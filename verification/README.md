# batg

Tooling around the flatbuffer tables of a game client, with its logic proved
in Verus.

- `src/` is the verified library:
  - `format`: the `.flat` container header (magic, version, entry count,
    fixed-size records), with exact encode/decode contracts and round-trip
    laws;
  - `pack`: checking a pack request and laying plugins out after the header
    (checksums through `crc32fast`, compression through `zstd`);
  - `dump`: resolving table and row type names from file and table names, and
    assembling the JSON array of decoded rows;
  - `sink`: planning what the row sink's serializer emits or rejects for each
    value of the serde data model, and checking a sink's header;
  - `dispatch`, `builder`, `order`: choosing the schema files and the types
    the generated dispatch code covers, sorted and without repeats (paths
    parsed by `syn`, module names by `heck`);
  - `generated`: which generated files to rewrite and which files of the
    generated-code directory to keep;
  - `text`: character-level helpers shared by the above.

The duplicate check on pack requests scans the triples pairwise instead of
using a `HashSet<&str>`: Verus proves nothing about the contents of a hash set
keyed by strings, while the scan's result is proved exactly (the first triple
that repeats an earlier one).
- `app/` is the unverified shell: the `batg-pack` command line, file I/O, the
  build-script runner (schema parsing and code generation), the serde
  `Serializer` that performs the sink plans, and the C interface.
- `tests/` runs the library on concrete values with the real outside crates.
