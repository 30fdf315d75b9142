# crypt_core

A file-encryption tool: files are hashed (BLAKE2s), compressed (Zstandard) and
encrypted (ChaCha20-Poly1305) into `.crypt` files, each framed with the text of a
UUID that names its record in a local SQLite keeper; the records and the files can be
exported, imported, and moved to and from Google Drive.

- `src/` is the library, verified with Verus: the encryption pipeline and its
  round trip, the `.crypt` framing, tokens, the configuration and the parser of the
  configuration file, the command line's decisions, the Google Drive client's
  queries and upload steps, and the text drawings of directory trees.
- `app/` is the program around it: argument parsing, files, the keeper, the network
  and the prompts.
- `tests/` runs the library on concrete values.
