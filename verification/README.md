# unjar

Reads cookies from local browser profiles and exports them as a `cookies.txt`
file, JSON, or a `Cookie:` header.

- `src/` is the library, verified with Verus: profile discovery and the choice
  of the default profile, profile selection by ID, name or path, chromium
  cookie decryption (AES-128-CBC with the Safe Storage key), Firefox and Safari
  readers, cookie filtering by host, and the cookies.txt and header formats.
  It takes what the file system, the cookie databases and the platform key
  store show as plain values.
- `app/` is the `unjar` command: argument parsing, reading directories, files
  and SQLite databases, asking the macOS Keychain, and writing the output.
- `tests/` exercises the library on concrete values.
