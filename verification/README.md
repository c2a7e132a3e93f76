# vsl

The VSL payload format, verified with Verus.

- `format`: the envelope. A 48-byte header (magic, version, flags, payload
  length, SHA-256 digest, all integers big-endian) followed by the payload.
  `chunk::decode` accepts exactly the envelopes whose header is well formed,
  whose declared length matches and whose digest is the payload's.
- `bundle`: the `VSLBND01` layout, which carries an application directory
  tree (entrypoint, then files, directories and symbolic links with their
  modes) as one payload. Reading a packed bundle gives it back, and every
  bundle that reads successfully names only relative paths without `..`:
  its entrypoint, its entry paths and the targets of its symbolic links.
  Paths are read in a `PathStyle`: `Unix`, where `/` is the only separator,
  or `Windows`, where `\` separates too and drive, UNC and device prefixes
  are refused. `app/` passes the style of the platform it runs on.
- `digest`: SHA-256 through the `sha2` crate.
- `wire`: big-endian integers on byte sequences.

`app/` walks a directory into a bundle and writes an unpacked bundle back to
disk; it leaves every decision on the bytes to the library.
