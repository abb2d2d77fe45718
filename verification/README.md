# suiup

The verified core of `suiup`, the installer and version manager for the Sui
tool binaries (`sui`, `walrus`, `mvr` and the others of its registry).

- `src/` is the library, verified with Verus: the registry of binaries, the
  parsing of component specifications and versions, the records of installed
  binaries and default versions, release and asset selection, and the
  decisions of each command (what to download, what to record, which version
  becomes the default, what an update does).
- `tests/` runs the library on concrete values.
- `app/` is the program around it: the command line, the files under the
  user's data, configuration and cache folders, requests to GitHub, archive
  extraction, `cargo` builds and the prompts.
