# runarchive

Random-access reading of ZIP archives, local or remote, without downloading
them whole.

- `src/` is the verified library: the ZIP record parsers (`parser`), the
  plan of the reads that open an archive and extract a member (`archive`),
  the retention buffer (`buffer`), seeking and HTTP range handling
  (`seeker`), splitting an archive URI (`reader`), the bookkeeping of a
  resumable DEFLATE extraction (`deflate`) and its checkpoints (`resume`).
  Every function carries a contract proved by Verus.
- `app/` is the command-line program and the I/O around the library:
  opendal operators and readers, HTTP and file seekers, the zlib-rs
  inflate loop, checkpoint files and progress bars.
- `tests/` exercises the library on concrete archives and values.
