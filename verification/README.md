# ShelDrive

A desktop drive backed by a decentralised storage network: files copied into
the mounted drive are pinned to the network, read back on demand, and
unpinned on delete.

- `src/` is the verified library (Verus): content-safety rules (`safety`),
  folder-key encryption and key wrapping (`crypto`), the in-memory state of
  the mounted filesystem — inode numbering, write buffers, directory
  listings, and the steps of fetching and pinning content (`drive`), the children rule of the file index (`index`), cache
  and staging layout with the eviction order (`cache`), the configuration
  file (`config`), the sidecar bridge's decisions (`bridge`), the mount
  status (`state`), and character-level string helpers (`text`).
- `app/` is the unverified shell around it: SQLite, disk and process I/O,
  the FUSE callbacks, and the commands of the interface.
- `tests/` exercise the library on concrete values.
