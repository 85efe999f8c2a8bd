# pixakit

An image server that serves pictures from a directory on disk or from cloud
storage, with an in-memory cache of what it has read.

- `src/` is the request logic, verified with Verus: cache keys and the decisions
  around the cache (`images`), storage and asset paths (`paths`), upload checks
  (`upload`), directory listings (`listing`), asset replies (`assets`), blob
  downloads (`blob`), start-up choices (`provider`), and the reply model
  (`reply`). Media types come from `mime_guess` (`media`).
- `app/` is the HTTP server around it (ntex), the cache (moka), the disk, and the
  Azure and S3 clients.
- `tests/` exercises the library on concrete values.
