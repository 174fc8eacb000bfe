# azdls

The requests and answers of the ADLS Gen2 storage service, verified with Verus.

- `src/` is the library. It turns each operation on a filesystem into a request, reads the
  metadata and the continuation that answers carry, and decides how a recursive deletion goes
  on. Contracts state every request and every reading exactly; the proof functions whose names
  start with `law_` state what holds of the library as a whole.
- `tests/` runs the library on given values.
- `app/` is the client around it: it signs requests, sends them, and hands the answers back.
