# rustdrop

A self-hosted file drop: a web server that takes uploads of files and whole
folders in chunks, lists, renames and deletes what was stored, and a browser
client that drives it.

The logic lives in a library verified with Verus (`src/`):

- `sanitize`, `paths`, `containment`: file names and upload paths made safe,
  Unix path handling, and the check that a path stays inside the upload
  directory.
- `upload`, `files`, `file_ops`: upload sessions, the listing, downloads
  and renames.
- `init_flow`, `chunk_flow`, `file_flows`: the start of an upload, the
  receipt of a chunk, and reading, renaming and deleting a stored item,
  each as a state machine: the server carries out the check, read or write
  the machine asks for and hands back the answer (the containment check of
  `containment` works the same way).
- `security`, `session_id`, `server`: login throttling, session ids, and the
  server's settings-driven decisions (logs, CORS, HSTS, notifications).
- `client`, `transfer`: the browser client's state and its reaction to
  every event, and the chunked upload of one file with its retries.
- `text`, `str_map`, `size_format`, `lemmas`: shared helpers.

`app/` is the program around it: the HTTP server (axum), the file system and
process work, and the browser client's page (yew). `tests/` exercises the
library.
