# web_static

A small static website gateway. The host of a request names a directory of an
object store, and the path an object in it. The note feed of one site is served
from memory instead: as a page, as Markdown and as JSON, with search.

- `src/` is the library, verified with Verus. It decides what is fetched, what
  each answer of the store leads to, how notes are rendered, how snapshots of the
  feed are built and replaced, and how requests are answered from them. What it
  takes from other crates without proof stands in `src/trusted.rs`.
- `app/` is the program around it: it listens, fetches and parses JSON.
- `tests/` runs the library with the real crates.

## Settings

| Variable      | Default                                     |
| ------------- | ------------------------------------------- |
| `PORT`        | `8080`                                      |
| `S3_ENDPOINT` | `http://minio.minio.svc.cluster.local:9000` |
| `S3_BUCKET`   | `sites`                                     |
