# qims-backend

Document control for quality management: a converter that turns office files and
PDFs into HTML for an editor, and the rules of the document, user and
notification resources behind it.

- `src/` is the verified library. Each function states what it returns, and Verus
  proves it. Operations that need the database or a converter are written as
  steps: the library says which query or tool comes next, and goes on with what
  came back.
- `app/` is the service around it: HTTP routes, the SurrealDB client, the
  converters on the host, and the log.
- `tests/` runs the library on concrete values.

| Module | What it holds |
| --- | --- |
| `text`, `order` | text as characters, and putting items in order |
| `convert` | which tools convert a file; footers, page geometry, page snippets and images of OOXML documents; the names that uploads are stored under |
| `database` | queries, their answers, and the rules of documents, users and notifications |
| `error`, `config`, `logger`, `clock` | what callers are told, settings, log lines, the time |

What is not proved, but believed: the calls into `chrono` (the current time),
`log` (level names), `base64` (the encoding of images) and `String::push` of std.
Each stands behind an item whose doc comment says what is claimed of it.
