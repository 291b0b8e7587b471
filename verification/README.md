# PostgREST

An HTTP gateway to PostgreSQL whose requests carry all that is needed to answer
them: host, database, credentials, TLS material and the query. Beside it the
server forwards HTTP requests (`/proxy`), tells of its own state (`/health`) and
keeps itself up to date.

The rules of the server are a library that is verified with Verus:

| module | what it holds |
| --- | --- |
| `query` | connection keys, SSL modes, TLS set-up, parameters, rows |
| `proxy` | forwarding hop by hop: redirects, credentials, cookies, failures |
| `updater` | versions, the steps of an update check, the update loop |
| `health` | the log of the latest failures and the updater's status |
| `cli`, `service` | command line, background service, Windows service control |
| `text`, `encoding` | strings, decimal numbers, base64 |
| `http`, `json` | the calls into `reqwest` and `serde_json` |

`app/` is the program around it: sockets, files, processes, and the conversion
of JSON to and from the library's types. `tests/` runs the library.
