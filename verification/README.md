# OpenSearch connector

A connector that answers JSON calls about an OpenSearch server: it describes itself,
opens and closes connections, runs SQL statements, and lists the indices with their
columns.

The library in `src/` is verified with Verus. It does no input or output: a call is a
sequence of steps, each of which either is the answer or asks for one HTTP request, and
the call goes on with what came of that request.

| Module | What it holds |
|---|---|
| `text` | Trimming, splitting, replacing, decimal numerals |
| `json` | JSON values, and their way out of text |
| `request` | The places of a call that may hold connection options |
| `config` | What a connection is made with, and redaction |
| `secrecy` | What redaction guarantees |
| `output` | Tables out of the answers of the server |
| `catalog` | The catalogue of indices and columns |
| `http` | Requests to the server, and what comes of them |
| `server` | What the server is asked, and what its answers mean |
| `session` | The steps of a call, and the open connections |
| `conduct` | What holds of calls as a whole |

`app/` turns buffers into calls, sends the requests, and keeps the open connections of
the process.
