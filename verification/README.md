# pi_mobile_ui

The verified core of a mobile web front end for Pi coding-agent sessions. The server drives
`pi --mode rpc` processes over JSON lines and serves a browser over a WebSocket.

- `src/` is the library, verified with Verus: the session catalog (reading session files,
  titles, newest-first order), the Pi RPC conversation (requests, replies, routing records
  to waiting requests, runtime state), the session hub's decisions (live-session limit,
  merged session list, opening and prompting), the browser side (origin check, commands,
  replies, asset headers) and the settings. Calls into chrono, uuid, mime_guess, dirs and
  serde_json stand behind small trusted wrappers whose contracts are stated in their doc
  comments.
- `tests/` runs the library on concrete values.
- `app/` is the program around it: command line, file and process I/O, the axum server and
  the async plumbing.
