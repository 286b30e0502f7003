# napaxi_codex

The Codex agent engine of Napaxi and its browser-backed web search tool,
written in Verus. The library's functions carry contracts that Verus
proves. The calls into outside code (base64 decoding, percent-coding, UUID
generation, and two std conversions between bytes, characters and strings)
go through small wrappers marked `external_body`: their contracts are taken
on trust, and each one's doc comment says what it claims.

## Layout

- `src/json.rs`, `src/text.rs`, `src/keyed.rs`: JSON documents with their
  model and their compact and pretty rendering; text operations on
  characters; keyed lists read as maps.
- `src/protocol.rs`: JSON-RPC framing of the Codex app-server protocol and
  the framing of terminal output into JSON lines.
- `src/events.rs`: what an app-server message means for a running turn.
- `src/registry.rs`, `src/state.rs`, `src/turn.rs`: the live sessions and
  the questions they wait on, what a conversation keeps between turns, and a
  turn as a machine that the host drives.
- `src/history.rs`, `src/config.rs`, `src/api.rs`, `src/project.rs`,
  `src/skills.rs`: native history mapping, configuration replies, the JSON
  entry points, project helpers and the bundled skill manifest.
- `src/search_text.rs`, `src/search_url.rs`, `src/web_search.rs`,
  `src/search_tool.rs`, `src/search_cache.rs`, `src/browser_search.rs`,
  `src/search_run.rs`: the
  web search tool, from reading browser observations to the cached answer.
- `app/`: the host side (files, the sandbox terminal, the browser bridge,
  serde conversions, the clock). It runs the loops that carry out what the
  library's state machines decide, and does the file and terminal I/O
  around them.
- `tests/`: tests of the library on concrete values.
