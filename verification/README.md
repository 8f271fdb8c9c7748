# note

A personal note server (capture, search, chat over notes, web clipping,
podcast episodes of notes), with its decision logic verified by Verus.

- `src/` is the verified library: text handling, request validation, search
  merging, tag filtering, chunking of text for speech, episode titles and
  file names, the podcast feed items, the Markdown export (file names,
  front matter, the ZIP archive), calendar arithmetic, transcript and
  article clean-up, tweet notes, stream event translation, and the access
  check. Calls into outside crates (subtle, htmd, dom_smoothie, base64,
  serde_json, rss, zip, anyhow, deadpool-sqlite) stand behind small trusted
  wrappers whose contracts say what the crates' sources show.
- `tests/` runs the library with the real outside crates linked.
- `app/` is the program around it: the axum server, SQLite queries, the
  background worker, the model and speech service calls, the MCP server and
  the command line.
