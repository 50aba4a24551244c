# tucknotes

The core of a meeting-notes desktop application, written in Verus. Every
function in `src/` carries a contract, and Verus proves all of them except
twelve small trusted wrappers whose contracts are taken on trust: eight
around `serde_json` (`src/services/json.rs`) and four around `std`
character and string calls (`src/text.rs`).

- `src/models/` – settings, model catalogues, licence state, summary
  templates, meeting-detection profiles, recording events.
- `src/services/` – transcript de-duplication, live minutes, the meeting
  detector's state machine, template storage and prompts, licence status,
  the local Ollama client's decisions (request body, retry ladder, streamed
  chunks), the streaming output filter and the tool-call parsers.
- `src/commands/` – the decisions behind the user-facing commands: chat
  turns and the meeting-search tool, the summarisation queue, recording
  start/pause/resume checks and transcript events.

Laws that span several functions are public proof functions named `law_*`
(for example `law_filter_any_cuts`: however the model's stream is cut into
pieces, the filtered output is the same; `law_filter_split` is the
single-cut step it is built from).

`app/` is ordinary Rust around the library: file storage, SQLite, the HTTP
exchanges with Ollama and the licence server, and serde copies of the
library's types. JSON is handled by `serde_json` behind the trusted
wrappers in `src/services/json.rs`.
