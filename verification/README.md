# airp_core

The core of a stateful role-play gateway: it assembles the system prompt of a
character (card, lorebook, preset, story gating, live state), filters the
model's streamed reply, keeps the chat log and the volume index, and answers
the tool and resource requests of an MCP client. The logic is written in Verus
and proved against its contracts; the program around it does the I/O.

## Layout

- `src/` — the verified library, one module per concern:
  - `fsm` — the character-level streaming filter (regex-like start/end pairs,
    `{{variable}}` substitution); chunking a stream never changes its output.
  - `lorebook`, `orchestrator`, `preset`, `gating`, `volume_inject`, `scene` —
    building the system prompt.
  - `index_parser` — the volume index (`index.md`) and the diffs applied to it.
  - `chat_store`, `chat_pipeline`, `agent` — the chat log, the steps of a turn,
    and the decisions of the agent loop.
  - `resources`, `mcp_tools`, `prompts`, `idempotency`, `daemon`, `hub` — the
    MCP surface, request authorization, and plugins.
  - `json`, `text`, `paths`, `security`, `error`, `config`, `requests`,
    `adapter`, `auto_converter` — shared pieces.
- `tests/` — tests of the library.
- `app/` — the command line: settings, the data directory, single-shot tool
  calls, prompt preview, stream filtering, and advancing the story.
