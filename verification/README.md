# applepi

An assistant that talks in the terminal or through a Telegram bot, calls tools, remembers
statements across conversations, takes over the tools of MCP servers, and runs jobs at set times.

The library under `src/` holds the rules and does no I/O. Each function carries a contract that Verus
proves; promises that span several functions are public proof functions.

| Module | What it holds |
| --- | --- |
| `text`, `json` | strings as character sequences; JSON values, read and written by `serde_json` |
| `llm` | request bodies, streamed and whole replies, the choice between the two protocols |
| `agent` | the run of a conversation as a state machine: what to ask, what to call, when to stop |
| `markdown`, `tags` | Markdown as the HTML that Telegram accepts, and why that HTML reads well |
| `bot`, `cli` | what an update or a line calls for, what is shown, what a chat waits for |
| `tools` | the tools: their schemas, what they refuse, what they give back |
| `cron` | jobs, schedules (through `croner`), and the commands that manage them |
| `mcp` | requests to MCP servers, the search for the answer in a stream, the set of their tools |
| `memory` | the conversation, the index text of statements, searches, migrations |
| `config` | the configuration with its defaults, the persona, the list of skills |

`app/` does the I/O: HTTP, SQLite, files, processes, and the loops around them. Embeddings, which
are made of floating-point numbers, stand there too. `tests/` runs the library on concrete values.
