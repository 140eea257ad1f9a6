# carson

A host for agents that talk to language models and run their tools in sandboxes.

The library (`src/`) holds the rules, each with a contract that Verus proves:

- `shell` is a subset of bash: lexer, parser and interpreter. The interpreter is a
  machine that asks for files and programs and goes on with what it gets.
- `agent` is the session of an agent and the turn it takes: the loop of questions to a
  model and calls of tools, with the blocks it keeps and the compaction of old ones.
- `host` is what a running agent rests on: streams of a model, their decoding, tools and
  who may call them, subscribers, the pools of an agent's versions, stored sessions.
- `guest` is the tools that come with the host.
- `api` is what each request is answered.
- `ui` is what the web client decides: the event stream, the chat, the panels.
- `bundle`, `cli`, `json` and `text` are small things that the others use.

Outside crates are called behind small functions whose contracts are believed; each
says so above it. Laws that relate several functions are the public proof functions.

`app/` is the program around the library: the server, the database, the connections to
providers, the sandboxes and the pages of the web client. `tests/` runs the library on given values.
