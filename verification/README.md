# kota

A terminal agent for local language models, with LaTeX manuscript analysis.
The library under `src/` holds the program's logic, each function with a
contract proved by Verus; `app/` is the program around it (terminal, network,
files, processes, database, sensors).

## Layout of the library

- `text`, `fmt`: character-level text operations and decimal formatting.
- `mode`, `skills`: agent modes, their skill weights and the composed system prompt.
- `llm`, `vertex`, `endpoints`: decoding of streamed completions (OpenAI-style
  server-sent events and Gemini chunks), request bodies and service URLs.
- `tools`, `json`: tool catalogue, parsing of tool calls, and the texts each tool reports.
- `agent`: the conversation and the decisions of the agent loop (one step at a time).
- `ui`, `commands`: the terminal interface's state machine and the slash commands.
- `mcp`: the registry of tools offered by external tool servers.
- `monitor`: traffic totals, bandwidth spikes and the power-sampling schedule.
- `latex`, `document`, `hygiene`, `sources`, `table`, `claims`, `context`,
  `search`, `unicode`: the manuscript analyses (citations, cross-references,
  Markdown leftovers, table bolding, claim extraction and grading).
- `ids`: fresh session identifiers.

Laws that span several functions are public proof functions named `lemma_*`.

## Building

`app/` depends on the library; `tests/` exercises it from outside.
