# rode

A terminal coding agent: a chat with a language model that may call tools
(run a shell command, read, write or edit a file), with saved sessions.

- `src/` is the library, verified with Verus: the line editor, the chat
  layout, the scroll state, the slash commands, the conversation with its
  history bound and its JSONL framing, the session store's paths and listing
  order, the tool registry and the decisions of each tool, the assembly of a
  streamed answer and the steps of the agent loop.
- `app/` is the program around it: the terminal (crossterm, ratatui), the
  markdown rendering (termimad), the model's API (async-openai), files,
  processes and the settings file.
- `tests/` runs the library on concrete values.

The tool registry keeps its tools in a vector with no two of the same name,
rather than in a hash map keyed by name: Verus's model of a hash map is usable
with integer keys (the chat's line cache is one, keyed by message id) but not
with string keys, so lookups by name could not be proved over a map. Tools are
listed in the order they were registered.
