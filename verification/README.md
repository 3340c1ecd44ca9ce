# jyc_agent

An agent that answers messages with a language model: it calls the model, runs
the tools that the model asks for, and delivers the answer. Beside it stands a
bridge between a chat platform and the agent's channels.

The library under `src/` holds the rules, written and proved in Verus:

- `text`, `order`, `numbers`, `json`: texts and their order, decimal numbers and
  JSON documents.
- `types`, `message`: the conversation, the events of an answer, and the
  messages that come in.
- `provider`: requests to three kinds of model APIs and the reading of their
  event streams, prompt-cache breakpoints, token counts, which failures may be
  retried, conversations that were kept for another API, and which provider a
  model string names.
- `agent_loop`: retries, the collecting of an answer, questions that a model
  wrote into its text, what of a conversation is sent, and the loop itself.
  `turn` says what a turn does next about what has happened, and `replay` shows
  that what it keeps and sends has an answer to every tool call.
- `session`: the turns of a kept conversation, notes on their tool calls, and how
  much of them is kept.
- `service`: models, prompts, skills and tools of a topic.
- `bridge`: routes from chats to threads and back.

What is believed without proof is `serde_json`, `base64`, `chrono` and three
functions of `std`, each behind an item that says what is claimed of it.

`app/` performs what the library decides: HTTP, WebSocket, files and the
environment. `tests/` runs the library on concrete values.
