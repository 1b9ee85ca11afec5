# maki_providers

A verified client core for OpenAI-compatible chat-completion services.

- `src/` is the library, proved with Verus:
  - `json.rs`: a JSON value with a mathematical view; parsing and printing go through `serde_json`.
  - `types.rs`: messages, content blocks, stream events, stop reasons and errors.
  - `chunk.rs`: decoding of one streamed chunk from its JSON value.
  - `sse.rs`: the server-sent-event state machine that folds chunks into text, thinking and tool calls.
  - `convert.rs`: conversion of messages and tool definitions to the wire format.
  - `provider.rs`: provider configuration, request bodies, endpoints and the model list.
  - `order.rs`: the stable ordering of names, and of entries keyed by name.
  - `laws.rs`: properties that span several functions, stated and proved.
- `tests/` runs the library on concrete values.
- `app/` holds the HTTP transport, the async stream loop and the reading of model prices.
