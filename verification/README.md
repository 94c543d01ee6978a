# anthropical

A small, blocking client for the Anthropic Messages API, whose core is
written in Verus and proved against its contracts.

## Layout

- `src/` is the verified library.
  - `json.rs`: the JSON values on the wire (`Json`, modelled by `JsonV`);
    serde_json reads the text.
  - `decode.rs`, `event.rs`, `response.rs`: decoding of events, content
    blocks, deltas, usage and messages, and their wire forms.
  - `parser.rs`: `EventParser`, the incremental server-sent-events parser.
    Its central law is that feeding bytes in any chunking leaves the parser
    with the same events and the same leftover bytes as feeding them at
    once; which read reports an error (a bad record, or a record over the
    8 MiB cap) does depend on where the reads fall.
  - `stream.rs`: `EventStream` (the stream's decisions, less the reading)
    and `MessageCollector`, which folds events into the finished message.
    A reading loop over the stream hands out every event of the text read,
    whatever the read boundaries (`lemma_read_loop_events`).
  - `assembly.rs`: laws of that assembly over whole runs of events.
  - `request.rs`: messages, `MessageBuilder`, request bodies and headers,
    and the reading of replies.
  - `error.rs`: `ClientError` and the mapping of API error bodies.
  - `retry.rs`: the retry policy and backoff.
  - `client.rs`: the `Anthropic` handle and its configuration.
- `app/` is ordinary Rust around it: HTTP through ureq, the pauses between
  retries, reading streamed bodies, the environment, and the error types
  with their messages.
- `tests/` runs the library on concrete inputs.
