# microclaw

The request-side logic of a multi-channel chat agent runtime, written in
Verus and proved against its contracts.

- `src/chat_turn_queue.rs`: per-chat turn serialization with a bounded,
  drop-oldest queue of pending messages and forgetting of idle chats, with
  its laws (one run per chat, arrival order, bounded queues, chats
  independent of each other).
- `src/user_id.rs`, `src/a2a.rs`, `src/headers.rs`, `src/text.rs`: the user id
  header, agent-to-agent bearer tokens and messages, header lookup, trimming.
- `src/sessions.rs`, `src/skills.rs`, `src/health.rs`, `src/tenant.rs`: the
  decisions of the session, skill and health endpoints and the bootstrap user.
- `app/`: the runtime around the library: axum header conversion, the
  environment, the asynchronous turn queue on tokio, serde forms of bodies.
