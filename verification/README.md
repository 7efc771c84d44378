# session_import

Importing transcripts of other coding agents as sessions that can be resumed offline, and deciding
what to do about an interrupted network connection. The library is written in Verus: each function
states what it returns, and the statement is proved.

- `src/text.rs`, `src/json.rs`, `src/time.rs`: texts, JSON values and points in time
- `src/message.rs`, `src/budget.rs`: messages, sessions, and which messages fit into a context
- `src/order.rs`: putting things in the order of their dates
- `src/external_resume.rs`: a transcript as a fresh session for the local model
- `src/import/`: listing and importing sessions, by agent, and which session to resume
- `src/network_retry.rs`, `src/streaming.rs`: network interruptions and intervals
- `app/`: the files, commands and waiting around the library

Calls into `serde_json` and `chrono` go through small functions in `src/json.rs` and `src/time.rs`,
whose contracts are believed rather than proved. The name of the agent that a text to the user
mentions is an argument of the functions that write such a text.
