# codex-silent

A terminal client for the Codex app-server. It shows questions and answers, and hides commands, tool
calls and commentary until they are asked for. Requests that need a response stay in sight, and
nothing is approved that the user has not approved.

The logic is a Verus library: the functions in `src/` carry contracts that Verus proves, and the
properties that span functions are public proof functions next to them.

| Path | What it holds |
| --- | --- |
| `src/text.rs`, `src/json.rs`, `src/codec.rs` | texts, JSON values, and their text by way of `serde_json` |
| `src/conversation.rs` | what is displayed: questions, answers, activity, notices |
| `src/screen.rs` | control sequences, wrapping, layout, the view |
| `src/requests.rs` | requests of the server: their description and their answers |
| `src/backend.rs` | lines to and from the server, and the end of its process |
| `src/session.rs`, `src/keys.rs`, `src/terminal.rs` | the session: messages, commands, keys, the loop |
| `src/options.rs` | the command line |
| `src/quiet.rs` | a tool server that runs commands and says only how they have ended |
| `app/` | the program: processes, files, the terminal |
| `tests/` | tests of the library |

What is not proved is stated where it is used: the functions marked `external_body` and the
`assume_specification` items each name the outside function they call and what they claim of it.
