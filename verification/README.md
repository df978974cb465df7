# agent_platform_desktop

The logic of the Agent Platform desktop app, verified with Verus: the
parsers, state machines and rules behind its screens (account sign-in, the
agenda and its planning chat, the plain chat, the API reference, the voice
assistant's tools and speech text, and the coder's sessions, checkpoints,
file tree and board).

- `src/` — the library. The account, agenda, planning chat, chat, API
  reference and coder screens are state machines whose `update` (or `step`)
  takes a message and returns what the program around it should do next; the
  contracts state that result exactly. The voice assistant's turn is one too
  (`assistant_turn::State::step`): sending, streamed replies and reasoning,
  tool calls assembled from their pieces, tool rounds, which sentences go to
  the voice, the provider pickers, and what a heard utterance does (sent,
  `?`, or parked in the composer). Its microphone gate, voice match and
  animation run on audio levels and frame time and stay outside; they hand
  the turn two flags (the voice is the user's, the follow-up window is
  open). Laws that relate several
  calls stand as public proof functions beside the code they are about.
- `app/` — the program around the library: git runs, file reads, the shell,
  the loopback sign-in, HTTP calls and speech synthesis, and the serde form
  of the session file.
- `tests/` — ordinary Rust tests against the compiled library.
