# kutsu

Phone calls as MCP tools: a client asks for a call, kutsu dials it over a SIP trunk, bridges the
line to a realtime voice model, and hands back the transcript, the filled goal and how the call
turned out.

## Layout

- `src/` is the library, verified with Verus. It holds what is decided and computed: the call
  engine and its queue, the course of a running call, the session driver, G.711 and rate
  conversion, downlink pacing, media quality, the network preflight's verdict, goal schemas and
  prompts, answering-machine detection, and the tools' replies.
- `app/` is the program around it: the command line, files, sockets, the SIP stack, the model's
  connection and the MCP transports. It measures, sends and receives; the library decides.
- `tests/` runs the library.

## How the library is stated

Each stateful type has a mathematical model and every method says how it moves the model: the
engine's is `engine::Load`, a running call's `engine::call::Course`, the session driver's
`gemini_live::Progress`, the pacer's `bridge::pace::Pacer`. Public proof functions state what holds
across operations, for instance that the queue and the records always agree (`engine::ledger`), that
over any interleaving of operations the cap holds and no call is lost (`engine::history`), that
a retried call keeps its id, that decoding survives re-encoding, or that filtering in blocks is
filtering at once.

Single-precision numbers are held by their bits (`single::Single`). `nearest` states and computes
their arithmetic on integers, digit for digit as the hardware does; the level of a frame (`level`),
the onset of speech (`vad`), the uplink gain (`bridge::agc`) and the detection's ratios are built on
it.

What is taken on trust is marked `#[verifier::external_body]`, beside a comment that says what is
claimed: JSON values (`json`), WAV parsing (`audio_file`), constant-time comparison (`mcp_http`),
an error's text (`error`) and appending to a string (`text`).
