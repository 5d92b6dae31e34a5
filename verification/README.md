# codex-limits-telegram

Watches Codex CLI rate limits and sends a Telegram message the moment a limit
refills to 100% available. It polls every 10 minutes, remembers the last
reading, and notifies only when a limit of which some was used is full again.

The logic is a library verified with Verus, under `src/`; `app/` is the program
around it, which spawns the app-server, posts to Telegram, and reads and writes
files.

| Module | What it holds |
|---|---|
| `handshake` | the messages of the exchange with the app-server, and what each answered line means |
| `codex`, `by_key` | observations flattened from the server's answer, in the order of their keys |
| `percent` | percentages, as the bits of doubles: how they compare, and what they leave |
| `reconcile` | which refills to notify, and what to remember of a poll |
| `state` | the saved state, its history, and the steps of an atomic save |
| `message`, `telegram` | the notification's text, the post that sends it, and what the answer means |
| `config`, `dotenv` | the configuration, from the environment and a `.env` file |
| `text`, `text_map` | decimal numbers, the order of texts, and a map with text keys |
| `json` | the calls into `serde_json`, with what is taken for granted of them |

A percentage is held by the bits of the double that the server sends. A finite
double is a whole multiple of 2^-1074, so that comparisons, and the rounded
difference that tells what is left, are stated over integers; printing doubles
stays in `app/`.

JSON values carry a mathematical content (`json::Json`). What `serde_json` does
to texts and values is stated over it and trusted, and so is `String::push`
(`text`). The rest of `src/` is proved; `app/` is not verified.
