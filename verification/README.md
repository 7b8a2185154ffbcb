# podgpt

The core of PodGPT, a Discord bot that chats through GPT, generates images,
roasts people and reads the links it is shown, written in Verus: the library's functions carry contracts that Verus
proves, apart from the few small trusted wrappers around outside calls
described below, whose contracts are believed.

- `src/utils.rs` — splitting long answers into Discord-sized messages on
  UTF-8 boundaries, truncation, decimal notation and parsing.
- `src/text.rs` — character-level helpers: Unicode whitespace, words,
  searching, replacing, trimming.
- `src/services/` — conversations and the chat service (per-user history,
  trimming, the state machine of one chat request with tool calls), the
  tools' argument handling and answers (web search, image generation,
  link reading, channel history), HTML-to-text, tweet formatting, and the
  JSON documents they read.
- `src/commands/` — the replies of the slash commands.
- `tests/` — tests on concrete values, including one for each law.
- `app/` — the program around the library: Discord (poise/serenity),
  OpenAI (async-openai) and HTTP (reqwest) I/O, the tool trait objects and
  the command handlers.

Calls into outside crates that the verified code makes (serde_json
parsing, base64 decoding, `DashMap`, `str::to_lowercase`, `String::push`)
go through small trusted wrappers whose contracts are stated next to them.
