# arabot

A Twitch chat bot for guessing games: viewers vote on a time (`h:mm:ss` or a number of
seconds), moderators start, extend and end voting sessions, and the broadcaster announces the
closest guesses once the result is known. It also answers `hello`, `help`, `myvote`, a slot
machine of emotes, and commands with fixed responses.

Layout:

- `src/` is the verified library (Verus).
  - `arabot.rs`: the bot (`Arabot`), the command table (`CommandHash`), the command regular
    expression, and the reader that turns raw chat lines into `ChatMessage`s.
  - `arabot/message.rs`: chat types, voting sessions (`VoteObj`) and the vote patterns.
  - `arabot/dispatch.rs`: `CommandProcessor`, which decides what the bot does with each chat
    message, as a list of `BotAction`s, with the laws that relate commands.
  - `arabot/ranking.rs`: scoring and ranking the votes against a result.
  - `arabot/text.rs`: trimming, splitting, number parsing, and reading times.
  - `arabot/pattern.rs`, `arabot/chance.rs`: the calls into the `regex` and `rand` crates.
- `app/` is the program around it: settings, the IRC connection, threads and timers, sheet
  files, and the commands' response functions.
- `tests/` runs the library on concrete chat messages.
