# ferrisbot

The decisions of a Discord community bot, written in Verus and proved
against their contracts.

- `src/text.rs`: character-level string primitives (search, trimming,
  lines, UTF-8 byte lengths and truncation, decimal numbers) with
  specifications over `Seq<char>`.
- `src/playground.rs`: preparing snippets for the Rust playground (wrapping
  in `fn main`, hoisting crate attributes, stripping boilerplate) and shaping
  its output (relevant compiler lines, warnings, help texts, flags, replies).
  Whether a snippet already declares `fn main` is read with `syn`.
- `src/moving.rs`: the dialog that moves a conversation to another channel,
  thread or forum post, as a state machine from interaction to next step.
- `src/relay.rs`: which messages a move relays, the notices it posts, what
  reactions on relayed messages do, and the channel locks.
- `src/bangs.rs`, `src/utilities.rs`: the replies of the link and utility
  commands.
- `app/`: the Discord commands themselves (poise and serenity). They fetch,
  send and apply; what to send and what to change is computed by the
  library, and `app/` checks the library's preconditions before each call.
- `tests/`: tests of the library on concrete values.
