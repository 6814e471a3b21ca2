# rustlab

Three small programs' logic, written in Verus with its behaviour stated in
contracts and proved:

- a TCP chat: the client's registration rules and its reactions to the
  server's replies, the server's client list and how it answers each message
  (`src/client.rs`, `src/server.rs`, `src/protocol.rs`);
- a small scripting language: a regex-driven tokenizer, a recursive-descent
  parser and an evaluator with variables, `if` and `while`
  (`src/token.rs`, `src/tokenizer.rs`, `src/ast.rs`, `src/parser.rs`,
  `src/evaluator.rs`);
- the decisions of a small apartment game: rooms, inventory, the flashlight
  switch and animation, movement keys (`src/game.rs`).

`src/text.rs` holds the character-level text handling they share (Unicode
whitespace, trimming, words, lines, decimal integers) and `src/pattern.rs` the
call into the `regex` crate.

`app/` is the executable around the library: sockets, standard input, timing,
printing, and the game's engine plumbing on Bevy.
