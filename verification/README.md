# language

The front end of a small language, verified with Verus.

- `src/lexer.rs` — the lexer. Its rules are stated over the source bytes
  (`scan_token`, `trivia`, `lex_step`); `Lexer::next_token` is proved to hand
  out exactly the token `lex_step` describes, including the semicolons it
  inserts at line breaks. Laws: every step keeps the lexer in a reachable
  state; for sources of at most `u32::MAX` bytes (spans hold 32-bit
  positions) token spans stay inside the source, come in order and are
  separated only by blanks and comments; semicolons are inserted exactly at
  line breaks after a statement-ending token; lexing reaches `Eof`, and
  `Eof` repeats once reached. `Cursor` adds one token of lookahead and is
  proved to hand out the lexer's tokens, none skipped or repeated.
- `src/index.rs` — typed indices (`Idx`), `IndexVec`, `IdRange`, `RawRange`
  and `IndexPool`, with contracts over sequences.
- `src/lib.rs` — tokens, spans, the syntax tree types, the arena-based `Ast`
  store and the string `Interner` (interning is proved idempotent and
  resolving gives back the interned string).
- `src/parser.rs` — the token types as the parser imports them.
- `tests/` — scenario tests for the lexer, the arenas, the interner and the
  tree store.
