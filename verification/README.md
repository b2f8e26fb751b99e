# cynic_parser

A GraphQL parsing library whose behaviour is specified with Verus and proved
against those specifications.

## Layout

- `src/lexer/`: the lexical grammar of GraphQL documents.  `tokens.rs`
  states it as spec functions over the characters of the source;
  `scanner.rs` holds the matchers that compute each part of it;
  `token_lexer.rs` hands out tokens one at a time with their byte spans and
  texts; `mod.rs` holds the spanned lexer and `tokenize`, which lexes a whole
  text, and the law that no two tokens overlap.
- `src/syntax/`: the concrete syntax tree.  `lexer.rs` keeps every character
  of the source as a token; `parser.rs` records the tree as a list of events;
  `grammar.rs` holds the productions, each proved to record a balanced run
  of events holding exactly the text it passed, most of them wrapped in one
  node of their own kind, so that `parse` is lossless and gives one root.
- `src/executable/`: executable documents.  `ids.rs` holds the identifiers of
  records, `storage.rs` the records, `strings.rs` the interned strings (kept
  in an `indexmap::IndexSet`), `contents.rs` the mathematical model of a
  document, `writer.rs` and `document.rs` the writer and the finished
  document, `value.rs` values read as trees, `value_eq.rs` their equality,
  and `laws.rs` what holds of every document and every sequence of writes.
  `readers.rs`, `definitions.rs` and `selections.rs` hold the readers, which
  pair a record with its document to follow what it refers to;
  `display.rs` and `node_display.rs` write values, nodes and whole documents
  out as GraphQL text, and `display_laws.rs` proves that every parsed
  document can be written out.
- `src/parser/`: the parser of executable documents over a token stream.
- `src/schema_coordinates/`: schema coordinates, their lexer and parser, and
  the law that printing a coordinate and parsing it back gives it again.
- `src/printing.rs`, `src/text.rs`: the decisions that printing makes, and
  string building and escaping.
- `app/`: pretty printing of executable documents with the `pretty` crate,
  and the display of errors.
- `tests/`: the tests.
