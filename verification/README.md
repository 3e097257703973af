# sprinkles

A store for desktop notifications with a small query language.

- `src/db/lexer.rs`, `src/db/syntax.rs`, `src/db/sql.rs`, `src/db/parser.rs`:
  the query language (`{app = firefox} & unread | last(5)`, `100..200`,
  `page(offset, per_page)`), tokenized, parsed and written out as an SQL
  condition with positional parameters. Each step is specified as a function
  on sequences and proved; `parse_query` is the entry point.
- `src/db/flow.rs`: the statements of recording a notification, as a state
  machine that the database layer drives.
- `src/db/text.rs`: the standard-library string operations used, with their
  contracts.
- `app/`: the command line and the SQLite database layer.
