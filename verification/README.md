# orm

An object-relational mapping layer for MySQL, written in Verus.

Entity types are declared as Rust structs whose fields carry attributes such
as `#[len(32)]`, `#[pointer]`, `#[one_many]` or `#[cascade(insert)]`. The
library reads those declarations into metadata, renders the SQL for tables,
inserts, updates, deletes and queries, plans how an entity and the entities
its relations hold are stored, and builds entities back from the rows a query
returns.

Layout:

- `src/` is the verified library. Every function there carries a contract
  that Verus proves; `src/laws.rs` holds the properties that span several
  functions (read-after-write on entities and tables, well-formed insert
  plans, and that a step-by-step insert run does what storing an entity
  recursively does).
- `app/` is the unverified shell: parsing source files with `syntex_syntax`,
  JSON encoding of the metadata with `rustc-serialize`, and running the
  library's statements against MySQL with `mysql`. It sends statements and
  converts values. The one part with choices of its own is reading source
  text: the `syntex_syntax` lexer panics on malformed text, so
  the parse and the turning of its syntax tree into the library's
  `StructItem`s stay there. Everything after that (reading the declarations
  into metadata, and rendering the generated module) is done by the library.
- `tests/` exercises the library on concrete values.
