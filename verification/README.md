# docbuf

DocBuf is a document buffer format. A virtual table (vtable) describes the
structs of a document and the type and rules of each field; documents are
written field by field into a flat buffer, with an offset per field, and a
small database keeps them in partition files.

The library under `src/` is written in Verus and every function in it is
verified against its contract:

- `field_type`, `rules`, `field`, `structs`, `item`, `table`: the vtable and
  its byte encoding, lookups and identifiers. Reading back what was written
  gives the vtable again, except where a field's type is an `Option` or a
  `Vec` (only the outer tag is written, so the inner type is not kept) or a
  rule holds a regex whose two length bytes differ (the length is written
  little-endian and read big-endian), and except for names of more than 255
  bytes (their length takes one byte); the laws state exactly these limits.
- `numeric`, `codec`, `bufmap`, `offset`: field values, their encodings and
  validation, reading and replacing a value in a document buffer.
- `type_parse`: field types read from the text of a Rust type.
- `ser`, `de`: the states of the serializer and deserializer.
- `partition`, `partition_key`, `page`, `lock`, `config`, `paths`,
  `predicate`, `migrate`: the database logic over the bytes of a partition
  file, keys, document identifiers, paths, search predicates, and the
  decisions of moving a document to another partition.
- `options`, `idl`, `idl_lexer`, `idl_parser`: options of the derive
  attribute, types of the description language, its lexer (longest token
  text at each position) and its parser (a state machine over the tokens of
  a source and the text between them), with the file names that a source's
  import statements name.
- `vtable_scan`: whether encoded vtable bytes can be read to the end.
- `text`: decimal text of integers.
- `hex_text`, `regex_match`, `utf8_text` (and the key hash in
  `partition_key`): the calls into `hex`, `regex` (compiling, matching and
  capturing), `xxhash-rust` and std
  that the logic makes, each behind a small trusted item.

`app/` holds the ordinary Rust around it: the serde `Serializer` and
`Deserializer` impls that drive the states, the files of the database, the
TOML configuration and lock files, and the reading of description files
and of the files they import.
