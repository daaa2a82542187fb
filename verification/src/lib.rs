//! DocBuf: a document buffer format driven by a virtual table (vtable)
//! that describes the layout of every field.
use vstd::prelude::*;

pub mod bytes;
pub mod error;
pub mod numeric;

pub mod field_type;
pub mod text;
pub mod utf8_text;
pub mod regex_match;
pub mod rules;
pub mod offset;
pub mod field;
pub mod traits;
pub mod codec;
pub mod structs;
pub mod item;
pub mod hex_text;
pub mod table;
pub mod bufmap;
pub mod db_error;
pub mod partition_key;
pub mod paths;
pub mod page;
pub mod lock;
pub mod predicate;
pub mod partition;
pub mod migrate;
pub mod options;
pub mod config;
pub mod type_parse;
pub mod ser;
pub mod de;
pub mod idl;
pub mod idl_lexer;
pub mod idl_parser;
pub mod vtable_scan;
