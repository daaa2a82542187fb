//! The parser of the DocBuf interface description language, over the tokens
//! of a source: a state machine that walks the tokens and takes the module
//! name, the pragma, and the documents with their options and fields from
//! the text between them.
use vstd::prelude::*;
use vstd::utf8::*;
use crate::idl::{DocumentOptions, EnumOptions, Pragma, Token};
use crate::options::{remove_quotes, unquoted};
use crate::type_parse::{trim_white, trim_white_text};
use crate::utf8_text::str_eq;
use crate::text::{digit_char, spec_decimal};
use crate::regex_match::{compile_regex, opt_texts, regex_captures, regex_compiles, regex_group_captures};

verus! {

/// The errors of parsing a description.
#[derive(Debug)]
pub enum IdlError {
    /// The source holds no token the parser can start from.
    Token(String),
    /// No module name, or more than one.
    InvalidModule,
    /// A pragma statement names no known version.
    MissingPragma,
    /// The import pattern does not compile, or one of its matches takes no
    /// file name.
    ImportPattern,
}

/// The options of a field.
#[derive(Debug)]
pub struct FieldOptions {
    pub comments: Option<String>,
    pub name: Option<String>,
    pub required: Option<bool>,
    pub min_length: Option<u32>,
    pub max_length: Option<u32>,
    /// The text of the minimum value, not yet read as a value of the field's type.
    pub min_value: Option<String>,
    /// The text of the maximum value, not yet read as a value of the field's type.
    pub max_value: Option<String>,
    pub regex: Option<String>,
    /// The text of the default value, not yet read as a value of the field's type.
    pub default_value: Option<String>,
}

/// A document: its name, options and fields (by name, each name once).
#[derive(Debug)]
pub struct Document {
    pub name: String,
    pub options: DocumentOptions,
    pub fields: Vec<(String, FieldOptions)>,
}

/// An enumeration: its name, options and fields.
#[derive(Debug)]
pub struct Enumerable {
    pub name: String,
    pub options: EnumOptions,
    pub fields: Vec<(String, FieldOptions)>,
}

/// The options being read.
#[derive(Debug)]
pub enum OptionSet {
    Document(DocumentOptions),
    Field(FieldOptions),
    Enum(EnumOptions),
    Unset,
}

/// What the parser keeps between two tokens.
#[derive(Debug)]
pub struct ParserContext {
    /// The byte range of the last token taken.
    pub previous_span: (usize, usize),
    pub previous_token: Option<Token>,
    pub current_document: Option<Document>,
    pub current_option_item: Option<String>,
    pub current_comments: Option<String>,
    pub current_option_set: OptionSet,
    pub current_field_name: Option<String>,
    pub current_enumerable: Option<Enumerable>,
}

/// A parsed description.
#[derive(Debug)]
pub struct Parser {
    pub found_module_name: bool,
    pub context: ParserContext,
    pub pragma: Pragma,
    pub module_name: String,
    /// The documents, by name, each name once.
    pub documents: Vec<(String, Document)>,
    /// The enumerations, by name, each name once.
    pub enumerates: Vec<(String, Enumerable)>,
}

/// The text of an optional string.
pub open spec fn opt_text(o: Option<String>) -> Option<Seq<char>> {
    match o {
        Some(s) => Some(s@),
        None => None,
    }
}

/// Model of field options.
pub struct FieldOptionsModel {
    pub comments: Option<Seq<char>>,
    pub name: Option<Seq<char>>,
    pub required: Option<bool>,
    pub min_length: Option<u32>,
    pub max_length: Option<u32>,
    pub min_value: Option<Seq<char>>,
    pub max_value: Option<Seq<char>>,
    pub regex: Option<Seq<char>>,
    pub default_value: Option<Seq<char>>,
}

impl View for FieldOptions {
    type V = FieldOptionsModel;

    open spec fn view(&self) -> FieldOptionsModel {
        FieldOptionsModel {
            comments: opt_text(self.comments),
            name: opt_text(self.name),
            required: self.required,
            min_length: self.min_length,
            max_length: self.max_length,
            min_value: opt_text(self.min_value),
            max_value: opt_text(self.max_value),
            regex: opt_text(self.regex),
            default_value: opt_text(self.default_value),
        }
    }
}

/// Model of document options.
pub struct DocumentOptionsModel {
    pub name: Option<Seq<char>>,
    pub root: Option<bool>,
}

impl View for DocumentOptions {
    type V = DocumentOptionsModel;

    open spec fn view(&self) -> DocumentOptionsModel {
        DocumentOptionsModel { name: opt_text(self.name), root: self.root }
    }
}

/// Model of enumeration options.
pub struct EnumOptionsModel {
    pub comments: Option<Seq<char>>,
    pub name: Option<Seq<char>>,
}

impl View for EnumOptions {
    type V = EnumOptionsModel;

    open spec fn view(&self) -> EnumOptionsModel {
        EnumOptionsModel { comments: opt_text(self.comments), name: opt_text(self.name) }
    }
}

/// The entries of a list keyed by text, by their models.
pub open spec fn keyed_view<T: View>(s: Seq<(String, T)>) -> Seq<(Seq<char>, T::V)> {
    s.map_values(|p: (String, T)| (p.0@, p.1@))
}

/// Model of a document.
pub struct DocumentModel {
    pub name: Seq<char>,
    pub options: DocumentOptionsModel,
    pub fields: Seq<(Seq<char>, FieldOptionsModel)>,
}

impl View for Document {
    type V = DocumentModel;

    open spec fn view(&self) -> DocumentModel {
        DocumentModel { name: self.name@, options: self.options@, fields: keyed_view(self.fields@) }
    }
}

/// Model of an enumeration.
pub struct EnumerableModel {
    pub name: Seq<char>,
    pub options: EnumOptionsModel,
    pub fields: Seq<(Seq<char>, FieldOptionsModel)>,
}

impl View for Enumerable {
    type V = EnumerableModel;

    open spec fn view(&self) -> EnumerableModel {
        EnumerableModel { name: self.name@, options: self.options@, fields: keyed_view(self.fields@) }
    }
}

/// Model of the options being read.
pub enum OptionSetModel {
    Document(DocumentOptionsModel),
    Field(FieldOptionsModel),
    Enum(EnumOptionsModel),
    Unset,
}

impl View for OptionSet {
    type V = OptionSetModel;

    open spec fn view(&self) -> OptionSetModel {
        match self {
            OptionSet::Document(o) => OptionSetModel::Document(o@),
            OptionSet::Field(o) => OptionSetModel::Field(o@),
            OptionSet::Enum(o) => OptionSetModel::Enum(o@),
            OptionSet::Unset => OptionSetModel::Unset,
        }
    }
}

/// Model of the parser context.
pub struct ContextModel {
    pub previous_span: (usize, usize),
    pub previous_token: Option<Token>,
    pub current_document: Option<DocumentModel>,
    pub current_option_item: Option<Seq<char>>,
    pub current_comments: Option<Seq<char>>,
    pub current_option_set: OptionSetModel,
    pub current_field_name: Option<Seq<char>>,
    pub current_enumerable: Option<EnumerableModel>,
}

impl View for ParserContext {
    type V = ContextModel;

    open spec fn view(&self) -> ContextModel {
        ContextModel {
            previous_span: self.previous_span,
            previous_token: self.previous_token,
            current_document: match self.current_document {
                Some(d) => Some(d@),
                None => None,
            },
            current_option_item: opt_text(self.current_option_item),
            current_comments: opt_text(self.current_comments),
            current_option_set: self.current_option_set@,
            current_field_name: opt_text(self.current_field_name),
            current_enumerable: match self.current_enumerable {
                Some(e) => Some(e@),
                None => None,
            },
        }
    }
}

/// Model of the parser.
pub struct ParserModel {
    pub found_module_name: bool,
    pub context: ContextModel,
    pub pragma: Pragma,
    pub module_name: Seq<char>,
    pub documents: Seq<(Seq<char>, DocumentModel)>,
    pub enumerates: Seq<(Seq<char>, EnumerableModel)>,
}

impl View for Parser {
    type V = ParserModel;

    open spec fn view(&self) -> ParserModel {
        ParserModel {
            found_module_name: self.found_module_name,
            context: self.context@,
            pragma: self.pragma,
            module_name: self.module_name@,
            documents: keyed_view(self.documents@),
            enumerates: keyed_view(self.enumerates@),
        }
    }
}

/// Field options with nothing set.
pub open spec fn no_field_options() -> FieldOptionsModel {
    FieldOptionsModel {
        comments: None,
        name: None,
        required: None,
        min_length: None,
        max_length: None,
        min_value: None,
        max_value: None,
        regex: None,
        default_value: None,
    }
}

/// Document options with nothing set.
pub open spec fn no_document_options() -> DocumentOptionsModel {
    DocumentOptionsModel { name: None, root: None }
}

/// Enumeration options with nothing set.
pub open spec fn no_enum_options() -> EnumOptionsModel {
    EnumOptionsModel { comments: None, name: None }
}

/// The context before the first token: nothing read yet.
pub open spec fn empty_context(span: (usize, usize), token: Option<Token>) -> ContextModel {
    ContextModel {
        previous_span: span,
        previous_token: token,
        current_document: None,
        current_option_item: None,
        current_comments: None,
        current_option_set: OptionSetModel::Unset,
        current_field_name: None,
        current_enumerable: None,
    }
}

/// The bytes `a..b` of `src` are a slice of its text: in range, in order,
/// and both ends on character boundaries (`b` taken in the rest from `a`).
pub open spec fn slice_ok(src: Seq<u8>, a: int, b: int) -> bool {
    &&& 0 <= a <= b <= src.len()
    &&& is_char_boundary(src, a)
    &&& is_char_boundary(src.subrange(a, src.len() as int), b - a)
}

/// The text of the bytes `a..b` of `src`; `None` where they are no slice
/// of it.
pub open spec fn text_at(src: Seq<u8>, a: int, b: int) -> Option<Seq<char>> {
    if slice_ok(src, a, b) {
        Some(decode_utf8(src.subrange(a, b)))
    } else {
        None
    }
}

/// Decimal digits are all the text holds.
pub open spec fn all_digits(s: Seq<char>) -> bool {
    forall|i: int| 0 <= i < s.len() ==> '0' <= #[trigger] s[i] <= '9'
}

/// The number the decimal digits of `s` stand for.
pub open spec fn digits_value(s: Seq<char>) -> nat
    decreases s.len(),
{
    if s.len() == 0 {
        0
    } else {
        digits_value(s.drop_last()) * 10 + ((s.last() as u32) - 48) as nat
    }
}

/// The `u32` that the text stands for, as Rust reads one: an optional `+`,
/// then at least one decimal digit, and a value that fits.
pub open spec fn u32_of_text(s: Seq<char>) -> Option<u32> {
    let t = if s.len() > 0 && s[0] == '+' {
        s.drop_first()
    } else {
        s
    };
    if t.len() > 0 && all_digits(t) && digits_value(t) <= u32::MAX {
        Some(digits_value(t) as u32)
    } else {
        None
    }
}

/// Position of the first entry with key `k`.
pub open spec fn is_first_key<V>(s: Seq<(Seq<char>, V)>, k: Seq<char>, i: int) -> bool {
    &&& 0 <= i < s.len()
    &&& s[i].0 == k
    &&& forall|j: int| 0 <= j < i ==> s[j].0 != k
}

/// `s` with the value of key `k` set to `v`: the first entry with that key
/// takes it, or a new entry is added at the end.
pub open spec fn keyed_put<V>(s: Seq<(Seq<char>, V)>, k: Seq<char>, v: V) -> Seq<(Seq<char>, V)> {
    if exists|i: int| is_first_key(s, k, i) {
        s.update(choose|i: int| is_first_key(s, k, i), (k, v))
    } else {
        s.push((k, v))
    }
}

/// The model with the given context.
pub open spec fn with_context(m: ParserModel, c: ContextModel) -> ParserModel {
    ParserModel { context: c, ..m }
}

/// Field options with one option item set to `value`; an unknown item
/// changes nothing.
pub open spec fn set_field_option(o: FieldOptionsModel, item: Seq<char>, value: Seq<char>) -> FieldOptionsModel {
    if item == "min_length"@ {
        FieldOptionsModel { min_length: u32_of_text(value), ..o }
    } else if item == "max_length"@ {
        FieldOptionsModel { max_length: u32_of_text(value), ..o }
    } else if item == "min_value"@ {
        FieldOptionsModel { min_value: Some(value), ..o }
    } else if item == "max_value"@ {
        FieldOptionsModel { max_value: Some(value), ..o }
    } else if item == "regex"@ {
        FieldOptionsModel { regex: Some(value), ..o }
    } else if item == "default"@ {
        FieldOptionsModel { default_value: Some(value), ..o }
    } else if item == "required"@ {
        FieldOptionsModel { required: Some(value == "true"@), ..o }
    } else if item == "name"@ {
        FieldOptionsModel { name: Some(value), ..o }
    } else {
        o
    }
}

/// Document options with one option item set to `value`.
pub open spec fn set_document_option(o: DocumentOptionsModel, item: Seq<char>, value: Seq<char>) -> DocumentOptionsModel {
    if item == "name"@ {
        DocumentOptionsModel { name: Some(value), ..o }
    } else if item == "root"@ {
        DocumentOptionsModel { root: Some(value == "true"@), ..o }
    } else {
        o
    }
}

/// Enumeration options with one option item set to `value`.
pub open spec fn set_enum_option(o: EnumOptionsModel, item: Seq<char>, value: Seq<char>) -> EnumOptionsModel {
    if item == "name"@ {
        EnumOptionsModel { name: Some(value), ..o }
    } else {
        o
    }
}

/// The context after an option statement `item = value;`: the option goes
/// into the options being read, and document options into the document.
pub open spec fn apply_option(c: ContextModel, item: Seq<char>, value: Seq<char>) -> ContextModel {
    match c.current_option_set {
        OptionSetModel::Document(o) => {
            let o2 = set_document_option(o, item, value);
            ContextModel {
                current_option_set: OptionSetModel::Document(o2),
                current_document: match c.current_document {
                    Some(d) => Some(DocumentModel { options: o2, ..d }),
                    None => None,
                },
                ..c
            }
        },
        OptionSetModel::Field(o) => ContextModel {
            current_option_set: OptionSetModel::Field(set_field_option(o, item, value)),
            ..c
        },
        OptionSetModel::Enum(o) => ContextModel {
            current_option_set: OptionSetModel::Enum(set_enum_option(o, item, value)),
            ..c
        },
        OptionSetModel::Unset => c,
    }
}

/// A statement end (`;`) at `start`, by the token before it: a pragma
/// version, a module name, an import, or the value of an option.
pub open spec fn statement_end(m: ParserModel, start: usize, src: Seq<u8>) -> Option<Result<ParserModel, IdlError>> {
    let c = m.context;
    let from = c.previous_span.1 + 1;
    match c.previous_token {
        Some(Token::Pragma) => match text_at(src, from, start as int) {
            None => None,
            Some(t) => if trim_white(t) == "v1"@ {
                Some(Ok(ParserModel { pragma: Pragma::V1, ..m }))
            } else {
                Some(Err(IdlError::MissingPragma))
            },
        },
        Some(Token::Module) => match text_at(src, from, start as int) {
            None => None,
            Some(t) => Some(Ok(ParserModel { module_name: trim_white(t), ..m })),
        },
        Some(Token::Import) => match text_at(src, from, start as int) {
            None => None,
            Some(_) => Some(Ok(m)),
        },
        Some(Token::StatementAssign) => match c.current_option_item {
            None => Some(Ok(m)),
            Some(item) => match text_at(src, c.previous_span.1 as int, start as int) {
                None => None,
                Some(t) => Some(
                    Ok(with_context(m, apply_option(c, item, unquoted(trim_white(trim_white(t)))))),
                ),
            },
        },
        _ => Some(Ok(m)),
    }
}

/// The context after a section ends: the options, field name, comments and
/// document being read are dropped.
pub open spec fn reset_context(c: ContextModel) -> ContextModel {
    ContextModel {
        current_option_item: None,
        current_option_set: OptionSetModel::Unset,
        current_field_name: None,
        current_comments: None,
        current_document: None,
        ..c
    }
}

/// What a token other than `module` does to the parser, before it becomes
/// the previous token; `None` where reading the text before it fails.
pub open spec fn token_effect(m: ParserModel, token: Token, start: usize, src: Seq<u8>) -> Option<Result<ParserModel, IdlError>> {
    let c = m.context;
    let from = c.previous_span.1 + 1;
    match token {
        Token::StatementEnd => statement_end(m, start, src),
        Token::DocumentOptionsStart => Some(Ok(with_context(m, ContextModel {
            current_document: Some(DocumentModel { name: Seq::empty(), options: no_document_options(), fields: Seq::empty() }),
            current_option_set: OptionSetModel::Document(no_document_options()),
            ..c
        }))),
        Token::NewLine => if c.previous_token == Some(Token::CommentLine) {
            match text_at(src, from, start as int) {
                None => None,
                Some(t) => Some(Ok(with_context(m, ContextModel {
                    current_comments: match c.current_comments {
                        Some(x) => Some(x + trim_white(t)),
                        None => Some(trim_white(t)),
                    },
                    ..c
                }))),
            }
        } else {
            Some(Ok(m))
        },
        Token::StatementAssign => match text_at(src, from, start as int) {
            None => None,
            Some(t) => Some(Ok(with_context(m, ContextModel { current_option_item: Some(trim_white(t)), ..c }))),
        },
        Token::Enumerate => Some(Ok(with_context(m, ContextModel {
            current_enumerable: Some(EnumerableModel {
                name: Seq::empty(),
                options: match c.current_option_set {
                    OptionSetModel::Enum(o) => o,
                    _ => no_enum_options(),
                },
                fields: Seq::empty(),
            }),
            ..c
        }))),
        Token::SectionStart => if start == 0 || c.previous_span.1 == usize::MAX {
            None
        } else if c.previous_token == Some(Token::Document) || c.previous_token == Some(Token::OptionsEnd) {
            match text_at(src, from, start - 1) {
                None => None,
                Some(t) => Some(Ok(with_context(m, ContextModel {
                    current_document: match c.current_document {
                        Some(d) => Some(DocumentModel { name: trim_white(t), ..d }),
                        None => None,
                    },
                    ..c
                }))),
            }
        } else if c.previous_token == Some(Token::Enumerate) {
            match text_at(src, from, start - 1) {
                None => None,
                Some(t) => Some(Ok(with_context(m, ContextModel {
                    current_enumerable: match c.current_enumerable {
                        Some(e) => Some(EnumerableModel { name: trim_white(t), ..e }),
                        None => None,
                    },
                    ..c
                }))),
            }
        } else {
            Some(Ok(m))
        },
        Token::SectionEnd => Some(Ok(ParserModel {
            documents: match c.current_document {
                Some(d) => keyed_put(m.documents, d.name, d),
                None => m.documents,
            },
            context: reset_context(c),
            ..m
        })),
        Token::FieldOptionsStart => Some(Ok(with_context(m, ContextModel {
            current_option_set: OptionSetModel::Field(no_field_options()),
            ..c
        }))),
        Token::FieldDelimiter => if c.previous_token == Some(Token::OptionsEnd) || c.previous_token
            == Some(Token::FieldEnd) || c.previous_token == Some(Token::NewLine) {
            match text_at(src, from, start as int) {
                None => None,
                Some(t) => Some(Ok(with_context(m, ContextModel { current_field_name: Some(trim_white(t)), ..c }))),
            }
        } else {
            Some(Ok(m))
        },
        Token::FieldEnd => match c.current_field_name {
            None => None,
            Some(name) => match text_at(src, from, start as int) {
                None => None,
                Some(_) => Some(Ok(with_context(m, ContextModel {
                    current_document: match c.current_document {
                        Some(d) => Some(DocumentModel {
                            fields: keyed_put(d.fields, name, match c.current_option_set {
                                OptionSetModel::Field(o) => o,
                                _ => no_field_options(),
                            }),
                            ..d
                        }),
                        None => None,
                    },
                    current_field_name: None,
                    current_option_set: OptionSetModel::Unset,
                    ..c
                }))),
            },
        },
        Token::EnumOptionsStart => Some(Ok(with_context(m, ContextModel {
            current_option_set: OptionSetModel::Enum(no_enum_options()),
            ..c
        }))),
        _ => Some(Ok(m)),
    }
}

/// The parser after the token `token` at `start..end`; `None` where the
/// text the token needs cannot be read (or there is no field to end).
/// A `module` token not followed by a space is skipped and does not become
/// the previous token; any other becomes it.
pub open spec fn parse_step(m: ParserModel, token: Token, start: usize, end: usize, src: Seq<u8>) -> Option<Result<ParserModel, IdlError>> {
    let after = |x: ParserModel|
        with_context(x, ContextModel { previous_token: Some(token), previous_span: (start, end), ..x.context });
    if token == Token::Module {
        match text_at(src, start as int, end + 1) {
            None => None,
            Some(t) => if t.len() > 0 && t.last() == ' ' {
                if m.found_module_name {
                    Some(Err(IdlError::InvalidModule))
                } else {
                    Some(Ok(after(ParserModel { found_module_name: true, ..m })))
                }
            } else {
                Some(Ok(m))
            },
        }
    } else {
        match token_effect(m, token, start, src) {
            Some(Ok(x)) => Some(Ok(after(x))),
            other => other,
        }
    }
}

/// The parser after the tokens `ts`, from `m`, stopping at the first error.
pub open spec fn parse_run(m: ParserModel, ts: Seq<(Token, usize, usize)>, src: Seq<u8>) -> Option<Result<ParserModel, IdlError>>
    decreases ts.len(),
{
    if ts.len() == 0 {
        Some(Ok(m))
    } else {
        match parse_run(m, ts.drop_last(), src) {
            Some(Ok(x)) => parse_step(x, ts.last().0, ts.last().1, ts.last().2, src),
            other => other,
        }
    }
}

/// The parser before the first token: no module, version 1, nothing read;
/// the first token and its range are the previous ones.
pub open spec fn start_model(first: Option<(Token, usize, usize)>) -> ParserModel {
    ParserModel {
        found_module_name: false,
        context: match first {
            Some(f) => empty_context((f.1, f.2), Some(f.0)),
            None => empty_context((0, 0), None),
        },
        pragma: Pragma::V1,
        module_name: Seq::empty(),
        documents: Seq::empty(),
        enumerates: Seq::empty(),
    }
}

/// What parsing the tokens `ts` of the UTF-8 text `src` gives: the first
/// token starts the parser, the others are taken in turn; without a module
/// name the description is refused.
pub open spec fn parse_tokens_model(ts: Seq<(Token, usize, usize)>, src: Seq<u8>) -> Option<Result<ParserModel, IdlError>> {
    if ts.len() == 0 {
        Some(Err(IdlError::InvalidModule))
    } else {
        match parse_run(start_model(Some(ts[0])), ts.drop_first(), src) {
            Some(Ok(m)) => if m.found_module_name {
                Some(Ok(m))
            } else {
                Some(Err(IdlError::InvalidModule))
            },
            other => other,
        }
    }
}

/// No two entries of the list have the same key.
pub open spec fn keys_unique<V>(s: Seq<(Seq<char>, V)>) -> bool {
    forall|i: int, j: int| 0 <= i < j < s.len() ==> s[i].0 != s[j].0
}

/// Putting a value under a key keeps every key once, and the key then
/// holds the value.
pub proof fn lemma_keyed_put_unique<V>(s: Seq<(Seq<char>, V)>, k: Seq<char>, v: V)
    requires
        keys_unique(s),
    ensures
        keys_unique(keyed_put(s, k, v)),
        exists|i: int| is_first_key(keyed_put(s, k, v), k, i) && keyed_put(s, k, v)[i].1 == v,
{
    let r = keyed_put(s, k, v);
    if exists|i: int| is_first_key(s, k, i) {
        let i = choose|i: int| is_first_key(s, k, i);
        assert(is_first_key(r, k, i));
    } else {
        assert forall|j: int| 0 <= j < s.len() implies s[j].0 != k by {
            if s[j].0 == k {
                assert(forall|a: int, b: int| 0 <= a < b < s.len() ==> s[a].0 != s[b].0);
                assert(is_first_key(s, k, j));
            }
        }
        assert(is_first_key(r, k, s.len() as int));
    }
}

/// A step keeps each document name once.
pub proof fn lemma_step_keeps_names_unique(m: ParserModel, token: Token, start: usize, end: usize, src: Seq<u8>)
    requires
        keys_unique(m.documents),
    ensures
        parse_step(m, token, start, end, src) matches Some(Ok(m2)) ==> keys_unique(m2.documents),
{
    if token == Token::SectionEnd {
        if let Some(d) = m.context.current_document {
            lemma_keyed_put_unique(m.documents, d.name, d);
        }
    }
}

/// A run keeps each document name once.
pub proof fn lemma_run_keeps_names_unique(m: ParserModel, ts: Seq<(Token, usize, usize)>, src: Seq<u8>)
    requires
        keys_unique(m.documents),
    ensures
        parse_run(m, ts, src) matches Some(Ok(m2)) ==> keys_unique(m2.documents),
    decreases ts.len(),
{
    if ts.len() > 0 {
        lemma_run_keeps_names_unique(m, ts.drop_last(), src);
        if let Some(Ok(x)) = parse_run(m, ts.drop_last(), src) {
            lemma_step_keeps_names_unique(x, ts.last().0, ts.last().1, ts.last().2, src);
        }
    }
}

/// A parsed description holds each document name once, as a map of the
/// documents by their names does.
pub proof fn lemma_parsed_names_unique(ts: Seq<(Token, usize, usize)>, src: Seq<u8>)
    ensures
        parse_tokens_model(ts, src) matches Some(Ok(m)) ==> keys_unique(m.documents),
{
    if ts.len() > 0 {
        lemma_run_keeps_names_unique(start_model(Some(ts[0])), ts.drop_first(), src);
    }
}

/// Once a step fails or cannot be taken, the run ends there.
pub proof fn lemma_parse_run_stops(m: ParserModel, ts: Seq<(Token, usize, usize)>, src: Seq<u8>, k: int)
    requires
        0 <= k <= ts.len(),
        !(parse_run(m, ts.subrange(0, k), src) matches Some(Ok(_))),
    ensures
        parse_run(m, ts, src) == parse_run(m, ts.subrange(0, k), src),
    decreases ts.len() - k,
{
    if k < ts.len() {
        assert(ts.subrange(0, k + 1).drop_last() =~= ts.subrange(0, k));
        lemma_parse_run_stops(m, ts, src, k + 1);
    } else {
        assert(ts.subrange(0, k) =~= ts);
    }
}

/// Copies an optional string.
fn copy_text(o: &Option<String>) -> (r: Option<String>)
    ensures
        opt_text(r) == opt_text(*o),
{
    match o {
        Some(s) => Some(s.clone()),
        None => None,
    }
}

/// Copies document options.
fn copy_document_options(o: &DocumentOptions) -> (r: DocumentOptions)
    ensures
        r@ == o@,
{
    DocumentOptions { name: copy_text(&o.name), root: o.root }
}

/// Copies enumeration options.
fn copy_enum_options(o: &EnumOptions) -> (r: EnumOptions)
    ensures
        r@ == o@,
{
    EnumOptions { comments: copy_text(&o.comments), name: copy_text(&o.name) }
}

impl FieldOptions {
    /// Field options with nothing set.
    pub fn new() -> (r: Self)
        ensures
            r@ == no_field_options(),
    {
        FieldOptions {
            comments: None,
            name: None,
            required: None,
            min_length: None,
            max_length: None,
            min_value: None,
            max_value: None,
            regex: None,
            default_value: None,
        }
    }

    /// Sets the option `item` to `value` (see `set_field_option`).
    pub fn set_option(&mut self, item: &str, value: String)
        ensures
            final(self)@ == set_field_option(old(self)@, item@, value@),
    {
        if str_eq(item, "min_length") {
            self.min_length = u32_from_text(value.as_str());
        } else if str_eq(item, "max_length") {
            self.max_length = u32_from_text(value.as_str());
        } else if str_eq(item, "min_value") {
            self.min_value = Some(value);
        } else if str_eq(item, "max_value") {
            self.max_value = Some(value);
        } else if str_eq(item, "regex") {
            self.regex = Some(value);
        } else if str_eq(item, "default") {
            self.default_value = Some(value);
        } else if str_eq(item, "required") {
            self.required = Some(str_eq(value.as_str(), "true"));
        } else if str_eq(item, "name") {
            self.name = Some(value);
        }
    }
}

/// Sets the document option `item` to `value` (see `set_document_option`).
fn set_document_option_exec(o: &mut DocumentOptions, item: &str, value: String)
    ensures
        final(o)@ == set_document_option(old(o)@, item@, value@),
{
    if str_eq(item, "name") {
        o.name = Some(value);
    } else if str_eq(item, "root") {
        o.root = Some(str_eq(value.as_str(), "true"));
    }
}

/// Sets the enumeration option `item` to `value` (see `set_enum_option`).
fn set_enum_option_exec(o: &mut EnumOptions, item: &str, value: String)
    ensures
        final(o)@ == set_enum_option(old(o)@, item@, value@),
{
    if str_eq(item, "name") {
        o.name = Some(value);
    }
}

/// The `u32` the text stands for (see `u32_of_text`).
pub fn u32_from_text(s: &str) -> (r: Option<u32>)
    ensures
        r == u32_of_text(s@),
{
    let n = s.unicode_len();
    let mut start: usize = 0;
    if n > 0 && s.get_char(0) == '+' {
        start = 1;
    }
    let ghost t = if s@.len() > 0 && s@[0] == '+' {
        s@.drop_first()
    } else {
        s@
    };
    proof {
        assert(t =~= s@.subrange(start as int, n as int));
    }
    if start >= n {
        return None;
    }
    let mut acc: u64 = 0;
    let mut over = false;
    let mut i: usize = start;
    while i < n
        invariant
            start <= i <= n,
            start < n,
            n == s@.len(),
            t == s@.subrange(start as int, n as int),
            t == (if s@.len() > 0 && s@[0] == '+' {
                s@.drop_first()
            } else {
                s@
            }),
            all_digits(s@.subrange(start as int, i as int)),
            !over ==> acc == digits_value(s@.subrange(start as int, i as int)) && acc <= u32::MAX,
            over ==> digits_value(s@.subrange(start as int, i as int)) > u32::MAX,
        decreases n - i,
    {
        let c = s.get_char(i);
        if !('0' <= c && c <= '9') {
            proof {
                assert(t[i - start] == c);
                assert(!all_digits(t));
            }
            return None;
        }
        let d = (c as u32 - 48) as u64;
        let ghost pre = s@.subrange(start as int, i as int);
        let ghost next = s@.subrange(start as int, i + 1);
        proof {
            assert(next.drop_last() =~= pre);
            assert(next.last() == c);
            assert forall|k: int| 0 <= k < next.len() implies '0' <= #[trigger] next[k] <= '9' by {
                if k < pre.len() {
                    assert(next[k] == pre[k]);
                }
            }
        }
        if !over {
            let v = acc * 10 + d;
            if v > u32::MAX as u64 {
                over = true;
            } else {
                acc = v;
            }
        }
        i = i + 1;
    }
    proof {
        assert(s@.subrange(start as int, n as int) =~= t);
    }
    if over {
        None
    } else {
        Some(acc as u32)
    }
}

/// The text of the bytes `a..b` of `source`, where they are a slice of it
/// (see `text_at`).
fn slice_text<'a>(source: &'a str, a: usize, b: usize) -> (r: Option<&'a str>)
    ensures
        r is Some <==> slice_ok(encode_utf8(source@), a as int, b as int),
        r matches Some(t) ==> t@ == decode_utf8(encode_utf8(source@).subrange(a as int, b as int)),
{
    let len = source.as_bytes().len();
    if a > b || b > len {
        return None;
    }
    if !source.is_char_boundary(a) {
        return None;
    }
    let (_, rest) = source.split_at(a);
    if !rest.is_char_boundary(b - a) {
        return None;
    }
    let (piece, _) = rest.split_at(b - a);
    proof {
        let src = encode_utf8(source@);
        assert(encode_utf8(piece@) =~= src.subrange(a as int, b as int));
        encode_utf8_decode_utf8(piece@);
    }
    Some(piece)
}

/// Puts `value` under `key` (see `keyed_put`).
fn keyed_insert<T: View>(v: &mut Vec<(String, T)>, key: String, value: T)
    ensures
        keyed_view(final(v)@) == keyed_put(keyed_view(old(v)@), key@, value@),
{
    let ghost s = keyed_view(old(v)@);
    let n = v.len();
    let mut i: usize = 0;
    while i < n
        invariant
            n == v@.len(),
            v@ == old(v)@,
            s == keyed_view(old(v)@),
            i <= n,
            forall|j: int| 0 <= j < i ==> s[j].0 != key@,
        decreases n - i,
    {
        if str_eq(v[i].0.as_str(), key.as_str()) {
            proof {
                assert(s[i as int].0 == key@);
                assert(is_first_key(s, key@, i as int));
                assert forall|j: int| is_first_key(s, key@, j) implies j == i by {
                    if j < i {
                    } else if j > i {
                        assert(s[i as int].0 == key@);
                    }
                }
            }
            v.set(i, (key, value));
            proof {
                assert(keyed_view(v@) =~= s.update(i as int, (key@, value@)));
            }
            return;
        }
        i = i + 1;
    }
    proof {
        assert(!exists|j: int| is_first_key(s, key@, j));
    }
    v.push((key, value));
    proof {
        assert(keyed_view(v@) =~= s.push((key@, value@)));
    }
}

impl ParserContext {
    /// A context with nothing read.
    pub fn new() -> (c: Self)
        ensures
            c@ == empty_context((0, 0), None),
    {
        ParserContext {
            previous_span: (0, 0),
            previous_token: None,
            current_document: None,
            current_option_item: None,
            current_comments: None,
            current_option_set: OptionSet::Unset,
            current_field_name: None,
            current_enumerable: None,
        }
    }

    /// Sets the previous token.
    pub fn set_previous_token(&mut self, token: Token)
        ensures
            final(self)@ == (ContextModel { previous_token: Some(token), ..old(self)@ }),
    {
        self.previous_token = Some(token);
    }

    /// Sets the byte range of the previous token.
    pub fn set_previous_span(&mut self, span: (usize, usize))
        ensures
            final(self)@ == (ContextModel { previous_span: span, ..old(self)@ }),
    {
        self.previous_span = span;
    }

    /// Sets the document being read.
    pub fn set_current_document(&mut self, document: Document)
        ensures
            final(self)@ == (ContextModel { current_document: Some(document@), ..old(self)@ }),
    {
        self.current_document = Some(document);
    }

    /// Sets the option item being read.
    pub fn set_current_option_item(&mut self, option_item: String)
        ensures
            final(self)@ == (ContextModel { current_option_item: Some(option_item@), ..old(self)@ }),
    {
        self.current_option_item = Some(option_item);
    }

    /// Adds comment text: after the comments so far, or as the first.
    pub fn set_current_comments(&mut self, comments: &str)
        ensures
            final(self)@ == (ContextModel {
                current_comments: match old(self)@.current_comments {
                    Some(x) => Some(x + comments@),
                    None => Some(comments@),
                },
                ..old(self)@
            }),
    {
        match self.current_comments.take() {
            Some(mut x) => {
                x.append(comments);
                self.current_comments = Some(x);
            },
            None => {
                self.current_comments = Some(comments.to_owned());
            },
        }
    }

    /// Sets the options being read.
    pub fn set_current_option_set(&mut self, option_set: OptionSet)
        ensures
            final(self)@ == (ContextModel { current_option_set: option_set@, ..old(self)@ }),
    {
        self.current_option_set = option_set;
    }

    /// Sets the name of the field being read.
    pub fn set_current_field_name(&mut self, field_name: String)
        ensures
            final(self)@ == (ContextModel { current_field_name: Some(field_name@), ..old(self)@ }),
    {
        self.current_field_name = Some(field_name);
    }

    /// Drops the option item being read.
    pub fn reset_current_option_item(&mut self)
        ensures
            final(self)@ == (ContextModel { current_option_item: None, ..old(self)@ }),
    {
        self.current_option_item = None;
    }

    /// Drops the options being read.
    pub fn reset_current_option_set(&mut self)
        ensures
            final(self)@ == (ContextModel { current_option_set: OptionSetModel::Unset, ..old(self)@ }),
    {
        self.current_option_set = OptionSet::Unset;
    }

    /// Drops the name of the field being read.
    pub fn reset_current_field_name(&mut self)
        ensures
            final(self)@ == (ContextModel { current_field_name: None, ..old(self)@ }),
    {
        self.current_field_name = None;
    }

    /// Drops the comments read.
    pub fn reset_current_comments(&mut self)
        ensures
            final(self)@ == (ContextModel { current_comments: None, ..old(self)@ }),
    {
        self.current_comments = None;
    }

    /// Drops the document being read.
    pub fn reset_current_document(&mut self)
        ensures
            final(self)@ == (ContextModel { current_document: None, ..old(self)@ }),
    {
        self.current_document = None;
    }

    /// Drops the options, field name, comments and document being read.
    pub fn reset(&mut self)
        ensures
            final(self)@ == reset_context(old(self)@),
    {
        self.current_option_item = None;
        self.current_option_set = OptionSet::Unset;
        self.current_field_name = None;
        self.current_comments = None;
        self.current_document = None;
    }

    /// Applies the option statement `item = value` (see `apply_option`).
    pub fn apply_option(&mut self, item: &str, value: String)
        ensures
            final(self)@ == apply_option(old(self)@, item@, value@),
    {
        let mut set = OptionSet::Unset;
        std::mem::swap(&mut set, &mut self.current_option_set);
        match set {
            OptionSet::Document(mut o) => {
                set_document_option_exec(&mut o, item, value);
                match self.current_document.take() {
                    Some(mut d) => {
                        d.options = copy_document_options(&o);
                        self.current_document = Some(d);
                    },
                    None => {},
                }
                self.current_option_set = OptionSet::Document(o);
            },
            OptionSet::Field(mut o) => {
                o.set_option(item, value);
                self.current_option_set = OptionSet::Field(o);
            },
            OptionSet::Enum(mut o) => {
                set_enum_option_exec(&mut o, item, value);
                self.current_option_set = OptionSet::Enum(o);
            },
            OptionSet::Unset => {},
        }
    }
}

impl Parser {
    /// A parser with nothing read: no module, version 1.
    pub fn new() -> (p: Self)
        ensures
            p@ == start_model(None),
    {
        let p = Parser {
            found_module_name: false,
            context: ParserContext::new(),
            pragma: Pragma::V1,
            module_name: String::new(),
            documents: Vec::new(),
            enumerates: Vec::new(),
        };
        assert(keyed_view(p.documents@) =~= Seq::<(Seq<char>, DocumentModel)>::empty());
        assert(keyed_view(p.enumerates@) =~= Seq::<(Seq<char>, EnumerableModel)>::empty());
        p
    }

    /// The text from just after the previous token to `b` (see `text_at`).
    fn text_after_previous<'a>(&self, b: usize, source: &'a str) -> (r: Option<&'a str>)
        ensures
            r is Some <==> slice_ok(
                encode_utf8(source@),
                self.context.previous_span.1 + 1,
                b as int,
            ),
            r matches Some(t) ==> t@ == decode_utf8(
                encode_utf8(source@).subrange(self.context.previous_span.1 + 1, b as int),
            ),
    {
        let e = self.context.previous_span.1;
        if e >= source.as_bytes().len() {
            return None;
        }
        slice_text(source, e + 1, b)
    }

    /// A statement end at `start` (see `statement_end`).
    fn statement_end(&mut self, start: usize, source: &str) -> (r: Option<Result<(), IdlError>>)
        ensures
            match statement_end(old(self)@, start, encode_utf8(source@)) {
                None => r is None,
                Some(Ok(m)) => r == Some(Ok::<(), IdlError>(())) && final(self)@ == m,
                Some(Err(e)) => r == Some(Err::<(), IdlError>(e)),
            },
    {
        match self.context.previous_token {
            Some(Token::Pragma) => match self.text_after_previous(start, source) {
                None => None,
                Some(t) => match Pragma::from_text(t) {
                    Some(p) => {
                        self.pragma = p;
                        Some(Ok(()))
                    },
                    None => Some(Err(IdlError::MissingPragma)),
                },
            },
            Some(Token::Module) => match self.text_after_previous(start, source) {
                None => None,
                Some(t) => {
                    self.module_name = trim_white_text(t).to_owned();
                    Some(Ok(()))
                },
            },
            Some(Token::Import) => match self.text_after_previous(start, source) {
                None => None,
                Some(_) => Some(Ok(())),
            },
            Some(Token::StatementAssign) => {
                let item = match &self.context.current_option_item {
                    None => {
                        return Some(Ok(()));
                    },
                    Some(item) => item.clone(),
                };
                match slice_text(source, self.context.previous_span.1, start) {
                    None => None,
                    Some(t) => {
                        let value = remove_quotes(trim_white_text(trim_white_text(t)));
                        self.context.apply_option(item.as_str(), value);
                        Some(Ok(()))
                    },
                }
            },
            _ => Some(Ok(())),
        }
    }

    /// What a token other than `module` does (see `token_effect`).
    fn token_effect(&mut self, token: Token, start: usize, source: &str) -> (r: Option<Result<(), IdlError>>)
        ensures
            match token_effect(old(self)@, token, start, encode_utf8(source@)) {
                None => r is None,
                Some(Ok(m)) => r == Some(Ok::<(), IdlError>(())) && final(self)@ == m,
                Some(Err(e)) => r == Some(Err::<(), IdlError>(e)),
            },
    {
        match token {
            Token::StatementEnd => self.statement_end(start, source),
            Token::DocumentOptionsStart => {
                let d = Document { name: String::new(), options: DocumentOptions::default(), fields: Vec::new() };
                assert(keyed_view(d.fields@) =~= Seq::<(Seq<char>, FieldOptionsModel)>::empty());
                self.context.set_current_document(d);
                self.context.set_current_option_set(OptionSet::Document(DocumentOptions::default()));
                Some(Ok(()))
            },
            Token::NewLine => match self.context.previous_token {
                Some(Token::CommentLine) => match self.text_after_previous(start, source) {
                    None => None,
                    Some(t) => {
                        self.context.set_current_comments(trim_white_text(t));
                        Some(Ok(()))
                    },
                },
                _ => Some(Ok(())),
            },
            Token::StatementAssign => match self.text_after_previous(start, source) {
                None => None,
                Some(t) => {
                    self.context.set_current_option_item(trim_white_text(t).to_owned());
                    Some(Ok(()))
                },
            },
            Token::Enumerate => {
                let options = match &self.context.current_option_set {
                    OptionSet::Enum(o) => copy_enum_options(o),
                    _ => EnumOptions::default(),
                };
                let e = Enumerable { name: String::new(), options, fields: Vec::new() };
                assert(keyed_view(e.fields@) =~= Seq::<(Seq<char>, FieldOptionsModel)>::empty());
                self.context.current_enumerable = Some(e);
                Some(Ok(()))
            },
            Token::SectionStart => {
                if start == 0 || self.context.previous_span.1 == usize::MAX {
                    return None;
                }
                match self.context.previous_token {
                    Some(Token::Document) | Some(Token::OptionsEnd) => match self.text_after_previous(
                        start - 1,
                        source,
                    ) {
                        None => None,
                        Some(t) => {
                            match self.context.current_document.take() {
                                Some(mut d) => {
                                    d.name = trim_white_text(t).to_owned();
                                    self.context.current_document = Some(d);
                                },
                                None => {},
                            }
                            Some(Ok(()))
                        },
                    },
                    Some(Token::Enumerate) => match self.text_after_previous(start - 1, source) {
                        None => None,
                        Some(t) => {
                            match self.context.current_enumerable.take() {
                                Some(mut e) => {
                                    e.name = trim_white_text(t).to_owned();
                                    self.context.current_enumerable = Some(e);
                                },
                                None => {},
                            }
                            Some(Ok(()))
                        },
                    },
                    _ => Some(Ok(())),
                }
            },
            Token::SectionEnd => {
                match self.context.current_document.take() {
                    Some(d) => {
                        let name = d.name.clone();
                        keyed_insert(&mut self.documents, name, d);
                    },
                    None => {},
                }
                self.context.reset();
                Some(Ok(()))
            },
            Token::FieldOptionsStart => {
                self.context.current_option_set = OptionSet::Field(FieldOptions::new());
                Some(Ok(()))
            },
            Token::FieldDelimiter => match self.context.previous_token {
                Some(Token::OptionsEnd) | Some(Token::FieldEnd) | Some(Token::NewLine) => match self.text_after_previous(
                    start,
                    source,
                ) {
                    None => None,
                    Some(t) => {
                        self.context.set_current_field_name(trim_white_text(t).to_owned());
                        Some(Ok(()))
                    },
                },
                _ => Some(Ok(())),
            },
            Token::FieldEnd => {
                let name = match self.context.current_field_name.take() {
                    None => {
                        return None;
                    },
                    Some(n) => n,
                };
                match self.text_after_previous(start, source) {
                    None => {
                        return None;
                    },
                    Some(_) => {},
                }
                let mut set = OptionSet::Unset;
                std::mem::swap(&mut set, &mut self.context.current_option_set);
                let options = match set {
                    OptionSet::Field(o) => o,
                    _ => FieldOptions::new(),
                };
                match self.context.current_document.take() {
                    Some(mut d) => {
                        keyed_insert(&mut d.fields, name, options);
                        self.context.current_document = Some(d);
                    },
                    None => {},
                }
                Some(Ok(()))
            },
            Token::EnumOptionsStart => {
                self.context.current_option_set = OptionSet::Enum(EnumOptions::default());
                Some(Ok(()))
            },
            _ => Some(Ok(())),
        }
    }

    /// Takes the token `token` at `start..end` of `source` (see
    /// `parse_step`); `None` where the text it needs cannot be read.
    pub fn step(&mut self, token: Token, start: usize, end: usize, source: &str) -> (r: Option<
        Result<(), IdlError>,
    >)
        ensures
            match parse_step(old(self)@, token, start, end, encode_utf8(source@)) {
                None => r is None,
                Some(Ok(m)) => r == Some(Ok::<(), IdlError>(())) && final(self)@ == m,
                Some(Err(e)) => r == Some(Err::<(), IdlError>(e)),
            },
    {
        match token {
            Token::Module => {
                if end >= source.as_bytes().len() {
                    return None;
                }
                match slice_text(source, start, end + 1) {
                    None => None,
                    Some(t) => {
                        let n = t.unicode_len();
                        if n > 0 && t.get_char(n - 1) == ' ' {
                            if self.found_module_name {
                                return Some(Err(IdlError::InvalidModule));
                            }
                            self.found_module_name = true;
                            self.context.previous_token = Some(token);
                            self.context.previous_span = (start, end);
                            Some(Ok(()))
                        } else {
                            Some(Ok(()))
                        }
                    },
                }
            },
            _ => match self.token_effect(token, start, source) {
                Some(Ok(())) => {
                    self.context.previous_token = Some(token);
                    self.context.previous_span = (start, end);
                    Some(Ok(()))
                },
                other => other,
            },
        }
    }

    /// Runs the parser over the tokens; `None` where a step cannot be taken.
    fn run_tokens(tokens: &[(Token, usize, usize)], source: &str) -> (r: Option<Result<Parser, IdlError>>)
        ensures
            match parse_tokens_model(tokens@, encode_utf8(source@)) {
                None => r is None,
                Some(Ok(m)) => r matches Some(Ok(p)) && p@ == m,
                Some(Err(e)) => r matches Some(Err(e2)) && e2 == e,
            },
    {
        let ghost src = encode_utf8(source@);
        if tokens.len() == 0 {
            return Some(Err(IdlError::InvalidModule));
        }
        let first = tokens[0];
        let mut p = Parser::new();
        p.context.previous_token = Some(first.0);
        p.context.previous_span = (first.1, first.2);
        let ghost m0 = start_model(Some(tokens@[0]));
        let ghost rest = tokens@.drop_first();
        assert(p@ == m0);
        let n = tokens.len();
        let mut i: usize = 1;
        while i < n
            invariant
                1 <= i <= n,
                n == tokens@.len(),
                rest == tokens@.drop_first(),
                m0 == start_model(Some(tokens@[0])),
                src == encode_utf8(source@),
                parse_run(m0, rest.subrange(0, i - 1), src) == Some(Ok::<ParserModel, IdlError>(p@)),
            decreases n - i,
        {
            let (tok, s, e) = tokens[i];
            let ghost before = p@;
            proof {
                assert(rest.subrange(0, i as int).drop_last() =~= rest.subrange(0, i - 1));
                assert(rest.subrange(0, i as int).last() == tokens@[i as int]);
            }
            match p.step(tok, s, e, source) {
                None => {
                    proof {
                        assert(parse_step(before, tok, s, e, src) is None);
                        assert(parse_run(m0, rest.subrange(0, i as int), src) is None);
                        lemma_parse_run_stops(m0, rest, src, i as int);
                        assert(parse_run(m0, rest, src) is None);
                    }
                    return None;
                },
                Some(Err(err)) => {
                    proof {
                        assert(parse_run(m0, rest.subrange(0, i as int), src) == Some(
                            Err::<ParserModel, IdlError>(err),
                        ));
                        lemma_parse_run_stops(m0, rest, src, i as int);
                    }
                    return Some(Err(err));
                },
                Some(Ok(())) => {},
            }
            i = i + 1;
        }
        proof {
            assert(rest.subrange(0, n - 1) =~= rest);
        }
        if p.found_module_name {
            Some(Ok(p))
        } else {
            Some(Err(IdlError::InvalidModule))
        }
    }

    /// Whether the tokens of `source` can be parsed to the end (see
    /// `parse_tokens_model`): every step finds the text it needs.
    pub fn tokens_parse(tokens: &[(Token, usize, usize)], source: &str) -> (r: bool)
        ensures
            r == (parse_tokens_model(tokens@, encode_utf8(source@)) is Some),
    {
        Self::run_tokens(tokens, source).is_some()
    }

    /// The description that the tokens of `source` make: each token with
    /// its byte range, the first one starting the parser (see
    /// `parse_tokens_model`).
    pub fn from_tokens(tokens: &[(Token, usize, usize)], source: &str) -> (r: Result<Parser, IdlError>)
        requires
            parse_tokens_model(tokens@, encode_utf8(source@)) is Some,
        ensures
            match parse_tokens_model(tokens@, encode_utf8(source@)).unwrap() {
                Ok(m) => r matches Ok(p) && p@ == m,
                Err(e) => r matches Err(e2) && e2 == e,
            },
    {
        match Self::run_tokens(tokens, source) {
            Some(res) => res,
            None => Err(IdlError::InvalidModule),
        }
    }
}

/// The pattern of an import statement: `import <file>;`, the file in the
/// group `file`.
pub open spec fn import_pattern() -> Seq<char> {
    "import (?P<file>.*);"@
}

/// Every match of the pattern took a text for the group.
pub open spec fn all_captured(cs: Seq<Option<Seq<char>>>) -> bool {
    forall|i: int| 0 <= i < cs.len() ==> #[trigger] cs[i] is Some
}

/// The file name of an import: the captured text without white space at
/// either end and without any double quote.
pub open spec fn import_name(c: Seq<char>) -> Seq<char> {
    unquoted(trim_white(c))
}

/// The file names of the captured texts, in order.
pub open spec fn import_names(cs: Seq<Option<Seq<char>>>) -> Seq<Seq<char>> {
    cs.map_values(|c: Option<Seq<char>>| import_name(c.unwrap()))
}

/// The texts of a list of strings.
pub open spec fn string_texts(v: Seq<String>) -> Seq<Seq<char>> {
    v.map_values(|s: String| s@)
}

/// The file names of the captured texts of import statements (see
/// `import_names`); `None` where a match took no text for the file.
pub fn import_names_of(captures: &Vec<Option<String>>) -> (r: Option<Vec<String>>)
    ensures
        r is Some <==> all_captured(opt_texts(captures@)),
        r matches Some(v) ==> string_texts(v@) == import_names(opt_texts(captures@)),
{
    let ghost cs = opt_texts(captures@);
    let mut out: Vec<String> = Vec::new();
    let n = captures.len();
    for i in 0..n
        invariant
            n == captures@.len(),
            cs == opt_texts(captures@),
            forall|j: int| 0 <= j < i ==> #[trigger] cs[j] is Some,
            string_texts(out@) == import_names(cs.subrange(0, i as int)),
    {
        match &captures[i] {
            Some(c) => {
                let name = remove_quotes(trim_white_text(c.as_str()));
                let ghost prev = out@;
                let ghost nm = name@;
                out.push(name);
                proof {
                    assert(cs[i as int] == Some(c@));
                    assert(nm == import_name(c@));
                    assert(string_texts(out@) =~= string_texts(prev).push(nm));
                    assert(import_names(cs.subrange(0, i + 1)) =~= import_names(cs.subrange(0, i as int)).push(
                        import_name(c@),
                    ));
                }
            },
            None => {
                proof {
                    assert(cs[i as int] is None);
                }
                return None;
            },
        }
    }
    assert(cs.subrange(0, n as int) =~= cs);
    Some(out)
}

/// The file names that the import statements of `source` name, in order:
/// each text the pattern `import (?P<file>.*);` captures as `file`, trimmed
/// of white space, with every double quote removed. The pattern not
/// compiling, or a match without a file, is `ImportPattern`.
pub fn import_file_names(source: &str) -> (r: Result<Vec<String>, IdlError>)
    ensures
        !regex_compiles(import_pattern()) ==> r matches Err(IdlError::ImportPattern),
        regex_compiles(import_pattern()) ==> ({
            let cs = regex_group_captures(import_pattern(), source@, "file"@);
            if all_captured(cs) {
                r matches Ok(v) && string_texts(v@) == import_names(cs)
            } else {
                r matches Err(IdlError::ImportPattern)
            }
        }),
{
    let re = match compile_regex("import (?P<file>.*);") {
        Some(re) => re,
        None => return Err(IdlError::ImportPattern),
    };
    let captures = regex_captures(&re, source, "file");
    match import_names_of(&captures) {
        Some(v) => Ok(v),
        None => Err(IdlError::ImportPattern),
    }
}

/// The decimal text of a number reads back as that number.
proof fn lemma_decimal_reads_back(n: u32)
    ensures
        u32_of_text(spec_decimal(n as nat)) == Some(n),
{
    lemma_decimal_digits(n as nat);
    let s = spec_decimal(n as nat);
    assert(s[0] != '+') by {
        assert('0' <= s[0] <= '9');
    }
}

/// The decimal text of `n` is a non-empty run of digits whose value is `n`.
proof fn lemma_decimal_digits(n: nat)
    ensures
        spec_decimal(n).len() > 0,
        all_digits(spec_decimal(n)),
        digits_value(spec_decimal(n)) == n,
    decreases n,
{
    let d = n % 10;
    assert((digit_char(d) as u32) - 48 == d) by {
        assert(d < 10);
    }
    if n >= 10 {
        lemma_decimal_digits(n / 10);
        let s = spec_decimal(n / 10);
        let t = s.push(digit_char(d));
        assert(t.drop_last() =~= s);
        assert forall|i: int| 0 <= i < t.len() implies '0' <= #[trigger] t[i] <= '9' by {
            if i < s.len() {
                assert(t[i] == s[i]);
            }
        }
        assert(t.last() == digit_char(d));
        assert(digits_value(t) == digits_value(s) * 10 + d);
        assert((n / 10) * 10 + d == n);
    } else {
        let t = spec_decimal(n);
        assert(t =~= seq![digit_char(n)]);
        assert(t.drop_last() =~= Seq::<char>::empty());
        assert(digits_value(t.drop_last()) == 0);
    }
}

/// Setting `max_length` to the decimal text of `n` sets the maximum length
/// to `n` and leaves every other option, the minimum length among them, as
/// it was; setting `min_length` does the same for the minimum length.
pub proof fn lemma_set_length_options(o: FieldOptionsModel, n: u32)
    ensures
        ({
            let r = set_field_option(o, "max_length"@, spec_decimal(n as nat));
            &&& r.max_length == Some(n)
            &&& r.min_length == o.min_length
            &&& r.comments == o.comments
            &&& r.name == o.name
            &&& r.required == o.required
            &&& r.min_value == o.min_value
            &&& r.max_value == o.max_value
            &&& r.regex == o.regex
            &&& r.default_value == o.default_value
        }),
        ({
            let r = set_field_option(o, "min_length"@, spec_decimal(n as nat));
            &&& r.min_length == Some(n)
            &&& r.max_length == o.max_length
            &&& r.comments == o.comments
            &&& r.name == o.name
            &&& r.required == o.required
            &&& r.min_value == o.min_value
            &&& r.max_value == o.max_value
            &&& r.regex == o.regex
            &&& r.default_value == o.default_value
        }),
{
    reveal_strlit("min_length");
    reveal_strlit("max_length");
    assert("max_length"@[1] != "min_length"@[1]);
    lemma_decimal_reads_back(n);
}

/// Each text option item sets its own option to the text and leaves every
/// other option as it was; `required` becomes true exactly for the text
/// `true`; an unknown item changes nothing.
pub proof fn lemma_set_text_options(o: FieldOptionsModel, value: Seq<char>, other: Seq<char>)
    requires
        other != "min_length"@,
        other != "max_length"@,
        other != "min_value"@,
        other != "max_value"@,
        other != "regex"@,
        other != "default"@,
        other != "required"@,
        other != "name"@,
    ensures
        set_field_option(o, "name"@, value) == (FieldOptionsModel { name: Some(value), ..o }),
        set_field_option(o, "regex"@, value) == (FieldOptionsModel { regex: Some(value), ..o }),
        set_field_option(o, "min_value"@, value) == (FieldOptionsModel { min_value: Some(value), ..o }),
        set_field_option(o, "max_value"@, value) == (FieldOptionsModel { max_value: Some(value), ..o }),
        set_field_option(o, "default"@, value) == (FieldOptionsModel { default_value: Some(value), ..o }),
        set_field_option(o, "required"@, value) == (FieldOptionsModel { required: Some(value == "true"@), ..o }),
        set_field_option(o, other, value) == o,
{
    reveal_strlit("min_length");
    reveal_strlit("max_length");
    reveal_strlit("min_value");
    reveal_strlit("max_value");
    reveal_strlit("regex");
    reveal_strlit("default");
    reveal_strlit("required");
    reveal_strlit("name");
    assert("max_length"@[1] != "min_length"@[1]);
    assert("max_value"@[1] != "min_value"@[1]);
    assert("name"@.len() == 4 && "regex"@.len() == 5 && "default"@.len() == 7);
    assert("required"@.len() == 8 && "min_value"@.len() == 9 && "max_value"@.len() == 9);
    assert("min_length"@.len() == 10 && "max_length"@.len() == 10);
}

} // verus!
