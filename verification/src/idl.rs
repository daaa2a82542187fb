//! Types of the DocBuf interface description language: its version, its
//! tokens, the field types it names, the options of documents and
//! enumerations, and the compiler entry point.
use vstd::prelude::*;
use crate::type_parse::trim_white_text;
use crate::type_parse::trim_white;
use crate::utf8_text::str_eq;

verus! {

/// Version of the language a source declares.
#[derive(Debug, Clone, Copy, PartialEq, Eq, Structural)]
pub enum Pragma {
    V1,
}

impl Pragma {
    /// The version named by the text of a pragma statement, white space
    /// around it ignored; only `v1` is known.
    pub fn from_text(source: &str) -> (r: Option<Pragma>)
        ensures
            r is Some <==> trim_white(source@) == "v1"@,
            r is Some ==> r == Some(Pragma::V1),
    {
        let t = trim_white_text(source);
        if str_eq(t, "v1") {
            Some(Pragma::V1)
        } else {
            None
        }
    }
}

/// The tokens of the language.
#[derive(Debug, Clone, Copy, PartialEq, Eq, Structural)]
pub enum Token {
    /// `pragma docbuf`
    Pragma,
    /// `module` at the start of a line.
    Module,
    /// `import` at the start of a line.
    Import,
    /// `document` at the start of a line.
    Document,
    /// `enumerable` at the start of a line.
    Enumerate,
    /// `process` at the start of a line.
    Process,
    /// ` = `
    StatementAssign,
    /// `;`
    StatementEnd,
    /// `#[document::options {`
    DocumentOptionsStart,
    /// `#[field::options {`
    FieldOptionsStart,
    /// `#[enum::options {`
    EnumOptionsStart,
    /// `#[item::options {`
    ItemOptionsStart,
    /// `#[process::options {`
    ProcessOptionsStart,
    /// `}]` at the start of a line.
    OptionsEnd,
    /// `{`
    SectionStart,
    /// `}` at the start of a line.
    SectionEnd,
    /// `:`
    FieldDelimiter,
    /// `,`
    FieldEnd,
    /// `// `
    CommentLine,
    /// `/// `
    DocCommentLine,
    /// A line break.
    NewLine,
}

/// Type of a field of a document.
#[derive(Debug)]
pub enum FieldType {
    String,
    I32,
    I64,
    U32,
    U64,
    F32,
    F64,
    Bool,
    /// A nested document, by name.
    Document(String),
    /// An enumeration, by name.
    Enumerate(String),
    Array(Vec<FieldType>),
}

impl Default for FieldType {
    fn default() -> (r: Self)
        ensures
            r is String,
    {
        FieldType::String
    }
}

/// Options of a document.
#[derive(Debug, Clone)]
pub struct DocumentOptions {
    /// A name that overrides the document's own.
    pub name: Option<String>,
    /// Whether the document is a root document.
    pub root: Option<bool>,
}

impl Default for DocumentOptions {
    fn default() -> (r: Self)
        ensures
            r.name is None,
            r.root is None,
    {
        DocumentOptions { name: None, root: None }
    }
}

/// Options of an enumeration.
#[derive(Debug, Clone)]
pub struct EnumOptions {
    pub comments: Option<String>,
    pub name: Option<String>,
}

impl Default for EnumOptions {
    fn default() -> (r: Self)
        ensures
            r.comments is None,
            r.name is None,
    {
        EnumOptions { comments: None, name: None }
    }
}

/// Compiler of interface descriptions.
pub struct Compiler {}

impl Compiler {
    pub fn new() -> (c: Compiler) {
        Compiler {  }
    }

    /// Compiles a source: the output is the source itself.
    pub fn compile(&self, input: &str) -> (r: Result<String, String>)
        ensures
            r matches Ok(s) && s@ == input@,
    {
        Ok(input.to_owned())
    }
}

} // verus!
