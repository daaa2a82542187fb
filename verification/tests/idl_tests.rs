use docbuf::idl::{Pragma, Token};
use docbuf::idl_lexer::{lex, lexes};
use docbuf::idl_parser::{u32_from_text, IdlError, Parser, ParserContext};

const SOURCE: &str = "pragma docbuf v1;\nmodule shop;\n#[document::options {\n    name = \"Shop\";\n}]\ndocument Shop {\n    id: u8,\n    #[field::options {\n        min_length = 3;\n        required = true;\n    }]\n    label: String,\n}\n";

fn shop_tokens() -> Vec<(Token, usize, usize)> {
    vec![
        (Token::Pragma, 0, 13),
        (Token::StatementEnd, 16, 17),
        (Token::Module, 17, 24),
        (Token::StatementEnd, 29, 30),
        (Token::NewLine, 30, 31),
        (Token::DocumentOptionsStart, 31, 52),
        (Token::NewLine, 52, 53),
        (Token::StatementAssign, 61, 64),
        (Token::StatementEnd, 70, 71),
        (Token::OptionsEnd, 71, 74),
        (Token::Document, 74, 83),
        (Token::SectionStart, 89, 90),
        (Token::NewLine, 90, 91),
        (Token::FieldDelimiter, 97, 98),
        (Token::FieldEnd, 101, 102),
        (Token::NewLine, 102, 103),
        (Token::FieldOptionsStart, 107, 125),
        (Token::NewLine, 125, 126),
        (Token::StatementAssign, 144, 147),
        (Token::StatementEnd, 148, 149),
        (Token::NewLine, 149, 150),
        (Token::StatementAssign, 166, 169),
        (Token::StatementEnd, 173, 174),
        (Token::NewLine, 174, 175),
        (Token::NewLine, 181, 182),
        (Token::FieldDelimiter, 191, 192),
        (Token::FieldEnd, 199, 200),
        (Token::SectionEnd, 200, 202),
        (Token::NewLine, 202, 203),
    ]
}

#[test]
fn parse_document_with_options_and_fields() {
    let tokens = shop_tokens();
    assert!(Parser::tokens_parse(&tokens, SOURCE));
    let p = Parser::from_tokens(&tokens, SOURCE).unwrap();
    assert!(p.found_module_name);
    assert_eq!(p.module_name, "shop");
    assert_eq!(p.pragma, Pragma::V1);
    assert_eq!(p.documents.len(), 1);
    let (name, doc) = &p.documents[0];
    assert_eq!(name, "Shop");
    assert_eq!(doc.name, "Shop");
    assert_eq!(doc.options.name.as_deref(), Some("Shop"));
    assert_eq!(doc.options.root, None);
    assert_eq!(doc.fields.len(), 2);
    assert_eq!(doc.fields[0].0, "id");
    assert_eq!(doc.fields[0].1.min_length, None);
    assert_eq!(doc.fields[1].0, "label");
    assert_eq!(doc.fields[1].1.min_length, Some(3));
    assert_eq!(doc.fields[1].1.required, Some(true));
    assert!(p.context.current_document.is_none());
    assert!(p.enumerates.is_empty());
}

#[test]
fn parse_refuses_missing_or_repeated_module() {
    let src = "pragma docbuf v1;";
    let tokens = vec![(Token::Pragma, 0, 13), (Token::StatementEnd, 16, 17)];
    assert!(matches!(Parser::from_tokens(&tokens, src), Err(IdlError::InvalidModule)));
    assert!(matches!(Parser::from_tokens(&[], src), Err(IdlError::InvalidModule)));
    let src = "x\nmodule a;\nmodule b;";
    let tokens = vec![
        (Token::NewLine, 1, 2),
        (Token::Module, 1, 8),
        (Token::StatementEnd, 10, 11),
        (Token::Module, 11, 18),
        (Token::StatementEnd, 20, 21),
    ];
    assert!(matches!(Parser::from_tokens(&tokens, src), Err(IdlError::InvalidModule)));
}

#[test]
fn parse_refuses_unknown_pragma() {
    let src = "pragma docbuf v2;\nmodule a;";
    let tokens = vec![(Token::Pragma, 0, 13), (Token::StatementEnd, 16, 17), (Token::Module, 17, 24)];
    assert!(matches!(Parser::from_tokens(&tokens, src), Err(IdlError::MissingPragma)));
}

#[test]
fn parse_cannot_end_a_field_without_name() {
    let src = "x,";
    let tokens = vec![(Token::NewLine, 0, 1), (Token::FieldEnd, 1, 2)];
    assert!(!Parser::tokens_parse(&tokens, src));
}

#[test]
fn u32_texts() {
    assert_eq!(u32_from_text("42"), Some(42));
    assert_eq!(u32_from_text("+7"), Some(7));
    assert_eq!(u32_from_text("4294967295"), Some(u32::MAX));
    assert_eq!(u32_from_text("4294967296"), None);
    assert_eq!(u32_from_text(""), None);
    assert_eq!(u32_from_text("+"), None);
    assert_eq!(u32_from_text("-1"), None);
    assert_eq!(u32_from_text("1a"), None);
}

#[test]
fn context_comments_accumulate_and_reset() {
    let mut c = ParserContext::new();
    c.set_current_comments("a");
    c.set_current_comments("b");
    assert_eq!(c.current_comments.as_deref(), Some("ab"));
    c.set_current_option_item("name".to_string());
    c.reset();
    assert!(c.current_comments.is_none());
    assert!(c.current_option_item.is_none());
}

#[test]
fn lexer_takes_longest_tokens_and_skips_unknown_characters() {
    let src = "pragma docbuf v1;\nmodule a;x";
    assert!(lexes(src));
    let tokens = lex(src).unwrap();
    assert_eq!(
        tokens,
        vec![
            (Token::Pragma, 0, 13),
            (Token::StatementEnd, 16, 17),
            (Token::Module, 17, 24),
            (Token::StatementEnd, 26, 27),
        ]
    );
    let p = Parser::from_tokens(&tokens, src).unwrap();
    assert_eq!(p.module_name, "a");
    assert_eq!(lex(";\u{e9};").unwrap(), vec![(Token::StatementEnd, 0, 1), (Token::StatementEnd, 3, 4)]);
    assert_eq!(lex("/// //// ").unwrap(), vec![(Token::DocCommentLine, 0, 4), (Token::DocCommentLine, 5, 9)]);
    assert_eq!(lex("\n}]\n}x").unwrap(), vec![(Token::OptionsEnd, 0, 3), (Token::SectionEnd, 3, 5)]);
}

#[test]
fn lexer_line_breaks_take_the_next_byte() {
    assert_eq!(lex("\n\n;").unwrap(), vec![(Token::NewLine, 0, 2), (Token::StatementEnd, 2, 3)]);
    assert!(!lexes("a\n"));
    assert!(!lexes("\n\u{e9}"));
    assert!(matches!(lex("x;"), Err(IdlError::Token(_))));
    assert_eq!(lex("").unwrap(), vec![]);
}

#[test]
fn import_names_are_trimmed_and_unquoted() {
    let src = "pragma docbuf v1;\nimport \"a/b.docbuf\";\nimport  c.docbuf ;\nmodule m;";
    let names = docbuf::idl_parser::import_file_names(src).unwrap();
    assert_eq!(names, vec!["a/b.docbuf".to_string(), "c.docbuf".to_string()]);
    assert_eq!(docbuf::idl_parser::import_file_names("module m;").unwrap(), Vec::<String>::new());
    let caps = vec![Some(" \"x\" ".to_string()), None];
    assert_eq!(docbuf::idl_parser::import_names_of(&caps), None);
    let caps = vec![Some(" \"x\" ".to_string())];
    assert_eq!(docbuf::idl_parser::import_names_of(&caps), Some(vec!["x".to_string()]));
}
