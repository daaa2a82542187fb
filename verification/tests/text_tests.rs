use docbuf::error::Error;
use docbuf::field_type::VTableFieldType;
use docbuf::idl::{Compiler, Pragma, Token};
use docbuf::numeric::NumericValue;
use docbuf::options::{remove_quotes, DocBufOpt, DocBufOpts, RpcOption, RpcOptions};
use docbuf::paths::join_path;
use docbuf::rules::VTableFieldRules;
use docbuf::text::signed_decimal_string;
use docbuf::type_parse::{strip_leading_text, strip_trailing_text, text_contains, trim_white_text};

fn label(s: &str) -> String {
    VTableFieldType::from_type_name(s).type_label()
}

#[test]
fn type_names_of_primitives() {
    assert_eq!(label("u8"), "u8");
    assert_eq!(label("i128"), "i128");
    assert_eq!(label("String"), "String");
    assert_eq!(label("bool"), "bool");
    assert_eq!(label("f64"), "f64");
}

#[test]
fn type_names_of_containers() {
    assert_eq!(label("Vec < u8 >"), "Bytes");
    assert_eq!(label("Vec < u32 >"), "Vec<u32>");
    assert_eq!(label("Option < String >"), "Option<String>");
    assert_eq!(label("Option < Vec < u8 > >"), "Option<Bytes>");
    assert_eq!(label("Option < Vec < u32 > >"), "Option<Vec<u32>>");
    assert_eq!(label("HashMap < String , u32 >"), "HashMap<String, u32>");
    // Repeated prefixes are all stripped.
    assert_eq!(label("Vec < Vec < u16 > >"), "Vec<u16>");
}

#[test]
fn type_names_by_content() {
    assert_eq!(label("& 'static str"), "&str");
    assert_eq!(label("[u8 ; 32]"), "Bytes");
    assert_eq!(label("uuid :: Uuid"), "Uuid");
    assert_eq!(label("MyStruct"), "MyStruct");
    assert_eq!(
        VTableFieldType::is_struct(VTableFieldType::from_type_name("Option < Inner >")),
        Some("Inner".to_string())
    );
    assert_eq!(label("Vec < Inner >"), "Vec<Inner>");
}

#[test]
fn hashmap_text_parts() {
    assert_eq!(VTableFieldType::parse_hashmap_types("HashMap<String,bool>").type_label(), "HashMap<String, bool>");
    assert_eq!(VTableFieldType::hashmap_from_str("HashMap < u8 , String >").type_label(), "HashMap<u8, String>");
}

#[test]
fn text_helpers() {
    assert!(text_contains("Option < Vec", "Vec"));
    assert!(!text_contains("Vec", "Vector"));
    assert!(text_contains("abc", ""));
    assert_eq!(strip_leading_text("ababc", "ab"), "c");
    assert_eq!(strip_trailing_text("x > >", " >"), "x");
    assert_eq!(trim_white_text("\t  a b \n"), "a b");
    assert_eq!(trim_white_text("   "), "");
}

#[test]
fn pragma_and_compiler() {
    assert_eq!(Pragma::from_text(" v1 "), Some(Pragma::V1));
    assert_eq!(Pragma::from_text("v2"), None);
    assert_eq!(Compiler::new().compile("document A {}"), Ok("document A {}".to_string()));
    assert_ne!(Token::SectionStart, Token::SectionEnd);
}

#[test]
fn decimal_texts() {
    assert_eq!(signed_decimal_string(0), "0");
    assert_eq!(signed_decimal_string(1234567890123), "1234567890123");
    assert_eq!(signed_decimal_string(-42), "-42");
    assert_eq!(signed_decimal_string(i128::MIN), "-170141183460469231731687303715884105728");
    assert_eq!(NumericValue::I8(-3).debug_string(), "I8(-3)");
    assert_eq!(NumericValue::U32(17).debug_string(), "U32(17)");
}

#[test]
fn length_messages_carry_numbers() {
    let rules = VTableFieldRules::new().set_max_length(3);
    match rules.check_length(5) {
        Err(Error::FieldRulesLength(m)) => assert_eq!(m, "data size exceeds field max length: 3"),
        _ => panic!("expected a length error"),
    }
    assert!(rules.check_length(3).is_ok());
}

#[test]
fn quotes_and_paths() {
    assert_eq!(remove_quotes("\"a\"b\""), "ab");
    assert_eq!(join_path("/a", "b"), "/a/b");
    assert_eq!(join_path("/a/", "b"), "/a/b");
    assert_eq!(join_path("/a", "/b"), "/b");
    assert_eq!(join_path("", "b"), "b");
}

#[test]
fn docbuf_options_from_tokens() {
    let tokens: Vec<String> = ["namespace", "=", "\"shop\"", ",", "uuid", "=", "true", ","]
        .iter()
        .map(|s| s.to_string())
        .collect();
    let opts = DocBufOpts::from_token_texts(&tokens);
    assert_eq!(opts.namespace(), "shop");
    assert!(opts.uuid());
    assert_eq!(opts.db_path(), None);
    assert!(opts.contains(&DocBufOpt::UseUuid(true)));
    let mut again = DocBufOpts::new();
    again.insert(DocBufOpt::Sign(true));
    again.insert(DocBufOpt::Sign(true));
    assert!(again.contains(&DocBufOpt::Sign(true)));
    assert_eq!(again.namespace(), "default");
}

#[test]
fn rpc_options() {
    let mut rpc = RpcOptions::new();
    assert_eq!(rpc.service(), None);
    rpc.insert(RpcOption::from_pair("service", "Shop"));
    assert_eq!(rpc.service(), Some("Shop"));
}

#[test]
fn uuid_follows_uuid_option_and_db_config_only() {
    let mut opts = DocBufOpts::new();
    opts.insert(DocBufOpt::UseDb(true));
    assert!(!opts.uuid());
    opts.insert(DocBufOpt::UseUuid(true));
    assert!(opts.uuid());
}

#[test]
fn struct_names_from_type_text() {
    assert_eq!(VTableFieldType::is_struct_name("Shop"), Some("Shop".to_string()));
    assert_eq!(VTableFieldType::is_struct_name("u8"), None);
    assert_eq!(VTableFieldType::is_struct_name("String"), None);
}
