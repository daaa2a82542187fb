//! The lexer of the DocBuf interface description language: the tokens of
//! a source with their byte ranges. At each position the longest token text
//! the source holds there is taken (a line break takes the byte after it
//! too); where none is, one character is skipped as an error.
use vstd::prelude::*;
use vstd::utf8::*;
use crate::idl::Token;
use crate::idl_parser::IdlError;

verus! {

/// The text `t` stands in `src` at `i`.
pub open spec fn text_at_pos(src: Seq<u8>, i: int, t: Seq<u8>) -> bool {
    0 <= i && i + t.len() <= src.len() && src.subrange(i, i + t.len()) == t
}

/// The text of a token, as bytes: each token but `NewLine` is exactly
/// this text; `NewLine` is a line break and the byte after it.
pub open spec fn token_text(t: Token) -> Seq<u8> {
    match t {
        Token::DocumentOptionsStart => seq![35u8, 91u8, 100u8, 111u8, 99u8, 117u8, 109u8, 101u8, 110u8, 116u8, 58u8, 58u8, 111u8, 112u8, 116u8, 105u8, 111u8, 110u8, 115u8, 32u8, 123u8],
        Token::ProcessOptionsStart => seq![35u8, 91u8, 112u8, 114u8, 111u8, 99u8, 101u8, 115u8, 115u8, 58u8, 58u8, 111u8, 112u8, 116u8, 105u8, 111u8, 110u8, 115u8, 32u8, 123u8],
        Token::FieldOptionsStart => seq![35u8, 91u8, 102u8, 105u8, 101u8, 108u8, 100u8, 58u8, 58u8, 111u8, 112u8, 116u8, 105u8, 111u8, 110u8, 115u8, 32u8, 123u8],
        Token::EnumOptionsStart => seq![35u8, 91u8, 101u8, 110u8, 117u8, 109u8, 58u8, 58u8, 111u8, 112u8, 116u8, 105u8, 111u8, 110u8, 115u8, 32u8, 123u8],
        Token::ItemOptionsStart => seq![35u8, 91u8, 105u8, 116u8, 101u8, 109u8, 58u8, 58u8, 111u8, 112u8, 116u8, 105u8, 111u8, 110u8, 115u8, 32u8, 123u8],
        Token::Pragma => seq![112u8, 114u8, 97u8, 103u8, 109u8, 97u8, 32u8, 100u8, 111u8, 99u8, 98u8, 117u8, 102u8],
        Token::Enumerate => seq![10u8, 101u8, 110u8, 117u8, 109u8, 101u8, 114u8, 97u8, 98u8, 108u8, 101u8],
        Token::Document => seq![10u8, 100u8, 111u8, 99u8, 117u8, 109u8, 101u8, 110u8, 116u8],
        Token::Process => seq![10u8, 112u8, 114u8, 111u8, 99u8, 101u8, 115u8, 115u8],
        Token::Module => seq![10u8, 109u8, 111u8, 100u8, 117u8, 108u8, 101u8],
        Token::Import => seq![10u8, 105u8, 109u8, 112u8, 111u8, 114u8, 116u8],
        Token::DocCommentLine => seq![47u8, 47u8, 47u8, 32u8],
        Token::StatementAssign => seq![32u8, 61u8, 32u8],
        Token::OptionsEnd => seq![10u8, 125u8, 93u8],
        Token::CommentLine => seq![47u8, 47u8, 32u8],
        Token::SectionEnd => seq![10u8, 125u8],
        Token::StatementEnd => seq![59u8],
        Token::SectionStart => seq![123u8],
        Token::FieldDelimiter => seq![58u8],
        Token::FieldEnd => seq![44u8],
        Token::NewLine => seq![10u8],
    }
}

/// The token whose text is the longest that `src` holds at `i`.
pub open spec fn longest_token_at(src: Seq<u8>, i: int) -> Option<Token> {
    if text_at_pos(src, i, token_text(Token::DocumentOptionsStart)) {
        Some(Token::DocumentOptionsStart)
    } else if text_at_pos(src, i, token_text(Token::ProcessOptionsStart)) {
        Some(Token::ProcessOptionsStart)
    } else if text_at_pos(src, i, token_text(Token::FieldOptionsStart)) {
        Some(Token::FieldOptionsStart)
    } else if text_at_pos(src, i, token_text(Token::EnumOptionsStart)) {
        Some(Token::EnumOptionsStart)
    } else if text_at_pos(src, i, token_text(Token::ItemOptionsStart)) {
        Some(Token::ItemOptionsStart)
    } else if text_at_pos(src, i, token_text(Token::Pragma)) {
        Some(Token::Pragma)
    } else if text_at_pos(src, i, token_text(Token::Enumerate)) {
        Some(Token::Enumerate)
    } else if text_at_pos(src, i, token_text(Token::Document)) {
        Some(Token::Document)
    } else if text_at_pos(src, i, token_text(Token::Process)) {
        Some(Token::Process)
    } else if text_at_pos(src, i, token_text(Token::Module)) {
        Some(Token::Module)
    } else if text_at_pos(src, i, token_text(Token::Import)) {
        Some(Token::Import)
    } else if text_at_pos(src, i, token_text(Token::DocCommentLine)) {
        Some(Token::DocCommentLine)
    } else if text_at_pos(src, i, token_text(Token::StatementAssign)) {
        Some(Token::StatementAssign)
    } else if text_at_pos(src, i, token_text(Token::OptionsEnd)) {
        Some(Token::OptionsEnd)
    } else if text_at_pos(src, i, token_text(Token::CommentLine)) {
        Some(Token::CommentLine)
    } else if text_at_pos(src, i, token_text(Token::SectionEnd)) {
        Some(Token::SectionEnd)
    } else if text_at_pos(src, i, token_text(Token::StatementEnd)) {
        Some(Token::StatementEnd)
    } else if text_at_pos(src, i, token_text(Token::SectionStart)) {
        Some(Token::SectionStart)
    } else if text_at_pos(src, i, token_text(Token::FieldDelimiter)) {
        Some(Token::FieldDelimiter)
    } else if text_at_pos(src, i, token_text(Token::FieldEnd)) {
        Some(Token::FieldEnd)
    } else if text_at_pos(src, i, token_text(Token::NewLine)) {
        Some(Token::NewLine)
    } else {
        None
    }
}

/// The text of a token, as bytes (see `token_text`).
fn token_bytes(t: Token) -> (r: Vec<u8>)
    ensures
        r@ == token_text(t),
{
    let r = match t {
        Token::DocumentOptionsStart => vec![35u8, 91u8, 100u8, 111u8, 99u8, 117u8, 109u8, 101u8, 110u8, 116u8, 58u8, 58u8, 111u8, 112u8, 116u8, 105u8, 111u8, 110u8, 115u8, 32u8, 123u8],
        Token::ProcessOptionsStart => vec![35u8, 91u8, 112u8, 114u8, 111u8, 99u8, 101u8, 115u8, 115u8, 58u8, 58u8, 111u8, 112u8, 116u8, 105u8, 111u8, 110u8, 115u8, 32u8, 123u8],
        Token::FieldOptionsStart => vec![35u8, 91u8, 102u8, 105u8, 101u8, 108u8, 100u8, 58u8, 58u8, 111u8, 112u8, 116u8, 105u8, 111u8, 110u8, 115u8, 32u8, 123u8],
        Token::EnumOptionsStart => vec![35u8, 91u8, 101u8, 110u8, 117u8, 109u8, 58u8, 58u8, 111u8, 112u8, 116u8, 105u8, 111u8, 110u8, 115u8, 32u8, 123u8],
        Token::ItemOptionsStart => vec![35u8, 91u8, 105u8, 116u8, 101u8, 109u8, 58u8, 58u8, 111u8, 112u8, 116u8, 105u8, 111u8, 110u8, 115u8, 32u8, 123u8],
        Token::Pragma => vec![112u8, 114u8, 97u8, 103u8, 109u8, 97u8, 32u8, 100u8, 111u8, 99u8, 98u8, 117u8, 102u8],
        Token::Enumerate => vec![10u8, 101u8, 110u8, 117u8, 109u8, 101u8, 114u8, 97u8, 98u8, 108u8, 101u8],
        Token::Document => vec![10u8, 100u8, 111u8, 99u8, 117u8, 109u8, 101u8, 110u8, 116u8],
        Token::Process => vec![10u8, 112u8, 114u8, 111u8, 99u8, 101u8, 115u8, 115u8],
        Token::Module => vec![10u8, 109u8, 111u8, 100u8, 117u8, 108u8, 101u8],
        Token::Import => vec![10u8, 105u8, 109u8, 112u8, 111u8, 114u8, 116u8],
        Token::DocCommentLine => vec![47u8, 47u8, 47u8, 32u8],
        Token::StatementAssign => vec![32u8, 61u8, 32u8],
        Token::OptionsEnd => vec![10u8, 125u8, 93u8],
        Token::CommentLine => vec![47u8, 47u8, 32u8],
        Token::SectionEnd => vec![10u8, 125u8],
        Token::StatementEnd => vec![59u8],
        Token::SectionStart => vec![123u8],
        Token::FieldDelimiter => vec![58u8],
        Token::FieldEnd => vec![44u8],
        Token::NewLine => vec![10u8],
    };
    assert(r@ =~= token_text(t));
    r
}

/// The token whose text is the longest that the bytes hold at `i`.
fn longest_token(b: &[u8], i: usize) -> (r: Option<Token>)
    ensures
        r == longest_token_at(b@, i as int),
{
    if holds_at(b, i, Token::DocumentOptionsStart) {
        Some(Token::DocumentOptionsStart)
    } else if holds_at(b, i, Token::ProcessOptionsStart) {
        Some(Token::ProcessOptionsStart)
    } else if holds_at(b, i, Token::FieldOptionsStart) {
        Some(Token::FieldOptionsStart)
    } else if holds_at(b, i, Token::EnumOptionsStart) {
        Some(Token::EnumOptionsStart)
    } else if holds_at(b, i, Token::ItemOptionsStart) {
        Some(Token::ItemOptionsStart)
    } else if holds_at(b, i, Token::Pragma) {
        Some(Token::Pragma)
    } else if holds_at(b, i, Token::Enumerate) {
        Some(Token::Enumerate)
    } else if holds_at(b, i, Token::Document) {
        Some(Token::Document)
    } else if holds_at(b, i, Token::Process) {
        Some(Token::Process)
    } else if holds_at(b, i, Token::Module) {
        Some(Token::Module)
    } else if holds_at(b, i, Token::Import) {
        Some(Token::Import)
    } else if holds_at(b, i, Token::DocCommentLine) {
        Some(Token::DocCommentLine)
    } else if holds_at(b, i, Token::StatementAssign) {
        Some(Token::StatementAssign)
    } else if holds_at(b, i, Token::OptionsEnd) {
        Some(Token::OptionsEnd)
    } else if holds_at(b, i, Token::CommentLine) {
        Some(Token::CommentLine)
    } else if holds_at(b, i, Token::SectionEnd) {
        Some(Token::SectionEnd)
    } else if holds_at(b, i, Token::StatementEnd) {
        Some(Token::StatementEnd)
    } else if holds_at(b, i, Token::SectionStart) {
        Some(Token::SectionStart)
    } else if holds_at(b, i, Token::FieldDelimiter) {
        Some(Token::FieldDelimiter)
    } else if holds_at(b, i, Token::FieldEnd) {
        Some(Token::FieldEnd)
    } else if holds_at(b, i, Token::NewLine) {
        Some(Token::NewLine)
    } else {
        None
    }
}

/// The token taken at `i` is the one with the longest text the source
/// holds there; where none is taken, the source holds no token text there.
pub proof fn lemma_longest_token(src: Seq<u8>, i: int, u: Token)
    ensures
        longest_token_at(src, i) matches Some(t) ==> text_at_pos(src, i, token_text(t)) && (text_at_pos(
            src,
            i,
            token_text(u),
        ) ==> token_text(u).len() <= token_text(t).len()),
        longest_token_at(src, i) is None ==> !text_at_pos(src, i, token_text(u)),
{
}

/// The number of bytes of the UTF-8 character that starts with `b`.
pub open spec fn char_width(b: u8) -> int {
    if b < 0x80 {
        1
    } else if b < 0xE0 {
        2
    } else if b < 0xF0 {
        3
    } else {
        4
    }
}

/// One lexeme at `i`: the token taken there, or `None` for a skipped
/// character, and where it ends; `None` where the line break is the last
/// byte or is followed by a byte of a longer character (the lexer cannot
/// take the byte after it), or the character runs past the end.
pub open spec fn lexeme_at(src: Seq<u8>, i: int) -> Option<(Option<Token>, int)> {
    match longest_token_at(src, i) {
        Some(Token::NewLine) => if i + 1 < src.len() && src[i + 1] < 0x80 {
            Some((Some(Token::NewLine), i + 2))
        } else {
            None
        },
        Some(t) => Some((Some(t), i + token_text(t).len())),
        None => if i + char_width(src[i]) <= src.len() {
            Some((None, i + char_width(src[i])))
        } else {
            None
        },
    }
}

/// The lexemes of `src` from `i` on, each with its byte range.
pub open spec fn lexemes_from(src: Seq<u8>, i: int) -> Option<Seq<(Option<Token>, int, int)>>
    decreases src.len() - i,
{
    if i < 0 || i >= src.len() {
        Some(Seq::empty())
    } else {
        match lexeme_at(src, i) {
            None => None,
            Some((t, e)) => if e <= i {
                None
            } else {
                match lexemes_from(src, e) {
                    None => None,
                    Some(rest) => Some(seq![(t, i, e)] + rest),
                }
            },
        }
    }
}

/// `acc` in front of the lexemes of `r`.
pub open spec fn after_lexemes(acc: Seq<(Option<Token>, int, int)>, r: Option<Seq<(Option<Token>, int, int)>>) -> Option<Seq<(Option<Token>, int, int)>> {
    match r {
        None => None,
        Some(rest) => Some(acc + rest),
    }
}

/// The tokens among the lexemes, skipped characters left out.
pub open spec fn tokens_of(ls: Seq<(Option<Token>, int, int)>) -> Seq<(Token, usize, usize)>
    decreases ls.len(),
{
    if ls.len() == 0 {
        Seq::empty()
    } else {
        let rest = tokens_of(ls.drop_last());
        match ls.last().0 {
            Some(t) => rest.push((t, ls.last().1 as usize, ls.last().2 as usize)),
            None => rest,
        }
    }
}

/// What lexing `src` gives: a skipped character first is an error, else
/// the tokens with their ranges; `None` where a lexeme cannot be taken.
pub open spec fn lex_model(src: Seq<u8>) -> Option<Result<Seq<(Token, usize, usize)>, ()>> {
    match lexemes_from(src, 0) {
        None => None,
        Some(ls) => if ls.len() > 0 && ls[0].0 is None {
            Some(Err(()))
        } else {
            Some(Ok(tokens_of(ls)))
        },
    }
}

/// The lexemes of a list, their ends as integers.
pub open spec fn lexemes_view(v: Seq<(Option<Token>, usize, usize)>) -> Seq<(Option<Token>, int, int)> {
    v.map_values(|x: (Option<Token>, usize, usize)| (x.0, x.1 as int, x.2 as int))
}

/// Whether the bytes hold the text of `t` at `i`.
fn holds_at(b: &[u8], i: usize, t: Token) -> (r: bool)
    ensures
        r == text_at_pos(b@, i as int, token_text(t)),
{
    let pat = token_bytes(t);
    let n = pat.len();
    if i > b.len() || n > b.len() - i {
        return false;
    }
    let mut k: usize = 0;
    while k < n
        invariant
            k <= n,
            n == pat@.len(),
            pat@ == token_text(t),
            i + n <= b@.len(),
            b@.len() == b.len(),
            forall|j: int| 0 <= j < k ==> b@[i + j] == pat@[j],
        decreases n - k,
    {
        if b[i + k] != pat[k] {
            proof {
                assert(b@.subrange(i as int, i + n)[k as int] != pat@[k as int]);
            }
            return false;
        }
        k = k + 1;
    }
    assert(b@.subrange(i as int, i + n) =~= pat@);
    true
}

/// The lexeme at `i` (see `lexeme_at`).
fn lexeme(b: &[u8], i: usize) -> (r: Option<(Option<Token>, usize)>)
    requires
        i < b@.len(),
    ensures
        match lexeme_at(b@, i as int) {
            None => r is None,
            Some((t, e)) => r matches Some((t2, e2)) && t2 == t && e2 == e,
        },
{
    let len = b.len();
    match longest_token(b, i) {
        Some(Token::NewLine) => {
            if i + 1 < len && b[i + 1] < 0x80 {
                Some((Some(Token::NewLine), i + 2))
            } else {
                None
            }
        },
        Some(t) => {
            let n = token_bytes(t).len();
            Some((Some(t), i + n))
        },
        None => {
            let c = b[i];
            let w: usize = if c < 0x80 {
                1
            } else if c < 0xE0 {
                2
            } else if c < 0xF0 {
                3
            } else {
                4
            };
            if w <= b.len() - i {
                Some((None, i + w))
            } else {
                None
            }
        },
    }
}

/// The lexemes of the bytes, in order; `None` where one cannot be taken.
fn lexemes(b: &[u8]) -> (r: Option<Vec<(Option<Token>, usize, usize)>>)
    ensures
        match lexemes_from(b@, 0) {
            None => r is None,
            Some(ls) => r matches Some(v) && lexemes_view(v@) == ls,
        },
{
    let mut out: Vec<(Option<Token>, usize, usize)> = Vec::new();
    let ghost acc: Seq<(Option<Token>, int, int)> = Seq::empty();
    let mut i: usize = 0;
    let n = b.len();
    while i < n
        invariant
            n == b@.len(),
            i <= n,
            lexemes_from(b@, 0) == after_lexemes(acc, lexemes_from(b@, i as int)),
            lexemes_view(out@) == acc,
        decreases n - i,
    {
        match lexeme(b, i) {
            None => {
                return None;
            },
            Some((t, e)) => {
                proof {
                    let rest = lexemes_from(b@, e as int);
                    assert(after_lexemes(acc, lexemes_from(b@, i as int)) == after_lexemes(acc.push((t, i as int, e as int)), rest)) by {
                        if let Some(r) = rest {
                            assert(acc + (seq![(t, i as int, e as int)] + r) =~= acc.push((t, i as int, e as int)) + r);
                        }
                    }
                    acc = acc.push((t, i as int, e as int));
                }
                out.push((t, i, e));
                assert(lexemes_view(out@) =~= acc);
                i = e;
            },
        }
    }
    proof {
        assert(acc + Seq::<(Option<Token>, int, int)>::empty() =~= acc);
    }
    Some(out)
}

/// Whether `source` can be lexed to its end (see `lex_model`): no line
/// break is its last byte or is followed by a longer character.
pub fn lexes(source: &str) -> (r: bool)
    ensures
        r == (lex_model(encode_utf8(source@)) is Some),
{
    let bytes = source.as_bytes();
    assert(bytes@ == encode_utf8(source@));
    lexemes(bytes).is_some()
}

/// The tokens of `source` with their byte ranges (see `lex_model`): a
/// skipped character at the start is the error that no token was found;
/// later ones are left out.
pub fn lex(source: &str) -> (r: Result<Vec<(Token, usize, usize)>, IdlError>)
    requires
        lex_model(encode_utf8(source@)) is Some,
    ensures
        match lex_model(encode_utf8(source@)).unwrap() {
            Ok(ts) => r matches Ok(v) && v@ == ts,
            Err(_) => r matches Err(IdlError::Token(m)) && m@ == "No Token Found."@,
        },
{
    let bytes = source.as_bytes();
    assert(bytes@ == encode_utf8(source@));
    let ls = match lexemes(bytes) {
        Some(ls) => ls,
        None => return Ok(Vec::new()),
    };
    let ghost model = lexemes_from(bytes@, 0).unwrap();
    if ls.len() > 0 && ls[0].0.is_none() {
        assert(model[0].0 is None);
        return Err(IdlError::Token(String::from_str("No Token Found.")));
    }
    let mut out: Vec<(Token, usize, usize)> = Vec::new();
    let n = ls.len();
    for k in 0..n
        invariant
            n == ls@.len(),
            n == model.len(),
            lexemes_view(ls@) == model,
            out@ == tokens_of(model.subrange(0, k as int)),
    {
        proof {
            assert(model.subrange(0, k + 1).drop_last() =~= model.subrange(0, k as int));
        }
        let (lt, ls_start, ls_end) = ls[k];
        assert(model[k as int] == (lt, ls_start as int, ls_end as int));
        match lt {
            Some(t) => {
                out.push((t, ls_start, ls_end));
            },
            None => {},
        }
    }
    assert(model.subrange(0, n as int) =~= model);
    Ok(out)
}

/// The bytes spell out the text, one ASCII character per byte.
pub open spec fn spells(b: Seq<u8>, k: Seq<char>) -> bool {
    b.len() == k.len() && forall|j: int| 0 <= j < b.len() ==> (#[trigger] b[j]) as u32 == k[j] as u32
}

/// The text of each token is its keyword of the language (a line break
/// for `NewLine`, which also takes the byte after it).
pub proof fn lemma_token_keywords()
    ensures
        spells(token_text(Token::Pragma), "pragma docbuf"@),
        spells(token_text(Token::Module), "\nmodule"@),
        spells(token_text(Token::Import), "\nimport"@),
        spells(token_text(Token::Document), "\ndocument"@),
        spells(token_text(Token::Enumerate), "\nenumerable"@),
        spells(token_text(Token::Process), "\nprocess"@),
        spells(token_text(Token::StatementAssign), " = "@),
        spells(token_text(Token::StatementEnd), ";"@),
        spells(token_text(Token::DocumentOptionsStart), "#[document::options {"@),
        spells(token_text(Token::FieldOptionsStart), "#[field::options {"@),
        spells(token_text(Token::EnumOptionsStart), "#[enum::options {"@),
        spells(token_text(Token::ItemOptionsStart), "#[item::options {"@),
        spells(token_text(Token::ProcessOptionsStart), "#[process::options {"@),
        spells(token_text(Token::OptionsEnd), "\n}]"@),
        spells(token_text(Token::SectionStart), "{"@),
        spells(token_text(Token::SectionEnd), "\n}"@),
        spells(token_text(Token::FieldDelimiter), ":"@),
        spells(token_text(Token::FieldEnd), ","@),
        spells(token_text(Token::CommentLine), "// "@),
        spells(token_text(Token::DocCommentLine), "/// "@),
        spells(token_text(Token::NewLine), "\n"@),
{
    reveal_strlit("pragma docbuf");
    reveal_strlit("\nmodule");
    reveal_strlit("\nimport");
    reveal_strlit("\ndocument");
    reveal_strlit("\nenumerable");
    reveal_strlit("\nprocess");
    reveal_strlit(" = ");
    reveal_strlit(";");
    reveal_strlit("#[document::options {");
    reveal_strlit("#[field::options {");
    reveal_strlit("#[enum::options {");
    reveal_strlit("#[item::options {");
    reveal_strlit("#[process::options {");
    reveal_strlit("\n}]");
    reveal_strlit("{");
    reveal_strlit("\n}");
    reveal_strlit(":");
    reveal_strlit(",");
    reveal_strlit("// ");
    reveal_strlit("/// ");
    reveal_strlit("\n");
}

/// The bytes of `src` from `i` on are those of `p` where it holds `p` there.
proof fn lemma_text_bytes(src: Seq<u8>, i: int, p: Seq<u8>)
    requires
        text_at_pos(src, i, p),
    ensures
        forall|k: int| 0 <= k < p.len() ==> src[i + k] == #[trigger] p[k],
{
    assert forall|k: int| 0 <= k < p.len() implies src[i + k] == #[trigger] p[k] by {
        assert(src.subrange(i, i + p.len())[k] == src[i + k]);
    }
}

/// A source that holds the text of a token at `i` lexes there to that token
/// over the bytes of its text, for every token whose text no other token's
/// text extends: all but the line break, and the section end where `]`
/// follows it (which makes it the end of an options block).
pub proof fn lemma_token_text_lexes(src: Seq<u8>, i: int, t: Token)
    requires
        text_at_pos(src, i, token_text(t)),
        !(t is NewLine),
        t is SectionEnd ==> !(i + 2 < src.len() && src[i + 2] == 93u8),
    ensures
        longest_token_at(src, i) == Some(t),
        lexeme_at(src, i) == Some((Some(t), i + token_text(t).len())),
{
    assert forall|u: Token| !(u is NewLine) && !(t is OptionsEnd && u is SectionEnd) && u != t implies !#[trigger] text_at_pos(src, i, token_text(u)) by {
        if text_at_pos(src, i, token_text(u)) {
            lemma_text_bytes(src, i, token_text(u));
            lemma_text_bytes(src, i, token_text(t));
            let (a, b) = (token_text(t), token_text(u));
            assert(a[0] == b[0]);
            if a.len() > 1 && b.len() > 1 {
                assert(a[1] == b[1]);
            }
            if a.len() > 2 && b.len() > 2 {
                assert(a[2] == b[2]);
            }
        }
    }
}

} // verus!
