//! Splitting a text into the tokens the scanner reads, with `wast`'s lexer.

use vstd::prelude::*;

use wast::lexer::{Lexer, Token as WastToken, TokenKind as WastTokenKind};

use vstd::string::StringSliceAdditionalSpecFns;
use vstd::utf8::{encode_utf8, is_char_boundary};

use crate::error::{Error, ErrorKind};
use crate::token::{Token, TokenKind, TokenStream};

verus! {

/// The kind of a lexical token, its contents left out; comments and
/// whitespace are one kind.
#[derive(Debug, Clone, Copy, PartialEq, Eq, Structural)]
pub enum LexKind {
    Trivia,
    LParen,
    RParen,
    String,
    Id,
    Keyword,
    Annotation,
    Reserved,
    Integer,
    Float,
}

/// What `wast`'s lexer reads at byte offset `pos` of `text`: the kind of the
/// token that starts there and the offset just past it; `Ok(None)` at the
/// end of the text.
pub uninterp spec fn lexed_at(text: Seq<char>, pos: usize) -> Result<Option<(LexKind, usize)>, Error>;

/// The bytes of the string literal lexed at `pos`, escapes resolved.
pub uninterp spec fn string_value(text: Seq<char>, pos: usize) -> Vec<u8>;

/// The name of the identifier lexed at `pos`, without `$`, or the message of
/// the error for a name that is not valid.
pub uninterp spec fn id_value(text: Seq<char>, pos: usize) -> Result<String, String>;

/// The text of the keyword lexed at `pos`.
pub uninterp spec fn keyword_value(text: Seq<char>, pos: usize) -> String;

/// The name of the annotation lexed at `pos`, without `@`, or the message of
/// the error for a name that is not valid.
pub uninterp spec fn annotation_value(text: Seq<char>, pos: usize) -> Result<String, String>;

/// `Lexer::parse` of `wast` at `pos`: the token's kind and the offset past
/// it, or the lexer's error. The result is a function of the text and the
/// offset alone; nothing more is stated of it (that the offset moves forward
/// and lands on a character boundary is checked by the caller). The lexer
/// slices the text at `pos`, so `pos` must be a character boundary of it.
#[verifier::external_body]
fn lex_at(text: &str, pos: usize) -> (res: Result<Option<(LexKind, usize)>, Error>)
    requires
        pos <= text.spec_bytes().len(),
        text.spec_bytes().len() <= u32::MAX,
        is_char_boundary(text.spec_bytes(), pos as int),
    ensures
        res == lexed_at(text@, pos),
{
    let mut next = pos;
    let kind = match Lexer::new(text).parse(&mut next) {
        Err(e) => return Err(Error { offset: e.span().offset(), kind: ErrorKind::Text(e.message()) }),
        Ok(None) => return Ok(None),
        Ok(Some(token)) => token.kind,
    };
    Ok(Some((match kind {
        WastTokenKind::LineComment | WastTokenKind::BlockComment | WastTokenKind::Whitespace => LexKind::Trivia,
        WastTokenKind::LParen => LexKind::LParen, WastTokenKind::RParen => LexKind::RParen,
        WastTokenKind::String => LexKind::String, WastTokenKind::Id => LexKind::Id,
        WastTokenKind::Keyword => LexKind::Keyword, WastTokenKind::Annotation => LexKind::Annotation,
        WastTokenKind::Reserved => LexKind::Reserved, WastTokenKind::Integer(_) => LexKind::Integer,
        WastTokenKind::Float(_) => LexKind::Float,
    }, next)))
}

/// `Token::string` of `wast` for the string literal lexed at `pos`.
#[verifier::external_body]
fn token_string(text: &str, pos: usize, len: u32) -> (v: Vec<u8>)
    requires
        lexed_at(text@, pos) == Ok::<Option<(LexKind, usize)>, Error>(Some((LexKind::String, (pos + len) as usize))),
    ensures
        v == string_value(text@, pos),
{
    let token = WastToken { kind: WastTokenKind::String, offset: pos, len };
    token.string(text).into_owned()
}

/// `Token::id` of `wast` for the identifier lexed at `pos`; an error becomes
/// its message.
#[verifier::external_body]
fn token_id(text: &str, pos: usize, len: u32) -> (r: Result<String, String>)
    requires
        lexed_at(text@, pos) == Ok::<Option<(LexKind, usize)>, Error>(Some((LexKind::Id, (pos + len) as usize))),
    ensures
        r == id_value(text@, pos),
{
    let token = WastToken { kind: WastTokenKind::Id, offset: pos, len };
    token.id(text).map(|name| name.into_owned()).map_err(|e| e.message())
}

/// `Token::keyword` of `wast` for the keyword lexed at `pos`: the source text
/// of the token, the `len` bytes from `pos` on.
#[verifier::external_body]
fn token_keyword(text: &str, pos: usize, len: u32) -> (w: String)
    requires
        lexed_at(text@, pos) == Ok::<Option<(LexKind, usize)>, Error>(Some((LexKind::Keyword, (pos + len) as usize))),
    ensures
        w == keyword_value(text@, pos),
        vstd::utf8::encode_utf8(w@) == vstd::utf8::encode_utf8(text@).subrange(pos as int, pos + len),
{
    let token = WastToken { kind: WastTokenKind::Keyword, offset: pos, len };
    token.keyword(text).to_owned()
}

/// `Token::annotation` of `wast` for the annotation lexed at `pos`; an error
/// becomes its message.
#[verifier::external_body]
fn token_annotation(text: &str, pos: usize, len: u32) -> (r: Result<String, String>)
    requires
        lexed_at(text@, pos) == Ok::<Option<(LexKind, usize)>, Error>(Some((LexKind::Annotation, (pos + len) as usize))),
    ensures
        r == annotation_value(text@, pos),
{
    let token = WastToken { kind: WastTokenKind::Annotation, offset: pos, len };
    token.annotation(text).map(|name| name.into_owned()).map_err(|e| e.message())
}

/// The token, as the scanner reads it, of a significant lexical token at
/// `pos`; `None` for comments and whitespace.
pub open spec fn token_of(text: Seq<char>, pos: usize, kind: LexKind) -> Option<Token> {
    match kind {
        LexKind::Trivia => None,
        LexKind::LParen => Some(Token { kind: TokenKind::LParen, offset: pos }),
        LexKind::RParen => Some(Token { kind: TokenKind::RParen, offset: pos }),
        LexKind::String => Some(Token { kind: TokenKind::String(string_value(text, pos)), offset: pos }),
        LexKind::Id => Some(Token { kind: TokenKind::Id(id_value(text, pos)), offset: pos }),
        LexKind::Keyword => Some(Token { kind: TokenKind::Keyword(keyword_value(text, pos)), offset: pos }),
        LexKind::Annotation => Some(
            Token { kind: TokenKind::Annotation(annotation_value(text, pos)), offset: pos },
        ),
        LexKind::Reserved => Some(Token { kind: TokenKind::Reserved, offset: pos }),
        LexKind::Integer => Some(Token { kind: TokenKind::Integer, offset: pos }),
        LexKind::Float => Some(Token { kind: TokenKind::Float, offset: pos }),
    }
}

/// The significant tokens of `text` from byte offset `pos` on, up to `end`,
/// and the error that stopped the lexer, if one did. A lexer that does not
/// move forward within the text, or stops inside a character, stops with an
/// internal error.
pub open spec fn lex_from(text: Seq<char>, pos: int, end: int) -> (Seq<Token>, Option<Error>)
    decreases end - pos,
{
    if pos < 0 || pos > end || end > usize::MAX {
        (seq![], Some(Error { offset: 0, kind: ErrorKind::Inconsistent }))
    } else {
        match lexed_at(text, pos as usize) {
            Err(e) => (seq![], Some(e)),
            Ok(None) => (seq![], None),
            Ok(Some((kind, next))) => if next <= pos || next > end || next - pos > u32::MAX
                || !is_char_boundary(encode_utf8(text), next as int) {
                (seq![], Some(Error { offset: pos as usize, kind: ErrorKind::Inconsistent }))
            } else {
                let rest = lex_from(text, next as int, end);
                match token_of(text, pos as usize, kind) {
                    Some(t) => (seq![t] + rest.0, rest.1),
                    None => rest,
                }
            },
        }
    }
}

/// The token stream of `text`: its significant tokens, in order, with their
/// byte offsets.
pub fn tokenize(text: &str) -> (s: TokenStream)
    requires
        text.spec_bytes().len() < usize::MAX,
        text.spec_bytes().len() <= u32::MAX,
    ensures
        s.well_formed(),
        s.end == text.spec_bytes().len(),
        s.tokens@ == lex_from(text@, 0, text.spec_bytes().len() as int).0,
        s.lex_error == lex_from(text@, 0, text.spec_bytes().len() as int).1,
{
    let end = text.len();
    let mut tokens: Vec<Token> = Vec::new();
    let mut pos: usize = 0;
    let ghost whole = lex_from(text@, 0, end as int);
    proof {
        broadcast use vstd::utf8::encode_utf8_valid_utf8;
        assert(vstd::utf8::valid_utf8(text.spec_bytes()));
        assert(is_char_boundary(text.spec_bytes(), 0));
    }
    loop
        invariant
            end == text.spec_bytes().len(),
            end < usize::MAX,
            end <= u32::MAX,
            pos <= end,
            is_char_boundary(text.spec_bytes(), pos as int),
            tokens.len() <= pos,
            whole == lex_from(text@, 0, end as int),
            whole == ({
                let rest = lex_from(text@, pos as int, end as int);
                (tokens@ + rest.0, rest.1)
            }),
        decreases end - pos,
    {
        let (kind, next) = match lex_at(text, pos) {
            Err(e) => {
                assert(tokens@ + seq![] =~= tokens@);
                return TokenStream { tokens, end, lex_error: Some(e) };
            },
            Ok(None) => {
                assert(tokens@ + seq![] =~= tokens@);
                return TokenStream { tokens, end, lex_error: None };
            },
            Ok(Some(r)) => r,
        };
        if next <= pos || next > end || next - pos > 0xffff_ffff || !text.is_char_boundary(next) {
            assert(tokens@ + seq![] =~= tokens@);
            return TokenStream { tokens, end, lex_error: Some(Error::new(pos, ErrorKind::Inconsistent)) };
        }
        let len = (next - pos) as u32;
        let token_kind = match kind {
            LexKind::Trivia => None,
            LexKind::LParen => Some(TokenKind::LParen),
            LexKind::RParen => Some(TokenKind::RParen),
            LexKind::String => Some(TokenKind::String(token_string(text, pos, len))),
            LexKind::Id => Some(TokenKind::Id(token_id(text, pos, len))),
            LexKind::Keyword => Some(TokenKind::Keyword(token_keyword(text, pos, len))),
            LexKind::Annotation => Some(TokenKind::Annotation(token_annotation(text, pos, len))),
            LexKind::Reserved => Some(TokenKind::Reserved),
            LexKind::Integer => Some(TokenKind::Integer),
            LexKind::Float => Some(TokenKind::Float),
        };
        proof {
            let rest = lex_from(text@, next as int, end as int);
            match token_of(text@, pos, kind) {
                Some(t) => {
                    assert(tokens@ + (seq![t] + rest.0) =~= tokens@.push(t) + rest.0);
                },
                None => {},
            }
        }
        match token_kind {
            Some(k) => {
                tokens.push(Token { kind: k, offset: pos });
            },
            None => {},
        }
        pos = next;
    }
}

} // verus!
