//! Scanning the `@sym` and `@reloc` annotations out of the token stream of a
//! text module.

use vstd::prelude::*;

use crate::error::{Error, ErrorKind, Keyword};
use crate::reloc::{is_relocatable_keyword, spec_is_relocatable_keyword};
use crate::text::str_eq;
use crate::token::{lemma_peek, spec_cur_span, spec_peek, Known, TokenKind, TokenStream};
use crate::types::SymbolAnnotation;

verus! {

/// The string `std::str::from_utf8` makes of `bytes`, where they are UTF-8.
pub uninterp spec fn utf8_decoded(bytes: Seq<u8>) -> Option<String>;

/// `std::str::from_utf8`, owned: the text of `bytes` exactly where they are
/// valid UTF-8, its characters those the bytes encode.
#[verifier::external_body]
fn utf8_string(bytes: &[u8]) -> (s: Option<String>)
    ensures
        s == utf8_decoded(bytes@),
        s is Some <==> vstd::utf8::valid_utf8(bytes@),
        s matches Some(t) ==> t@ == vstd::utf8::decode_utf8(bytes@),
{
    std::str::from_utf8(bytes).ok().map(|s| s.to_owned())
}

pub open spec fn kind_at(s: TokenStream, i: int) -> TokenKind {
    s.tokens@[i].kind
}

pub open spec fn err_at(offset: usize, kind: ErrorKind) -> Error {
    Error { offset, kind }
}

/// A `(` at the cursor: the position past it.
pub open spec fn spec_lparen(s: TokenStream, pos: int, k: Known) -> Result<Option<int>, Error> {
    match spec_peek(s, pos, k) {
        Err(e) => Err(e),
        Ok(None) => Ok(None),
        Ok(Some(i)) => if kind_at(s, i) is LParen {
            Ok(Some(i + 1))
        } else {
            Ok(None)
        },
    }
}

/// A `)` at the cursor: the position past it.
pub open spec fn spec_rparen(s: TokenStream, pos: int, k: Known) -> Result<Option<int>, Error> {
    match spec_peek(s, pos, k) {
        Err(e) => Err(e),
        Ok(None) => Ok(None),
        Ok(Some(i)) => if kind_at(s, i) is RParen {
            Ok(Some(i + 1))
        } else {
            Ok(None)
        },
    }
}

/// A keyword at the cursor: the keyword and the position past it.
pub open spec fn spec_keyword(s: TokenStream, pos: int, k: Known) -> Result<Option<(String, int)>, Error> {
    match spec_peek(s, pos, k) {
        Err(e) => Err(e),
        Ok(None) => Ok(None),
        Ok(Some(i)) => match kind_at(s, i) {
            TokenKind::Keyword(w) => Ok(Some((w, i + 1))),
            _ => Ok(None),
        },
    }
}

/// An identifier at the cursor: its name and the position past it; an error
/// where its name is not valid.
pub open spec fn spec_id(s: TokenStream, pos: int, k: Known) -> Result<Option<(String, int)>, Error> {
    match spec_peek(s, pos, k) {
        Err(e) => Err(e),
        Ok(None) => Ok(None),
        Ok(Some(i)) => match kind_at(s, i) {
            TokenKind::Id(Ok(name)) => Ok(Some((name, i + 1))),
            TokenKind::Id(Err(msg)) => Err(err_at(s.tokens@[i].offset, ErrorKind::Text(msg))),
            _ => Ok(None),
        },
    }
}

/// An annotation token at the cursor: its name and the position past it.
pub open spec fn spec_annotation(s: TokenStream, pos: int, k: Known) -> Result<Option<(String, int)>, Error> {
    match spec_peek(s, pos, k) {
        Err(e) => Err(e),
        Ok(None) => Ok(None),
        Ok(Some(i)) => match kind_at(s, i) {
            TokenKind::Annotation(Ok(name)) => Ok(Some((name, i + 1))),
            TokenKind::Annotation(Err(msg)) => Err(err_at(s.tokens@[i].offset, ErrorKind::Text(msg))),
            _ => Ok(None),
        },
    }
}

/// A string at the cursor: its bytes and the position past it.
pub open spec fn spec_string(s: TokenStream, pos: int, k: Known) -> Result<Option<(Seq<u8>, int)>, Error> {
    match spec_peek(s, pos, k) {
        Err(e) => Err(e),
        Ok(None) => Ok(None),
        Ok(Some(i)) => match kind_at(s, i) {
            TokenKind::String(bytes) => Ok(Some((bytes@, i + 1))),
            _ => Ok(None),
        },
    }
}

/// The position past the keyword `kw` at the cursor.
pub open spec fn spec_expect_keyword(s: TokenStream, pos: int, k: Known, kw: Keyword) -> Result<int, Error> {
    match spec_keyword(s, pos, k) {
        Err(e) => Err(e),
        Ok(Some((w, next))) => if w@ == kw.spec_text() {
            Ok(next)
        } else {
            Err(err_at(spec_cur_span(s, pos, k), ErrorKind::ExpectedKeyword(kw)))
        },
        Ok(None) => Err(err_at(spec_cur_span(s, pos, k), ErrorKind::ExpectedKeyword(kw))),
    }
}

pub open spec fn spec_expect_lparen(s: TokenStream, pos: int, k: Known) -> Result<int, Error> {
    match spec_lparen(s, pos, k) {
        Err(e) => Err(e),
        Ok(Some(next)) => Ok(next),
        Ok(None) => Err(err_at(spec_cur_span(s, pos, k), ErrorKind::ExpectedLParen)),
    }
}

pub open spec fn spec_expect_rparen(s: TokenStream, pos: int, k: Known) -> Result<int, Error> {
    match spec_rparen(s, pos, k) {
        Err(e) => Err(e),
        Ok(Some(next)) => Ok(next),
        Ok(None) => Err(err_at(spec_cur_span(s, pos, k), ErrorKind::ExpectedRParen)),
    }
}

pub open spec fn spec_expect_string(s: TokenStream, pos: int, k: Known) -> Result<(Seq<u8>, int), Error> {
    match spec_string(s, pos, k) {
        Err(e) => Err(e),
        Ok(Some(r)) => Ok(r),
        Ok(None) => Err(err_at(spec_cur_span(s, pos, k), ErrorKind::ExpectedString)),
    }
}

/// A string holding UTF-8 at the cursor: its text and the position past it.
pub open spec fn spec_expect_utf8_string(s: TokenStream, pos: int, k: Known) -> Result<(String, int), Error> {
    match spec_expect_string(s, pos, k) {
        Err(e) => Err(e),
        Ok((bytes, next)) => match utf8_decoded(bytes) {
            Some(text) => Ok((text, next)),
            None => Err(err_at(spec_cur_span(s, next, k), ErrorKind::ExpectedUtf8String)),
        },
    }
}

/// The cursor advances past every primitive it consumes.
pub proof fn lemma_primitives_advance(s: TokenStream, pos: int, k: Known)
    requires
        0 <= pos,
    ensures
        spec_lparen(s, pos, k) matches Ok(Some(n)) ==> pos < n <= s.tokens@.len(),
        spec_rparen(s, pos, k) matches Ok(Some(n)) ==> pos < n <= s.tokens@.len(),
        spec_keyword(s, pos, k) matches Ok(Some((_, n))) ==> pos < n <= s.tokens@.len(),
        spec_id(s, pos, k) matches Ok(Some((_, n))) ==> pos < n <= s.tokens@.len(),
        spec_annotation(s, pos, k) matches Ok(Some((_, n))) ==> pos < n <= s.tokens@.len(),
        spec_string(s, pos, k) matches Ok(Some((_, n))) ==> pos < n <= s.tokens@.len(),
        spec_expect_lparen(s, pos, k) matches Ok(n) ==> pos < n <= s.tokens@.len(),
        spec_expect_rparen(s, pos, k) matches Ok(n) ==> pos < n <= s.tokens@.len(),
        forall|kw: Keyword| #[trigger] spec_expect_keyword(s, pos, k, kw) matches Ok(n) ==> pos < n
            <= s.tokens@.len(),
        spec_expect_string(s, pos, k) matches Ok((_, n)) ==> pos < n <= s.tokens@.len(),
        spec_expect_utf8_string(s, pos, k) matches Ok((_, n)) ==> pos < n <= s.tokens@.len(),
{
    lemma_peek(s, pos, k);
}

impl TokenStream {
    pub fn lparen(&self, pos: usize, k: Known) -> (res: Result<Option<usize>, Error>)
        requires
            self.well_formed(),
        ensures
            match spec_lparen(*self, pos as int, k) {
                Ok(Some(n)) => res == Ok::<Option<usize>, Error>(Some(n as usize)),
                Ok(None) => res == Ok::<Option<usize>, Error>(None),
                Err(e) => res == Err::<Option<usize>, Error>(e),
            },
            res matches Ok(Some(n)) ==> pos < n <= self.tokens.len(),
    {
        proof {
            lemma_peek(*self, pos as int, k);
        }
        match self.peek(pos, k) {
            Err(e) => Err(e),
            Ok(None) => Ok(None),
            Ok(Some(i)) => if matches!(self.tokens[i].kind, TokenKind::LParen) {
                Ok(Some(i + 1))
            } else {
                Ok(None)
            },
        }
    }

    pub fn rparen(&self, pos: usize, k: Known) -> (res: Result<Option<usize>, Error>)
        requires
            self.well_formed(),
        ensures
            match spec_rparen(*self, pos as int, k) {
                Ok(Some(n)) => res == Ok::<Option<usize>, Error>(Some(n as usize)),
                Ok(None) => res == Ok::<Option<usize>, Error>(None),
                Err(e) => res == Err::<Option<usize>, Error>(e),
            },
            res matches Ok(Some(n)) ==> pos < n <= self.tokens.len(),
    {
        proof {
            lemma_peek(*self, pos as int, k);
        }
        match self.peek(pos, k) {
            Err(e) => Err(e),
            Ok(None) => Ok(None),
            Ok(Some(i)) => if matches!(self.tokens[i].kind, TokenKind::RParen) {
                Ok(Some(i + 1))
            } else {
                Ok(None)
            },
        }
    }

    /// The keyword at the cursor, if any: its token's position.
    pub fn keyword(&self, pos: usize, k: Known) -> (res: Result<Option<usize>, Error>)
        requires
            self.well_formed(),
        ensures
            match spec_keyword(*self, pos as int, k) {
                Ok(Some((w, n))) => res matches Ok(Some(i)) && i + 1 == n && kind_at(*self, i as int)
                    == TokenKind::Keyword(w),
                Ok(None) => res == Ok::<Option<usize>, Error>(None),
                Err(e) => res == Err::<Option<usize>, Error>(e),
            },
            res matches Ok(Some(i)) ==> pos <= i < self.tokens.len(),
    {
        proof {
            lemma_peek(*self, pos as int, k);
        }
        match self.peek(pos, k) {
            Err(e) => Err(e),
            Ok(None) => Ok(None),
            Ok(Some(i)) => if matches!(self.tokens[i].kind, TokenKind::Keyword(_)) {
                Ok(Some(i))
            } else {
                Ok(None)
            },
        }
    }

    /// The identifier at the cursor, if any: the position past it.
    pub fn id(&self, pos: usize, k: Known) -> (res: Result<Option<usize>, Error>)
        requires
            self.well_formed(),
        ensures
            match spec_id(*self, pos as int, k) {
                Ok(Some((_, n))) => res == Ok::<Option<usize>, Error>(Some(n as usize)),
                Ok(None) => res == Ok::<Option<usize>, Error>(None),
                Err(e) => res == Err::<Option<usize>, Error>(e),
            },
            res matches Ok(Some(n)) ==> pos < n <= self.tokens.len(),
    {
        proof {
            lemma_peek(*self, pos as int, k);
        }
        match self.peek(pos, k) {
            Err(e) => Err(e),
            Ok(None) => Ok(None),
            Ok(Some(i)) => match &self.tokens[i].kind {
                TokenKind::Id(Ok(_)) => Ok(Some(i + 1)),
                TokenKind::Id(Err(msg)) => Err(Error::new(self.tokens[i].offset, ErrorKind::Text(msg.clone()))),
                _ => Ok(None),
            },
        }
    }

    /// The annotation token at the cursor, if any: its position.
    pub fn annotation(&self, pos: usize, k: Known) -> (res: Result<Option<usize>, Error>)
        requires
            self.well_formed(),
        ensures
            match spec_annotation(*self, pos as int, k) {
                Ok(Some((a, n))) => res matches Ok(Some(i)) && i + 1 == n && kind_at(*self, i as int)
                    == TokenKind::Annotation(Ok::<String, String>(a)),
                Ok(None) => res == Ok::<Option<usize>, Error>(None),
                Err(e) => res == Err::<Option<usize>, Error>(e),
            },
            res matches Ok(Some(i)) ==> pos <= i < self.tokens.len(),
    {
        proof {
            lemma_peek(*self, pos as int, k);
        }
        match self.peek(pos, k) {
            Err(e) => Err(e),
            Ok(None) => Ok(None),
            Ok(Some(i)) => match &self.tokens[i].kind {
                TokenKind::Annotation(Ok(_)) => Ok(Some(i)),
                TokenKind::Annotation(Err(msg)) => Err(Error::new(self.tokens[i].offset, ErrorKind::Text(msg.clone()))),
                _ => Ok(None),
            },
        }
    }

    /// The string at the cursor, if any: its position.
    pub fn string(&self, pos: usize, k: Known) -> (res: Result<Option<usize>, Error>)
        requires
            self.well_formed(),
        ensures
            match spec_string(*self, pos as int, k) {
                Ok(Some((b, n))) => res matches Ok(Some(i)) && i + 1 == n && kind_at(*self, i as int) is String
                    && kind_at(*self, i as int)->String_0@ == b,
                Ok(None) => res == Ok::<Option<usize>, Error>(None),
                Err(e) => res == Err::<Option<usize>, Error>(e),
            },
            res matches Ok(Some(i)) ==> pos <= i < self.tokens.len(),
    {
        proof {
            lemma_peek(*self, pos as int, k);
        }
        match self.peek(pos, k) {
            Err(e) => Err(e),
            Ok(None) => Ok(None),
            Ok(Some(i)) => if matches!(self.tokens[i].kind, TokenKind::String(_)) {
                Ok(Some(i))
            } else {
                Ok(None)
            },
        }
    }

    pub fn expect_keyword(&self, pos: usize, k: Known, kw: Keyword) -> (res: Result<usize, Error>)
        requires
            self.well_formed(),
        ensures
            match spec_expect_keyword(*self, pos as int, k, kw) {
                Ok(n) => res == Ok::<usize, Error>(n as usize),
                Err(e) => res == Err::<usize, Error>(e),
            },
            res matches Ok(n) ==> pos < n <= self.tokens.len(),
    {
        match self.keyword(pos, k) {
            Err(e) => Err(e),
            Ok(Some(i)) => match &self.tokens[i].kind {
                TokenKind::Keyword(w) => {
                    if str_eq(w.as_str(), kw.text()) {
                        Ok(i + 1)
                    } else {
                        Err(Error::new(self.cur_span(pos, k), ErrorKind::ExpectedKeyword(kw)))
                    }
                },
                _ => Err(Error::new(self.cur_span(pos, k), ErrorKind::ExpectedKeyword(kw))),
            },
            Ok(None) => Err(Error::new(self.cur_span(pos, k), ErrorKind::ExpectedKeyword(kw))),
        }
    }

    pub fn expect_lparen(&self, pos: usize, k: Known) -> (res: Result<usize, Error>)
        requires
            self.well_formed(),
        ensures
            match spec_expect_lparen(*self, pos as int, k) {
                Ok(n) => res == Ok::<usize, Error>(n as usize),
                Err(e) => res == Err::<usize, Error>(e),
            },
            res matches Ok(n) ==> pos < n <= self.tokens.len(),
    {
        match self.lparen(pos, k) {
            Err(e) => Err(e),
            Ok(Some(n)) => Ok(n),
            Ok(None) => Err(Error::new(self.cur_span(pos, k), ErrorKind::ExpectedLParen)),
        }
    }

    pub fn expect_rparen(&self, pos: usize, k: Known) -> (res: Result<usize, Error>)
        requires
            self.well_formed(),
        ensures
            match spec_expect_rparen(*self, pos as int, k) {
                Ok(n) => res == Ok::<usize, Error>(n as usize),
                Err(e) => res == Err::<usize, Error>(e),
            },
            res matches Ok(n) ==> pos < n <= self.tokens.len(),
    {
        match self.rparen(pos, k) {
            Err(e) => Err(e),
            Ok(Some(n)) => Ok(n),
            Ok(None) => Err(Error::new(self.cur_span(pos, k), ErrorKind::ExpectedRParen)),
        }
    }

    /// The string at the cursor: its token's position.
    pub fn expect_string(&self, pos: usize, k: Known) -> (res: Result<usize, Error>)
        requires
            self.well_formed(),
        ensures
            match spec_expect_string(*self, pos as int, k) {
                Ok((b, n)) => res matches Ok(i) && i + 1 == n && kind_at(*self, i as int) is String
                    && kind_at(*self, i as int)->String_0@ == b,
                Err(e) => res == Err::<usize, Error>(e),
            },
            res matches Ok(i) ==> pos <= i < self.tokens.len(),
    {
        match self.string(pos, k) {
            Err(e) => Err(e),
            Ok(Some(i)) => Ok(i),
            Ok(None) => Err(Error::new(self.cur_span(pos, k), ErrorKind::ExpectedString)),
        }
    }

    pub fn expect_utf8_string(&self, pos: usize, k: Known) -> (res: Result<(String, usize), Error>)
        requires
            self.well_formed(),
        ensures
            match spec_expect_utf8_string(*self, pos as int, k) {
                Ok((text, n)) => res == Ok::<(String, usize), Error>((text, n as usize)),
                Err(e) => res == Err::<(String, usize), Error>(e),
            },
            res matches Ok((_, n)) ==> pos < n <= self.tokens.len(),
    {
        let i = match self.expect_string(pos, k) {
            Err(e) => return Err(e),
            Ok(i) => i,
        };
        let next = i + 1;
        match &self.tokens[i].kind {
            TokenKind::String(bytes) => match utf8_string(bytes.as_slice()) {
                Some(text) => Ok((text, next)),
                None => Err(Error::new(self.cur_span(next, k), ErrorKind::ExpectedUtf8String)),
            },
            _ => Err(Error::new(0, ErrorKind::Inconsistent)),
        }
    }
}


/// Skipping to the `)` that closes the group the cursor is in, `depth`
/// groups deep: nested groups are skipped whole; an identifier or annotation
/// token whose name is not valid stops it, and so does the end of the tokens.
pub open spec fn skip_rec(s: TokenStream, pos: int, k: Known, depth: nat) -> Result<int, Error>
    decreases s.tokens@.len() - pos,
{
    if pos < 0 {
        Err(err_at(0, ErrorKind::UnexpectedToken))
    } else {
        match spec_peek(s, pos, k) {
            Err(e) => Err(e),
            Ok(None) => Err(err_at(s.end, ErrorKind::UnexpectedToken)),
            Ok(Some(i)) => {
                proof {
                    lemma_peek(s, pos, k);
                }
                match kind_at(s, i) {
                    TokenKind::RParen => if depth == 0 {
                        Ok(i + 1)
                    } else {
                        skip_rec(s, i + 1, k, (depth - 1) as nat)
                    },
                    TokenKind::LParen => skip_rec(s, i + 1, k, depth + 1),
                    TokenKind::Id(Err(msg)) => Err(err_at(s.tokens@[i].offset, ErrorKind::Text(msg))),
                    TokenKind::Annotation(Err(msg)) => Err(
                        err_at(s.tokens@[i].offset, ErrorKind::Text(msg)),
                    ),
                    _ => skip_rec(s, i + 1, k, depth),
                }
            },
        }
    }
}

/// The position past the `)` that closes the group the cursor is in.
pub open spec fn spec_skip_until_rparen(s: TokenStream, pos: int, k: Known) -> Result<int, Error> {
    skip_rec(s, pos, k, 0)
}

pub proof fn lemma_skip_rec(s: TokenStream, pos: int, k: Known, depth: nat)
    ensures
        skip_rec(s, pos, k, depth) matches Ok(n) ==> pos < n <= s.tokens@.len(),
    decreases s.tokens@.len() - pos,
{
    if pos >= 0 {
        lemma_peek(s, pos, k);
        if let Ok(Some(i)) = spec_peek(s, pos, k) {
            match kind_at(s, i) {
                TokenKind::RParen => if depth > 0 {
                    lemma_skip_rec(s, i + 1, k, (depth - 1) as nat);
                },
                TokenKind::LParen => lemma_skip_rec(s, i + 1, k, depth + 1),
                TokenKind::Id(Err(_)) => {},
                TokenKind::Annotation(Err(_)) => {},
                _ => lemma_skip_rec(s, i + 1, k, depth),
            }
        }
    }
}

pub proof fn lemma_skip_until_rparen(s: TokenStream, pos: int, k: Known)
    ensures
        spec_skip_until_rparen(s, pos, k) matches Ok(n) ==> pos < n <= s.tokens@.len(),
{
    lemma_skip_rec(s, pos, k, 0);
}

/// Consumes one identifier, annotation token, reserved word, number or string
/// at the cursor: the position past it; `Ok(None)` for any other token.
pub open spec fn spec_advance_cursor(s: TokenStream, pos: int, k: Known) -> Result<Option<int>, Error> {
    match spec_peek(s, pos, k) {
        Err(e) => Err(e),
        Ok(None) => Ok(None),
        Ok(Some(i)) => match kind_at(s, i) {
            TokenKind::Id(Err(msg)) => Err(err_at(s.tokens@[i].offset, ErrorKind::Text(msg))),
            TokenKind::Annotation(Err(msg)) => Err(err_at(s.tokens@[i].offset, ErrorKind::Text(msg))),
            TokenKind::LParen | TokenKind::RParen | TokenKind::Keyword(_) => Ok(None),
            _ => Ok(Some(i + 1)),
        },
    }
}

/// The `@sym` annotation at the cursor, if one is there, and the position
/// past it; where none is, `Missing` and the cursor unmoved.
pub open spec fn spec_scan_sym_annotation(s: TokenStream, pos: int, k: Known) -> Result<
    (SymbolAnnotation, int),
    Error,
> {
    match spec_lparen(s, pos, k) {
        Err(e) => Err(e),
        Ok(None) => Ok((SymbolAnnotation::Missing, pos)),
        Ok(Some(c)) => match spec_annotation(s, c, k) {
            Err(e) => Err(e),
            Ok(None) => Ok((SymbolAnnotation::Missing, pos)),
            Ok(Some((name, c2))) => if name@ != "sym"@ {
                Ok((SymbolAnnotation::Missing, pos))
            } else {
                match spec_rparen(s, c2, k) {
                    Err(e) => Err(e),
                    Ok(Some(c3)) => Ok((SymbolAnnotation::Inferred, c3)),
                    Ok(None) => match spec_expect_lparen(s, c2, k) {
                        Err(e) => Err(e),
                        Ok(c3) => match spec_expect_keyword(s, c3, k, Keyword::Name) {
                            Err(e) => Err(e),
                            Ok(c4) => match spec_expect_utf8_string(s, c4, k) {
                                Err(e) => Err(e),
                                Ok((text, c5)) => match spec_expect_rparen(s, c5, k) {
                                    Err(e) => Err(e),
                                    Ok(c6) => match spec_expect_rparen(s, c6, k) {
                                        Err(e) => Err(e),
                                        Ok(c7) => Ok((SymbolAnnotation::Explicit(text), c7)),
                                    },
                                },
                            },
                        },
                    },
                }
            },
        },
    }
}

/// `kw`, an optional identifier, and an optional `@sym` annotation.
pub open spec fn spec_scan_item_sym(s: TokenStream, pos: int, k: Known, kw: Keyword) -> Result<
    (SymbolAnnotation, int),
    Error,
> {
    match spec_expect_keyword(s, pos, k, kw) {
        Err(e) => Err(e),
        Ok(c) => match spec_id(s, c, k) {
            Err(e) => Err(e),
            Ok(Some((_, c2))) => spec_scan_sym_annotation(s, c2, k),
            Ok(None) => spec_scan_sym_annotation(s, c, k),
        },
    }
}

/// After the kind of an imported item: for a function, an optional
/// identifier and the `@sym` annotation.
pub open spec fn spec_scan_sig_sym(s: TokenStream, pos: int, k: Known, is_func: bool) -> Result<
    (SymbolAnnotation, int),
    Error,
> {
    if is_func {
        match spec_id(s, pos, k) {
            Err(e) => Err(e),
            Ok(Some((_, c))) => spec_scan_sym_annotation(s, c, k),
            Ok(None) => spec_scan_sym_annotation(s, pos, k),
        }
    } else {
        Ok((SymbolAnnotation::Missing, pos))
    }
}

/// The type of an imported item, `(kind ...)`: for a function or a tag, its
/// `@sym` annotation; the position past the closing `)`.
pub open spec fn spec_scan_item_sig(s: TokenStream, pos: int, k: Known) -> Result<
    (SymbolAnnotation, int),
    Error,
> {
    match spec_expect_lparen(s, pos, k) {
        Err(e) => Err(e),
        Ok(c) => match spec_keyword(s, c, k) {
            Err(e) => Err(e),
            Ok(None) => Err(err_at(spec_cur_span(s, c, k), ErrorKind::ExpectedImportType)),
            Ok(Some((kind, c2))) => {
                match spec_scan_sig_sym(s, c2, k, kind@ == "func"@ || kind@ == "tag"@) {
                    Err(e) => Err(e),
                    Ok((sym, c3)) => match spec_skip_until_rparen(s, c3, k) {
                        Err(e) => Err(e),
                        Ok(c4) => Ok((sym, c4)),
                    },
                }
            },
        },
    }
}

pub proof fn lemma_scan_sym_annotation(s: TokenStream, pos: int, k: Known)
    requires
        0 <= pos <= s.tokens@.len(),
    ensures
        spec_scan_sym_annotation(s, pos, k) matches Ok((_, n)) ==> pos <= n <= s.tokens@.len(),
{
    lemma_primitives_advance(s, pos, k);
    if let Ok(Some(c)) = spec_lparen(s, pos, k) {
        lemma_primitives_advance(s, c, k);
        if let Ok(Some((_, c2))) = spec_annotation(s, c, k) {
            lemma_primitives_advance(s, c2, k);
            if let Ok(c3) = spec_expect_lparen(s, c2, k) {
                lemma_primitives_advance(s, c3, k);
                if let Ok(c4) = spec_expect_keyword(s, c3, k, Keyword::Name) {
                    lemma_primitives_advance(s, c4, k);
                    if let Ok((_, c5)) = spec_expect_utf8_string(s, c4, k) {
                        lemma_primitives_advance(s, c5, k);
                        if let Ok(c6) = spec_expect_rparen(s, c5, k) {
                            lemma_primitives_advance(s, c6, k);
                        }
                    }
                }
            }
        }
    }
}

pub proof fn lemma_scan_item_sym(s: TokenStream, pos: int, k: Known, kw: Keyword)
    requires
        0 <= pos <= s.tokens@.len(),
    ensures
        spec_scan_item_sym(s, pos, k, kw) matches Ok((_, n)) ==> pos < n <= s.tokens@.len(),
{
    lemma_primitives_advance(s, pos, k);
    if let Ok(c) = spec_expect_keyword(s, pos, k, kw) {
        lemma_primitives_advance(s, c, k);
        lemma_scan_sym_annotation(s, c, k);
        if let Ok(Some((_, c2))) = spec_id(s, c, k) {
            lemma_scan_sym_annotation(s, c2, k);
        }
    }
}

pub proof fn lemma_scan_item_sig(s: TokenStream, pos: int, k: Known)
    requires
        0 <= pos <= s.tokens@.len(),
    ensures
        spec_scan_item_sig(s, pos, k) matches Ok((_, n)) ==> pos < n <= s.tokens@.len(),
{
    lemma_primitives_advance(s, pos, k);
    if let Ok(c) = spec_expect_lparen(s, pos, k) {
        lemma_primitives_advance(s, c, k);
        if let Ok(Some((kind, c2))) = spec_keyword(s, c, k) {
            lemma_primitives_advance(s, c2, k);
            lemma_scan_sym_annotation(s, c2, k);
            if let Ok(Some((_, c3))) = spec_id(s, c2, k) {
                lemma_scan_sym_annotation(s, c3, k);
            }
            if let Ok((_, c3)) = spec_scan_sig_sym(s, c2, k, kind@ == "func"@ || kind@ == "tag"@) {
                lemma_skip_rec(s, c3, k, 0);
            }
        }
    }
}

impl TokenStream {
    /// The position past the `)` that closes the group the cursor is in.
    pub fn skip_until_rparen(&self, pos: usize, k: Known) -> (res: Result<usize, Error>)
        requires
            self.well_formed(),
        ensures
            match spec_skip_until_rparen(*self, pos as int, k) {
                Ok(n) => res == Ok::<usize, Error>(n as usize),
                Err(e) => res == Err::<usize, Error>(e),
            },
            res matches Ok(n) ==> pos < n <= self.tokens.len(),
    {
        proof {
            lemma_skip_rec(*self, pos as int, k, 0);
        }
        let mut p = pos;
        let mut depth: usize = 0;
        loop
            invariant
                self.well_formed(),
                pos <= p,
                depth <= p - pos,
                spec_skip_until_rparen(*self, pos as int, k) == skip_rec(*self, p as int, k, depth as nat),
            decreases self.tokens.len() - p,
        {
            proof {
                lemma_peek(*self, p as int, k);
                lemma_skip_rec(*self, p as int, k, depth as nat);
            }
            let i = match self.peek(p, k) {
                Err(e) => return Err(e),
                Ok(None) => return Err(Error::new(self.end, ErrorKind::UnexpectedToken)),
                Ok(Some(i)) => i,
            };
            match &self.tokens[i].kind {
                TokenKind::RParen => {
                    if depth == 0 {
                        return Ok(i + 1);
                    }
                    depth = depth - 1;
                },
                TokenKind::LParen => {
                    depth = depth + 1;
                },
                TokenKind::Id(Err(msg)) => {
                    return Err(Error::new(self.tokens[i].offset, ErrorKind::Text(msg.clone())));
                },
                TokenKind::Annotation(Err(msg)) => {
                    return Err(Error::new(self.tokens[i].offset, ErrorKind::Text(msg.clone())));
                },
                _ => {},
            }
            p = i + 1;
        }
    }

    /// Consumes one identifier, annotation token, reserved word, number or
    /// string at the cursor.
    pub fn advance_cursor(&self, pos: usize, k: Known) -> (res: Result<Option<usize>, Error>)
        requires
            self.well_formed(),
        ensures
            match spec_advance_cursor(*self, pos as int, k) {
                Ok(Some(n)) => res == Ok::<Option<usize>, Error>(Some(n as usize)),
                Ok(None) => res == Ok::<Option<usize>, Error>(None),
                Err(e) => res == Err::<Option<usize>, Error>(e),
            },
            res matches Ok(Some(n)) ==> pos < n <= self.tokens.len(),
    {
        proof {
            lemma_peek(*self, pos as int, k);
        }
        match self.peek(pos, k) {
            Err(e) => Err(e),
            Ok(None) => Ok(None),
            Ok(Some(i)) => match &self.tokens[i].kind {
                TokenKind::Id(Err(msg)) => Err(Error::new(self.tokens[i].offset, ErrorKind::Text(msg.clone()))),
                TokenKind::Annotation(Err(msg)) => Err(
                    Error::new(self.tokens[i].offset, ErrorKind::Text(msg.clone())),
                ),
                TokenKind::LParen | TokenKind::RParen | TokenKind::Keyword(_) => Ok(None),
                _ => Ok(Some(i + 1)),
            },
        }
    }

    /// The `@sym` annotation at the cursor, if one is there.
    pub fn scan_sym_annotation(&self, pos: usize, k: Known) -> (res: Result<(SymbolAnnotation, usize), Error>)
        requires
            self.well_formed(),
            pos <= self.tokens.len(),
        ensures
            match spec_scan_sym_annotation(*self, pos as int, k) {
                Ok((sym, n)) => res == Ok::<(SymbolAnnotation, usize), Error>((sym, n as usize)),
                Err(e) => res == Err::<(SymbolAnnotation, usize), Error>(e),
            },
            res matches Ok((_, n)) ==> pos <= n <= self.tokens.len(),
    {
        proof {
            lemma_scan_sym_annotation(*self, pos as int, k);
            lemma_primitives_advance(*self, pos as int, k);
        }
        let start = pos;
        let c = match self.lparen(pos, k) {
            Err(e) => return Err(e),
            Ok(None) => return Ok((SymbolAnnotation::Missing, pos)),
            Ok(Some(c)) => c,
        };
        proof {
            lemma_primitives_advance(*self, c as int, k);
        }
        let i = match self.annotation(c, k) {
            Err(e) => return Err(e),
            Ok(None) => return Ok((SymbolAnnotation::Missing, start)),
            Ok(Some(i)) => i,
        };
        let is_sym = match &self.tokens[i].kind {
            TokenKind::Annotation(Ok(name)) => str_eq(name.as_str(), "sym"),
            _ => false,
        };
        if !is_sym {
            return Ok((SymbolAnnotation::Missing, start));
        }
        let c2 = i + 1;
        proof {
            lemma_primitives_advance(*self, c2 as int, k);
        }
        match self.rparen(c2, k) {
            Err(e) => return Err(e),
            Ok(Some(c3)) => return Ok((SymbolAnnotation::Inferred, c3)),
            Ok(None) => {},
        }
        let c3 = match self.expect_lparen(c2, k) {
            Err(e) => return Err(e),
            Ok(c3) => c3,
        };
        proof {
            lemma_primitives_advance(*self, c3 as int, k);
        }
        let c4 = match self.expect_keyword(c3, k, Keyword::Name) {
            Err(e) => return Err(e),
            Ok(c4) => c4,
        };
        proof {
            lemma_primitives_advance(*self, c4 as int, k);
        }
        let (text, c5) = match self.expect_utf8_string(c4, k) {
            Err(e) => return Err(e),
            Ok(r) => r,
        };
        proof {
            lemma_primitives_advance(*self, c5 as int, k);
        }
        let c6 = match self.expect_rparen(c5, k) {
            Err(e) => return Err(e),
            Ok(c6) => c6,
        };
        proof {
            lemma_primitives_advance(*self, c6 as int, k);
        }
        let c7 = match self.expect_rparen(c6, k) {
            Err(e) => return Err(e),
            Ok(c7) => c7,
        };
        Ok((SymbolAnnotation::Explicit(text), c7))
    }

    fn scan_item_sym(&self, pos: usize, k: Known, kw: Keyword) -> (res: Result<(SymbolAnnotation, usize), Error>)
        requires
            self.well_formed(),
            pos <= self.tokens.len(),
        ensures
            match spec_scan_item_sym(*self, pos as int, k, kw) {
                Ok((sym, n)) => res == Ok::<(SymbolAnnotation, usize), Error>((sym, n as usize)),
                Err(e) => res == Err::<(SymbolAnnotation, usize), Error>(e),
            },
            res matches Ok((_, n)) ==> pos < n <= self.tokens.len(),
    {
        proof {
            lemma_scan_item_sym(*self, pos as int, k, kw);
            lemma_primitives_advance(*self, pos as int, k);
        }
        let c = match self.expect_keyword(pos, k, kw) {
            Err(e) => return Err(e),
            Ok(c) => c,
        };
        proof {
            lemma_primitives_advance(*self, c as int, k);
        }
        match self.id(c, k) {
            Err(e) => Err(e),
            Ok(Some(c2)) => self.scan_sym_annotation(c2, k),
            Ok(None) => self.scan_sym_annotation(c, k),
        }
    }

    /// `func`, an optional identifier, and the `@sym` annotation, if any.
    pub fn scan_func_sym(&self, pos: usize, k: Known) -> (res: Result<(SymbolAnnotation, usize), Error>)
        requires
            self.well_formed(),
            pos <= self.tokens.len(),
        ensures
            match spec_scan_item_sym(*self, pos as int, k, Keyword::Func) {
                Ok((sym, n)) => res == Ok::<(SymbolAnnotation, usize), Error>((sym, n as usize)),
                Err(e) => res == Err::<(SymbolAnnotation, usize), Error>(e),
            },
            res matches Ok((_, n)) ==> pos < n <= self.tokens.len(),
    {
        self.scan_item_sym(pos, k, Keyword::Func)
    }

    /// `table`, an optional identifier, and the `@sym` annotation, if any.
    pub fn scan_table_sym(&self, pos: usize, k: Known) -> (res: Result<(SymbolAnnotation, usize), Error>)
        requires
            self.well_formed(),
            pos <= self.tokens.len(),
        ensures
            match spec_scan_item_sym(*self, pos as int, k, Keyword::Table) {
                Ok((sym, n)) => res == Ok::<(SymbolAnnotation, usize), Error>((sym, n as usize)),
                Err(e) => res == Err::<(SymbolAnnotation, usize), Error>(e),
            },
            res matches Ok((_, n)) ==> pos < n <= self.tokens.len(),
    {
        self.scan_item_sym(pos, k, Keyword::Table)
    }

    /// `tag`, an optional identifier, and the `@sym` annotation, if any.
    pub fn scan_tag_sym(&self, pos: usize, k: Known) -> (res: Result<(SymbolAnnotation, usize), Error>)
        requires
            self.well_formed(),
            pos <= self.tokens.len(),
        ensures
            match spec_scan_item_sym(*self, pos as int, k, Keyword::Tag) {
                Ok((sym, n)) => res == Ok::<(SymbolAnnotation, usize), Error>((sym, n as usize)),
                Err(e) => res == Err::<(SymbolAnnotation, usize), Error>(e),
            },
            res matches Ok((_, n)) ==> pos < n <= self.tokens.len(),
    {
        self.scan_item_sym(pos, k, Keyword::Tag)
    }

    fn scan_sig_sym(&self, pos: usize, k: Known, is_func: bool) -> (res: Result<(SymbolAnnotation, usize), Error>)
        requires
            self.well_formed(),
            pos <= self.tokens.len(),
        ensures
            match spec_scan_sig_sym(*self, pos as int, k, is_func) {
                Ok((sym, n)) => res == Ok::<(SymbolAnnotation, usize), Error>((sym, n as usize)),
                Err(e) => res == Err::<(SymbolAnnotation, usize), Error>(e),
            },
            res matches Ok((_, n)) ==> pos <= n <= self.tokens.len(),
            spec_scan_sig_sym(*self, pos as int, k, is_func) matches Ok((_, n)) ==> pos <= n
                <= self.tokens.len(),
    {
        proof {
            lemma_primitives_advance(*self, pos as int, k);
            lemma_scan_sym_annotation(*self, pos as int, k);
            if let Ok(Some((_, c))) = spec_id(*self, pos as int, k) {
                lemma_scan_sym_annotation(*self, c, k);
            }
        }
        if !is_func {
            return Ok((SymbolAnnotation::Missing, pos));
        }
        match self.id(pos, k) {
            Err(e) => Err(e),
            Ok(Some(c)) => self.scan_sym_annotation(c, k),
            Ok(None) => self.scan_sym_annotation(pos, k),
        }
    }

    /// The type of an imported item: for a function, its `@sym` annotation.
    #[verifier::spinoff_prover]
    #[verifier::rlimit(40)]
    pub fn scan_item_sig(&self, pos: usize, k: Known) -> (res: Result<(SymbolAnnotation, usize), Error>)
        requires
            self.well_formed(),
            pos <= self.tokens.len(),
        ensures
            match spec_scan_item_sig(*self, pos as int, k) {
                Ok((sym, n)) => res == Ok::<(SymbolAnnotation, usize), Error>((sym, n as usize)),
                Err(e) => res == Err::<(SymbolAnnotation, usize), Error>(e),
            },
            res matches Ok((_, n)) ==> pos < n <= self.tokens.len(),
    {
        proof {
            lemma_scan_item_sig(*self, pos as int, k);
            lemma_primitives_advance(*self, pos as int, k);
        }
        let c = match self.expect_lparen(pos, k) {
            Err(e) => return Err(e),
            Ok(c) => c,
        };
        proof {
            lemma_primitives_advance(*self, c as int, k);
        }
        let i = match self.keyword(c, k) {
            Err(e) => return Err(e),
            Ok(None) => return Err(Error::new(self.cur_span(c, k), ErrorKind::ExpectedImportType)),
            Ok(Some(i)) => i,
        };
        let c2 = i + 1;
        proof {
            lemma_primitives_advance(*self, c2 as int, k);
        }
        let is_func = match &self.tokens[i].kind {
            TokenKind::Keyword(w) => str_eq(w.as_str(), "func") || str_eq(w.as_str(), "tag"),
            _ => false,
        };
        let (sym, c3) = match self.scan_sig_sym(c2, k, is_func) {
            Err(e) => return Err(e),
            Ok(r) => r,
        };
        proof {
            lemma_skip_rec(*self, c3 as int, k, 0);
        }
        match self.skip_until_rparen(c3, k) {
            Err(e) => Err(e),
            Ok(c4) => Ok((sym, c4)),
        }
    }
}


/// Whether an `(item ...)` group of an import starts at the cursor.
pub open spec fn spec_peek_group_item(s: TokenStream, pos: int, k: Known) -> Result<bool, Error> {
    match spec_lparen(s, pos, k) {
        Err(e) => Err(e),
        Ok(None) => Ok(false),
        Ok(Some(c)) => match spec_keyword(s, c, k) {
            Err(e) => Err(e),
            Ok(None) => Ok(false),
            Ok(Some((w, _))) => Ok(w@ == "item"@),
        },
    }
}

/// One `(item "name" sig?)` group: whether it has a type, the type's `@sym`
/// annotation, and the position past the group.
pub open spec fn spec_scan_group_item(s: TokenStream, pos: int, k: Known) -> Result<
    (bool, SymbolAnnotation, int),
    Error,
> {
    match spec_expect_lparen(s, pos, k) {
        Err(e) => Err(e),
        Ok(c) => match spec_expect_keyword(s, c, k, Keyword::Item) {
            Err(e) => Err(e),
            Ok(c2) => match spec_expect_string(s, c2, k) {
                Err(e) => Err(e),
                Ok((_, c3)) => match spec_rparen(s, c3, k) {
                    Err(e) => Err(e),
                    Ok(Some(c4)) => Ok((false, SymbolAnnotation::Missing, c4)),
                    Ok(None) => match spec_scan_item_sig(s, c3, k) {
                        Err(e) => Err(e),
                        Ok((sym, c4)) => match spec_expect_rparen(s, c4, k) {
                            Err(e) => Err(e),
                            Ok(c5) => Ok((true, sym, c5)),
                        },
                    },
                },
            },
        },
    }
}

pub proof fn lemma_scan_group_item(s: TokenStream, pos: int, k: Known)
    requires
        0 <= pos <= s.tokens@.len(),
    ensures
        spec_scan_group_item(s, pos, k) matches Ok((_, _, n)) ==> pos < n <= s.tokens@.len(),
{
    lemma_primitives_advance(s, pos, k);
    if let Ok(c) = spec_expect_lparen(s, pos, k) {
        lemma_primitives_advance(s, c, k);
        if let Ok(c2) = spec_expect_keyword(s, c, k, Keyword::Item) {
            lemma_primitives_advance(s, c2, k);
            if let Ok((_, c3)) = spec_expect_string(s, c2, k) {
                lemma_primitives_advance(s, c3, k);
                lemma_scan_item_sig(s, c3, k);
                if let Ok((_, c4)) = spec_scan_item_sig(s, c3, k) {
                    lemma_primitives_advance(s, c4, k);
                }
            }
        }
    }
}

/// The `(item ...)` groups of an import from `pos` on, each as (has a type,
/// `@sym` annotation), and the position past the last.
pub open spec fn spec_group_items(s: TokenStream, pos: int, k: Known) -> Result<
    (Seq<(bool, SymbolAnnotation)>, int),
    Error,
>
    decreases s.tokens@.len() - pos,
{
    if pos < 0 || pos > s.tokens@.len() {
        Err(err_at(0, ErrorKind::Inconsistent))
    } else {
        match spec_peek_group_item(s, pos, k) {
            Err(e) => Err(e),
            Ok(false) => Ok((seq![], pos)),
            Ok(true) => match spec_scan_group_item(s, pos, k) {
                Err(e) => Err(e),
                Ok((has_sig, sym, n)) => {
                    proof {
                        lemma_scan_group_item(s, pos, k);
                    }
                    match spec_group_items(s, n, k) {
                        Err(e) => Err(e),
                        Ok((rest, end)) => Ok((seq![(has_sig, sym)] + rest, end)),
                    }
                },
            },
        }
    }
}

pub proof fn lemma_group_items(s: TokenStream, pos: int, k: Known)
    requires
        0 <= pos <= s.tokens@.len(),
    ensures
        spec_group_items(s, pos, k) matches Ok((_, n)) ==> pos <= n <= s.tokens@.len(),
    decreases s.tokens@.len() - pos,
{
    if let Ok(true) = spec_peek_group_item(s, pos, k) {
        lemma_scan_group_item(s, pos, k);
        if let Ok((_, _, n)) = spec_scan_group_item(s, pos, k) {
            lemma_group_items(s, n, k);
        }
    }
}

/// The `@sym` annotations of the items of an `import` field, from its
/// keyword on, and the position past the last item. One module name and an
/// item name give one item; otherwise the `(item ...)` groups give the items,
/// each with its own type, or all of them without one and a type shared
/// after them that may carry no `@sym`.
pub open spec fn spec_scan_import_syms(s: TokenStream, pos: int, k: Known) -> Result<
    (Seq<SymbolAnnotation>, int),
    Error,
> {
    match spec_expect_keyword(s, pos, k, Keyword::Import) {
        Err(e) => Err(e),
        Ok(c) => match spec_expect_string(s, c, k) {
            Err(e) => Err(e),
            Ok((_, c2)) => match spec_string(s, c2, k) {
                Err(e) => Err(e),
                Ok(Some((_, c3))) => match spec_scan_item_sig(s, c3, k) {
                    Err(e) => Err(e),
                    Ok((sym, c4)) => Ok((seq![sym], c4)),
                },
                Ok(None) => match spec_group_items(s, c2, k) {
                    Err(e) => Err(e),
                    Ok((items, c3)) => if items.len() == 0 {
                        Err(err_at(spec_cur_span(s, c3, k), ErrorKind::ExpectedStringOrItems))
                    } else if forall|i: int| 0 <= i < items.len() ==> (#[trigger] items[i]).0 {
                        Ok((items.map_values(|it: (bool, SymbolAnnotation)| it.1), c3))
                    } else if forall|i: int| 0 <= i < items.len() ==> !(#[trigger] items[i]).0 {
                        match spec_scan_item_sig(s, c3, k) {
                            Err(e) => Err(e),
                            Ok((sym, c4)) => if sym.spec_is_present() {
                                Err(err_at(spec_cur_span(s, c4, k), ErrorKind::SymOnGroup2Import))
                            } else {
                                Ok((Seq::new(items.len(), |i: int| SymbolAnnotation::Missing), c4))
                            },
                        }
                    } else {
                        Err(err_at(spec_cur_span(s, c3, k), ErrorKind::UnexpectedRParen))
                    },
                },
            },
        },
    }
}

impl TokenStream {
    fn peek_group_item(&self, pos: usize, k: Known) -> (res: Result<bool, Error>)
        requires
            self.well_formed(),
            pos <= self.tokens.len(),
        ensures
            res == spec_peek_group_item(*self, pos as int, k),
    {
        proof {
            lemma_primitives_advance(*self, pos as int, k);
        }
        let c = match self.lparen(pos, k) {
            Err(e) => return Err(e),
            Ok(None) => return Ok(false),
            Ok(Some(c)) => c,
        };
        proof {
            lemma_primitives_advance(*self, c as int, k);
        }
        let i = match self.keyword(c, k) {
            Err(e) => return Err(e),
            Ok(None) => return Ok(false),
            Ok(Some(i)) => i,
        };
        match &self.tokens[i].kind {
            TokenKind::Keyword(w) => Ok(str_eq(w.as_str(), "item")),
            _ => Err(Error::new(0, ErrorKind::Inconsistent)),
        }
    }

    fn scan_group_item(&self, pos: usize, k: Known) -> (res: Result<(bool, SymbolAnnotation, usize), Error>)
        requires
            self.well_formed(),
            pos <= self.tokens.len(),
        ensures
            match spec_scan_group_item(*self, pos as int, k) {
                Ok((h, sym, n)) => res == Ok::<(bool, SymbolAnnotation, usize), Error>((h, sym, n as usize)),
                Err(e) => res == Err::<(bool, SymbolAnnotation, usize), Error>(e),
            },
            res matches Ok((_, _, n)) ==> pos < n <= self.tokens.len(),
    {
        proof {
            lemma_scan_group_item(*self, pos as int, k);
            lemma_primitives_advance(*self, pos as int, k);
        }
        let c = match self.expect_lparen(pos, k) {
            Err(e) => return Err(e),
            Ok(c) => c,
        };
        proof {
            lemma_primitives_advance(*self, c as int, k);
        }
        let c2 = match self.expect_keyword(c, k, Keyword::Item) {
            Err(e) => return Err(e),
            Ok(c2) => c2,
        };
        proof {
            lemma_primitives_advance(*self, c2 as int, k);
        }
        let c3 = match self.expect_string(c2, k) {
            Err(e) => return Err(e),
            Ok(i) => i + 1,
        };
        proof {
            lemma_primitives_advance(*self, c3 as int, k);
            lemma_scan_item_sig(*self, c3 as int, k);
        }
        match self.rparen(c3, k) {
            Err(e) => return Err(e),
            Ok(Some(c4)) => return Ok((false, SymbolAnnotation::Missing, c4)),
            Ok(None) => {},
        }
        let (sym, c4) = match self.scan_item_sig(c3, k) {
            Err(e) => return Err(e),
            Ok(r) => r,
        };
        proof {
            lemma_primitives_advance(*self, c4 as int, k);
        }
        match self.expect_rparen(c4, k) {
            Err(e) => Err(e),
            Ok(c5) => Ok((true, sym, c5)),
        }
    }

    /// The `(item ...)` groups from `pos` on.
    fn group_items(&self, pos: usize, k: Known) -> (res: Result<(Vec<(bool, SymbolAnnotation)>, usize), Error>)
        requires
            self.well_formed(),
            pos <= self.tokens.len(),
        ensures
            match spec_group_items(*self, pos as int, k) {
                Ok((items, n)) => res matches Ok((v, m)) && v@ == items && m == n,
                Err(e) => res == Err::<(Vec<(bool, SymbolAnnotation)>, usize), Error>(e),
            },
    {
        let mut items: Vec<(bool, SymbolAnnotation)> = Vec::new();
        let mut p = pos;
        proof {
            lemma_group_items(*self, pos as int, k);
        }
        loop
            invariant
                self.well_formed(),
                pos <= p <= self.tokens.len(),
                spec_group_items(*self, pos as int, k) == (match spec_group_items(*self, p as int, k) {
                    Ok((rest, end)) => Ok::<(Seq<(bool, SymbolAnnotation)>, int), Error>((items@ + rest, end)),
                    Err(e) => Err(e),
                }),
            decreases self.tokens.len() - p,
        {
            proof {
                lemma_group_items(*self, p as int, k);
            }
            let more = match self.peek_group_item(p, k) {
                Err(e) => return Err(e),
                Ok(b) => b,
            };
            if !more {
                assert(items@ + seq![] =~= items@);
                return Ok((items, p));
            }
            let (has_sig, sym, n) = match self.scan_group_item(p, k) {
                Err(e) => return Err(e),
                Ok(r) => r,
            };
            proof {
                lemma_scan_group_item(*self, p as int, k);
                lemma_group_items(*self, n as int, k);
                assert(spec_group_items(*self, p as int, k) == (match spec_group_items(*self, n as int, k) {
                    Ok((rest, end)) => Ok::<(Seq<(bool, SymbolAnnotation)>, int), Error>((seq![(has_sig, sym)] + rest, end)),
                    Err(e) => Err(e),
                }));
                let ghost old_items = items@;
                match spec_group_items(*self, n as int, k) {
                    Ok((rest, end)) => {
                        assert(old_items + (seq![(has_sig, sym)] + rest) =~= old_items.push((has_sig, sym))
                            + rest);
                    },
                    Err(_) => {},
                }
            }
            items.push((has_sig, sym));
            p = n;
        }
    }

    /// The `@sym` annotations of the items of an `import` field, from its
    /// keyword on.
    pub fn scan_import_syms(&self, pos: usize, k: Known) -> (res: Result<(Vec<SymbolAnnotation>, usize), Error>)
        requires
            self.well_formed(),
            pos <= self.tokens.len(),
        ensures
            match spec_scan_import_syms(*self, pos as int, k) {
                Ok((syms, n)) => res matches Ok((v, m)) && v@ == syms && m == n,
                Err(e) => res == Err::<(Vec<SymbolAnnotation>, usize), Error>(e),
            },
    {
        proof {
            lemma_primitives_advance(*self, pos as int, k);
        }
        let c = match self.expect_keyword(pos, k, Keyword::Import) {
            Err(e) => return Err(e),
            Ok(c) => c,
        };
        proof {
            lemma_primitives_advance(*self, c as int, k);
        }
        let c2 = match self.expect_string(c, k) {
            Err(e) => return Err(e),
            Ok(i) => i + 1,
        };
        proof {
            lemma_primitives_advance(*self, c2 as int, k);
        }
        match self.string(c2, k) {
            Err(e) => return Err(e),
            Ok(Some(i)) => {
                let c3 = i + 1;
                proof {
                    lemma_scan_item_sig(*self, c3 as int, k);
                }
                return match self.scan_item_sig(c3, k) {
                    Err(e) => Err(e),
                    Ok((sym, c4)) => {
                        let mut v: Vec<SymbolAnnotation> = Vec::new();
                        v.push(sym);
                        Ok((v, c4))
                    },
                };
            },
            Ok(None) => {},
        }
        proof {
            lemma_group_items(*self, c2 as int, k);
        }
        let (items, c3) = match self.group_items(c2, k) {
            Err(e) => return Err(e),
            Ok(r) => r,
        };
        if items.len() == 0 {
            return Err(Error::new(self.cur_span(c3, k), ErrorKind::ExpectedStringOrItems));
        }
        let mut all_sig = true;
        let mut none_sig = true;
        let mut syms: Vec<SymbolAnnotation> = Vec::new();
        let mut i: usize = 0;
        while i < items.len()
            invariant
                0 <= i <= items.len(),
                syms@.len() == i,
                forall|j: int| 0 <= j < i ==> syms@[j] == (#[trigger] items@[j]).1,
                all_sig == (forall|j: int| 0 <= j < i ==> (#[trigger] items@[j]).0),
                none_sig == (forall|j: int| 0 <= j < i ==> !(#[trigger] items@[j]).0),
            decreases items.len() - i,
        {
            if items[i].0 {
                none_sig = false;
            } else {
                all_sig = false;
            }
            syms.push(items[i].1.duplicate());
            i += 1;
        }
        if all_sig {
            assert(syms@ =~= items@.map_values(|it: (bool, SymbolAnnotation)| it.1));
            return Ok((syms, c3));
        }
        if !none_sig {
            return Err(Error::new(self.cur_span(c3, k), ErrorKind::UnexpectedRParen));
        }
        proof {
            lemma_scan_item_sig(*self, c3 as int, k);
        }
        let (sym, c4) = match self.scan_item_sig(c3, k) {
            Err(e) => return Err(e),
            Ok(r) => r,
        };
        if sym.is_present() {
            return Err(Error::new(self.cur_span(c4, k), ErrorKind::SymOnGroup2Import));
        }
        let mut missing: Vec<SymbolAnnotation> = Vec::new();
        let mut j: usize = 0;
        while j < items.len()
            invariant
                0 <= j <= items.len(),
                missing@ == Seq::new(j as nat, |x: int| SymbolAnnotation::Missing),
            decreases items.len() - j,
        {
            missing.push(SymbolAnnotation::Missing);
            j += 1;
            assert(missing@ =~= Seq::new(j as nat, |x: int| SymbolAnnotation::Missing));
        }
        Ok((missing, c4))
    }
}


/// Scanning a function for `@reloc` annotations, from `pos` to the `)` that
/// closes it: each `(@reloc)` gives the offset of the last relocatable
/// instruction keyword seen at the top level of the body (`last`), and it is
/// an error where no such keyword came right before; groups other than
/// `(@reloc)` are skipped whole. The offsets in order, and the position past
/// the closing `)`.
pub open spec fn spec_reloc_spans_from(s: TokenStream, pos: int, k: Known, last: Option<usize>) -> Result<
    (Seq<usize>, int),
    Error,
>
    decreases s.tokens@.len() - pos,
{
    if pos < 0 || pos > s.tokens@.len() {
        Err(err_at(0, ErrorKind::Inconsistent))
    } else {
        match spec_keyword(s, pos, k) {
            Err(e) => Err(e),
            Ok(Some((w, n))) => {
                proof {
                    lemma_primitives_advance(s, pos, k);
                }
                let last2 = if spec_is_relocatable_keyword(w@) {
                    Some(spec_cur_span(s, pos, k))
                } else {
                    None
                };
                spec_reloc_spans_from(s, n, k, last2)
            },
            Ok(None) => match spec_lparen(s, pos, k) {
                Err(e) => Err(e),
                Ok(Some(c)) => {
                    proof {
                        lemma_primitives_advance(s, pos, k);
                        lemma_primitives_advance(s, c, k);
                        lemma_skip_rec(s, c, k, 0);
                    }
                    match spec_annotation(s, c, k) {
                        Err(e) => Err(e),
                        Ok(Some((name, c2))) if name@ == "reloc"@ => match last {
                            None => Err(err_at(spec_cur_span(s, pos, k), ErrorKind::RelocWithoutInstruction)),
                            Some(span) => match spec_expect_rparen(s, c2, k) {
                                Err(e) => Err(e),
                                Ok(c3) => {
                                    proof {
                                        lemma_primitives_advance(s, c2, k);
                                    }
                                    match spec_reloc_spans_from(s, c3, k, last) {
                                        Err(e) => Err(e),
                                        Ok((rest, end)) => Ok((seq![span] + rest, end)),
                                    }
                                },
                            },
                        },
                        _ => match spec_skip_until_rparen(s, c, k) {
                            Err(e) => Err(e),
                            Ok(c3) => spec_reloc_spans_from(s, c3, k, last),
                        },
                    }
                },
                Ok(None) => match spec_rparen(s, pos, k) {
                    Err(e) => Err(e),
                    Ok(Some(n)) => Ok((seq![], n)),
                    Ok(None) => match spec_advance_cursor(s, pos, k) {
                        Err(e) => Err(e),
                        Ok(Some(n)) => {
                            proof {
                                lemma_peek(s, pos, k);
                            }
                            spec_reloc_spans_from(s, n, k, last)
                        },
                        Ok(None) => Err(err_at(spec_cur_span(s, pos, k), ErrorKind::UnexpectedToken)),
                    },
                },
            },
        }
    }
}

/// The offsets of the instructions that `@reloc` annotations follow in a
/// function, from its `func` keyword on.
pub open spec fn spec_scan_func_reloc_spans(s: TokenStream, pos: int, k: Known) -> Result<(Seq<usize>, int), Error> {
    spec_reloc_spans_from(s, pos, k, None)
}

pub proof fn lemma_reloc_spans_from(s: TokenStream, pos: int, k: Known, last: Option<usize>)
    ensures
        spec_reloc_spans_from(s, pos, k, last) matches Ok((_, n)) ==> pos < n <= s.tokens@.len(),
    decreases s.tokens@.len() - pos,
{
    if 0 <= pos <= s.tokens@.len() {
        lemma_primitives_advance(s, pos, k);
        lemma_peek(s, pos, k);
        match spec_keyword(s, pos, k) {
            Ok(Some((w, n))) => {
                let last2 = if spec_is_relocatable_keyword(w@) {
                    Some(spec_cur_span(s, pos, k))
                } else {
                    None
                };
                lemma_reloc_spans_from(s, n, k, last2);
            },
            Ok(None) => {
                if let Ok(Some(c)) = spec_lparen(s, pos, k) {
                    lemma_primitives_advance(s, c, k);
                    lemma_skip_rec(s, c, k, 0);
                    if let Ok(Some((name, c2))) = spec_annotation(s, c, k) {
                        lemma_primitives_advance(s, c2, k);
                        if let Ok(c3) = spec_expect_rparen(s, c2, k) {
                            lemma_reloc_spans_from(s, c3, k, last);
                        }
                    }
                    if let Ok(c3) = spec_skip_until_rparen(s, c, k) {
                        lemma_reloc_spans_from(s, c3, k, last);
                    }
                } else if let Ok(Some(n)) = spec_advance_cursor(s, pos, k) {
                    lemma_reloc_spans_from(s, n, k, last);
                }
            },
            _ => {},
        }
    }
}

impl TokenStream {
    /// The offsets of the instructions that `@reloc` annotations follow in a
    /// function, from its `func` keyword on, and the position past the
    /// function's closing `)`.
    pub fn scan_func_reloc_spans(&self, pos: usize, k: Known) -> (res: Result<(Vec<usize>, usize), Error>)
        requires
            self.well_formed(),
            pos <= self.tokens.len(),
        ensures
            match spec_scan_func_reloc_spans(*self, pos as int, k) {
                Ok((spans, n)) => res matches Ok((v, m)) && v@ == spans && m == n,
                Err(e) => res == Err::<(Vec<usize>, usize), Error>(e),
            },
    {
        let mut spans: Vec<usize> = Vec::new();
        let mut p = pos;
        let mut last: Option<usize> = None;
        loop
            invariant
                self.well_formed(),
                pos <= p <= self.tokens.len(),
                spec_scan_func_reloc_spans(*self, pos as int, k) == (match spec_reloc_spans_from(
                    *self,
                    p as int,
                    k,
                    last,
                ) {
                    Ok((rest, end)) => Ok::<(Seq<usize>, int), Error>((spans@ + rest, end)),
                    Err(e) => Err(e),
                }),
            decreases self.tokens.len() - p,
        {
            proof {
                lemma_primitives_advance(*self, p as int, k);
                lemma_peek(*self, p as int, k);
                lemma_reloc_spans_from(*self, p as int, k, last);
            }
            let ghost gp = p as int;
            match self.keyword(p, k) {
                Err(e) => return Err(e),
                Ok(Some(i)) => {
                    let is_reloc = match &self.tokens[i].kind {
                        TokenKind::Keyword(w) => is_relocatable_keyword(w.as_str()),
                        _ => false,
                    };
                    let last2 = if is_reloc {
                        Some(self.cur_span(p, k))
                    } else {
                        None
                    };
                    proof {
                        lemma_reloc_spans_from(*self, i + 1, k, last2);
                    }
                    last = last2;
                    p = i + 1;
                    continue;
                },
                Ok(None) => {},
            }
            match self.lparen(p, k) {
                Err(e) => return Err(e),
                Ok(Some(c)) => {
                    proof {
                        lemma_primitives_advance(*self, c as int, k);
                        lemma_skip_rec(*self, c as int, k, 0);
                    }
                    let (is_reloc, c2) = match self.annotation(c, k) {
                        Err(e) => return Err(e),
                        Ok(None) => (false, c),
                        Ok(Some(i)) => match &self.tokens[i].kind {
                            TokenKind::Annotation(Ok(name)) => (str_eq(name.as_str(), "reloc"), i + 1),
                            _ => (false, c),
                        },
                    };
                    if is_reloc {
                        let span = match last {
                            None => {
                                return Err(Error::new(self.cur_span(p, k), ErrorKind::RelocWithoutInstruction));
                            },
                            Some(span) => span,
                        };
                        proof {
                            lemma_primitives_advance(*self, c2 as int, k);
                        }
                        let c3 = match self.expect_rparen(c2, k) {
                            Err(e) => return Err(e),
                            Ok(c3) => c3,
                        };
                        proof {
                            lemma_reloc_spans_from(*self, c3 as int, k, last);
                            let ghost old_spans = spans@;
                            match spec_reloc_spans_from(*self, c3 as int, k, last) {
                                Ok((rest, end)) => {
                                    assert(old_spans + (seq![span] + rest) =~= old_spans.push(span) + rest);
                                },
                                Err(_) => {},
                            }
                        }
                        spans.push(span);
                        p = c3;
                    } else {
                        let c3 = match self.skip_until_rparen(c, k) {
                            Err(e) => return Err(e),
                            Ok(c3) => c3,
                        };
                        p = c3;
                    }
                    continue;
                },
                Ok(None) => {},
            }
            match self.rparen(p, k) {
                Err(e) => return Err(e),
                Ok(Some(n)) => {
                    assert(spans@ + seq![] =~= spans@);
                    return Ok((spans, n));
                },
                Ok(None) => {},
            }
            match self.advance_cursor(p, k) {
                Err(e) => return Err(e),
                Ok(Some(n)) => {
                    p = n;
                },
                Ok(None) => {
                    return Err(Error::new(self.cur_span(p, k), ErrorKind::UnexpectedToken));
                },
            }
        }
    }
}

} // verus!
