//! The token stream of a text module and a cursor over it that skips the
//! annotations nobody asked for.

use vstd::prelude::*;

use crate::error::{Error, ErrorKind};

verus! {

/// A token of the text format (whitespace and comments left out).
#[derive(Debug, PartialEq, Eq)]
pub enum TokenKind {
    LParen,
    RParen,
    /// A string literal, escapes resolved.
    String(Vec<u8>),
    /// `$name`, without the `$`; the error message where the name is not
    /// valid.
    Id(Result<String, String>),
    Keyword(String),
    /// `@name`, without the `@`; the error message where the name is not
    /// valid.
    Annotation(Result<String, String>),
    Reserved,
    Integer,
    Float,
}

#[derive(Debug, PartialEq, Eq)]
pub struct Token {
    pub kind: TokenKind,
    /// Byte offset of the token in the source text.
    pub offset: usize,
}

/// The tokens of a text, and the error that stopped lexing early, if any.
#[derive(Debug)]
pub struct TokenStream {
    pub tokens: Vec<Token>,
    /// The text's length in bytes: where its end is reported.
    pub end: usize,
    pub lex_error: Option<Error>,
}

/// Which annotations, besides `@rwat`, the cursor shows; all others are
/// skipped with their contents.
#[derive(Debug, Clone, Copy, PartialEq, Eq, Structural)]
pub struct Known {
    pub sym: bool,
    pub reloc: bool,
}

pub open spec fn is_known(known: Known, name: Seq<char>) -> bool {
    ||| name == "rwat"@
    ||| known.sym && name == "sym"@
    ||| known.reloc && name == "reloc"@
}

/// The position just past the `)` that closes a group whose `(` is already
/// consumed, `depth` groups deep.
pub open spec fn skip_group(ts: Seq<Token>, pos: int, depth: nat) -> Option<int>
    decreases ts.len() - pos,
{
    if pos < 0 || pos >= ts.len() {
        None
    } else {
        match ts[pos].kind {
            TokenKind::LParen => skip_group(ts, pos + 1, depth + 1),
            TokenKind::RParen => if depth <= 1 {
                Some(pos + 1)
            } else {
                skip_group(ts, pos + 1, (depth - 1) as nat)
            },
            _ => skip_group(ts, pos + 1, depth),
        }
    }
}

pub proof fn lemma_skip_group(ts: Seq<Token>, pos: int, depth: nat)
    ensures
        skip_group(ts, pos, depth) matches Some(n) ==> pos < n <= ts.len(),
    decreases ts.len() - pos,
{
    if 0 <= pos < ts.len() {
        match ts[pos].kind {
            TokenKind::LParen => lemma_skip_group(ts, pos + 1, depth + 1),
            TokenKind::RParen => if depth > 1 {
                lemma_skip_group(ts, pos + 1, (depth - 1) as nat)
            },
            _ => lemma_skip_group(ts, pos + 1, depth),
        }
    }
}

/// Whether an annotation `(@name` starts at `pos`: a `(` directly followed by
/// an annotation token.
pub open spec fn annotation_starts(ts: Seq<Token>, pos: int) -> bool {
    &&& 0 <= pos
    &&& pos + 1 < ts.len()
    &&& ts[pos].kind is LParen
    &&& ts[pos + 1].kind is Annotation
    &&& ts[pos + 1].offset == ts[pos].offset + 1
}

/// The error reported where the tokens run out.
pub open spec fn end_error(s: TokenStream, otherwise: Error) -> Error {
    match s.lex_error {
        Some(e) => e,
        None => otherwise,
    }
}

/// The position of the next token the cursor shows from `pos` on: unknown
/// annotations are skipped with their contents. `Ok(None)` at the end of the
/// tokens; an error where lexing stopped early, where an annotation's name
/// is not valid, or where a skipped annotation is not closed.
pub open spec fn spec_peek(s: TokenStream, pos: int, known: Known) -> Result<Option<int>, Error>
    decreases s.tokens@.len() - pos,
{
    let ts = s.tokens@;
    if pos < 0 || pos >= ts.len() {
        match s.lex_error {
            Some(e) => Err(e),
            None => Ok(None),
        }
    } else if annotation_starts(ts, pos) {
        match ts[pos + 1].kind {
            TokenKind::Annotation(Err(msg)) => Err(
                Error { offset: ts[pos + 1].offset, kind: ErrorKind::Text(msg) },
            ),
            TokenKind::Annotation(Ok(name)) => if is_known(known, name@) {
                Ok(Some(pos))
            } else {
                match skip_group(ts, pos + 1, 1) {
                    Some(next) => {
                        proof {
                            lemma_skip_group(ts, pos + 1, 1);
                        }
                        spec_peek(s, next, known)
                    },
                    None => Err(
                        end_error(
                            s,
                            Error { offset: (ts[pos].offset + 1) as usize, kind: ErrorKind::UnclosedAnnotation },
                        ),
                    ),
                }
            },
            _ => Ok(Some(pos)),
        }
    } else {
        Ok(Some(pos))
    }
}

pub proof fn lemma_peek(s: TokenStream, pos: int, known: Known)
    requires
        0 <= pos,
    ensures
        spec_peek(s, pos, known) matches Ok(Some(i)) ==> pos <= i < s.tokens@.len(),
    decreases s.tokens@.len() - pos,
{
    let ts = s.tokens@;
    if 0 <= pos < ts.len() && annotation_starts(ts, pos) {
        if let TokenKind::Annotation(Ok(name)) = ts[pos + 1].kind {
            if !is_known(known, name@) {
                lemma_skip_group(ts, pos + 1, 1);
                if let Some(next) = skip_group(ts, pos + 1, 1) {
                    lemma_peek(s, next, known);
                }
            }
        }
    }
}

/// Where errors at `pos` are reported: at the next token shown, or at the
/// end of the text.
pub open spec fn spec_cur_span(s: TokenStream, pos: int, known: Known) -> usize {
    match spec_peek(s, pos, known) {
        Ok(Some(i)) => s.tokens@[i].offset,
        _ => s.end,
    }
}

impl TokenStream {
    pub open spec fn well_formed(&self) -> bool {
        self.tokens.len() < usize::MAX
    }

    fn skip_group(&self, pos: usize) -> (next: Option<usize>)
        requires
            self.well_formed(),
        ensures
            next matches Some(n) ==> skip_group(self.tokens@, pos as int, 1) == Some(n as int),
            next is None ==> skip_group(self.tokens@, pos as int, 1) is None,
    {
        let ghost ts = self.tokens@;
        let mut p = pos;
        let mut d: usize = 1;
        while p < self.tokens.len()
            invariant
                ts == self.tokens@,
                d >= 1,
                d <= 1 + (p - pos),
                self.well_formed(),
                pos <= p,
                pos <= p,
                skip_group(ts, pos as int, 1) == skip_group(ts, p as int, d as nat),
            decreases ts.len() - p,
        {
            match &self.tokens[p].kind {
                TokenKind::LParen => {
                    d = d + 1;
                },
                TokenKind::RParen => {
                    assert(ts[p as int].kind is RParen);
                    if d <= 1 {
                        assert(skip_group(ts, p as int, d as nat) == Some(p + 1));
                        return Some(p + 1);
                    }
                    d = d - 1;
                },
                _ => {},
            }
            p += 1;
        }
        None
    }

    fn annotation_starts(&self, pos: usize) -> (b: bool)
        requires
            self.well_formed(),
        ensures
            b == annotation_starts(self.tokens@, pos as int),
    {
        if pos >= self.tokens.len() || pos + 1 >= self.tokens.len() {
            return false;
        }
        let a = &self.tokens[pos];
        let b = &self.tokens[pos + 1];
        matches!(a.kind, TokenKind::LParen) && matches!(b.kind, TokenKind::Annotation(_)) && a.offset
            < usize::MAX && b.offset == a.offset + 1
    }

    fn end_error(&self, otherwise: Error) -> (e: Error)
        ensures
            e == end_error(*self, otherwise),
    {
        match &self.lex_error {
            Some(e) => e.clone_error(),
            None => otherwise,
        }
    }

    /// The position of the next token the cursor shows from `pos` on.
    pub fn peek(&self, pos: usize, known: Known) -> (res: Result<Option<usize>, Error>)
        requires
            self.well_formed(),
        ensures
            match spec_peek(*self, pos as int, known) {
                Ok(Some(i)) => res == Ok::<Option<usize>, Error>(Some(i as usize)),
                Ok(None) => res == Ok::<Option<usize>, Error>(None),
                Err(e) => res == Err::<Option<usize>, Error>(e),
            },
            res matches Ok(Some(i)) ==> pos <= i < self.tokens.len(),
    {
        let ghost ts = self.tokens@;
        let mut p = pos;
        while p < self.tokens.len() && self.annotation_starts(p)
            invariant
                ts == self.tokens@,
                self.well_formed(),
                pos <= p,
                spec_peek(*self, pos as int, known) == spec_peek(*self, p as int, known),
            decreases ts.len() - p,
        {
            let ann_offset = self.tokens[p + 1].offset;
            match &self.tokens[p + 1].kind {
                TokenKind::Annotation(Err(msg)) => {
                    return Err(Error::new(ann_offset, ErrorKind::Text(msg.clone())));
                },
                TokenKind::Annotation(Ok(name)) => {
                    if is_known_name(known, name) {
                        return Ok(Some(p));
                    }
                    match self.skip_group(p + 1) {
                        Some(next) => {
                            proof {
                                lemma_skip_group(ts, p + 1, 1);
                            }
                            p = next;
                        },
                        None => {
                            let lparen_offset = self.tokens[p].offset;
                            return Err(
                                self.end_error(
                                    Error::new(lparen_offset + 1, ErrorKind::UnclosedAnnotation),
                                ),
                            );
                        },
                    }
                },
                _ => {
                    return Ok(Some(p));
                },
            }
        }
        if p >= self.tokens.len() {
            match &self.lex_error {
                Some(e) => Err(e.clone_error()),
                None => Ok(None),
            }
        } else {
            Ok(Some(p))
        }
    }

    /// Where errors at `pos` are reported.
    pub fn cur_span(&self, pos: usize, known: Known) -> (offset: usize)
        requires
            self.well_formed(),
        ensures
            offset == spec_cur_span(*self, pos as int, known),
    {
        proof {
            lemma_peek(*self, pos as int, known);
        }
        match self.peek(pos, known) {
            Ok(Some(i)) => self.tokens[i].offset,
            _ => self.end,
        }
    }
}

/// Whether `name` is an annotation the cursor shows.
pub fn is_known_name(known: Known, name: &String) -> (b: bool)
    ensures
        b == is_known(known, name@),
{
    crate::text::str_eq(name.as_str(), "rwat") || (known.sym && crate::text::str_eq(name.as_str(), "sym"))
        || (known.reloc && crate::text::str_eq(name.as_str(), "reloc"))
}

} // verus!
