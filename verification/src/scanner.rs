//! The scanner: a stateful cursor over the source text that yields one
//! token at a time. It skips whitespace and line comments, tracks the
//! current line, and classifies identifiers against the keyword set. At
//! the end of the source it yields `Eof` tokens forever.

mod token_kind;

use crate::number::{all_digits, is_number_lexeme};
use crate::text::{chars_to_string, str_to_chars};
use vstd::prelude::*;

pub use token_kind::TokenKind;

verus! {

/// One token: its kind, the exact source slice that produced it, and the
/// line it ended on.
#[derive(Debug)]
pub struct Token {
    pub kind: TokenKind,
    pub lexeme: String,
    pub line: usize,
}

impl Token {
    /// A copy with the same kind, lexeme and line.
    pub fn duplicate(&self) -> (r: Token)
        ensures
            r.kind == self.kind,
            r.lexeme@ == self.lexeme@,
            r.line == self.line,
    {
        Token { kind: self.kind, lexeme: self.lexeme.clone(), line: self.line }
    }
}

/// A malformed piece of source: the message and the line it was found on.
#[derive(Debug)]
pub struct ScanErr {
    pub line: usize,
    pub msg: String,
}

impl ScanErr {
    /// A copy with the same line and message.
    pub fn duplicate(&self) -> (r: ScanErr)
        ensures
            r.line == self.line,
            r.msg@ == self.msg@,
    {
        ScanErr { line: self.line, msg: self.msg.clone() }
    }
}

/// The scanner state: the source as characters, the line the cursor is
/// on, and the bounds of the token being scanned.
pub struct Scanner {
    pub source: Vec<char>,
    pub line: usize,
    pub start: usize,
    pub current: usize,
}

/// The kinds that an identifier-shaped word can scan to: a keyword, or
/// `Identifier`.
pub open spec fn is_word_kind(k: TokenKind) -> bool {
    ||| k == TokenKind::Identifier
    ||| k == TokenKind::And
    ||| k == TokenKind::Class
    ||| k == TokenKind::Else
    ||| k == TokenKind::False
    ||| k == TokenKind::For
    ||| k == TokenKind::Fun
    ||| k == TokenKind::If
    ||| k == TokenKind::Nil
    ||| k == TokenKind::Or
    ||| k == TokenKind::Print
    ||| k == TokenKind::Return
    ||| k == TokenKind::Super
    ||| k == TokenKind::This
    ||| k == TokenKind::True
    ||| k == TokenKind::Var
    ||| k == TokenKind::While
}

/// The fixed lexeme of a punctuator or operator kind; `None` for the
/// kinds whose lexemes vary.
pub open spec fn punct_text(k: TokenKind) -> Option<Seq<char>> {
    match k {
        TokenKind::LeftParen => Some("("@),
        TokenKind::RightParen => Some(")"@),
        TokenKind::LeftBrace => Some("{"@),
        TokenKind::RightBrace => Some("}"@),
        TokenKind::Semicolon => Some(";"@),
        TokenKind::Comma => Some(","@),
        TokenKind::Dot => Some("."@),
        TokenKind::Minus => Some("-"@),
        TokenKind::Plus => Some("+"@),
        TokenKind::Slash => Some("/"@),
        TokenKind::Star => Some("*"@),
        TokenKind::Bang => Some("!"@),
        TokenKind::BangEqual => Some("!="@),
        TokenKind::Equal => Some("="@),
        TokenKind::EqualEqual => Some("=="@),
        TokenKind::Less => Some("<"@),
        TokenKind::LessEqual => Some("<="@),
        TokenKind::Greater => Some(">"@),
        TokenKind::GreaterEqual => Some(">="@),
        _ => None,
    }
}

/// The kind of an identifier-shaped word: the matching keyword, or
/// `Identifier`.
pub open spec fn keyword_kind(s: Seq<char>) -> TokenKind {
    if s == "and"@ {
        TokenKind::And
    } else if s == "class"@ {
        TokenKind::Class
    } else if s == "else"@ {
        TokenKind::Else
    } else if s == "false"@ {
        TokenKind::False
    } else if s == "for"@ {
        TokenKind::For
    } else if s == "fun"@ {
        TokenKind::Fun
    } else if s == "if"@ {
        TokenKind::If
    } else if s == "nil"@ {
        TokenKind::Nil
    } else if s == "or"@ {
        TokenKind::Or
    } else if s == "print"@ {
        TokenKind::Print
    } else if s == "return"@ {
        TokenKind::Return
    } else if s == "super"@ {
        TokenKind::Super
    } else if s == "this"@ {
        TokenKind::This
    } else if s == "true"@ {
        TokenKind::True
    } else if s == "var"@ {
        TokenKind::Var
    } else if s == "while"@ {
        TokenKind::While
    } else {
        TokenKind::Identifier
    }
}

/// Whether the text at `i` begins skippable trivia: a space, tab,
/// carriage return or newline, or a `//` comment.
pub open spec fn trivia_at(src: Seq<char>, i: int) -> bool {
    ||| src[i] == ' ' || src[i] == '\r' || src[i] == '\t' || src[i] == '\n'
    ||| (src[i] == '/' && i + 1 < src.len() && src[i + 1] == '/')
}

/// Where skipping trivia from `i` stops: past any run of spaces, tabs,
/// carriage returns, newlines and `//` comments, at the first position
/// that starts a token (or at the end of the source).
pub open spec fn skip_end(src: Seq<char>, i: int) -> int
    decreases src.len() - i, 0int,
{
    if 0 <= i < src.len() {
        if src[i] == ' ' || src[i] == '\r' || src[i] == '\t' || src[i] == '\n' {
            skip_end(src, i + 1)
        } else if src[i] == '/' && i + 1 < src.len() && src[i + 1] == '/' {
            skip_comment(src, i + 2)
        } else {
            i
        }
    } else {
        i
    }
}

/// Where skipping resumes after a comment body starting at `j`: at the
/// newline that ends it, or at the end of the source.
pub open spec fn skip_comment(src: Seq<char>, j: int) -> int
    decreases src.len() - j, 1int,
{
    if 0 <= j < src.len() {
        if src[j] == '\n' {
            skip_end(src, j)
        } else {
            skip_comment(src, j + 1)
        }
    } else {
        src.len() as int
    }
}

/// The characters that can begin a token: punctuators and operator
/// starts, a string quote, a digit, or an ASCII letter. Any other
/// character is reported as unexpected.
pub open spec fn starts_token(c: char) -> bool {
    ||| c == '(' || c == ')' || c == '{' || c == '}' || c == ';' || c == ',' || c == '.'
    ||| c == '-' || c == '+' || c == '/' || c == '*' || c == '!' || c == '=' || c == '<'
    ||| c == '>' || c == '"'
    ||| '0' <= c <= '9'
    ||| 'a' <= c <= 'z' || 'A' <= c <= 'Z'
}

/// The kind a single- or two-character token starting with `c` gets:
/// for `!`, `=`, `<` and `>` a following `=` makes the two-character
/// operator.
pub open spec fn punct_kind_at(src: Seq<char>, i: int) -> Option<TokenKind> {
    let two = i + 1 < src.len() && src[i + 1] == '=';
    if src[i] == '(' {
        Some(TokenKind::LeftParen)
    } else if src[i] == ')' {
        Some(TokenKind::RightParen)
    } else if src[i] == '{' {
        Some(TokenKind::LeftBrace)
    } else if src[i] == '}' {
        Some(TokenKind::RightBrace)
    } else if src[i] == ';' {
        Some(TokenKind::Semicolon)
    } else if src[i] == ',' {
        Some(TokenKind::Comma)
    } else if src[i] == '.' {
        Some(TokenKind::Dot)
    } else if src[i] == '-' {
        Some(TokenKind::Minus)
    } else if src[i] == '+' {
        Some(TokenKind::Plus)
    } else if src[i] == '/' {
        Some(TokenKind::Slash)
    } else if src[i] == '*' {
        Some(TokenKind::Star)
    } else if src[i] == '!' {
        Some(
            if two {
                TokenKind::BangEqual
            } else {
                TokenKind::Bang
            },
        )
    } else if src[i] == '=' {
        Some(
            if two {
                TokenKind::EqualEqual
            } else {
                TokenKind::Equal
            },
        )
    } else if src[i] == '<' {
        Some(
            if two {
                TokenKind::LessEqual
            } else {
                TokenKind::Less
            },
        )
    } else if src[i] == '>' {
        Some(
            if two {
                TokenKind::GreaterEqual
            } else {
                TokenKind::Greater
            },
        )
    } else {
        None
    }
}

/// How many newline characters `s` holds in `[lo, hi)`.
pub open spec fn newline_count(s: Seq<char>, lo: int, hi: int) -> int
    decreases hi - lo,
{
    if lo >= hi {
        0
    } else {
        newline_count(s, lo, hi - 1) + if s[hi - 1] == '\n' {
            1int
        } else {
            0int
        }
    }
}

/// A newline count is never negative.
pub proof fn lemma_newline_count_nonneg(s: Seq<char>, lo: int, hi: int)
    ensures
        newline_count(s, lo, hi) >= 0,
    decreases hi - lo,
{
    if lo < hi {
        lemma_newline_count_nonneg(s, lo, hi - 1);
    }
}

/// Newline counting splits at any midpoint.
pub proof fn lemma_newline_count_split(s: Seq<char>, lo: int, mid: int, hi: int)
    requires
        lo <= mid <= hi,
    ensures
        newline_count(s, lo, hi) == newline_count(s, lo, mid) + newline_count(s, mid, hi),
    decreases hi - mid,
{
    if mid < hi {
        lemma_newline_count_split(s, lo, mid, hi - 1);
    }
}

/// A range without newline characters counts zero.
pub proof fn lemma_newline_count_zero(s: Seq<char>, lo: int, hi: int)
    requires
        forall|k: int| lo <= k < hi ==> s[k] != '\n',
    ensures
        newline_count(s, lo, hi) == 0,
    decreases hi - lo,
{
    if lo < hi {
        lemma_newline_count_zero(s, lo, hi - 1);
    }
}

/// Whether two character slices hold the same characters.
fn chars_eq(a: &[char], b: &[char]) -> (r: bool)
    ensures
        r == (a@ == b@),
{
    if a.len() != b.len() {
        proof {
            assert(a@ != b@);
        }
        return false;
    }
    let n = a.len();
    let mut i: usize = 0;
    while i < n
        invariant
            n == a@.len(),
            n == b@.len(),
            i <= n,
            forall|k: int| 0 <= k < i ==> a@[k] == b@[k],
        decreases n - i,
    {
        if a[i] != b[i] {
            proof {
                assert(a@ != b@);
            }
            return false;
        }
        i += 1;
    }
    proof {
        assert(a@ =~= b@);
    }
    true
}

pub type ScanResult = Result<Token, ScanErr>;

impl Scanner {
    /// The cursor stays within the source, and a token's start never
    /// passes the cursor.
    pub open spec fn wf(&self) -> bool {
        self.start <= self.current <= self.source@.len()
    }

    /// A scanner at the start of `source`, on line 1.
    pub fn new(source: String) -> (r: Scanner)
        ensures
            r.wf(),
            r.source@ == source@,
            r.line == 1,
            r.current == 0,
    {
        Scanner { source: str_to_chars(source.as_str()), line: 1, start: 0, current: 0 }
    }

    /// The character under the cursor.
    fn peek(&self) -> (r: Option<char>)
        requires
            self.wf(),
        ensures
            r == if self.current < self.source@.len() {
                Some(self.source@[self.current as int])
            } else {
                None::<char>
            },
    {
        if self.current < self.source.len() {
            Some(self.source[self.current])
        } else {
            None
        }
    }

    /// The character one past the cursor.
    fn peek_next(&self) -> (r: Option<char>)
        requires
            self.wf(),
        ensures
            r == if self.current + 1 < self.source@.len() {
                Some(self.source@[self.current + 1])
            } else {
                None::<char>
            },
    {
        if self.current < self.source.len() && self.current + 1 < self.source.len() {
            Some(self.source[self.current + 1])
        } else {
            None
        }
    }

    /// Consume and return the character under the cursor, if any.
    fn advance(&mut self) -> (r: Option<char>)
        requires
            old(self).wf(),
        ensures
            final(self).wf(),
            final(self).source@ == old(self).source@,
            final(self).start == old(self).start,
            final(self).line == old(self).line,
            old(self).current < old(self).source@.len() ==> r == Some(
                old(self).source@[old(self).current as int],
            ) && final(self).current == old(self).current + 1,
            old(self).current == old(self).source@.len() ==> r is None && final(self).current
                == old(self).current,
    {
        if self.current < self.source.len() {
            let c = self.source[self.current];
            self.current += 1;
            Some(c)
        } else {
            None
        }
    }

    /// Consume the character under the cursor if it is `expected`.
    fn try_match(&mut self, expected: char) -> (r: bool)
        requires
            old(self).wf(),
        ensures
            final(self).wf(),
            final(self).source@ == old(self).source@,
            final(self).start == old(self).start,
            final(self).line == old(self).line,
            r == (old(self).current < old(self).source@.len() && old(self).source@[old(self).current as int] == expected),
            r ==> final(self).current == old(self).current + 1,
            !r ==> final(self).current == old(self).current,
    {
        if self.current < self.source.len() && self.source[self.current] == expected {
            self.current += 1;
            true
        } else {
            false
        }
    }

    /// The token for the slice scanned since `start`, on the current
    /// line.
    fn make_token(&self, kind: TokenKind) -> (r: ScanResult)
        requires
            self.wf(),
        ensures
            r matches Ok(t) && t.kind == kind && t.line == self.line && t.lexeme@
                == self.source@.subrange(self.start as int, self.current as int),
    {
        Ok(
            Token {
                kind,
                lexeme: chars_to_string(&self.source[self.start..self.current]),
                line: self.line,
            },
        )
    }

    /// A scan error with `msg`, on the current line.
    fn make_error(&self, msg: &str) -> (r: ScanResult)
        ensures
            r matches Err(e) && e.line == self.line && e.msg@ == msg@,
    {
        Err(ScanErr { msg: msg.to_owned(), line: self.line })
    }

    /// Skip spaces, tabs, carriage returns, newlines (counting lines) and
    /// `//` comments.
    fn skip_whitespace(&mut self)
        requires
            old(self).wf(),
        ensures
            final(self).wf(),
            final(self).source@ == old(self).source@,
            final(self).start == old(self).start,
            final(self).current >= old(self).current,
            final(self).line >= old(self).line,
            final(self).current == final(self).source@.len() || !trivia_at(
                final(self).source@,
                final(self).current as int,
            ),
            final(self).current == skip_end(old(self).source@, old(self).current as int),
            final(self).line <= old(self).line + newline_count(
                old(self).source@,
                old(self).current as int,
                final(self).current as int,
            ),
            old(self).line + newline_count(
                old(self).source@,
                old(self).current as int,
                final(self).current as int,
            ) <= usize::MAX ==> final(self).line == old(self).line + newline_count(
                old(self).source@,
                old(self).current as int,
                final(self).current as int,
            ),
            old(self).current == old(self).source@.len() ==> final(self).current == old(self).current && final(self).line == old(self).line,
    {
        let len = self.source.len();
        loop
            invariant
                self.wf(),
                self.source@ == old(self).source@,
                self.start == old(self).start,
                len == self.source@.len(),
                self.current >= old(self).current,
                self.line >= old(self).line,
                skip_end(self.source@, old(self).current as int) == skip_end(
                    self.source@,
                    self.current as int,
                ),
                self.line <= old(self).line + newline_count(
                    self.source@,
                    old(self).current as int,
                    self.current as int,
                ),
                old(self).line + newline_count(
                    self.source@,
                    old(self).current as int,
                    self.current as int,
                ) <= usize::MAX ==> self.line == old(self).line + newline_count(
                    self.source@,
                    old(self).current as int,
                    self.current as int,
                ),
                old(self).current == old(self).source@.len() ==> self.current == old(self).current
                    && self.line == old(self).line,
            decreases len - self.current,
        {
            let c = self.peek();
            match c {
                Some(' ') | Some('\r') | Some('\t') => {
                    self.advance();
                },
                Some('\n') => {
                    if self.line < usize::MAX {
                        self.line += 1;
                    }
                    self.advance();
                },
                Some('/') => {
                    match self.peek_next() {
                        Some('/') => {
                            self.current += 2;
                            proof {
                                lemma_newline_count_split(
                                    self.source@,
                                    old(self).current as int,
                                    self.current - 2,
                                    self.current as int,
                                );
                                lemma_newline_count_zero(
                                    self.source@,
                                    self.current - 2,
                                    self.current as int,
                                );
                            }
                            let ghost c0 = self.current;
                            while self.current < len && self.source[self.current] != '\n'
                                invariant
                                    self.wf(),
                                    self.source@ == old(self).source@,
                                    self.start == old(self).start,
                                    self.line >= old(self).line,
                                    self.current >= c0,
                                    c0 >= old(self).current,
                                    len == self.source@.len(),
                                    skip_end(self.source@, old(self).current as int)
                                        == skip_comment(self.source@, self.current as int),
                                    self.line <= old(self).line + newline_count(
                                        self.source@,
                                        old(self).current as int,
                                        self.current as int,
                                    ),
                                    old(self).line + newline_count(
                                        self.source@,
                                        old(self).current as int,
                                        self.current as int,
                                    ) <= usize::MAX ==> self.line == old(self).line
                                        + newline_count(
                                        self.source@,
                                        old(self).current as int,
                                        self.current as int,
                                    ),
                                decreases len - self.current,
                            {
                                self.current += 1;
                            }
                        },
                        _ => {
                            return ;
                        },
                    }
                },
                _ => {
                    return ;
                },
            }
        }
    }

    /// Scan the rest of a string literal; the opening quote is already
    /// consumed. Strings may span lines; an unclosed string is an error.
    fn string(&mut self) -> (r: ScanResult)
        requires
            old(self).wf(),
            old(self).start + 1 == old(self).current,
            old(self).source@[old(self).start as int] == '"',
        ensures
            final(self).wf(),
            final(self).source@ == old(self).source@,
            final(self).start == old(self).start,
            final(self).current >= old(self).current,
            final(self).line >= old(self).line,
            r matches Ok(t) ==> t.kind == TokenKind::String && t.line == final(self).line
                && t.lexeme@ == final(self).source@.subrange(
                final(self).start as int,
                final(self).current as int,
            ) && t.lexeme@.len() >= 2 && t.lexeme@[0] == '"' && t.lexeme@[t.lexeme@.len() - 1]
                == '"' && (forall|k: int|
                0 < k < t.lexeme@.len() - 1 ==> t.lexeme@[k] != '"'),
            r matches Err(e) ==> e.line == final(self).line && e.msg@ == "Unterminated string."@
                && (forall|k: int|
                old(self).start < k < final(self).source@.len()
                    ==> final(self).source@[k] != '"'),
            (exists|k: int|
                old(self).start < k < old(self).source@.len() && old(self).source@[k] == '"')
                ==> r is Ok,
            final(self).line <= old(self).line + newline_count(
                old(self).source@,
                old(self).current as int,
                final(self).current as int,
            ),
            old(self).line + newline_count(
                old(self).source@,
                old(self).current as int,
                final(self).current as int,
            ) <= usize::MAX ==> final(self).line == old(self).line + newline_count(
                old(self).source@,
                old(self).current as int,
                final(self).current as int,
            ),
    {
        let len = self.source.len();
        loop
            invariant
                self.wf(),
                self.source@ == old(self).source@,
                self.start == old(self).start,
                len == self.source@.len(),
                self.current >= old(self).current,
                self.line >= old(self).line,
                self.start < self.current,
                self.source@[self.start as int] == '"',
                forall|k: int| old(self).start < k < self.current ==> self.source@[k] != '"',
                self.line <= old(self).line + newline_count(
                    self.source@,
                    old(self).current as int,
                    self.current as int,
                ),
                old(self).line + newline_count(
                    self.source@,
                    old(self).current as int,
                    self.current as int,
                ) <= usize::MAX ==> self.line == old(self).line + newline_count(
                    self.source@,
                    old(self).current as int,
                    self.current as int,
                ),
            decreases len - self.current,
        {
            match self.advance() {
                None => {
                    return self.make_error("Unterminated string.");
                },
                Some('"') => {
                    return self.make_token(TokenKind::String);
                },
                Some('\n') => {
                    if self.line < usize::MAX {
                        self.line += 1;
                    }
                },
                Some(_) => {},
            }
        }
    }

    /// Scan the rest of a number literal; its first digit is already
    /// consumed. Digits, optionally followed by a point and more digits;
    /// a trailing point is not part of the number.
    fn number(&mut self) -> (r: ScanResult)
        requires
            old(self).wf(),
            old(self).start + 1 == old(self).current,
            '0' <= old(self).source@[old(self).start as int] <= '9',
        ensures
            final(self).wf(),
            final(self).source@ == old(self).source@,
            final(self).start == old(self).start,
            final(self).current >= old(self).current,
            final(self).line == old(self).line,
            newline_count(final(self).source@, old(self).current as int, final(self).current as int)
                == 0,
            r matches Ok(t) && t.kind == TokenKind::Number && t.line == final(self).line
                && t.lexeme@ == final(self).source@.subrange(
                final(self).start as int,
                final(self).current as int,
            ) && is_number_lexeme(t.lexeme@),
            final(self).current == final(self).source@.len() || !('0'
                <= final(self).source@[final(self).current as int] <= '9'),
            all_digits(
                final(self).source@.subrange(final(self).start as int, final(self).current as int),
            ) ==> !(final(self).current + 1 < final(self).source@.len() && final(self).source@[final(self).current as int] == '.' && '0' <= final(self).source@[final(self).current + 1] <= '9'),
    {
        let len = self.source.len();
        while self.current < len && is_digit_char(self.source[self.current])
            invariant
                self.wf(),
                self.source@ == old(self).source@,
                self.start == old(self).start,
                self.line == old(self).line,
                len == self.source@.len(),
                self.current >= old(self).current,
                self.start < self.current,
                newline_count(self.source@, old(self).current as int, self.current as int) == 0,
                all_digits(self.source@.subrange(self.start as int, self.current as int)),
            decreases len - self.current,
        {
            proof {
                assert(self.source@.subrange(self.start as int, self.current + 1)
                    =~= self.source@.subrange(self.start as int, self.current as int).push(
                    self.source@[self.current as int],
                ));
            }
            self.current += 1;
        }
        let int_end = self.current;
        let mut has_fraction = false;
        if self.current < len && self.source[self.current] == '.' && self.current + 1 < len
            && is_digit_char(self.source[self.current + 1]) {
            self.current += 2;
            has_fraction = true;
            proof {
                assert(self.source@.subrange(int_end + 1, int_end + 2) =~= seq![
                    self.source@[int_end + 1],
                ]);
                lemma_newline_count_split(
                    self.source@,
                    old(self).current as int,
                    self.current - 2,
                    self.current as int,
                );
                lemma_newline_count_zero(self.source@, self.current - 2, self.current as int);
            }
            while self.current < len && is_digit_char(self.source[self.current])
                invariant
                    self.wf(),
                    self.source@ == old(self).source@,
                    self.start == old(self).start,
                    self.line == old(self).line,
                    len == self.source@.len(),
                    self.current >= old(self).current,
                    self.start < int_end,
                    int_end + 1 < self.current,
                    newline_count(self.source@, old(self).current as int, self.current as int)
                        == 0,
                    self.source@[int_end as int] == '.',
                    all_digits(self.source@.subrange(self.start as int, int_end as int)),
                    all_digits(self.source@.subrange(int_end + 1, self.current as int)),
                decreases len - self.current,
            {
                proof {
                    assert(self.source@.subrange(int_end + 1, self.current + 1)
                        =~= self.source@.subrange(int_end + 1, self.current as int).push(
                        self.source@[self.current as int],
                    ));
                }
                self.current += 1;
            }
        }
        proof {
            let s = self.source@.subrange(self.start as int, self.current as int);
            let k = int_end - self.start as int;
            assert(s.subrange(0, k) =~= self.source@.subrange(self.start as int, int_end as int));
            if has_fraction {
                assert(s[k] == '.');
                assert(!all_digits(s));
                assert(s.subrange(k + 1, s.len() as int) =~= self.source@.subrange(
                    int_end + 1,
                    self.current as int,
                ));
                assert(0 < k <= s.len() && all_digits(s.subrange(0, k)) && (k + 1 < s.len() && s[k]
                    == '.' && all_digits(s.subrange(k + 1, s.len() as int))));
            } else {
                assert(0 < k <= s.len() && all_digits(s.subrange(0, k)) && k == s.len());
            }
            assert(is_number_lexeme(s));
        }
        self.make_token(TokenKind::Number)
    }

    /// Whether the scanned word is this exact text.
    fn lexeme_is(&self, expected: &str) -> (r: bool)
        requires
            self.wf(),
        ensures
            r == (self.source@.subrange(self.start as int, self.current as int) == expected@),
    {
        let exp = str_to_chars(expected);
        chars_eq(&self.source[self.start..self.current], exp.as_slice())
    }

    /// The kind of the scanned word: a keyword's kind if the word is that
    /// keyword, else `Identifier`.
    fn identifier_type(&self) -> (r: TokenKind)
        requires
            self.wf(),
        ensures
            r == keyword_kind(self.source@.subrange(self.start as int, self.current as int)),
            is_word_kind(r),
    {
        if self.lexeme_is("and") {
            TokenKind::And
        } else if self.lexeme_is("class") {
            TokenKind::Class
        } else if self.lexeme_is("else") {
            TokenKind::Else
        } else if self.lexeme_is("false") {
            TokenKind::False
        } else if self.lexeme_is("for") {
            TokenKind::For
        } else if self.lexeme_is("fun") {
            TokenKind::Fun
        } else if self.lexeme_is("if") {
            TokenKind::If
        } else if self.lexeme_is("nil") {
            TokenKind::Nil
        } else if self.lexeme_is("or") {
            TokenKind::Or
        } else if self.lexeme_is("print") {
            TokenKind::Print
        } else if self.lexeme_is("return") {
            TokenKind::Return
        } else if self.lexeme_is("super") {
            TokenKind::Super
        } else if self.lexeme_is("this") {
            TokenKind::This
        } else if self.lexeme_is("true") {
            TokenKind::True
        } else if self.lexeme_is("var") {
            TokenKind::Var
        } else if self.lexeme_is("while") {
            TokenKind::While
        } else {
            TokenKind::Identifier
        }
    }

    /// Scan the rest of an identifier or keyword; its first letter is
    /// already consumed.
    fn identifier(&mut self) -> (r: ScanResult)
        requires
            old(self).wf(),
            old(self).start + 1 == old(self).current,
            'a' <= old(self).source@[old(self).start as int] <= 'z' || 'A' <= old(self).source@[old(self).start as int] <= 'Z',
        ensures
            final(self).wf(),
            final(self).source@ == old(self).source@,
            final(self).start == old(self).start,
            final(self).current >= old(self).current,
            final(self).line == old(self).line,
            newline_count(final(self).source@, old(self).current as int, final(self).current as int)
                == 0,
            r matches Ok(t) && is_word_kind(t.kind) && t.line == final(self).line && t.lexeme@
                == final(self).source@.subrange(final(self).start as int, final(self).current as int)
                && t.kind == keyword_kind(t.lexeme@) && t.lexeme@.len() > 0 && ('a' <= t.lexeme@[0]
                <= 'z' || 'A' <= t.lexeme@[0] <= 'Z'),
            final(self).current == final(self).source@.len() || !('a'
                <= final(self).source@[final(self).current as int] <= 'z' || 'A'
                <= final(self).source@[final(self).current as int] <= 'Z' || '0'
                <= final(self).source@[final(self).current as int] <= '9'),
    {
        let len = self.source.len();
        while self.current < len && is_alnum_char(self.source[self.current])
            invariant
                self.wf(),
                self.source@ == old(self).source@,
                self.start == old(self).start,
                self.line == old(self).line,
                len == self.source@.len(),
                self.current >= old(self).current,
                self.start < self.current,
                newline_count(self.source@, old(self).current as int, self.current as int) == 0,
            decreases len - self.current,
        {
            self.current += 1;
        }
        let kind = self.identifier_type();
        self.make_token(kind)
    }

    /// Scan the next token: skip trivia to exactly `skip_end`, then read
    /// the token that starts there. The contract fixes the token's start,
    /// kind, extent, lexeme, line accounting and error messages from the
    /// source text; at the end of the source this yields `Eof` forever.
    pub fn scan_token(&mut self) -> (r: ScanResult)
        requires
            old(self).wf(),
        ensures
            final(self).wf(),
            final(self).source@ == old(self).source@,
            final(self).current >= old(self).current,
            final(self).line >= old(self).line,
            r matches Ok(t) ==> t.line == final(self).line,
            r matches Ok(t) ==> (t.kind == TokenKind::Eof ==> final(self).current
                == final(self).source@.len() && t.lexeme@.len() == 0),
            r matches Ok(t) ==> (t.kind != TokenKind::Eof ==> final(self).current > old(self).current && t.lexeme@ == final(self).source@.subrange(
                final(self).start as int,
                final(self).current as int,
            ) && final(self).start < final(self).current),
            r matches Err(e) ==> final(self).current > old(self).current
                && e.line == final(self).line
                && (e.msg@ == "Unexpected character."@ || e.msg@ == "Unterminated string."@),
            r matches Ok(t) ==> (t.kind == TokenKind::Number ==> is_number_lexeme(t.lexeme@)),
            r matches Ok(t) ==> (t.kind == TokenKind::String ==> t.lexeme@.len() >= 2
                && t.lexeme@[0] == '"' && t.lexeme@[t.lexeme@.len() - 1] == '"'),
            r matches Ok(t) ==> (is_word_kind(t.kind) ==> t.kind == keyword_kind(t.lexeme@)),
            r matches Ok(t) ==> (punct_text(t.kind) matches Some(s) ==> t.lexeme@ == s),
            r matches Ok(t) ==> (t.kind == TokenKind::Identifier ==> t.lexeme@.len() > 0 && ('a'
                <= t.lexeme@[0] <= 'z' || 'A' <= t.lexeme@[0] <= 'Z')),
            old(self).current == old(self).source@.len() ==> (r matches Ok(t) && t.kind
                == TokenKind::Eof) && final(self).current == old(self).current && final(self).line
                == old(self).line,
            final(self).start < final(self).source@.len() ==> (punct_kind_at(
                final(self).source@,
                final(self).start as int,
            ) matches Some(k) ==> (r matches Ok(t) && t.kind == k)),
            final(self).start < final(self).source@.len() && final(self).source@[final(self).start as int] == '"' ==> (r matches Ok(t) ==> t.kind
                == TokenKind::String && (forall|k: int|
                0 < k < t.lexeme@.len() - 1 ==> t.lexeme@[k] != '"')) && (r matches Err(e) ==> e.msg@ == "Unterminated string."@
                && (forall|k: int|
                final(self).start < k < final(self).source@.len()
                    ==> final(self).source@[k] != '"')) && ((exists|k: int|
                final(self).start < k < final(self).source@.len() && final(self).source@[k] == '"')
                ==> r is Ok),
            final(self).start < final(self).source@.len() && '0'
                <= final(self).source@[final(self).start as int] <= '9' ==> (r matches Ok(t)
                && t.kind == TokenKind::Number) && (final(self).current == final(self).source@.len() || !('0' <= final(self).source@[final(self).current as int] <= '9')) && (
            all_digits(
                final(self).source@.subrange(final(self).start as int, final(self).current as int),
            ) ==> !(final(self).current + 1 < final(self).source@.len() && final(self).source@[final(self).current as int] == '.' && '0' <= final(self).source@[final(self).current + 1] <= '9')),
            final(self).start < final(self).source@.len() && ('a'
                <= final(self).source@[final(self).start as int] <= 'z' || 'A'
                <= final(self).source@[final(self).start as int] <= 'Z') ==> (r matches Ok(t)
                && is_word_kind(t.kind)) && (final(self).current == final(self).source@.len() || !(
            'a' <= final(self).source@[final(self).current as int] <= 'z' || 'A'
                <= final(self).source@[final(self).current as int] <= 'Z' || '0'
                <= final(self).source@[final(self).current as int] <= '9')),
            final(self).start < final(self).source@.len() && !starts_token(
                final(self).source@[final(self).start as int],
            ) ==> (r matches Err(e) && e.msg@ == "Unexpected character."@),
            final(self).start == final(self).source@.len() ==> (r matches Ok(t) && t.kind
                == TokenKind::Eof),
            final(self).start == skip_end(old(self).source@, old(self).current as int),
            final(self).start < final(self).source@.len() ==> !trivia_at(
                final(self).source@,
                final(self).start as int,
            ),
            final(self).line <= old(self).line + newline_count(
                old(self).source@,
                old(self).current as int,
                final(self).current as int,
            ),
            old(self).line + newline_count(
                old(self).source@,
                old(self).current as int,
                final(self).current as int,
            ) <= usize::MAX ==> final(self).line == old(self).line + newline_count(
                old(self).source@,
                old(self).current as int,
                final(self).current as int,
            ),
    {
        self.skip_whitespace();
        self.start = self.current;
        match self.advance() {
            None => {
                let t = self.make_token(TokenKind::Eof);
                proof {
                    lemma_newline_count_nonneg(
                        self.source@,
                        old(self).current as int,
                        self.current as int,
                    );
                }
                t
            },
            Some(c) => {
                if c == '(' {
                    let t = self.make_token(TokenKind::LeftParen);
                    proof {
                        reveal_strlit("(");
                        assert(t->Ok_0.lexeme@ =~= "("@);

                        lemma_newline_count_zero(
                            self.source@,
                            self.start as int,
                            self.current as int,
                        );
                        lemma_newline_count_split(
                            self.source@,
                            old(self).current as int,
                            self.start as int,
                            self.current as int,
                        );
                        lemma_newline_count_nonneg(
                            self.source@,
                            old(self).current as int,
                            self.start as int,
                        );
                    }
                    t
                } else if c == ')' {
                    let t = self.make_token(TokenKind::RightParen);
                    proof {
                        reveal_strlit(")");
                        assert(t->Ok_0.lexeme@ =~= ")"@);

                        lemma_newline_count_zero(
                            self.source@,
                            self.start as int,
                            self.current as int,
                        );
                        lemma_newline_count_split(
                            self.source@,
                            old(self).current as int,
                            self.start as int,
                            self.current as int,
                        );
                        lemma_newline_count_nonneg(
                            self.source@,
                            old(self).current as int,
                            self.start as int,
                        );
                    }
                    t
                } else if c == '{' {
                    let t = self.make_token(TokenKind::LeftBrace);
                    proof {
                        reveal_strlit("{");
                        assert(t->Ok_0.lexeme@ =~= "{"@);

                        lemma_newline_count_zero(
                            self.source@,
                            self.start as int,
                            self.current as int,
                        );
                        lemma_newline_count_split(
                            self.source@,
                            old(self).current as int,
                            self.start as int,
                            self.current as int,
                        );
                        lemma_newline_count_nonneg(
                            self.source@,
                            old(self).current as int,
                            self.start as int,
                        );
                    }
                    t
                } else if c == '}' {
                    let t = self.make_token(TokenKind::RightBrace);
                    proof {
                        reveal_strlit("}");
                        assert(t->Ok_0.lexeme@ =~= "}"@);

                        lemma_newline_count_zero(
                            self.source@,
                            self.start as int,
                            self.current as int,
                        );
                        lemma_newline_count_split(
                            self.source@,
                            old(self).current as int,
                            self.start as int,
                            self.current as int,
                        );
                        lemma_newline_count_nonneg(
                            self.source@,
                            old(self).current as int,
                            self.start as int,
                        );
                    }
                    t
                } else if c == ';' {
                    let t = self.make_token(TokenKind::Semicolon);
                    proof {
                        reveal_strlit(";");
                        assert(t->Ok_0.lexeme@ =~= ";"@);

                        lemma_newline_count_zero(
                            self.source@,
                            self.start as int,
                            self.current as int,
                        );
                        lemma_newline_count_split(
                            self.source@,
                            old(self).current as int,
                            self.start as int,
                            self.current as int,
                        );
                        lemma_newline_count_nonneg(
                            self.source@,
                            old(self).current as int,
                            self.start as int,
                        );
                    }
                    t
                } else if c == ',' {
                    let t = self.make_token(TokenKind::Comma);
                    proof {
                        reveal_strlit(",");
                        assert(t->Ok_0.lexeme@ =~= ","@);

                        lemma_newline_count_zero(
                            self.source@,
                            self.start as int,
                            self.current as int,
                        );
                        lemma_newline_count_split(
                            self.source@,
                            old(self).current as int,
                            self.start as int,
                            self.current as int,
                        );
                        lemma_newline_count_nonneg(
                            self.source@,
                            old(self).current as int,
                            self.start as int,
                        );
                    }
                    t
                } else if c == '.' {
                    let t = self.make_token(TokenKind::Dot);
                    proof {
                        reveal_strlit(".");
                        assert(t->Ok_0.lexeme@ =~= "."@);

                        lemma_newline_count_zero(
                            self.source@,
                            self.start as int,
                            self.current as int,
                        );
                        lemma_newline_count_split(
                            self.source@,
                            old(self).current as int,
                            self.start as int,
                            self.current as int,
                        );
                        lemma_newline_count_nonneg(
                            self.source@,
                            old(self).current as int,
                            self.start as int,
                        );
                    }
                    t
                } else if c == '-' {
                    let t = self.make_token(TokenKind::Minus);
                    proof {
                        reveal_strlit("-");
                        assert(t->Ok_0.lexeme@ =~= "-"@);

                        lemma_newline_count_zero(
                            self.source@,
                            self.start as int,
                            self.current as int,
                        );
                        lemma_newline_count_split(
                            self.source@,
                            old(self).current as int,
                            self.start as int,
                            self.current as int,
                        );
                        lemma_newline_count_nonneg(
                            self.source@,
                            old(self).current as int,
                            self.start as int,
                        );
                    }
                    t
                } else if c == '+' {
                    let t = self.make_token(TokenKind::Plus);
                    proof {
                        reveal_strlit("+");
                        assert(t->Ok_0.lexeme@ =~= "+"@);

                        lemma_newline_count_zero(
                            self.source@,
                            self.start as int,
                            self.current as int,
                        );
                        lemma_newline_count_split(
                            self.source@,
                            old(self).current as int,
                            self.start as int,
                            self.current as int,
                        );
                        lemma_newline_count_nonneg(
                            self.source@,
                            old(self).current as int,
                            self.start as int,
                        );
                    }
                    t
                } else if c == '/' {
                    let t = self.make_token(TokenKind::Slash);
                    proof {
                        reveal_strlit("/");
                        assert(t->Ok_0.lexeme@ =~= "/"@);

                        lemma_newline_count_zero(
                            self.source@,
                            self.start as int,
                            self.current as int,
                        );
                        lemma_newline_count_split(
                            self.source@,
                            old(self).current as int,
                            self.start as int,
                            self.current as int,
                        );
                        lemma_newline_count_nonneg(
                            self.source@,
                            old(self).current as int,
                            self.start as int,
                        );
                    }
                    t
                } else if c == '*' {
                    let t = self.make_token(TokenKind::Star);
                    proof {
                        reveal_strlit("*");
                        assert(t->Ok_0.lexeme@ =~= "*"@);

                        lemma_newline_count_zero(
                            self.source@,
                            self.start as int,
                            self.current as int,
                        );
                        lemma_newline_count_split(
                            self.source@,
                            old(self).current as int,
                            self.start as int,
                            self.current as int,
                        );
                        lemma_newline_count_nonneg(
                            self.source@,
                            old(self).current as int,
                            self.start as int,
                        );
                    }
                    t
                } else if c == '!' {
                    if self.try_match('=') {
                        let t = self.make_token(TokenKind::BangEqual);
                        proof {
                            reveal_strlit("!=");
                            assert(t->Ok_0.lexeme@ =~= "!="@);

                        lemma_newline_count_zero(
                            self.source@,
                            self.start as int,
                            self.current as int,
                        );
                        lemma_newline_count_split(
                            self.source@,
                            old(self).current as int,
                            self.start as int,
                            self.current as int,
                        );
                        lemma_newline_count_nonneg(
                            self.source@,
                            old(self).current as int,
                            self.start as int,
                        );
                        }
                        t
                    } else {
                        let t = self.make_token(TokenKind::Bang);
                        proof {
                            reveal_strlit("!");
                            assert(t->Ok_0.lexeme@ =~= "!"@);

                        lemma_newline_count_zero(
                            self.source@,
                            self.start as int,
                            self.current as int,
                        );
                        lemma_newline_count_split(
                            self.source@,
                            old(self).current as int,
                            self.start as int,
                            self.current as int,
                        );
                        lemma_newline_count_nonneg(
                            self.source@,
                            old(self).current as int,
                            self.start as int,
                        );
                        }
                        t
                    }
                } else if c == '=' {
                    if self.try_match('=') {
                        let t = self.make_token(TokenKind::EqualEqual);
                        proof {
                            reveal_strlit("==");
                            assert(t->Ok_0.lexeme@ =~= "=="@);

                        lemma_newline_count_zero(
                            self.source@,
                            self.start as int,
                            self.current as int,
                        );
                        lemma_newline_count_split(
                            self.source@,
                            old(self).current as int,
                            self.start as int,
                            self.current as int,
                        );
                        lemma_newline_count_nonneg(
                            self.source@,
                            old(self).current as int,
                            self.start as int,
                        );
                        }
                        t
                    } else {
                        let t = self.make_token(TokenKind::Equal);
                        proof {
                            reveal_strlit("=");
                            assert(t->Ok_0.lexeme@ =~= "="@);

                        lemma_newline_count_zero(
                            self.source@,
                            self.start as int,
                            self.current as int,
                        );
                        lemma_newline_count_split(
                            self.source@,
                            old(self).current as int,
                            self.start as int,
                            self.current as int,
                        );
                        lemma_newline_count_nonneg(
                            self.source@,
                            old(self).current as int,
                            self.start as int,
                        );
                        }
                        t
                    }
                } else if c == '<' {
                    if self.try_match('=') {
                        let t = self.make_token(TokenKind::LessEqual);
                        proof {
                            reveal_strlit("<=");
                            assert(t->Ok_0.lexeme@ =~= "<="@);

                        lemma_newline_count_zero(
                            self.source@,
                            self.start as int,
                            self.current as int,
                        );
                        lemma_newline_count_split(
                            self.source@,
                            old(self).current as int,
                            self.start as int,
                            self.current as int,
                        );
                        lemma_newline_count_nonneg(
                            self.source@,
                            old(self).current as int,
                            self.start as int,
                        );
                        }
                        t
                    } else {
                        let t = self.make_token(TokenKind::Less);
                        proof {
                            reveal_strlit("<");
                            assert(t->Ok_0.lexeme@ =~= "<"@);

                        lemma_newline_count_zero(
                            self.source@,
                            self.start as int,
                            self.current as int,
                        );
                        lemma_newline_count_split(
                            self.source@,
                            old(self).current as int,
                            self.start as int,
                            self.current as int,
                        );
                        lemma_newline_count_nonneg(
                            self.source@,
                            old(self).current as int,
                            self.start as int,
                        );
                        }
                        t
                    }
                } else if c == '>' {
                    if self.try_match('=') {
                        let t = self.make_token(TokenKind::GreaterEqual);
                        proof {
                            reveal_strlit(">=");
                            assert(t->Ok_0.lexeme@ =~= ">="@);

                        lemma_newline_count_zero(
                            self.source@,
                            self.start as int,
                            self.current as int,
                        );
                        lemma_newline_count_split(
                            self.source@,
                            old(self).current as int,
                            self.start as int,
                            self.current as int,
                        );
                        lemma_newline_count_nonneg(
                            self.source@,
                            old(self).current as int,
                            self.start as int,
                        );
                        }
                        t
                    } else {
                        let t = self.make_token(TokenKind::Greater);
                        proof {
                            reveal_strlit(">");
                            assert(t->Ok_0.lexeme@ =~= ">"@);

                        lemma_newline_count_zero(
                            self.source@,
                            self.start as int,
                            self.current as int,
                        );
                        lemma_newline_count_split(
                            self.source@,
                            old(self).current as int,
                            self.start as int,
                            self.current as int,
                        );
                        lemma_newline_count_nonneg(
                            self.source@,
                            old(self).current as int,
                            self.start as int,
                        );
                        }
                        t
                    }
                } else if c == '"' {
                    let ghost mid = self.current as int;
                    let t = self.string();
                    proof {
                        lemma_newline_count_zero(self.source@, self.start as int, mid);
                        lemma_newline_count_split(
                            self.source@,
                            self.start as int,
                            mid,
                            self.current as int,
                        );
                        lemma_newline_count_split(
                            self.source@,
                            old(self).current as int,
                            self.start as int,
                            self.current as int,
                        );
                        lemma_newline_count_nonneg(
                            self.source@,
                            old(self).current as int,
                            self.start as int,
                        );
                        lemma_newline_count_nonneg(self.source@, mid, self.current as int);
                    }
                    t
                } else if is_digit_char(c) {
                    let ghost mid = self.current as int;
                    let t = self.number();
                    proof {
                        lemma_newline_count_zero(self.source@, self.start as int, mid);
                        lemma_newline_count_split(
                            self.source@,
                            self.start as int,
                            mid,
                            self.current as int,
                        );
                        lemma_newline_count_split(
                            self.source@,
                            old(self).current as int,
                            self.start as int,
                            self.current as int,
                        );
                        lemma_newline_count_nonneg(
                            self.source@,
                            old(self).current as int,
                            self.start as int,
                        );
                    }
                    t
                } else if is_alpha_char(c) {
                    let ghost mid = self.current as int;
                    let t = self.identifier();
                    proof {
                        lemma_newline_count_zero(self.source@, self.start as int, mid);
                        lemma_newline_count_split(
                            self.source@,
                            self.start as int,
                            mid,
                            self.current as int,
                        );
                        lemma_newline_count_split(
                            self.source@,
                            old(self).current as int,
                            self.start as int,
                            self.current as int,
                        );
                        lemma_newline_count_nonneg(
                            self.source@,
                            old(self).current as int,
                            self.start as int,
                        );
                    }
                    t
                } else {
                    let t = self.make_error("Unexpected character.");
                    proof {
                        lemma_newline_count_zero(
                            self.source@,
                            self.start as int,
                            self.current as int,
                        );
                        lemma_newline_count_split(
                            self.source@,
                            old(self).current as int,
                            self.start as int,
                            self.current as int,
                        );
                        lemma_newline_count_nonneg(
                            self.source@,
                            old(self).current as int,
                            self.start as int,
                        );
                    }
                    t
                }
            },
        }
    }
}

/// Whether `c` is a decimal digit.
fn is_digit_char(c: char) -> (r: bool)
    ensures
        r == ('0' <= c <= '9'),
{
    '0' <= c && c <= '9'
}

/// Whether `c` can start an identifier: an ASCII letter.
fn is_alpha_char(c: char) -> (r: bool)
    ensures
        r == ('a' <= c <= 'z' || 'A' <= c <= 'Z'),
{
    ('a' <= c && c <= 'z') || ('A' <= c && c <= 'Z')
}

/// Whether `c` can continue an identifier: an ASCII letter or digit.
fn is_alnum_char(c: char) -> (r: bool)
    ensures
        r == ('a' <= c <= 'z' || 'A' <= c <= 'Z' || '0' <= c <= '9'),
{
    ('a' <= c && c <= 'z') || ('A' <= c && c <= 'Z') || ('0' <= c && c <= '9')
}

} // verus!
