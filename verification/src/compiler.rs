//! The compiler: scans the source into a token stream, parses
//! declarations with a Pratt parser, and emits bytecode into a chunk.
//! Parse errors accumulate as text; they never unwind. This file holds
//! the parser's state and its basic operations: pulling tokens,
//! reporting errors, and emitting instructions; the grammar itself is in
//! the `parser` module.

pub mod compiler_state;
pub mod parser;

use crate::chunk::{is_start, Chunk};
use crate::instructions::{spec_encode_op, Op};
use crate::number::is_number_lexeme;
use crate::scanner::{ScanErr, Scanner, Token, TokenKind};
use crate::text::{dec_text, usize_string};
use crate::value::{AbsValue, StringInterns, Value};
use vstd::prelude::*;
use vstd::seq_lib::group_seq_properties;
use vstd::string::StringExecFns;

pub use compiler_state::{Compiler, Local};

verus! {

broadcast use group_seq_properties;

/// What the scanner guarantees of every token it yields: a number's
/// lexeme has the shape of a numeric literal, and a string's lexeme is
/// quoted.
pub open spec fn token_ok(t: Token) -> bool {
    &&& t.kind == TokenKind::Number ==> is_number_lexeme(t.lexeme@)
    &&& t.kind == TokenKind::String ==> t.lexeme@.len() >= 2 && t.lexeme@[0] == '"'
        && t.lexeme@[t.lexeme@.len() - 1] == '"'
}

/// A well-formed token stream: nonempty, ending in exactly one `Eof`
/// token, each token as the scanner promises.
pub open spec fn stream_ok(tokens: Seq<Result<Token, ScanErr>>) -> bool {
    &&& tokens.len() > 0
    &&& (tokens.last() matches Ok(t) && t.kind == TokenKind::Eof)
    &&& forall|i: int|
        0 <= i < tokens.len() - 1 ==> (#[trigger] tokens[i] matches Ok(t) ==> t.kind
            != TokenKind::Eof)
    &&& forall|i: int|
        0 <= i < tokens.len() ==> (#[trigger] tokens[i] matches Ok(t) ==> token_ok(t))
}

/// The chunk `b` continues `a`: the instructions of `a` are still there
/// (operands of patched jumps aside), and whatever was emitted after
/// them begins exactly at `a`'s old end.
pub open spec fn extends(a: Chunk, b: Chunk) -> bool {
    &&& a.starts@.len() <= b.starts@.len()
    &&& forall|j: int| 0 <= j < a.starts@.len() ==> a.starts@[j] == #[trigger] b.starts@[j]
    &&& b.code@.len() >= a.code@.len()
    &&& (b.code@.len() > a.code@.len() ==> is_start(b.starts@, a.code@.len() as int))
    &&& a.constants@.len() <= b.constants@.len()
    &&& forall|j: int|
        0 <= j < a.constants@.len() ==> a.constants@[j] == #[trigger] b.constants@[j]
}

/// `extends` composes.
pub proof fn lemma_extends_trans(a: Chunk, b: Chunk, c: Chunk)
    requires
        extends(a, b),
        extends(b, c),
    ensures
        extends(a, c),
{
    if c.code@.len() > a.code@.len() {
        if b.code@.len() > a.code@.len() {
            let j = choose|j: int|
                0 <= j < b.starts@.len() && b.starts@[j] == a.code@.len() as int;
            assert(c.starts@[j] == a.code@.len() as int);
        } else {
            assert(is_start(c.starts@, b.code@.len() as int));
        }
    }
}

/// A chunk extended by one instruction at its old end continues it.
pub proof fn lemma_extends_push(a: Chunk, b: Chunk)
    requires
        b.starts@ == a.starts@.push(a.code@.len() as int),
        b.code@.len() >= a.code@.len(),
        b.constants@ == a.constants@,
    ensures
        extends(a, b),
{
    assert(b.starts@[a.starts@.len() as int] == a.code@.len() as int);
}

/// A position a loop may jump back to: where the next instruction will
/// go, or where an existing instruction begins.
pub open spec fn loopable(c: Chunk, t: int) -> bool {
    t == c.code@.len() || is_start(c.starts@, t)
}

/// A loop target stays a loop target as the chunk is extended.
pub proof fn lemma_loopable(a: Chunk, b: Chunk, t: int)
    requires
        extends(a, b),
        loopable(a, t),
    ensures
        loopable(b, t),
{
    if t == a.code@.len() {
    } else {
        let j = choose|j: int| 0 <= j < a.starts@.len() && a.starts@[j] == t;
        assert(b.starts@[j] == t);
    }
}

/// The parser and emitter state for one compilation.
pub struct Parser {
    pub tokens: Vec<Result<Token, ScanErr>>,
    pub idx: usize,
    pub chunk: Chunk,
    pub previous: Option<Token>,
    pub current: Token,
    pub had_error: bool,
    pub panic_mode: bool,
    pub strings: StringInterns,
    pub compiler: Compiler,
    pub errors: String,
}

/// What every parsing step preserves: the token stream itself, forward
/// motion through it, continuation of the chunk, accumulated errors
/// never disappearing, and pending jumps never dropped.
pub open spec fn parser_frame_weak(pre: Parser, post: Parser) -> bool {
    &&& post.tokens@ == pre.tokens@
    &&& post.idx >= pre.idx
    &&& extends(pre.chunk, post.chunk)
    &&& (pre.had_error ==> post.had_error)
    &&& (!post.had_error ==> post.errors@ == pre.errors@ && !pre.had_error)
    &&& forall|p: int|
        pre.chunk.pending@.contains(p) ==> #[trigger] post.chunk.pending@.contains(p)
}

/// The weak frame, and further: when no error has been reported, the
/// set of pending jumps is exactly as before.
pub open spec fn parser_frame(pre: Parser, post: Parser) -> bool {
    &&& parser_frame_weak(pre, post)
    &&& (post.chunk.pending@ == pre.chunk.pending@ || post.had_error)
}

/// Bytes were appended past `pre` and the code now ends with `suffix`:
/// `post` is `pre`, then anything, then `suffix`.
pub open spec fn appended_through(pre: Seq<u8>, post: Seq<u8>, suffix: Seq<u8>) -> bool {
    &&& post.len() >= pre.len() + suffix.len()
    &&& post.subrange(post.len() - suffix.len(), post.len() as int) == suffix
}

/// Anything appended after a continuation of `pre` ends the code with
/// itself.
pub proof fn lemma_appended_through(pre: Seq<u8>, mid: Seq<u8>, suffix: Seq<u8>)
    requires
        mid.len() >= pre.len(),
    ensures
        appended_through(pre, mid + suffix, suffix),
{
    assert((mid + suffix).subrange(mid.len() as int, (mid + suffix).len() as int) =~= suffix);
}

/// Two instructions appended in a row end the code with their
/// concatenation.
pub proof fn lemma_appended_through_two(pre: Seq<u8>, mid: Seq<u8>, e1: Seq<u8>, e2: Seq<u8>)
    requires
        mid.len() >= pre.len(),
    ensures
        appended_through(pre, mid + e1 + e2, e1 + e2),
{
    assert((mid + e1 + e2).subrange(mid.len() as int, (mid + e1 + e2).len() as int) =~= e1 + e2);
}

/// The diagnostic line that a compile error appends to the error text.
pub open spec fn diag_text(line: usize, at: Seq<char>, msg: Seq<char>) -> Seq<char> {
    "[line "@ + dec_text(line as nat) + "] Error"@ + at + ": "@ + msg + "\n"@
}

/// The location note of a diagnostic: ` at end` for the end of input,
/// else ` at '<lexeme>'`.
pub open spec fn at_text(t: Token) -> Seq<char> {
    if t.kind == TokenKind::Eof {
        " at end"@
    } else {
        " at '"@ + t.lexeme@ + "'"@
    }
}

/// The `Eof` token that stands as `previous` before the first real
/// token is consumed.
pub fn stub_token() -> (r: Token)
    ensures
        r.kind == TokenKind::Eof,
        r.lexeme@ == Seq::<char>::empty(),
        r.line == 0,
        token_ok(r),
{
    Token { kind: TokenKind::Eof, lexeme: String::new(), line: 0 }
}

/// Run the scanner over the whole source: every token and every scan
/// error, in order, ending with the first `Eof` token.
fn scan_all(source: String) -> (r: Vec<Result<Token, ScanErr>>)
    ensures
        stream_ok(r@),
        crate::scanner::skip_end(source@, 0) == source@.len() ==> r@.len() == 1,
        (crate::scanner::skip_end(source@, 0) < source@.len() && !crate::scanner::starts_token(
            source@[crate::scanner::skip_end(source@, 0)],
        )) ==> r@[0] is Err,
        (crate::scanner::skip_end(source@, 0) < source@.len()
            && source@[crate::scanner::skip_end(source@, 0)] == '"' && (forall|k: int|
            crate::scanner::skip_end(source@, 0) < k < source@.len()
                ==> source@[k] != '"')) ==> r@[0] is Err,
        crate::scanner::skip_end(source@, 0) < source@.len() ==> (crate::scanner::punct_kind_at(
            source@,
            crate::scanner::skip_end(source@, 0),
        ) matches Some(k) ==> (r@[0] matches Ok(t) && t.kind == k)),
{
    let mut scanner = Scanner::new(source);
    let len = scanner.source.len();
    let mut items: Vec<Result<Token, ScanErr>> = Vec::new();
    loop
        invariant
            scanner.wf(),
            len == scanner.source@.len(),
            len == source@.len(),
            scanner.source@ == source@,
            crate::scanner::skip_end(source@, 0) == len ==> items@.len() == 0,
            items@.len() == 0 ==> scanner.current == 0,
            (crate::scanner::skip_end(source@, 0) < len && !crate::scanner::starts_token(
                source@[crate::scanner::skip_end(source@, 0)],
            )) ==> (items@.len() == 0 || items@[0] is Err),
            (crate::scanner::skip_end(source@, 0) < len
                && source@[crate::scanner::skip_end(source@, 0)] == '"' && (forall|k: int|
                crate::scanner::skip_end(source@, 0) < k < len ==> source@[k] != '"')) ==> (
            items@.len() == 0 || items@[0] is Err),
            crate::scanner::skip_end(source@, 0) < len ==> (crate::scanner::punct_kind_at(
                source@,
                crate::scanner::skip_end(source@, 0),
            ) matches Some(k) ==> (items@.len() == 0 || (items@[0] matches Ok(t) && t.kind
                == k))),
            forall|i: int|
                0 <= i < items@.len() ==> (#[trigger] items@[i] matches Ok(t) ==> t.kind
                    != TokenKind::Eof && token_ok(t)),
        decreases 2 * (len - scanner.current) + 1,
    {
        let ghost c0 = scanner.current;
        match scanner.scan_token() {
            Ok(t) => {
                let is_eof = t.kind == TokenKind::Eof;
                let ghost pre_items = items@;
                items.push(Ok(t));
                if is_eof {
                    proof {
                        assert forall|i: int|
                            0 <= i < items@.len() - 1 implies (#[trigger] items@[i] matches Ok(
                            u,
                        ) ==> u.kind != TokenKind::Eof) by {
                            assert(items@[i] == pre_items[i]);
                        }
                        assert forall|i: int| 0 <= i < items@.len() implies (
                        #[trigger] items@[i] matches Ok(u) ==> token_ok(u)) by {
                            if i < items@.len() - 1 {
                                assert(items@[i] == pre_items[i]);
                            }
                        }
                    }
                    return items;
                } else {
                    proof {
                        assert(scanner.current > c0);
                    }
                }
            },
            Err(e) => {
                items.push(Err(e));
                proof {
                    assert(scanner.current > c0);
                }
            },
        }
    }
}

/// Compile `source` to a chunk. Parse errors are appended to `errors` as
/// diagnostic lines and yield no chunk; otherwise the chunk is closed
/// with a final `Return`, every jump in it has been patched to land on
/// an instruction boundary, and no diagnostics were written. A source of
/// only whitespace and comments compiles to exactly the bare `Return`;
/// one whose first token is a scan error, or an operator with no prefix
/// rule, never compiles.
pub fn compile(source: String, strings: &mut StringInterns, errors: &mut String) -> (r: Option<
    Chunk,
>)
    requires
        old(strings).wf(),
    ensures
        final(strings).wf(),
        r matches Some(c) ==> c.wf() && c.pending@ == Set::<int>::empty() && c.starts@.len() > 0
            && crate::instructions::spec_decode(c.code@, c.starts@.last()) == Some(
            (Op::Return, c.code@.len() as int),
        ),
        r is Some ==> final(errors)@ == old(errors)@,
        r is None ==> final(errors)@.len() > old(errors)@.len(),
        crate::scanner::skip_end(source@, 0) == source@.len() ==> (r matches Some(c) && c.code@
            == crate::instructions::spec_encode_op(Op::Return)),
        (crate::scanner::skip_end(source@, 0) < source@.len() && !crate::scanner::starts_token(
            source@[crate::scanner::skip_end(source@, 0)],
        )) ==> r is None,
        (crate::scanner::skip_end(source@, 0) < source@.len()
            && source@[crate::scanner::skip_end(source@, 0)] == '"' && (forall|k: int|
            crate::scanner::skip_end(source@, 0) < k < source@.len()
                ==> source@[k] != '"')) ==> r is None,
        crate::scanner::skip_end(source@, 0) < source@.len() ==> (crate::scanner::punct_kind_at(
            source@,
            crate::scanner::skip_end(source@, 0),
        ) matches Some(k) ==> (parser::spec_get_rule(k).prefix is None && k
            != TokenKind::LeftBrace ==> r is None)),
{
    let ghost src = source@;
    let tokens = scan_all(source);
    let mut owned = StringInterns::new();
    core::mem::swap(&mut owned, strings);
    let mut parser = Parser::new(tokens, owned);
    let ghost start = parser;
    proof {
        if crate::scanner::skip_end(src, 0) == src.len() {
            assert(parser.tokens@[0] is Ok);
            assert(parser.chunk.code@ =~= Seq::<u8>::empty());
        }
    }
    loop
        invariant
            parser.wf(),
            parser.ready(),
            crate::scanner::skip_end(src, 0) == src.len() ==> !parser.had_error
                && parser.current.kind == TokenKind::Eof && parser.chunk.code@ == Seq::<
                u8,
            >::empty(),
            (crate::scanner::skip_end(src, 0) < src.len() && !crate::scanner::starts_token(
                src[crate::scanner::skip_end(src, 0)],
            )) ==> parser.had_error,
            (crate::scanner::skip_end(src, 0) < src.len()
                && src[crate::scanner::skip_end(src, 0)] == '"' && (forall|k: int|
                crate::scanner::skip_end(src, 0) < k < src.len() ==> src[k] != '"'))
                ==> parser.had_error,
            crate::scanner::skip_end(src, 0) < src.len() ==> (crate::scanner::punct_kind_at(
                src,
                crate::scanner::skip_end(src, 0),
            ) matches Some(k) ==> (parser::spec_get_rule(k).prefix is None && k
                != TokenKind::LeftBrace ==> parser.had_error || (parser.idx == 1
                && parser.current.kind == k))),
            parser.chunk.pending@ == start.chunk.pending@ || parser.had_error,
            start.chunk.pending@ == Set::<int>::empty(),
            !parser.had_error ==> parser.errors@.len() == 0,
            parser.had_error ==> parser.errors@.len() > 0,
            parser.strings.wf(),
        ensures
            parser.wf(),
            parser.ready(),
            parser.current.kind == TokenKind::Eof,
            crate::scanner::skip_end(src, 0) == src.len() ==> !parser.had_error
                && parser.chunk.code@ == Seq::<u8>::empty(),
            (crate::scanner::skip_end(src, 0) < src.len() && !crate::scanner::starts_token(
                src[crate::scanner::skip_end(src, 0)],
            )) ==> parser.had_error,
            (crate::scanner::skip_end(src, 0) < src.len()
                && src[crate::scanner::skip_end(src, 0)] == '"' && (forall|k: int|
                crate::scanner::skip_end(src, 0) < k < src.len() ==> src[k] != '"'))
                ==> parser.had_error,
            crate::scanner::skip_end(src, 0) < src.len() ==> (crate::scanner::punct_kind_at(
                src,
                crate::scanner::skip_end(src, 0),
            ) matches Some(k) ==> (parser::spec_get_rule(k).prefix is None && k
                != TokenKind::LeftBrace ==> parser.had_error)),
            parser.chunk.pending@ == start.chunk.pending@ || parser.had_error,
            !parser.had_error ==> parser.errors@.len() == 0,
            parser.had_error ==> parser.errors@.len() > 0,
            parser.strings.wf(),
        decreases parser.metric(),
    {
        if parser.match_t(TokenKind::Eof) {
            break ;
        }
        proof {
            if parser.had_error {
                assert(parser.errors@.len() > 0);
            }
        }
        parser.declaration();
    }
    let ghost before_ret = parser;
    parser.emit_ins(Op::Return);
    proof {
        crate::instructions::lemma_encode_decode(before_ret.chunk.code@, Op::Return, Seq::empty());
        assert(before_ret.chunk.code@ + spec_encode_op(Op::Return) + Seq::<u8>::empty()
            =~= parser.chunk.code@);
    }
    core::mem::swap(strings, &mut parser.strings);
    errors.append(parser.errors.as_str());
    if parser.had_error {
        return None;
    }
    proof {
        assert(parser.chunk.pending@ =~= Set::<int>::empty());
        assert(errors@ =~= old(errors)@);
        if crate::scanner::skip_end(src, 0) == src.len() {
            assert(parser.chunk.code@ =~= spec_encode_op(Op::Return));
        }
    }
    Some(parser.chunk)
}

impl Parser {
    /// Well-formed parser state: a valid position in a well-formed
    /// stream, `Eof` as the current token exactly at its end, and every
    /// component's own invariant.
    pub open spec fn wf(&self) -> bool {
        &&& stream_ok(self.tokens@)
        &&& self.idx <= self.tokens@.len()
        &&& (self.current.kind == TokenKind::Eof <==> self.idx == self.tokens@.len())
        &&& token_ok(self.current)
        &&& (self.previous matches Some(t) ==> token_ok(t))
        &&& self.previous is Some
        &&& (self.panic_mode ==> self.had_error)
        &&& (self.had_error ==> self.errors@.len() > 0)
        &&& self.compiler.scope_depth <= self.idx
        &&& self.chunk.wf()
        &&& self.compiler.wf()
        &&& self.strings.wf()
    }

    /// How much of the token stream is left: the termination measure of
    /// the recursive descent.
    pub open spec fn metric(&self) -> int {
        self.tokens@.len() - self.idx
    }

    /// Between declarations every local is initialized, so a new one may
    /// be declared.
    pub open spec fn ready(&self) -> bool {
        self.compiler.locals@.len() == 0 || self.compiler.locals@.last().depth is Some
    }

    /// A parser over `tokens`, with the first token already current.
    pub fn new(tokens: Vec<Result<Token, ScanErr>>, strings: StringInterns) -> (r: Parser)
        requires
            stream_ok(tokens@),
            strings.wf(),
        ensures
            r.wf(),
            r.tokens@ == tokens@,
            r.chunk.wf(),
            r.chunk.code@.len() == 0,
            r.chunk.starts@.len() == 0,
            r.chunk.pending@ == Set::<int>::empty(),
            r.compiler.locals@.len() == 0,
            r.compiler.scope_depth == 0,
            !r.had_error ==> r.errors@.len() == 0,
            (forall|i: int| 0 <= i < r.idx ==> tokens@[i] is Ok) ==> !r.had_error
                && r.errors@.len() == 0 && !r.panic_mode,
            r.idx > 0,
            tokens@[0] is Err ==> r.had_error,
            tokens@[0] matches Ok(t) ==> r.current.kind == t.kind && r.idx == 1,
            r.strings == strings,
    {
        let mut p = Parser {
            tokens,
            idx: 0,
            chunk: Chunk::new(),
            previous: Some(stub_token()),
            current: stub_token(),
            had_error: false,
            panic_mode: false,
            strings,
            compiler: Compiler::new(),
            errors: String::new(),
        };
        p.advance();
        p
    }

    /// Pull the next token: the current one becomes `previous`, scan
    /// errors in between are reported. At the end of the stream the
    /// current token stays `Eof`.
    pub fn advance(&mut self)
        requires
            stream_ok(old(self).tokens@),
            old(self).idx <= old(self).tokens@.len(),
            old(self).idx == old(self).tokens@.len() ==> old(self).current.kind == TokenKind::Eof,
            token_ok(old(self).current),
        ensures
            final(self).tokens@ == old(self).tokens@,
            final(self).idx >= old(self).idx,
            (final(self).current.kind == TokenKind::Eof <==> final(self).idx == final(self).tokens@.len()),
            token_ok(final(self).current),
            final(self).previous matches Some(t) && t.kind == old(self).current.kind && t.lexeme@
                == old(self).current.lexeme@ && t.line == old(self).current.line,
            final(self).idx <= final(self).tokens@.len(),
            final(self).idx > old(self).idx || old(self).idx == old(self).tokens@.len(),
            old(self).current.kind != TokenKind::Eof ==> final(self).idx > old(self).idx,
            old(self).current.kind == TokenKind::Eof && old(self).idx == old(self).tokens@.len()
                ==> final(self).idx == old(self).idx && final(self).current == old(self).current
                && final(self).had_error == old(self).had_error && final(self).errors@ == old(self).errors@ && final(self).panic_mode == old(self).panic_mode,
            final(self).chunk == old(self).chunk,
            final(self).compiler == old(self).compiler,
            final(self).strings == old(self).strings,
            old(self).had_error ==> final(self).had_error,
            !final(self).had_error ==> final(self).errors@ == old(self).errors@ && !old(self).had_error,
            (old(self).panic_mode ==> old(self).had_error) ==> (final(self).panic_mode ==> final(self).had_error),
            (old(self).had_error ==> old(self).errors@.len() > 0) ==> (final(self).had_error
                ==> final(self).errors@.len() > 0),
            !old(self).panic_mode && final(self).panic_mode ==> final(self).errors@.len() > old(self).errors@.len(),
            old(self).panic_mode ==> final(self).panic_mode,
            final(self).errors@.len() >= old(self).errors@.len(),
            (forall|i: int|
                old(self).idx <= i < final(self).idx ==> old(self).tokens@[i] is Ok) ==> final(self).had_error == old(self).had_error && final(self).errors@ == old(self).errors@
                && final(self).panic_mode == old(self).panic_mode,
            old(self).panic_mode ==> final(self).errors@ == old(self).errors@ && final(self).panic_mode,
            (old(self).panic_mode ==> old(self).had_error) ==> ((exists|i: int|
                old(self).idx <= i < final(self).idx && old(self).tokens@[i] is Err) ==> final(self).had_error),
            old(self).idx < old(self).tokens@.len() && old(self).tokens@[old(self).idx as int]
                is Ok ==> final(self).current.kind == old(self).tokens@[old(self).idx as int]->Ok_0.kind && final(self).idx == old(self).idx + 1,
    {
        let prev = self.current.duplicate();
        self.previous = Some(prev);
        if self.idx == self.tokens.len() {
            return ;
        }
        loop
            invariant
                stream_ok(self.tokens@),
                self.tokens@ == old(self).tokens@,
                self.idx < self.tokens@.len(),
                self.idx >= old(self).idx,
                self.current == old(self).current,
                token_ok(self.current),
                self.previous matches Some(t) && t.kind == old(self).current.kind && t.lexeme@
                    == old(self).current.lexeme@ && t.line == old(self).current.line,
                self.chunk == old(self).chunk,
                self.compiler == old(self).compiler,
                self.strings == old(self).strings,
                old(self).had_error ==> self.had_error,
                !self.had_error ==> self.errors@ == old(self).errors@ && !old(self).had_error,
                (old(self).panic_mode ==> old(self).had_error) ==> (self.panic_mode
                    ==> self.had_error),
                (old(self).had_error ==> old(self).errors@.len() > 0) ==> (self.had_error
                    ==> self.errors@.len() > 0),
                !old(self).panic_mode && self.panic_mode ==> self.errors@.len() > old(self).errors@.len(),
                old(self).panic_mode ==> self.panic_mode,
                self.errors@.len() >= old(self).errors@.len(),
                (forall|i: int| old(self).idx <= i < self.idx ==> old(self).tokens@[i] is Ok)
                    ==> self.had_error == old(self).had_error && self.errors@ == old(self).errors@
                    && self.panic_mode == old(self).panic_mode,
                old(self).panic_mode ==> self.errors@ == old(self).errors@ && self.panic_mode,
                (old(self).panic_mode ==> old(self).had_error) ==> ((exists|i: int|
                    old(self).idx <= i < self.idx && old(self).tokens@[i] is Err)
                    ==> self.had_error),
                old(self).idx < old(self).tokens@.len() && old(self).tokens@[old(self).idx as int]
                    is Ok ==> self.idx == old(self).idx,
            decreases self.tokens@.len() - self.idx,
        {
            let n = self.tokens.len();
            let pulled_err: ScanErr;
            match &self.tokens[self.idx] {
                Ok(t) => {
                    self.current = t.duplicate();
                    self.idx += 1;
                    return ;
                },
                Err(e) => {
                    pulled_err = e.duplicate();
                },
            }
            self.idx += 1;
            let msg = pulled_err.msg.clone();
            self.print_err(msg.as_str(), pulled_err.line, None);
            if self.idx == self.tokens.len() {
                // The stream's last item is a token, never a scan error.
                proof {
                    assert(self.tokens@.last() matches Ok(t));
                }
                let last = self.tokens.len() - 1;
                match &self.tokens[last] {
                    Ok(t) => {
                        self.current = t.duplicate();
                        return ;
                    },
                    Err(_) => {
                        proof {
                            assert(false);
                        }
                    },
                }
            }
        }
    }

    /// Whether the current token has this kind.
    pub fn check(&self, expected: TokenKind) -> (r: bool)
        ensures
            r == (self.current.kind == expected),
    {
        self.current.kind == expected
    }

    /// Consume the current token if it has this kind.
    pub fn match_t(&mut self, expected: TokenKind) -> (r: bool)
        requires
            old(self).wf(),
        ensures
            final(self).wf(),
            r == (old(self).current.kind == expected),
            !r ==> *final(self) == *old(self),
            r ==> final(self).tokens@ == old(self).tokens@ && final(self).idx >= old(self).idx
                && final(self).chunk == old(self).chunk && final(self).compiler == old(self).compiler && final(self).strings == old(self).strings && (old(self).had_error ==> final(self).had_error) && (!final(self).had_error ==> final(self).errors@ == old(self).errors@
                && !old(self).had_error),
            r && expected != TokenKind::Eof ==> final(self).idx > old(self).idx,
            r ==> (!old(self).panic_mode && final(self).panic_mode ==> final(self).errors@.len()
                > old(self).errors@.len()) && (old(self).panic_mode ==> final(self).panic_mode)
                && final(self).errors@.len() >= old(self).errors@.len(),
            r && expected == TokenKind::Eof ==> final(self).had_error == old(self).had_error
                && final(self).errors@ == old(self).errors@,
            old(self).panic_mode ==> final(self).errors@ == old(self).errors@ && final(self).panic_mode,
            r ==> (final(self).previous matches Some(t) && t.kind == expected
                && t.lexeme@ == old(self).current.lexeme@ && t.line == old(self).current.line),
    {
        if self.check(expected) {
            self.advance();
            return true;
        }
        false
    }

    /// Append one diagnostic line, unless the parser is already
    /// panicking; set the error flag and enter panic mode.
    pub fn print_err(&mut self, err: &str, line: usize, at: Option<&str>)
        ensures
            final(self).tokens@ == old(self).tokens@,
            final(self).idx == old(self).idx,
            final(self).chunk == old(self).chunk,
            final(self).compiler == old(self).compiler,
            final(self).strings == old(self).strings,
            final(self).current == old(self).current,
            final(self).previous == old(self).previous,
            old(self).panic_mode ==> *final(self) == *old(self),
            !old(self).panic_mode ==> final(self).errors@.len() > old(self).errors@.len(),
            !old(self).panic_mode ==> final(self).had_error && final(self).panic_mode && final(self).errors@ == old(self).errors@ + diag_text(
                line,
                match at {
                    Some(a) => a@,
                    None => Seq::<char>::empty(),
                },
                err@,
            ),
            old(self).had_error ==> final(self).had_error,
            !final(self).had_error ==> final(self).errors@ == old(self).errors@ && !old(self).had_error,
            (old(self).panic_mode ==> old(self).had_error) ==> (final(self).panic_mode ==> final(self).had_error),
    {
        if self.panic_mode {
            return ;
        }
        self.errors.append("[line ");
        let line_text = usize_string(line);
        self.errors.append(line_text.as_str());
        self.errors.append("] Error");
        match at {
            Some(a) => {
                self.errors.append(a);
            },
            None => {},
        }
        self.errors.append(": ");
        self.errors.append(err);
        self.errors.append("\n");
        self.had_error = true;
        self.panic_mode = true;
        proof {
            reveal_strlit("[line ");
            assert("[line "@.len() == 6);
            assert(self.errors@ =~= old(self).errors@ + diag_text(
                line,
                match at {
                    Some(a) => a@,
                    None => Seq::<char>::empty(),
                },
                err@,
            ));
        }
    }

    /// Report an error at a token: ` at end` for `Eof`, else the
    /// token's own text. Outside panic mode, exactly one diagnostic line
    /// for that token is appended.
    fn error_at(&mut self, err: &str, at_current: bool)
        requires
            old(self).previous is Some,
        ensures
            !old(self).panic_mode ==> final(self).errors@ == old(self).errors@ + diag_text(
                (if at_current {
                    old(self).current
                } else {
                    old(self).previous->Some_0
                }).line,
                at_text(
                    if at_current {
                        old(self).current
                    } else {
                        old(self).previous->Some_0
                    },
                ),
                err@,
            ),
            final(self).tokens@ == old(self).tokens@,
            final(self).idx == old(self).idx,
            final(self).chunk == old(self).chunk,
            final(self).compiler == old(self).compiler,
            final(self).strings == old(self).strings,
            final(self).current == old(self).current,
            final(self).previous == old(self).previous,
            final(self).had_error || old(self).panic_mode,
            !old(self).panic_mode ==> final(self).panic_mode && final(self).had_error,
            (old(self).panic_mode ==> old(self).had_error) ==> final(self).had_error,
            (old(self).panic_mode ==> old(self).had_error) ==> (final(self).panic_mode ==> final(self).had_error),
            (old(self).had_error ==> old(self).errors@.len() > 0) ==> (final(self).had_error
                ==> final(self).errors@.len() > 0),
            old(self).panic_mode ==> final(self).errors@ == old(self).errors@ && final(self).panic_mode,
            old(self).had_error ==> final(self).had_error,
            !final(self).had_error ==> final(self).errors@ == old(self).errors@ && !old(self).had_error,
    {
        let token = if at_current {
            self.current.duplicate()
        } else {
            match &self.previous {
                Some(t) => t.duplicate(),
                None => stub_token(),
            }
        };
        if token.kind == TokenKind::Eof {
            self.print_err(err, token.line, Some(" at end"));
        } else {
            let mut at: String = " at '".to_owned();
            at.append(token.lexeme.as_str());
            at.append("'");
            proof {
                assert(at@ =~= " at '"@ + token.lexeme@ + "'"@);
            }
            self.print_err(err, token.line, Some(at.as_str()));
        }
    }

    /// Report an error at the current token. Outside panic mode, exactly
    /// one diagnostic line for that token is appended.
    pub fn error_at_current(&mut self, err: &str)
        requires
            old(self).previous is Some,
        ensures
            !old(self).panic_mode ==> final(self).errors@ == old(self).errors@ + diag_text(
                old(self).current.line,
                at_text(old(self).current),
                err@,
            ),
            final(self).tokens@ == old(self).tokens@,
            final(self).idx == old(self).idx,
            final(self).chunk == old(self).chunk,
            final(self).compiler == old(self).compiler,
            final(self).strings == old(self).strings,
            final(self).current == old(self).current,
            final(self).previous == old(self).previous,
            final(self).had_error || old(self).panic_mode,
            !old(self).panic_mode ==> final(self).panic_mode && final(self).had_error,
            (old(self).panic_mode ==> old(self).had_error) ==> final(self).had_error,
            (old(self).panic_mode ==> old(self).had_error) ==> (final(self).panic_mode ==> final(self).had_error),
            (old(self).had_error ==> old(self).errors@.len() > 0) ==> (final(self).had_error
                ==> final(self).errors@.len() > 0),
            old(self).panic_mode ==> final(self).errors@ == old(self).errors@ && final(self).panic_mode,
            old(self).had_error ==> final(self).had_error,
            !final(self).had_error ==> final(self).errors@ == old(self).errors@ && !old(self).had_error,
    {
        self.error_at(err, true);
    }

    /// Report an error at the token just consumed. Outside panic mode,
    /// exactly one diagnostic line for that token is appended.
    pub fn error(&mut self, err: &str)
        requires
            old(self).previous is Some,
        ensures
            !old(self).panic_mode ==> final(self).errors@ == old(self).errors@ + diag_text(
                old(self).previous->Some_0.line,
                at_text(old(self).previous->Some_0),
                err@,
            ),
            final(self).tokens@ == old(self).tokens@,
            final(self).idx == old(self).idx,
            final(self).chunk == old(self).chunk,
            final(self).compiler == old(self).compiler,
            final(self).strings == old(self).strings,
            final(self).current == old(self).current,
            final(self).previous == old(self).previous,
            final(self).had_error || old(self).panic_mode,
            !old(self).panic_mode ==> final(self).panic_mode && final(self).had_error,
            (old(self).panic_mode ==> old(self).had_error) ==> final(self).had_error,
            (old(self).panic_mode ==> old(self).had_error) ==> (final(self).panic_mode ==> final(self).had_error),
            (old(self).had_error ==> old(self).errors@.len() > 0) ==> (final(self).had_error
                ==> final(self).errors@.len() > 0),
            old(self).panic_mode ==> final(self).errors@ == old(self).errors@ && final(self).panic_mode,
            old(self).had_error ==> final(self).had_error,
            !final(self).had_error ==> final(self).errors@ == old(self).errors@ && !old(self).had_error,
    {
        self.error_at(err, false);
    }

    /// Consume a token of the expected kind, or report `err` at the
    /// current token.
    pub fn consume(&mut self, expected: TokenKind, err: &str)
        requires
            old(self).wf(),
        ensures
            final(self).wf(),
            parser_frame(*old(self), *final(self)),
            final(self).chunk == old(self).chunk,
            final(self).compiler == old(self).compiler,
            final(self).strings == old(self).strings,
            old(self).current.kind == expected && expected != TokenKind::Eof ==> final(self).idx
                > old(self).idx,
            old(self).current.kind == expected ==> (final(self).previous matches Some(t)
                && t.kind == expected && t.lexeme@ == old(self).current.lexeme@
                && t.line == old(self).current.line),
            old(self).panic_mode ==> final(self).errors@ == old(self).errors@ && final(self).panic_mode,
            old(self).current.kind != expected && !old(self).panic_mode ==> final(self).errors@
                == old(self).errors@ + diag_text(
                old(self).current.line,
                at_text(old(self).current),
                err@,
            ),
    {
        if self.current.kind == expected {
            self.advance();
            return ;
        }
        self.error_at_current(err);
    }

    /// Resynchronize after a parse error: leave panic mode and skip to a
    /// likely statement boundary.
    pub fn synchronize(&mut self)
        requires
            old(self).wf(),
        ensures
            final(self).wf(),
            parser_frame(*old(self), *final(self)),
            final(self).chunk == old(self).chunk,
            final(self).compiler == old(self).compiler,
            final(self).strings == old(self).strings,
            final(self).panic_mode ==> final(self).errors@.len() > old(self).errors@.len(),
            final(self).current.kind == TokenKind::Eof || final(self).previous->Some_0.kind
                == TokenKind::Semicolon || final(self).current.kind == TokenKind::Class || final(self).current.kind == TokenKind::Fun || final(self).current.kind == TokenKind::Var || final(self).current.kind == TokenKind::For || final(self).current.kind == TokenKind::If || final(self).current.kind == TokenKind::While || final(self).current.kind == TokenKind::Print
                || final(self).current.kind == TokenKind::Return,
    {
        self.panic_mode = false;
        loop
            invariant
                self.wf(),
                parser_frame(*old(self), *self),
                self.chunk == old(self).chunk,
                self.compiler == old(self).compiler,
                self.strings == old(self).strings,
                self.panic_mode ==> self.errors@.len() > old(self).errors@.len(),
                self.errors@.len() >= old(self).errors@.len(),
            decreases self.metric(),
        {
            if self.match_t(TokenKind::Eof) {
                return ;
            }
            match &self.previous {
                Some(t) => {
                    if t.kind == TokenKind::Semicolon {
                        return ;
                    }
                },
                None => {},
            }
            let k = self.current.kind;
            if k == TokenKind::Class || k == TokenKind::Fun || k == TokenKind::Var || k
                == TokenKind::For || k == TokenKind::If || k == TokenKind::While || k
                == TokenKind::Print || k == TokenKind::Return {
                return ;
            }
            self.advance();
        }
    }

    /// The position where the next instruction will be emitted.
    pub fn pos(&self) -> (r: usize)
        ensures
            r == self.chunk.code@.len(),
    {
        self.chunk.code.len()
    }

    /// The line of the token just consumed, for the line table.
    fn prev_line(&self) -> (r: usize)
        requires
            self.previous is Some,
        ensures
            r == self.previous->Some_0.line,
    {
        match &self.previous {
            Some(t) => t.line,
            None => 0,
        }
    }

    /// Emit one jump-free instruction at the line of the last token.
    pub fn emit_ins(&mut self, ins: Op)
        requires
            old(self).wf(),
            !(ins is Jump),
            !(ins is JumpIfFalse),
            !(ins is Loop),
        ensures
            final(self).wf(),
            parser_frame(*old(self), *final(self)),
            final(self).idx == old(self).idx,
            final(self).compiler == old(self).compiler,
            final(self).strings == old(self).strings,
            final(self).current == old(self).current,
            final(self).previous == old(self).previous,
            final(self).had_error == old(self).had_error,
            final(self).panic_mode == old(self).panic_mode,
            final(self).errors@ == old(self).errors@,
            final(self).chunk.code@ == old(self).chunk.code@ + spec_encode_op(ins),
            final(self).chunk.constants@ == old(self).chunk.constants@,
            final(self).chunk.pending@ == old(self).chunk.pending@,
            final(self).chunk.starts@ == old(self).chunk.starts@.push(
                old(self).chunk.code@.len() as int,
            ),
    {
        let line = self.prev_line();
        self.chunk.write(ins, line);
        proof {
            lemma_extends_push(old(self).chunk, self.chunk);
        }
    }

    /// Emit a forward jump with a placeholder operand: `JumpIfFalse`
    /// when `conditional`, else `Jump`. Returns the position just past
    /// the operand, to patch later.
    pub fn emit_jump(&mut self, conditional: bool) -> (r: usize)
        requires
            old(self).wf(),
        ensures
            final(self).wf(),
            extends(old(self).chunk, final(self).chunk),
            final(self).tokens@ == old(self).tokens@,
            final(self).idx == old(self).idx,
            final(self).compiler == old(self).compiler,
            final(self).strings == old(self).strings,
            final(self).current == old(self).current,
            final(self).previous == old(self).previous,
            final(self).had_error == old(self).had_error,
            final(self).panic_mode == old(self).panic_mode,
            final(self).errors@ == old(self).errors@,
            final(self).chunk.constants@ == old(self).chunk.constants@,
            r == old(self).chunk.code@.len() + 3,
            r == final(self).chunk.code@.len(),
            r >= 3,
            final(self).chunk.code@ == old(self).chunk.code@ + spec_encode_op(
                if conditional {
                    Op::JumpIfFalse(0xFFFF)
                } else {
                    Op::Jump(0xFFFF)
                },
            ),
            !old(self).chunk.pending@.contains(old(self).chunk.code@.len() as int),
            final(self).chunk.pending@ == old(self).chunk.pending@.insert(
                old(self).chunk.code@.len() as int,
            ),
            final(self).chunk.pending@.contains(old(self).chunk.code@.len() as int),
    {
        proof {
            if self.chunk.pending@.contains(self.chunk.code@.len() as int) {
                assert(false);
            }
        }
        let ins = if conditional {
            Op::JumpIfFalse(0xFFFF)
        } else {
            Op::Jump(0xFFFF)
        };
        let line = self.prev_line();
        self.chunk.write(ins, line);
        proof {
            lemma_extends_push(old(self).chunk, self.chunk);
        }
        self.chunk.code.len()
    }

    /// Patch the jump whose operand ends at `jump_from` to land at the
    /// current end of the code; report an error if the distance does not
    /// fit in sixteen bits.
    pub fn patch_jump(&mut self, jump_from: usize)
        requires
            old(self).wf(),
            jump_from >= 3,
            old(self).chunk.pending@.contains(jump_from - 3),
            jump_from <= old(self).chunk.code@.len(),
        ensures
            final(self).wf(),
            extends(old(self).chunk, final(self).chunk),
            final(self).tokens@ == old(self).tokens@,
            final(self).idx == old(self).idx,
            final(self).compiler == old(self).compiler,
            final(self).strings == old(self).strings,
            final(self).current == old(self).current,
            final(self).previous == old(self).previous,
            final(self).chunk.constants@ == old(self).chunk.constants@,
            final(self).chunk.lines@ == old(self).chunk.lines@,
            final(self).chunk.code@.len() == old(self).chunk.code@.len(),
            final(self).chunk.starts@ == old(self).chunk.starts@,
            old(self).had_error ==> final(self).had_error,
            !final(self).had_error ==> final(self).errors@ == old(self).errors@ && !old(self).had_error,
            old(self).panic_mode ==> final(self).errors@ == old(self).errors@ && final(self).panic_mode,
            old(self).chunk.code@.len() - jump_from <= 65535 ==> final(self).chunk.pending@ == old(self).chunk.pending@.remove(jump_from - 3) && final(self).had_error == old(self).had_error
                && final(self).errors@ == old(self).errors@ && final(self).panic_mode == old(self).panic_mode,
            old(self).chunk.code@.len() - jump_from <= 65535 ==> final(self).chunk.code@ == old(self).chunk.code@.update(
                jump_from - 2,
                (((old(self).chunk.code@.len() - jump_from) as u16) / 256) as u8,
            ).update(
                jump_from - 1,
                (((old(self).chunk.code@.len() - jump_from) as u16) % 256) as u8,
            ),
            old(self).chunk.code@.len() - jump_from > 65535 ==> final(self).chunk == old(self).chunk && final(self).had_error,
            old(self).chunk.code@.len() - jump_from > 65535 && !old(self).panic_mode ==> final(self).errors@ == old(self).errors@ + diag_text(
                old(self).previous->Some_0.line,
                at_text(old(self).previous->Some_0),
                "Too much code to jump over."@,
            ),
    {
        let dist = self.chunk.code.len() - jump_from;
        if dist > 65535 {
            self.error("Too much code to jump over.");
            return ;
        }
        self.chunk.patch(jump_from, dist as u16);
    }

    /// Emit a `Loop` back to `loop_to`, which is where some earlier
    /// instruction was emitted (or the current position itself); report
    /// an error if the distance does not fit in sixteen bits.
    pub fn emit_loop(&mut self, loop_to: usize)
        requires
            old(self).wf(),
            loop_to <= old(self).chunk.code@.len(),
            loopable(old(self).chunk, loop_to as int),
        ensures
            final(self).wf(),
            parser_frame(*old(self), *final(self)),
            final(self).idx == old(self).idx,
            final(self).compiler == old(self).compiler,
            final(self).strings == old(self).strings,
            final(self).current == old(self).current,
            final(self).previous == old(self).previous,
            final(self).chunk.constants@ == old(self).chunk.constants@,
            final(self).chunk.pending@ == old(self).chunk.pending@,
            old(self).panic_mode ==> final(self).errors@ == old(self).errors@ && final(self).panic_mode,
            old(self).chunk.code@.len() - loop_to <= 65535 ==> final(self).chunk.code@ == old(self).chunk.code@ + spec_encode_op(
                Op::Loop(((old(self).chunk.code@.len() - loop_to) as u16)),
            ) && final(self).had_error == old(self).had_error && final(self).errors@ == old(self).errors@,
            old(self).chunk.code@.len() - loop_to > 65535 ==> final(self).chunk == old(self).chunk && final(self).had_error,
            old(self).chunk.code@.len() - loop_to > 65535 && !old(self).panic_mode ==> final(self).errors@ == old(self).errors@ + diag_text(
                old(self).previous->Some_0.line,
                at_text(old(self).previous->Some_0),
                "Too much code to jump over."@,
            ),
    {
        let dist = self.chunk.code.len() - loop_to;
        if dist > 65535 {
            self.error("Too much code to jump over.");
            proof {
                assert(parser_frame(*old(self), *self));
            }
            return ;
        }
        let line = self.prev_line();
        self.chunk.write(Op::Loop(dist as u16), line);
        proof {
            lemma_extends_push(old(self).chunk, self.chunk);
        }
    }

    /// Add a constant to the pool; report an error when the pool is
    /// full.
    pub fn make_constant(&mut self, val: Value) -> (r: Option<u8>)
        requires
            old(self).wf(),
        ensures
            final(self).wf(),
            parser_frame(*old(self), *final(self)),
            final(self).idx == old(self).idx,
            final(self).compiler == old(self).compiler,
            final(self).strings == old(self).strings,
            final(self).current == old(self).current,
            final(self).previous == old(self).previous,
            final(self).chunk.code@ == old(self).chunk.code@,
            final(self).chunk.starts@ == old(self).chunk.starts@,
            final(self).chunk.pending@ == old(self).chunk.pending@,
            final(self).chunk.constants@ == old(self).chunk.constants@.push(val),
            r matches Some(i) ==> i as int == old(self).chunk.constants@.len() && final(self).chunk.consts()[i as int] == val@ && final(self).had_error == old(self).had_error
                && final(self).errors@ == old(self).errors@ && final(self).panic_mode == old(self).panic_mode,
            r is Some <==> old(self).chunk.constants@.len() < 256,
            r is None ==> final(self).had_error,
            old(self).panic_mode ==> final(self).errors@ == old(self).errors@ && final(self).panic_mode,
            r is None && !old(self).panic_mode ==> final(self).errors@ == old(self).errors@
                + diag_text(
                old(self).previous->Some_0.line,
                at_text(old(self).previous->Some_0),
                "Too many constants in one chunk."@,
            ),
    {
        let res = self.chunk.add_constant(val);
        match res {
            Some(idx) => Some(idx),
            None => {
                self.error("Too many constants in one chunk.");
                None
            },
        }
    }

    /// Emit the instruction that pushes `val` from the constant pool; on
    /// a full pool the error is reported and nothing is emitted.
    pub fn emit_constant(&mut self, val: Value)
        requires
            old(self).wf(),
        ensures
            final(self).wf(),
            parser_frame(*old(self), *final(self)),
            final(self).idx == old(self).idx,
            final(self).compiler == old(self).compiler,
            final(self).strings == old(self).strings,
            final(self).current == old(self).current,
            final(self).previous == old(self).previous,
            final(self).chunk.pending@ == old(self).chunk.pending@,
            final(self).chunk.constants@ == old(self).chunk.constants@.push(val),
            old(self).panic_mode ==> final(self).errors@ == old(self).errors@ && final(self).panic_mode,
            old(self).chunk.constants@.len() < 256 ==> final(self).chunk.code@ == old(self).chunk.code@ + spec_encode_op(Op::Constant(old(self).chunk.constants@.len() as u8))
                && final(self).had_error == old(self).had_error && final(self).errors@ == old(self).errors@,
            old(self).chunk.constants@.len() >= 256 ==> final(self).chunk.code@ == old(self).chunk.code@ && final(self).had_error,
    {
        let ghost mid = *self;
        match self.make_constant(val) {
            Some(idx) => {
                let ghost m2 = *self;
                self.emit_ins(Op::Constant(idx));
                proof {
                    lemma_extends_trans(old(self).chunk, m2.chunk, self.chunk);
                }
            },
            None => {},
        }
    }

    /// Intern the name just consumed and add it to the constant pool as
    /// a string value.
    pub fn identifier_constant(&mut self) -> (r: Option<u8>)
        requires
            old(self).wf(),
        ensures
            final(self).wf(),
            parser_frame(*old(self), *final(self)),
            final(self).idx == old(self).idx,
            final(self).compiler == old(self).compiler,
            final(self).current == old(self).current,
            final(self).previous == old(self).previous,
            final(self).chunk.code@ == old(self).chunk.code@,
            final(self).chunk.starts@ == old(self).chunk.starts@,
            final(self).chunk.pending@ == old(self).chunk.pending@,
            r matches Some(i) ==> i as int == old(self).chunk.constants@.len() && (final(self).chunk.consts()[i as int] matches AbsValue::Text(id, t) && t == old(self).previous->Some_0.lexeme@),
            r is Some <==> old(self).chunk.constants@.len() < 256,
            final(self).chunk.constants@.len() == old(self).chunk.constants@.len() + 1,
            old(self).panic_mode ==> final(self).errors@ == old(self).errors@ && final(self).panic_mode,
            r is None ==> final(self).had_error,
    {
        let name = match &self.previous {
            Some(t) => t.lexeme.clone(),
            None => String::new(),
        };
        let val = self.strings.build_string_value(name.as_str());
        self.make_constant(val)
    }
}

} // verus!
