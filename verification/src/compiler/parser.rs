//! The language grammar: a Pratt parser for expressions driven by a
//! rule table, and the statement forms. Each function both parses and
//! emits; the recursion terminates because every step either consumes a
//! token or descends to a smaller grammatical rank.

use super::{compiler_state, lemma_extends_trans, parser_frame, parser_frame_weak, Parser};
use crate::instructions::Op;
use crate::scanner::TokenKind;
use crate::value::Value;
use vstd::prelude::*;

verus! {

/// Expression binding strength, weakest first.
#[derive(PartialEq, Eq, Clone, Copy, Structural, Debug)]
pub enum ParsePrecedence {
    Assignment,
    Or,
    And,
    Equality,
    Comparison,
    Term,
    Factor,
    Unary,
    Call,
    Primary,
}

/// The numeric strength of a precedence level.
pub open spec fn spec_prec_val(p: ParsePrecedence) -> int {
    match p {
        ParsePrecedence::Assignment => 0,
        ParsePrecedence::Or => 1,
        ParsePrecedence::And => 2,
        ParsePrecedence::Equality => 3,
        ParsePrecedence::Comparison => 4,
        ParsePrecedence::Term => 5,
        ParsePrecedence::Factor => 6,
        ParsePrecedence::Unary => 7,
        ParsePrecedence::Call => 8,
        ParsePrecedence::Primary => 9,
    }
}

impl ParsePrecedence {
    /// The numeric strength of this level.
    pub fn value(self) -> (r: u8)
        ensures
            r as int == spec_prec_val(self),
    {
        match self {
            ParsePrecedence::Assignment => 0,
            ParsePrecedence::Or => 1,
            ParsePrecedence::And => 2,
            ParsePrecedence::Equality => 3,
            ParsePrecedence::Comparison => 4,
            ParsePrecedence::Term => 5,
            ParsePrecedence::Factor => 6,
            ParsePrecedence::Unary => 7,
            ParsePrecedence::Call => 8,
            ParsePrecedence::Primary => 9,
        }
    }

    /// The next stronger level; `Primary` is its own successor.
    pub fn next(self) -> (r: ParsePrecedence)
        ensures
            spec_prec_val(r) == if self is Primary {
                spec_prec_val(self)
            } else {
                spec_prec_val(self) + 1
            },
    {
        match self {
            ParsePrecedence::Assignment => ParsePrecedence::Or,
            ParsePrecedence::Or => ParsePrecedence::And,
            ParsePrecedence::And => ParsePrecedence::Equality,
            ParsePrecedence::Equality => ParsePrecedence::Comparison,
            ParsePrecedence::Comparison => ParsePrecedence::Term,
            ParsePrecedence::Term => ParsePrecedence::Factor,
            ParsePrecedence::Factor => ParsePrecedence::Unary,
            ParsePrecedence::Unary => ParsePrecedence::Call,
            ParsePrecedence::Call => ParsePrecedence::Primary,
            ParsePrecedence::Primary => ParsePrecedence::Primary,
        }
    }
}

/// The prefix handlers of the rule table.
#[derive(PartialEq, Eq, Clone, Copy, Structural, Debug)]
pub enum PrefixRule {
    PGrouping,
    PUnary,
    PLiteral,
    PNumber,
    PString,
    PVariable,
}

/// The infix handlers of the rule table.
#[derive(PartialEq, Eq, Clone, Copy, Structural, Debug)]
pub enum InfixRule {
    IBinary,
    IAnd,
    IOr,
}

/// One row of the rule table.
pub struct ParseRule {
    pub prefix: Option<PrefixRule>,
    pub infix: Option<InfixRule>,
    pub precedence: Option<ParsePrecedence>,
}

/// The rule for each token kind: how it parses as a prefix, how it
/// parses as an infix, and how strongly it binds as an infix.
pub open spec fn spec_get_rule(kind: TokenKind) -> ParseRule {
    match kind {
        TokenKind::LeftParen => ParseRule {
            prefix: Some(PrefixRule::PGrouping),
            infix: None,
            precedence: None,
        },
        TokenKind::Minus => ParseRule {
            prefix: Some(PrefixRule::PUnary),
            infix: Some(InfixRule::IBinary),
            precedence: Some(ParsePrecedence::Term),
        },
        TokenKind::Plus => ParseRule {
            prefix: None,
            infix: Some(InfixRule::IBinary),
            precedence: Some(ParsePrecedence::Term),
        },
        TokenKind::Slash | TokenKind::Star => ParseRule {
            prefix: None,
            infix: Some(InfixRule::IBinary),
            precedence: Some(ParsePrecedence::Factor),
        },
        TokenKind::Bang => ParseRule {
            prefix: Some(PrefixRule::PUnary),
            infix: None,
            precedence: None,
        },
        TokenKind::BangEqual | TokenKind::EqualEqual => ParseRule {
            prefix: None,
            infix: Some(InfixRule::IBinary),
            precedence: Some(ParsePrecedence::Equality),
        },
        TokenKind::Less | TokenKind::Greater | TokenKind::LessEqual | TokenKind::GreaterEqual
            => ParseRule {
            prefix: None,
            infix: Some(InfixRule::IBinary),
            precedence: Some(ParsePrecedence::Comparison),
        },
        TokenKind::True | TokenKind::False | TokenKind::Nil => ParseRule {
            prefix: Some(PrefixRule::PLiteral),
            infix: None,
            precedence: None,
        },
        TokenKind::Number => ParseRule {
            prefix: Some(PrefixRule::PNumber),
            infix: None,
            precedence: None,
        },
        TokenKind::String => ParseRule {
            prefix: Some(PrefixRule::PString),
            infix: None,
            precedence: None,
        },
        TokenKind::Identifier => ParseRule {
            prefix: Some(PrefixRule::PVariable),
            infix: None,
            precedence: None,
        },
        TokenKind::And => ParseRule {
            prefix: None,
            infix: Some(InfixRule::IAnd),
            precedence: Some(ParsePrecedence::And),
        },
        TokenKind::Or => ParseRule {
            prefix: None,
            infix: Some(InfixRule::IOr),
            precedence: Some(ParsePrecedence::Or),
        },
        _ => ParseRule { prefix: None, infix: None, precedence: None },
    }
}

/// The token kinds that parse as binary operators.
pub open spec fn is_binary_operator(kind: TokenKind) -> bool {
    ||| kind == TokenKind::Plus
    ||| kind == TokenKind::Minus
    ||| kind == TokenKind::Star
    ||| kind == TokenKind::Slash
    ||| kind == TokenKind::EqualEqual
    ||| kind == TokenKind::BangEqual
    ||| kind == TokenKind::Less
    ||| kind == TokenKind::LessEqual
    ||| kind == TokenKind::Greater
    ||| kind == TokenKind::GreaterEqual
}

/// The bytes a binary operator compiles to, after its right operand:
/// `!=`, `<=` and `>=` take the inverted comparison followed by `Not`.
pub open spec fn binary_op_bytes(kind: TokenKind) -> Seq<u8> {
    match kind {
        TokenKind::Plus => crate::instructions::spec_encode_op(Op::Add),
        TokenKind::Minus => crate::instructions::spec_encode_op(Op::Subtract),
        TokenKind::Star => crate::instructions::spec_encode_op(Op::Multiply),
        TokenKind::Slash => crate::instructions::spec_encode_op(Op::Divide),
        TokenKind::EqualEqual => crate::instructions::spec_encode_op(Op::Equal),
        TokenKind::BangEqual => crate::instructions::spec_encode_op(Op::Equal)
            + crate::instructions::spec_encode_op(Op::Not),
        TokenKind::Less => crate::instructions::spec_encode_op(Op::Less),
        TokenKind::GreaterEqual => crate::instructions::spec_encode_op(Op::Less)
            + crate::instructions::spec_encode_op(Op::Not),
        TokenKind::Greater => crate::instructions::spec_encode_op(Op::Greater),
        TokenKind::LessEqual => crate::instructions::spec_encode_op(Op::Greater)
            + crate::instructions::spec_encode_op(Op::Not),
        _ => Seq::empty(),
    }
}

/// The rule table lookup.
pub fn get_rule(kind: TokenKind) -> (r: ParseRule)
    ensures
        r == spec_get_rule(kind),
        r.prefix is Some || r.infix is Some || r.precedence is Some ==> kind != TokenKind::Eof,
{
    match kind {
        TokenKind::LeftParen => ParseRule {
            prefix: Some(PrefixRule::PGrouping),
            infix: None,
            precedence: None,
        },
        TokenKind::Minus => ParseRule {
            prefix: Some(PrefixRule::PUnary),
            infix: Some(InfixRule::IBinary),
            precedence: Some(ParsePrecedence::Term),
        },
        TokenKind::Plus => ParseRule {
            prefix: None,
            infix: Some(InfixRule::IBinary),
            precedence: Some(ParsePrecedence::Term),
        },
        TokenKind::Slash | TokenKind::Star => ParseRule {
            prefix: None,
            infix: Some(InfixRule::IBinary),
            precedence: Some(ParsePrecedence::Factor),
        },
        TokenKind::Bang => ParseRule {
            prefix: Some(PrefixRule::PUnary),
            infix: None,
            precedence: None,
        },
        TokenKind::BangEqual | TokenKind::EqualEqual => ParseRule {
            prefix: None,
            infix: Some(InfixRule::IBinary),
            precedence: Some(ParsePrecedence::Equality),
        },
        TokenKind::Less | TokenKind::Greater | TokenKind::LessEqual | TokenKind::GreaterEqual
            => ParseRule {
            prefix: None,
            infix: Some(InfixRule::IBinary),
            precedence: Some(ParsePrecedence::Comparison),
        },
        TokenKind::True | TokenKind::False | TokenKind::Nil => ParseRule {
            prefix: Some(PrefixRule::PLiteral),
            infix: None,
            precedence: None,
        },
        TokenKind::Number => ParseRule {
            prefix: Some(PrefixRule::PNumber),
            infix: None,
            precedence: None,
        },
        TokenKind::String => ParseRule {
            prefix: Some(PrefixRule::PString),
            infix: None,
            precedence: None,
        },
        TokenKind::Identifier => ParseRule {
            prefix: Some(PrefixRule::PVariable),
            infix: None,
            precedence: None,
        },
        TokenKind::And => ParseRule {
            prefix: None,
            infix: Some(InfixRule::IAnd),
            precedence: Some(ParsePrecedence::And),
        },
        TokenKind::Or => ParseRule {
            prefix: None,
            infix: Some(InfixRule::IOr),
            precedence: Some(ParsePrecedence::Or),
        },
        _ => ParseRule { prefix: None, infix: None, precedence: None },
    }
}

impl Parser {
    /// Parse everything that binds at least as strongly as
    /// `precedence`: a prefix expression, then every infix operator
    /// whose strength admits it. A leftover `=` here is an invalid
    /// assignment target.
    pub fn parse_precedence(&mut self, precedence: ParsePrecedence)
        requires
            old(self).wf(),
        ensures
            final(self).wf(),
            parser_frame(*old(self), *final(self)),
            final(self).compiler == old(self).compiler,
            old(self).panic_mode ==> final(self).errors@ == old(self).errors@ && final(self).panic_mode,
            old(self).current.kind != TokenKind::Eof ==> final(self).idx > old(self).idx,
            spec_get_rule(old(self).current.kind).prefix is None ==> final(self).chunk == old(self).chunk && final(self).had_error,
            spec_get_rule(old(self).current.kind).prefix is None && !old(self).panic_mode && (
            forall|i: int|
                old(self).idx <= i < final(self).idx ==> old(self).tokens@[i] is Ok) ==> final(self).errors@ == old(self).errors@ + super::diag_text(
                old(self).current.line,
                super::at_text(old(self).current),
                "Expect expression."@,
            ),
        decreases old(self).metric(), 0int,
    {
        let ghost pre = *self;
        self.advance();
        let prev_kind = match &self.previous {
            Some(t) => t.kind,
            None => TokenKind::Eof,
        };
        let rule = get_rule(prev_kind);
        let prefix = match rule.prefix {
            Some(p) => p,
            None => {
                proof {
                    assert(super::at_text(self.previous->Some_0) == super::at_text(
                        old(self).current,
                    ));
                }
                self.error("Expect expression.");
                return ;
            },
        };
        proof {
            assert(prev_kind != TokenKind::Eof);
            assert(self.metric() < pre.metric());
        }
        let can_assign = precedence.value() <= ParsePrecedence::Assignment.value();
        let ghost m1 = *self;
        match prefix {
            PrefixRule::PGrouping => self.grouping(can_assign),
            PrefixRule::PUnary => self.unary(can_assign),
            PrefixRule::PLiteral => self.literal(can_assign),
            PrefixRule::PNumber => self.number(can_assign),
            PrefixRule::PString => self.string(can_assign),
            PrefixRule::PVariable => self.variable(can_assign),
        }
        proof {
            lemma_extends_trans(pre.chunk, m1.chunk, self.chunk);
        }
        let ghost m2 = *self;
        self.infix_loop(precedence, can_assign);
        proof {
            lemma_extends_trans(pre.chunk, m2.chunk, self.chunk);
        }
        if can_assign {
            if self.match_t(TokenKind::Equal) {
                self.error("Invalid assignment target.");
            }
        }
    }

    /// Run infix handlers while the current token binds at least as
    /// strongly as `precedence`.
    fn infix_loop(&mut self, precedence: ParsePrecedence, can_assign: bool)
        requires
            old(self).wf(),
        ensures
            final(self).wf(),
            parser_frame(*old(self), *final(self)),
            final(self).compiler == old(self).compiler,
            old(self).panic_mode ==> final(self).errors@ == old(self).errors@ && final(self).panic_mode,
        decreases old(self).metric(), 4int,
    {
        let ghost pre = *self;
        let cur_rule = get_rule(self.current.kind);
        let go = match cur_rule.precedence {
            Some(p) => precedence.value() <= p.value(),
            None => false,
        };
        if !go {
            return ;
        }
        proof {
            assert(self.current.kind != TokenKind::Eof);
        }
        self.advance();
        let infix = match get_rule(match &self.previous {
            Some(t) => t.kind,
            None => TokenKind::Eof,
        }).infix {
            Some(i) => i,
            None => {
                return ;
            },
        };
        let ghost m1 = *self;
        proof {
            assert(self.metric() < pre.metric());
        }
        match infix {
            InfixRule::IBinary => self.binary(can_assign),
            InfixRule::IAnd => self.and_operator(can_assign),
            InfixRule::IOr => self.or_operator(can_assign),
        }
        let ghost m2 = *self;
        self.infix_loop(precedence, can_assign);
        proof {
            lemma_extends_trans(pre.chunk, m1.chunk, m2.chunk);
            lemma_extends_trans(pre.chunk, m2.chunk, self.chunk);
        }
    }

    /// Parse one expression.
    pub fn expression(&mut self)
        requires
            old(self).wf(),
        ensures
            final(self).wf(),
            parser_frame(*old(self), *final(self)),
            final(self).compiler == old(self).compiler,
            old(self).panic_mode ==> final(self).errors@ == old(self).errors@ && final(self).panic_mode,
            old(self).current.kind != TokenKind::Eof ==> final(self).idx > old(self).idx,
            spec_get_rule(old(self).current.kind).prefix is None ==> final(self).had_error,
        decreases old(self).metric(), 1int,
    {
        self.parse_precedence(ParsePrecedence::Assignment);
    }

    /// A parenthesized expression.
    fn grouping(&mut self, _can_assign: bool)
        requires
            old(self).wf(),
        ensures
            final(self).wf(),
            parser_frame(*old(self), *final(self)),
            final(self).compiler == old(self).compiler,
            old(self).panic_mode ==> final(self).errors@ == old(self).errors@ && final(self).panic_mode,
        decreases old(self).metric(), 2int,
    {
        let ghost pre = *self;
        self.expression();
        let ghost m1 = *self;
        self.consume(TokenKind::RightParen, "Expected ')' after expression.");
        proof {
            lemma_extends_trans(pre.chunk, m1.chunk, self.chunk);
        }
    }

    /// `!` and unary `-`: parse the operand, then emit the operator.
    fn unary(&mut self, _can_assign: bool)
        requires
            old(self).wf(),
        ensures
            final(self).wf(),
            parser_frame(*old(self), *final(self)),
            final(self).compiler == old(self).compiler,
            old(self).panic_mode ==> final(self).errors@ == old(self).errors@ && final(self).panic_mode,
            old(self).previous->Some_0.kind == TokenKind::Minus ==> super::appended_through(
                old(self).chunk.code@,
                final(self).chunk.code@,
                crate::instructions::spec_encode_op(Op::Negate),
            ),
            old(self).previous->Some_0.kind == TokenKind::Bang ==> super::appended_through(
                old(self).chunk.code@,
                final(self).chunk.code@,
                crate::instructions::spec_encode_op(Op::Not),
            ),
        decreases old(self).metric(), 2int,
    {
        let ghost pre = *self;
        let op = match &self.previous {
            Some(t) => {
                if t.kind == TokenKind::Minus {
                    Op::Negate
                } else if t.kind == TokenKind::Bang {
                    Op::Not
                } else {
                    self.error("Expected unary operator.");
                    return ;
                }
            },
            None => {
                return ;
            },
        };
        self.parse_precedence(ParsePrecedence::Unary);
        let ghost m1 = *self;
        self.emit_ins(op);
        proof {
            lemma_extends_trans(pre.chunk, m1.chunk, self.chunk);
            super::lemma_appended_through(
                pre.chunk.code@,
                m1.chunk.code@,
                crate::instructions::spec_encode_op(op),
            );
        }
    }

    /// A binary operator: parse the right operand one level stronger
    /// (left associativity), then emit the operation; `!=`, `<=` and
    /// `>=` take a trailing `Not`.
    fn binary(&mut self, _can_assign: bool)
        requires
            old(self).wf(),
        ensures
            final(self).wf(),
            parser_frame(*old(self), *final(self)),
            final(self).compiler == old(self).compiler,
            old(self).panic_mode ==> final(self).errors@ == old(self).errors@ && final(self).panic_mode,
            is_binary_operator(old(self).previous->Some_0.kind) ==> super::appended_through(
                old(self).chunk.code@,
                final(self).chunk.code@,
                binary_op_bytes(old(self).previous->Some_0.kind),
            ),
        decreases old(self).metric(), 2int,
    {
        let ghost pre = *self;
        let operator = match &self.previous {
            Some(t) => t.kind,
            None => {
                return ;
            },
        };
        let rule = get_rule(operator);
        let precedence = match rule.precedence {
            Some(p) => p,
            None => {
                self.error("Expected binary operator.");
                return ;
            },
        };
        self.parse_precedence(precedence.next());
        let op = if operator == TokenKind::Plus {
            Op::Add
        } else if operator == TokenKind::Minus {
            Op::Subtract
        } else if operator == TokenKind::Star {
            Op::Multiply
        } else if operator == TokenKind::Slash {
            Op::Divide
        } else if operator == TokenKind::Less || operator == TokenKind::GreaterEqual {
            Op::Less
        } else if operator == TokenKind::Greater || operator == TokenKind::LessEqual {
            Op::Greater
        } else {
            Op::Equal
        };
        let ghost m1 = *self;
        self.emit_ins(op);
        proof {
            lemma_extends_trans(pre.chunk, m1.chunk, self.chunk);
        }
        if operator == TokenKind::GreaterEqual || operator == TokenKind::LessEqual || operator
            == TokenKind::BangEqual {
            let ghost m2 = *self;
            self.emit_ins(Op::Not);
            proof {
                lemma_extends_trans(pre.chunk, m2.chunk, self.chunk);
                super::lemma_appended_through_two(
                    pre.chunk.code@,
                    m1.chunk.code@,
                    crate::instructions::spec_encode_op(op),
                    crate::instructions::spec_encode_op(Op::Not),
                );
            }
        } else {
            proof {
                if is_binary_operator(operator) {
                    super::lemma_appended_through(
                        pre.chunk.code@,
                        m1.chunk.code@,
                        crate::instructions::spec_encode_op(op),
                    );
                }
            }
        }
    }

    /// `true`, `false` and `nil` literals.
    fn literal(&mut self, _can_assign: bool)
        requires
            old(self).wf(),
        ensures
            final(self).wf(),
            parser_frame(*old(self), *final(self)),
            final(self).compiler == old(self).compiler,
            old(self).panic_mode ==> final(self).errors@ == old(self).errors@ && final(self).panic_mode,
            old(self).previous->Some_0.kind == TokenKind::True ==> final(self).chunk.code@ == old(self).chunk.code@ + crate::instructions::spec_encode_op(Op::True),
            old(self).previous->Some_0.kind == TokenKind::False ==> final(self).chunk.code@ == old(self).chunk.code@ + crate::instructions::spec_encode_op(Op::False),
            old(self).previous->Some_0.kind == TokenKind::Nil ==> final(self).chunk.code@ == old(self).chunk.code@ + crate::instructions::spec_encode_op(Op::Nil),
        decreases old(self).metric(), 2int,
    {
        match &self.previous {
            Some(t) => {
                if t.kind == TokenKind::True {
                    self.emit_ins(Op::True);
                } else if t.kind == TokenKind::False {
                    self.emit_ins(Op::False);
                } else if t.kind == TokenKind::Nil {
                    self.emit_ins(Op::Nil);
                } else {
                    self.error("Expected literal token.");
                }
            },
            None => {},
        }
    }

    /// A number literal: read its value from the lexeme, push it from
    /// the constant pool.
    fn number(&mut self, _can_assign: bool)
        requires
            old(self).wf(),
            old(self).previous matches Some(t) && t.kind == TokenKind::Number,
        ensures
            final(self).wf(),
            parser_frame(*old(self), *final(self)),
            final(self).compiler == old(self).compiler,
            old(self).panic_mode ==> final(self).errors@ == old(self).errors@ && final(self).panic_mode,
            old(self).chunk.constants@.len() < 256 ==> final(self).chunk.code@ == old(self).chunk.code@ + crate::instructions::spec_encode_op(
                Op::Constant(old(self).chunk.constants@.len() as u8),
            ),
            final(self).chunk.consts() == old(self).chunk.consts().push(
                crate::value::AbsValue::Num(
                    crate::number::num_of_lexeme(old(self).previous->Some_0.lexeme@),
                ),
            ),
        decreases old(self).metric(), 2int,
    {
        let lexeme = match &self.previous {
            Some(t) => t.lexeme.clone(),
            None => String::new(),
        };
        let bits = crate::number::num_from_lexeme(lexeme.as_str());
        self.emit_constant(Value::Number(bits));
        proof {
            assert(self.chunk.consts() =~= old(self).chunk.consts().push(
                crate::value::AbsValue::Num(
                    crate::number::num_of_lexeme(old(self).previous->Some_0.lexeme@),
                ),
            ));
        }
    }

    /// A string literal: strip the quotes, intern the text, push the
    /// value from the constant pool.
    fn string(&mut self, _can_assign: bool)
        requires
            old(self).wf(),
            old(self).previous matches Some(t) && t.kind == TokenKind::String,
        ensures
            final(self).wf(),
            parser_frame(*old(self), *final(self)),
            final(self).compiler == old(self).compiler,
            old(self).panic_mode ==> final(self).errors@ == old(self).errors@ && final(self).panic_mode,
            old(self).chunk.constants@.len() < 256 ==> final(self).chunk.code@ == old(self).chunk.code@ + crate::instructions::spec_encode_op(
                Op::Constant(old(self).chunk.constants@.len() as u8),
            ),
            final(self).chunk.consts().len() == old(self).chunk.consts().len() + 1,
            final(self).chunk.consts().last() matches crate::value::AbsValue::Text(id, t) && t
                == old(self).previous->Some_0.lexeme@.subrange(
                1,
                old(self).previous->Some_0.lexeme@.len() - 1,
            ),
        decreases old(self).metric(), 2int,
    {
        let raw = match &self.previous {
            Some(t) => t.lexeme.clone(),
            None => String::new(),
        };
        let chars = crate::text::str_to_chars(raw.as_str());
        let inner = crate::text::chars_to_string(&chars[1..chars.len() - 1]);
        let val = self.strings.build_string_value(inner.as_str());
        self.emit_constant(val);
    }

    /// An identifier in expression position: a variable read, or the
    /// target of an assignment.
    fn variable(&mut self, can_assign: bool)
        requires
            old(self).wf(),
        ensures
            final(self).wf(),
            parser_frame(*old(self), *final(self)),
            final(self).compiler == old(self).compiler,
            old(self).panic_mode ==> final(self).errors@ == old(self).errors@ && final(self).panic_mode,
        decreases old(self).metric(), 3int,
    {
        self.named_variable(can_assign);
    }

    /// Resolve a name: a local resolves to its stack slot, anything else
    /// is a global under its interned name. With `can_assign`, an `=`
    /// makes this an assignment: parse the value, emit the set
    /// instruction; otherwise emit the get instruction.
    fn named_variable(&mut self, can_assign: bool)
        requires
            old(self).wf(),
        ensures
            final(self).wf(),
            parser_frame(*old(self), *final(self)),
            final(self).compiler == old(self).compiler,
            old(self).panic_mode ==> final(self).errors@ == old(self).errors@ && final(self).panic_mode,
            compiler_state::spec_resolve(
                old(self).compiler.locals@,
                old(self).previous->Some_0.lexeme@,
            ) matches Some((slot, init)) ==> super::appended_through(
                old(self).chunk.code@,
                final(self).chunk.code@,
                crate::instructions::spec_encode_op(
                    if can_assign && old(self).current.kind == TokenKind::Equal {
                        Op::SetLocal(slot as u8)
                    } else {
                        Op::GetLocal(slot as u8)
                    },
                ),
            ) && (!init && !old(self).panic_mode ==> final(self).had_error && final(self).errors@
                == old(self).errors@ + super::diag_text(
                old(self).previous->Some_0.line,
                super::at_text(old(self).previous->Some_0),
                "Can't read local variable in its own initializer."@,
            )),
            (compiler_state::spec_resolve(
                old(self).compiler.locals@,
                old(self).previous->Some_0.lexeme@,
            ) is None && old(self).chunk.constants@.len() < 256) ==> super::appended_through(
                old(self).chunk.code@,
                final(self).chunk.code@,
                crate::instructions::spec_encode_op(
                    if can_assign && old(self).current.kind == TokenKind::Equal {
                        Op::SetGlobal(old(self).chunk.constants@.len() as u8)
                    } else {
                        Op::GetGlobal(old(self).chunk.constants@.len() as u8)
                    },
                ),
            ) && (final(self).chunk.consts()[old(self).chunk.constants@.len() as int]
                matches crate::value::AbsValue::Text(id, t) && t
                == old(self).previous->Some_0.lexeme@),
        decreases old(self).metric(), 2int,
    {
        let ghost pre = *self;
        let name = match &self.previous {
            Some(t) => t.duplicate(),
            None => crate::compiler::stub_token(),
        };
        let resolved = self.compiler.resolve_local(&name);
        let ops: (Op, Op) = match resolved {
            Some((idx, initialized)) => {
                if !initialized {
                    self.error("Can't read local variable in its own initializer.");
                }
                (Op::SetLocal(idx), Op::GetLocal(idx))
            },
            None => {
                match self.identifier_constant() {
                    Some(idx) => (Op::SetGlobal(idx), Op::GetGlobal(idx)),
                    None => (Op::Pop, Op::Nil),
                }
            },
        };
        let ghost m1 = *self;
        if can_assign && self.check(TokenKind::Equal) {
            self.match_t(TokenKind::Equal);
            let ghost m2 = *self;
            self.expression();
            let ghost m3 = *self;
            self.emit_ins(ops.0);
            proof {
                lemma_extends_trans(pre.chunk, m1.chunk, m3.chunk);
                lemma_extends_trans(pre.chunk, m3.chunk, self.chunk);
                super::lemma_appended_through(
                    pre.chunk.code@,
                    m3.chunk.code@,
                    crate::instructions::spec_encode_op(ops.0),
                );
                let k = pre.chunk.constants@.len() as int;
                if k < m1.chunk.constants@.len() {
                    assert(m3.chunk.constants@[k] == m1.chunk.constants@[k]);
                    assert(self.chunk.constants@[k] == m3.chunk.constants@[k]);
                    assert(self.chunk.consts()[k] == m1.chunk.consts()[k]);
                }
            }
        } else {
            self.emit_ins(ops.1);
            proof {
                lemma_extends_trans(pre.chunk, m1.chunk, self.chunk);
                super::lemma_appended_through(
                    pre.chunk.code@,
                    m1.chunk.code@,
                    crate::instructions::spec_encode_op(ops.1),
                );
            }
        }
    }

    /// Short-circuit `and`: if the left operand is falsey, skip the
    /// right operand and leave the left value; else drop it and take
    /// the right operand's value.
    fn and_operator(&mut self, _can_assign: bool)
        requires
            old(self).wf(),
        ensures
            final(self).wf(),
            parser_frame(*old(self), *final(self)),
            final(self).compiler == old(self).compiler,
            old(self).panic_mode ==> final(self).errors@ == old(self).errors@ && final(self).panic_mode,
        decreases old(self).metric(), 2int,
    {
        let ghost pre = *self;
        let end_jump = self.emit_jump(true);
        let ghost m1 = *self;
        self.emit_ins(Op::Pop);
        let ghost m2 = *self;
        self.parse_precedence(ParsePrecedence::And);
        let ghost m3 = *self;
        proof {
            assert(self.chunk.pending@.contains(end_jump - 3));
        }
        self.patch_jump(end_jump);
        proof {
            lemma_extends_trans(pre.chunk, m1.chunk, m2.chunk);
            lemma_extends_trans(pre.chunk, m2.chunk, m3.chunk);
            lemma_extends_trans(pre.chunk, m3.chunk, self.chunk);
            if !self.had_error {
                assert(self.chunk.pending@ =~= pre.chunk.pending@);
            }
        }
    }

    /// One declaration: a `var` declaration or a statement; after a
    /// parse error, resynchronize at the next statement boundary.
    pub fn declaration(&mut self)
        requires
            old(self).wf(),
            old(self).ready(),
        ensures
            final(self).wf(),
            parser_frame(*old(self), *final(self)),
            final(self).ready(),
            final(self).compiler.scope_depth == old(self).compiler.scope_depth,
            !final(self).had_error ==> final(self).compiler.locals@.len() >= old(self).compiler.locals@.len() && (forall|j: int|
                0 <= j < old(self).compiler.locals@.len() ==> final(self).compiler.locals@[j]
                    == old(self).compiler.locals@[j]) && (forall|j: int|
                old(self).compiler.locals@.len() <= j < final(self).compiler.locals@.len()
                    ==> #[trigger] final(self).compiler.locals@[j].depth == Some(
                    old(self).compiler.scope_depth,
                )),
            old(self).current.kind != TokenKind::Eof ==> final(self).idx > old(self).idx,
            old(self).current.kind == TokenKind::Var && old(self).compiler.scope_depth == 0 && old(self).chunk.constants@.len() < 256 ==> super::appended_through(
                old(self).chunk.code@,
                final(self).chunk.code@,
                crate::instructions::spec_encode_op(
                    Op::DefineGlobal(old(self).chunk.constants@.len() as u8),
                ),
            ),
            old(self).current.kind == TokenKind::Print ==> super::appended_through(
                old(self).chunk.code@,
                final(self).chunk.code@,
                crate::instructions::spec_encode_op(Op::Print),
            ),
            !(old(self).current.kind == TokenKind::Var || old(self).current.kind
                == TokenKind::Print || old(self).current.kind == TokenKind::LeftBrace || old(self).current.kind == TokenKind::If || old(self).current.kind == TokenKind::While || old(self).current.kind == TokenKind::For)
                && spec_get_rule(old(self).current.kind).prefix is None ==> final(self).had_error,
        decreases old(self).metric(), 6int,
    {
        let ghost pre = *self;
        if self.match_t(TokenKind::Var) {
            self.variable_declaration();
        } else {
            self.statement();
        }
        let ghost m1 = *self;
        if self.panic_mode {
            self.synchronize();
        }
        proof {
            lemma_extends_trans(pre.chunk, m1.chunk, self.chunk);
        }
    }

    /// `var` name, an optional initializer (else nil), `;`. At the top
    /// level the name becomes a global definition; in a scope it becomes
    /// the next local, initialized once the initializer completes.
    fn variable_declaration(&mut self)
        requires
            old(self).wf(),
            old(self).ready(),
        ensures
            final(self).wf(),
            parser_frame(*old(self), *final(self)),
            final(self).ready(),
            final(self).compiler.scope_depth == old(self).compiler.scope_depth,
            !final(self).had_error ==> final(self).compiler.locals@.len() >= old(self).compiler.locals@.len() && (forall|j: int|
                0 <= j < old(self).compiler.locals@.len() ==> final(self).compiler.locals@[j]
                    == old(self).compiler.locals@[j]) && (forall|j: int|
                old(self).compiler.locals@.len() <= j < final(self).compiler.locals@.len()
                    ==> #[trigger] final(self).compiler.locals@[j].depth == Some(
                    old(self).compiler.scope_depth,
                )),
            old(self).compiler.scope_depth == 0 && old(self).chunk.constants@.len() < 256
                ==> super::appended_through(
                old(self).chunk.code@,
                final(self).chunk.code@,
                crate::instructions::spec_encode_op(
                    Op::DefineGlobal(old(self).chunk.constants@.len() as u8),
                ),
            ),
        decreases old(self).metric(), 2int,
    {
        let ghost pre = *self;
        let variable_constant = self.parse_variable("Expect variable name.");
        let ghost m1 = *self;
        if self.match_t(TokenKind::Equal) {
            self.expression();
        } else {
            self.emit_ins(Op::Nil);
        }
        let ghost m2 = *self;
        self.consume(TokenKind::Semicolon, "Expect ';' after assignment.");
        let ghost m3 = *self;
        self.define_variable(variable_constant);
        proof {
            lemma_extends_trans(pre.chunk, m1.chunk, m2.chunk);
            lemma_extends_trans(pre.chunk, m2.chunk, m3.chunk);
            lemma_extends_trans(pre.chunk, m3.chunk, self.chunk);
            if pre.compiler.scope_depth == 0 && pre.chunk.constants@.len() < 256 {
                super::lemma_appended_through(
                    pre.chunk.code@,
                    m3.chunk.code@,
                    crate::instructions::spec_encode_op(
                        Op::DefineGlobal(pre.chunk.constants@.len() as u8),
                    ),
                );
            }
        }
    }

    /// Consume the declared name. In a scope, register it as a local;
    /// at the top level, intern it and return its constant index.
    fn parse_variable(&mut self, err: &str) -> (r: Option<u8>)
        requires
            old(self).wf(),
            old(self).ready(),
        ensures
            final(self).wf(),
            parser_frame(*old(self), *final(self)),
            final(self).chunk.code@ == old(self).chunk.code@,
            final(self).chunk.starts@ == old(self).chunk.starts@,
            final(self).chunk.pending@ == old(self).chunk.pending@,
            final(self).compiler.scope_depth == old(self).compiler.scope_depth,
            final(self).compiler.locals@.len() >= old(self).compiler.locals@.len(),
            final(self).compiler.locals@.len() <= old(self).compiler.locals@.len() + 1,
            forall|j: int|
                0 <= j < old(self).compiler.locals@.len() ==> final(self).compiler.locals@[j]
                    == old(self).compiler.locals@[j],
            old(self).compiler.scope_depth == 0 ==> final(self).compiler.locals@ == old(self).compiler.locals@,
            forall|j: int|
                old(self).compiler.locals@.len() <= j < final(self).compiler.locals@.len()
                    ==> #[trigger] final(self).compiler.locals@[j].depth is None,
            old(self).compiler.scope_depth > 0 && final(self).compiler.locals@.len() == old(self).compiler.locals@.len() ==> final(self).had_error,
            old(self).compiler.scope_depth > 0 ==> r is None,
            old(self).compiler.scope_depth == 0 ==> (r is Some <==> old(self).chunk.constants@.len() < 256) && (r matches Some(i) ==> i as int == old(self).chunk.constants@.len()),
        decreases old(self).metric(), 2int,
    {
        self.consume(TokenKind::Identifier, err);
        self.declare_variable();
        if self.compiler.scope_depth > 0 {
            return None;
        }
        self.identifier_constant()
    }

    /// In a scope, declare the name just consumed as a new local;
    /// redeclaring a name in the same scope is an error. Top-level
    /// names are not registered.
    fn declare_variable(&mut self)
        requires
            old(self).wf(),
            old(self).ready(),
        ensures
            final(self).wf(),
            final(self).tokens@ == old(self).tokens@,
            final(self).idx == old(self).idx,
            final(self).chunk == old(self).chunk,
            final(self).strings == old(self).strings,
            final(self).current == old(self).current,
            final(self).previous == old(self).previous,
            old(self).had_error ==> final(self).had_error,
            !final(self).had_error ==> final(self).errors@ == old(self).errors@ && !old(self).had_error,
            final(self).compiler.scope_depth == old(self).compiler.scope_depth,
            final(self).compiler.locals@.len() >= old(self).compiler.locals@.len(),
            final(self).compiler.locals@.len() <= old(self).compiler.locals@.len() + 1,
            forall|j: int|
                0 <= j < old(self).compiler.locals@.len() ==> final(self).compiler.locals@[j]
                    == old(self).compiler.locals@[j],
            old(self).compiler.scope_depth == 0 ==> final(self).compiler.locals@ == old(self).compiler.locals@,
            forall|j: int|
                old(self).compiler.locals@.len() <= j < final(self).compiler.locals@.len()
                    ==> #[trigger] final(self).compiler.locals@[j].depth is None,
            old(self).compiler.scope_depth > 0 && final(self).compiler.locals@.len() == old(self).compiler.locals@.len() ==> final(self).had_error,
    {
        if self.compiler.scope_depth == 0 {
            return ;
        }
        let name = match &self.previous {
            Some(t) => t.duplicate(),
            None => crate::compiler::stub_token(),
        };
        let added = self.compiler.add_local(&name);
        match added {
            Ok(()) => {},
            Err(msg) => {
                self.error(msg);
            },
        }
    }

    /// Complete a variable declaration: mark a local initialized, or
    /// emit the definition of a global under its name constant.
    fn define_variable(&mut self, maybe_global_idx: Option<u8>)
        requires
            old(self).wf(),
        ensures
            final(self).wf(),
            parser_frame(*old(self), *final(self)),
            final(self).idx == old(self).idx,
            final(self).strings == old(self).strings,
            final(self).current == old(self).current,
            final(self).previous == old(self).previous,
            final(self).had_error == old(self).had_error,
            final(self).errors@ == old(self).errors@,
            final(self).chunk.pending@ == old(self).chunk.pending@,
            old(self).compiler.scope_depth > 0 ==> final(self).ready(),
            final(self).compiler.scope_depth == old(self).compiler.scope_depth,
            final(self).compiler.locals@.len() == old(self).compiler.locals@.len(),
            old(self).compiler.scope_depth > 0 && old(self).compiler.locals@.len() > 0 ==> final(self).compiler.locals@ == old(self).compiler.locals@.update(
                old(self).compiler.locals@.len() - 1,
                crate::compiler::compiler_state::Local {
                    name: old(self).compiler.locals@.last().name,
                    depth: Some(old(self).compiler.scope_depth),
                },
            ),
            old(self).compiler.scope_depth == 0 ==> final(self).compiler.locals@ == old(self).compiler.locals@ && (old(self).ready() ==> final(self).ready()),
            old(self).compiler.scope_depth == 0 ==> final(self).chunk.code@ == old(self).chunk.code@ + crate::instructions::spec_encode_op(
                match maybe_global_idx {
                    Some(idx) => Op::DefineGlobal(idx),
                    None => Op::Pop,
                },
            ),
            old(self).compiler.scope_depth > 0 ==> final(self).chunk == old(self).chunk,
    {
        if self.compiler.scope_depth > 0 {
            self.compiler.mark_initialized();
            return ;
        }
        match maybe_global_idx {
            Some(const_idx) => self.emit_ins(Op::DefineGlobal(const_idx)),
            None => self.emit_ins(Op::Pop),
        }
    }

    /// One statement: `print`, a block, `if`, `while`, `for`, or an
    /// expression statement.
    pub fn statement(&mut self)
        requires
            old(self).wf(),
            old(self).ready(),
        ensures
            final(self).wf(),
            parser_frame(*old(self), *final(self)),
            final(self).ready(),
            final(self).compiler.scope_depth == old(self).compiler.scope_depth,
            final(self).compiler.locals@ == old(self).compiler.locals@ || final(self).had_error,
            old(self).current.kind != TokenKind::Eof ==> final(self).idx > old(self).idx,
            old(self).current.kind == TokenKind::Print ==> super::appended_through(
                old(self).chunk.code@,
                final(self).chunk.code@,
                crate::instructions::spec_encode_op(Op::Print),
            ),
            old(self).current.kind == TokenKind::While ==> super::appended_through(
                old(self).chunk.code@,
                final(self).chunk.code@,
                crate::instructions::spec_encode_op(Op::Pop),
            ),
            !(old(self).current.kind == TokenKind::Print || old(self).current.kind
                == TokenKind::LeftBrace || old(self).current.kind == TokenKind::If || old(self).current.kind == TokenKind::While || old(self).current.kind == TokenKind::For)
                && spec_get_rule(old(self).current.kind).prefix is None ==> final(self).had_error,
            !(old(self).current.kind == TokenKind::Print || old(self).current.kind
                == TokenKind::LeftBrace || old(self).current.kind == TokenKind::If || old(self).current.kind == TokenKind::While || old(self).current.kind == TokenKind::For)
                ==> super::appended_through(
                old(self).chunk.code@,
                final(self).chunk.code@,
                crate::instructions::spec_encode_op(Op::Pop),
            ),
        decreases old(self).metric(), 5int,
    {
        let ghost pre = *self;
        if self.match_t(TokenKind::Print) {
            return self.print_statement();
        } else if self.match_t(TokenKind::LeftBrace) {
            self.compiler.begin_scope();
            let ghost m1 = *self;
            self.block();
            let ghost m2 = *self;
            self.end_scope();
            proof {
                lemma_extends_trans(m1.chunk, m2.chunk, self.chunk);
                if !self.had_error {
                    let kept = self.compiler.locals@.len() as int;
                    let n0 = pre.compiler.locals@.len() as int;
                    let d1 = m1.compiler.scope_depth;
                    assert forall|i: int| 0 <= i < n0 implies !compiler_state::local_in_scope(
                        m2.compiler.locals@,
                        i,
                        d1,
                    ) by {
                        assert(m2.compiler.locals@[i] == pre.compiler.locals@[i]);
                        assert(pre.compiler.locals@[i].depth is Some);
                    }
                    if kept < n0 {
                        assert(compiler_state::local_in_scope(m2.compiler.locals@, kept, d1));
                    }
                    if kept > n0 {
                        assert(!compiler_state::local_in_scope(m2.compiler.locals@, n0, d1));
                        assert(m2.compiler.locals@[n0].depth == Some(d1));
                    }
                    assert(kept == n0);
                    assert(self.compiler.locals@ =~= pre.compiler.locals@);
                }
            }
            return ;
        } else if self.match_t(TokenKind::If) {
            return self.if_statement();
        } else if self.match_t(TokenKind::While) {
            return self.while_statement();
        } else if self.match_t(TokenKind::For) {
            return self.for_statement();
        }
        self.expression_statement();
    }

    /// `print` expression `;`: evaluate, then write the value's text.
    fn print_statement(&mut self)
        requires
            old(self).wf(),
        ensures
            final(self).wf(),
            parser_frame(*old(self), *final(self)),
            final(self).compiler == old(self).compiler,
            old(self).panic_mode ==> final(self).errors@ == old(self).errors@ && final(self).panic_mode,
            super::appended_through(
                old(self).chunk.code@,
                final(self).chunk.code@,
                crate::instructions::spec_encode_op(Op::Print),
            ),
        decreases old(self).metric(), 2int,
    {
        let ghost pre = *self;
        self.expression();
        let ghost m1 = *self;
        self.consume(TokenKind::Semicolon, "Expect ';' after value.");
        let ghost m2 = *self;
        self.emit_ins(Op::Print);
        proof {
            lemma_extends_trans(pre.chunk, m1.chunk, m2.chunk);
            lemma_extends_trans(pre.chunk, m2.chunk, self.chunk);
            super::lemma_appended_through(
                pre.chunk.code@,
                m2.chunk.code@,
                crate::instructions::spec_encode_op(Op::Print),
            );
        }
    }

    /// An expression evaluated for effect: its value is dropped.
    fn expression_statement(&mut self)
        requires
            old(self).wf(),
        ensures
            final(self).wf(),
            parser_frame(*old(self), *final(self)),
            final(self).compiler == old(self).compiler,
            old(self).panic_mode ==> final(self).errors@ == old(self).errors@ && final(self).panic_mode,
            old(self).current.kind != TokenKind::Eof ==> final(self).idx > old(self).idx,
            spec_get_rule(old(self).current.kind).prefix is None ==> final(self).had_error,
            super::appended_through(
                old(self).chunk.code@,
                final(self).chunk.code@,
                crate::instructions::spec_encode_op(Op::Pop),
            ),
        decreases old(self).metric(), 2int,
    {
        let ghost pre = *self;
        self.expression();
        let ghost m1 = *self;
        self.consume(TokenKind::Semicolon, "Expect ';' after expression.");
        let ghost m2 = *self;
        self.emit_ins(Op::Pop);
        proof {
            lemma_extends_trans(pre.chunk, m1.chunk, m2.chunk);
            lemma_extends_trans(pre.chunk, m2.chunk, self.chunk);
            super::lemma_appended_through(
                pre.chunk.code@,
                m2.chunk.code@,
                crate::instructions::spec_encode_op(Op::Pop),
            );
        }
    }

    /// The declarations of a block, up to its closing brace.
    fn block_items(&mut self)
        requires
            old(self).wf(),
            old(self).ready(),
        ensures
            final(self).wf(),
            parser_frame(*old(self), *final(self)),
            final(self).ready(),
            final(self).compiler.scope_depth == old(self).compiler.scope_depth,
            !final(self).had_error ==> final(self).compiler.locals@.len() >= old(self).compiler.locals@.len() && (forall|j: int|
                0 <= j < old(self).compiler.locals@.len() ==> final(self).compiler.locals@[j]
                    == old(self).compiler.locals@[j]) && (forall|j: int|
                old(self).compiler.locals@.len() <= j < final(self).compiler.locals@.len()
                    ==> #[trigger] final(self).compiler.locals@[j].depth == Some(
                    old(self).compiler.scope_depth,
                )),
        decreases old(self).metric(), 7int,
    {
        let ghost pre = *self;
        if self.check(TokenKind::RightBrace) || self.check(TokenKind::Eof) {
            return ;
        }
        self.declaration();
        let ghost m1 = *self;
        self.block_items();
        proof {
            lemma_extends_trans(pre.chunk, m1.chunk, self.chunk);
        }
    }

    /// The body of a `{ ... }` block and its closing brace.
    pub fn block(&mut self)
        requires
            old(self).wf(),
            old(self).ready(),
        ensures
            final(self).wf(),
            parser_frame(*old(self), *final(self)),
            final(self).ready(),
            final(self).compiler.scope_depth == old(self).compiler.scope_depth,
            !final(self).had_error ==> final(self).compiler.locals@.len() >= old(self).compiler.locals@.len() && (forall|j: int|
                0 <= j < old(self).compiler.locals@.len() ==> final(self).compiler.locals@[j]
                    == old(self).compiler.locals@[j]) && (forall|j: int|
                old(self).compiler.locals@.len() <= j < final(self).compiler.locals@.len()
                    ==> #[trigger] final(self).compiler.locals@[j].depth == Some(
                    old(self).compiler.scope_depth,
                )),
        decreases old(self).metric(), 8int,
    {
        let ghost pre = *self;
        self.block_items();
        let ghost m1 = *self;
        self.consume(TokenKind::RightBrace, "Expect '}' after block.");
        proof {
            lemma_extends_trans(pre.chunk, m1.chunk, self.chunk);
        }
    }

    /// Close the scope that the last `{` opened: drop its locals and
    /// emit one `Pop` for each, so the stack shrinks exactly by the
    /// locals the block added.
    fn end_scope(&mut self)
        requires
            old(self).wf(),
            old(self).compiler.scope_depth > 0,
        ensures
            final(self).wf(),
            parser_frame(*old(self), *final(self)),
            final(self).ready(),
            final(self).compiler.scope_depth == old(self).compiler.scope_depth - 1,
            final(self).chunk.pending@ == old(self).chunk.pending@,
            final(self).had_error == old(self).had_error,
            final(self).errors@ == old(self).errors@,
            final(self).idx == old(self).idx,
            final(self).compiler.locals@ == old(self).compiler.locals@.subrange(
                0,
                final(self).compiler.locals@.len() as int,
            ),
            forall|i: int|
                0 <= i < final(self).compiler.locals@.len()
                    ==> !crate::compiler::compiler_state::local_in_scope(
                    old(self).compiler.locals@,
                    i,
                    old(self).compiler.scope_depth,
                ),
            forall|i: int|
                final(self).compiler.locals@.len() <= i < old(self).compiler.locals@.len()
                    ==> crate::compiler::compiler_state::local_in_scope(
                    old(self).compiler.locals@,
                    i,
                    old(self).compiler.scope_depth,
                ),
            final(self).chunk.code@.len() == old(self).chunk.code@.len() + (old(self).compiler.locals@.len() - final(self).compiler.locals@.len()),
            forall|k: int|
                old(self).chunk.code@.len() <= k < final(self).chunk.code@.len()
                    ==> #[trigger] final(self).chunk.code@[k]
                    == crate::instructions::spec_opcode_byte(crate::instructions::Opcode::Pop),
    {
        let removed_count = self.compiler.end_scope();
        self.emit_pops(removed_count);
        proof {
            if self.compiler.locals@.len() > 0 {
                let last = self.compiler.locals@.len() - 1;
                assert(!compiler_state::local_in_scope(
                    old(self).compiler.locals@,
                    last,
                    old(self).compiler.scope_depth,
                ));
                assert(self.compiler.locals@[last] == old(self).compiler.locals@[last]);
            }
        }
    }

    /// Emit `n` `Pop` instructions.
    fn emit_pops(&mut self, n: usize)
        requires
            old(self).wf(),
        ensures
            final(self).wf(),
            super::extends(old(self).chunk, final(self).chunk),
            final(self).tokens@ == old(self).tokens@,
            final(self).idx == old(self).idx,
            final(self).compiler == old(self).compiler,
            old(self).panic_mode ==> final(self).errors@ == old(self).errors@ && final(self).panic_mode,
            final(self).strings == old(self).strings,
            final(self).current == old(self).current,
            final(self).previous == old(self).previous,
            final(self).had_error == old(self).had_error,
            final(self).panic_mode == old(self).panic_mode,
            final(self).errors@ == old(self).errors@,
            final(self).chunk.pending@ == old(self).chunk.pending@,
            final(self).chunk.constants@ == old(self).chunk.constants@,
            final(self).chunk.code@.len() == old(self).chunk.code@.len() + n,
            forall|k: int|
                old(self).chunk.code@.len() <= k < final(self).chunk.code@.len()
                    ==> #[trigger] final(self).chunk.code@[k]
                    == crate::instructions::spec_opcode_byte(crate::instructions::Opcode::Pop),
    {
        let ghost pre = *self;
        let mut i: usize = 0;
        while i < n
            invariant
                self.wf(),
                i <= n,
                self.tokens@ == pre.tokens@,
                self.idx == pre.idx,
                self.compiler == pre.compiler,
                self.strings == pre.strings,
                self.current == pre.current,
                self.previous == pre.previous,
                self.had_error == pre.had_error,
                self.panic_mode == pre.panic_mode,
                self.errors@ == pre.errors@,
                super::extends(pre.chunk, self.chunk),
                self.chunk.pending@ == pre.chunk.pending@,
                self.chunk.constants@ == pre.chunk.constants@,
                self.chunk.code@.len() == pre.chunk.code@.len() + i,
                forall|k: int|
                    pre.chunk.code@.len() <= k < self.chunk.code@.len()
                        ==> #[trigger] self.chunk.code@[k] == crate::instructions::spec_opcode_byte(
                        crate::instructions::Opcode::Pop,
                    ),
            decreases n - i,
        {
            let ghost m = *self;
            self.emit_ins(Op::Pop);
            proof {
                lemma_extends_trans(pre.chunk, m.chunk, self.chunk);
            }
            i += 1;
        }
    }

    /// `if (cond) then else?`: a false condition jumps over the then
    /// branch; a true one runs it and jumps over the else branch. The
    /// condition value is popped on both paths.
    fn if_statement(&mut self)
        requires
            old(self).wf(),
            old(self).ready(),
        ensures
            final(self).wf(),
            parser_frame(*old(self), *final(self)),
            final(self).ready(),
            final(self).compiler.scope_depth == old(self).compiler.scope_depth,
            final(self).compiler.locals@ == old(self).compiler.locals@ || final(self).had_error,
        decreases old(self).metric(), 8int,
    {
        let ghost pre = *self;
        self.consume(TokenKind::LeftParen, "Expect '(' after 'if'.");
        let ghost m1 = *self;
        self.expression();
        proof {
            lemma_extends_trans(pre.chunk, m1.chunk, self.chunk);
        }
        let ghost m2 = *self;
        self.consume(TokenKind::RightParen, "Expect ')' after condition.");
        proof {
            lemma_extends_trans(pre.chunk, m2.chunk, self.chunk);
        }
        let ghost m3 = *self;
        let then_jump = self.emit_jump(true);
        proof {
            lemma_extends_trans(pre.chunk, m3.chunk, self.chunk);
        }
        let ghost m4 = *self;
        self.emit_ins(Op::Pop);
        proof {
            lemma_extends_trans(pre.chunk, m4.chunk, self.chunk);
        }
        let ghost m5 = *self;
        self.statement();
        proof {
            lemma_extends_trans(pre.chunk, m5.chunk, self.chunk);
        }
        let ghost m6 = *self;
        let else_jump = self.emit_jump(false);
        proof {
            lemma_extends_trans(pre.chunk, m6.chunk, self.chunk);
            assert(self.chunk.pending@.contains(then_jump - 3));
        }
        let ghost m7 = *self;
        self.patch_jump(then_jump);
        proof {
            lemma_extends_trans(pre.chunk, m7.chunk, self.chunk);
        }
        let ghost m8 = *self;
        self.emit_ins(Op::Pop);
        proof {
            lemma_extends_trans(pre.chunk, m8.chunk, self.chunk);
        }
        let ghost m9 = *self;
        if self.match_t(TokenKind::Else) {
            self.statement();
        }
        proof {
            lemma_extends_trans(pre.chunk, m9.chunk, self.chunk);
            assert(self.chunk.pending@.contains(else_jump - 3));
        }
        let ghost m10 = *self;
        self.patch_jump(else_jump);
        proof {
            lemma_extends_trans(pre.chunk, m10.chunk, self.chunk);
            if !self.had_error {
                assert(self.chunk.pending@ =~= pre.chunk.pending@);
            }
        }
    }

    /// `while (cond) body`: evaluate the condition each time around; a
    /// false value jumps out, a true one runs the body and loops back to
    /// the condition.
    fn while_statement(&mut self)
        requires
            old(self).wf(),
            old(self).ready(),
        ensures
            final(self).wf(),
            parser_frame(*old(self), *final(self)),
            final(self).ready(),
            final(self).compiler.scope_depth == old(self).compiler.scope_depth,
            final(self).compiler.locals@ == old(self).compiler.locals@ || final(self).had_error,
            super::appended_through(
                old(self).chunk.code@,
                final(self).chunk.code@,
                crate::instructions::spec_encode_op(Op::Pop),
            ),
        decreases old(self).metric(), 8int,
    {
        let ghost pre = *self;
        let loop_start = self.pos();
        self.consume(TokenKind::LeftParen, "Expect '(' after 'while'.");
        let ghost m1 = *self;
        self.expression();
        proof {
            lemma_extends_trans(pre.chunk, m1.chunk, self.chunk);
        }
        let ghost m2 = *self;
        self.consume(TokenKind::RightParen, "Expect ')' after condition.");
        proof {
            lemma_extends_trans(pre.chunk, m2.chunk, self.chunk);
        }
        let ghost m3 = *self;
        let exit_jump = self.emit_jump(true);
        proof {
            lemma_extends_trans(pre.chunk, m3.chunk, self.chunk);
        }
        let ghost m4 = *self;
        self.emit_ins(Op::Pop);
        proof {
            lemma_extends_trans(pre.chunk, m4.chunk, self.chunk);
        }
        let ghost m5 = *self;
        self.statement();
        proof {
            lemma_extends_trans(pre.chunk, m5.chunk, self.chunk);
        }
        let ghost m6 = *self;
        self.emit_loop(loop_start);
        proof {
            lemma_extends_trans(pre.chunk, m6.chunk, self.chunk);
            assert(self.chunk.pending@.contains(exit_jump - 3));
        }
        let ghost m7 = *self;
        self.patch_jump(exit_jump);
        proof {
            lemma_extends_trans(pre.chunk, m7.chunk, self.chunk);
        }
        let ghost m8 = *self;
        self.emit_ins(Op::Pop);
        proof {
            lemma_extends_trans(pre.chunk, m8.chunk, self.chunk);
            super::lemma_appended_through(
                pre.chunk.code@,
                m8.chunk.code@,
                crate::instructions::spec_encode_op(Op::Pop),
            );
            if !self.had_error {
                assert(self.chunk.pending@ =~= pre.chunk.pending@);
            }
        }
    }

    /// `for (init; cond; step) body`, lowered onto `while`: the
    /// initializer runs in its own scope; without a condition the loop
    /// is unconditional; a step runs after the body, reached by jumping
    /// back past it.
    /// The optional loop condition of a `for`: when present, evaluate
    /// it each time around and emit the exit jump (returned for the
    /// final patch) and the pop of the condition value.
    fn for_condition(&mut self) -> (r: Option<usize>)
        requires
            old(self).wf(),
        ensures
            final(self).wf(),
            parser_frame_weak(*old(self), *final(self)),
            final(self).compiler == old(self).compiler,
            old(self).panic_mode ==> final(self).errors@ == old(self).errors@ && final(self).panic_mode,
            forall|t: int|
                super::loopable(old(self).chunk, t) ==> super::loopable(final(self).chunk, t),
            r matches Some(j) ==> j >= 3 && final(self).chunk.pending@.contains(j - 3) && j >= 3
                + old(self).chunk.code@.len(),
            r matches Some(j) ==> (!final(self).had_error ==> final(self).chunk.pending@ == old(self).chunk.pending@.insert(j - 3) && !old(self).chunk.pending@.contains(j - 3)),
            r is None ==> final(self).chunk.pending@ == old(self).chunk.pending@,
        decreases old(self).metric(), 3int,
    {
        let ghost pre = *self;
        if self.match_t(TokenKind::Semicolon) {
            return None;
        }
        self.expression();
        proof {
            lemma_extends_trans(pre.chunk, pre.chunk, self.chunk);
        }
        let ghost c1 = *self;
        self.consume(TokenKind::Semicolon, "Expect ';' after loop condition.");
        proof {
            lemma_extends_trans(pre.chunk, c1.chunk, self.chunk);
        }
        let ghost c2 = *self;
        let j = self.emit_jump(true);
        proof {
            lemma_extends_trans(pre.chunk, c2.chunk, self.chunk);
        }
        let ghost c3 = *self;
        self.emit_ins(Op::Pop);
        proof {
            lemma_extends_trans(pre.chunk, c3.chunk, self.chunk);
            assert forall|t: int| super::loopable(pre.chunk, t) implies super::loopable(
                self.chunk,
                t,
            ) by {
                super::lemma_loopable(pre.chunk, c1.chunk, t);
                super::lemma_loopable(c1.chunk, c2.chunk, t);
                super::lemma_loopable(c2.chunk, c3.chunk, t);
                super::lemma_loopable(c3.chunk, self.chunk, t);
            }
            if !self.had_error {
                assert(self.chunk.pending@ =~= pre.chunk.pending@.insert(j - 3));
            }
        }
        Some(j)
    }

    /// The optional increment clause of a `for`: the body jumps here
    /// after each run; the clause evaluates, pops its value, and loops
    /// back to the condition. Returns the position the body should loop
    /// to: the increment when there is one, else `loop_start` itself.
    fn for_increment(&mut self, loop_start: usize) -> (r: usize)
        requires
            old(self).wf(),
            loop_start <= old(self).chunk.code@.len(),
            super::loopable(old(self).chunk, loop_start as int),
        ensures
            final(self).wf(),
            parser_frame(*old(self), *final(self)),
            final(self).compiler == old(self).compiler,
            old(self).panic_mode ==> final(self).errors@ == old(self).errors@ && final(self).panic_mode,
            r <= final(self).chunk.code@.len(),
            super::loopable(final(self).chunk, r as int),
        decreases old(self).metric(), 3int,
    {
        let ghost pre = *self;
        if self.match_t(TokenKind::RightParen) {
            return loop_start;
        }
        let body_jump = self.emit_jump(false);
        proof {
            super::lemma_loopable(pre.chunk, self.chunk, loop_start as int);
        }
        let increment_start = self.pos();
        let ghost s1 = *self;
        self.expression();
        proof {
            lemma_extends_trans(pre.chunk, s1.chunk, self.chunk);
            super::lemma_loopable(s1.chunk, self.chunk, loop_start as int);
            super::lemma_loopable(s1.chunk, self.chunk, increment_start as int);
        }
        let ghost s2 = *self;
        self.emit_ins(Op::Pop);
        proof {
            lemma_extends_trans(pre.chunk, s2.chunk, self.chunk);
            super::lemma_loopable(s2.chunk, self.chunk, loop_start as int);
            super::lemma_loopable(s2.chunk, self.chunk, increment_start as int);
        }
        let ghost s3 = *self;
        self.consume(TokenKind::RightParen, "Expect ')' after for clauses.");
        proof {
            lemma_extends_trans(pre.chunk, s3.chunk, self.chunk);
            super::lemma_loopable(s3.chunk, self.chunk, loop_start as int);
            super::lemma_loopable(s3.chunk, self.chunk, increment_start as int);
        }
        let ghost s4 = *self;
        self.emit_loop(loop_start);
        proof {
            lemma_extends_trans(pre.chunk, s4.chunk, self.chunk);
            super::lemma_loopable(s4.chunk, self.chunk, increment_start as int);
        }
        let ghost s5 = *self;
        proof {
            assert(self.chunk.pending@.contains(body_jump - 3));
        }
        self.patch_jump(body_jump);
        proof {
            lemma_extends_trans(pre.chunk, s5.chunk, self.chunk);
            super::lemma_loopable(s5.chunk, self.chunk, increment_start as int);
            if !self.had_error {
                assert(self.chunk.pending@ =~= pre.chunk.pending@);
            }
        }
        increment_start
    }

    /// `for (init; cond; step) body`, lowered onto `while`: the
    /// initializer runs in its own scope; without a condition the loop
    /// is unconditional; a step runs after the body, reached by jumping
    /// back past it.
    #[verifier::rlimit(100)]
    fn for_statement(&mut self)
        requires
            old(self).wf(),
            old(self).ready(),
            old(self).compiler.scope_depth < old(self).idx,
        ensures
            final(self).wf(),
            parser_frame(*old(self), *final(self)),
            final(self).ready(),
            final(self).compiler.scope_depth == old(self).compiler.scope_depth,
            final(self).compiler.locals@ == old(self).compiler.locals@ || final(self).had_error,
        decreases old(self).metric(), 8int,
    {
        let ghost pre = *self;
        self.compiler.begin_scope();
        let ghost d1 = self.compiler.scope_depth;
        self.consume(TokenKind::LeftParen, "Expect '(' after 'for'.");
        let ghost m1 = *self;
        if self.match_t(TokenKind::Semicolon) {
            // no initializer
        } else if self.match_t(TokenKind::Var) {
            self.variable_declaration();
        } else {
            self.expression_statement();
        }
        proof {
            lemma_extends_trans(pre.chunk, m1.chunk, self.chunk);
        }
        let cond_start = self.pos();
        let ghost m2 = *self;
        let exit_jump = self.for_condition();
        proof {
            lemma_extends_trans(pre.chunk, m2.chunk, self.chunk);
        }
        let ghost m3 = *self;
        let loop_start = self.for_increment(cond_start);
        proof {
            lemma_extends_trans(pre.chunk, m3.chunk, self.chunk);
        }
        let ghost m4 = *self;
        self.statement();
        proof {
            lemma_extends_trans(pre.chunk, m4.chunk, self.chunk);
            super::lemma_loopable(m4.chunk, self.chunk, loop_start as int);
        }
        let ghost m5 = *self;
        self.emit_loop(loop_start);
        proof {
            lemma_extends_trans(pre.chunk, m5.chunk, self.chunk);
        }
        let ghost m6 = *self;
        match exit_jump {
            Some(j) => {
                proof {
                    assert(self.chunk.pending@.contains(j - 3));
                }
                self.patch_jump(j);
                proof {
                    lemma_extends_trans(pre.chunk, m6.chunk, self.chunk);
                }
                let ghost m7 = *self;
                self.emit_ins(Op::Pop);
                proof {
                    lemma_extends_trans(pre.chunk, m7.chunk, self.chunk);
                }
            },
            None => {},
        }
        let ghost m8 = *self;
        self.end_scope();
        proof {
            lemma_extends_trans(pre.chunk, m8.chunk, self.chunk);
            assert forall|p: int| pre.chunk.pending@.contains(p) implies
                #[trigger] self.chunk.pending@.contains(p) by {
                assert(m2.chunk.pending@.contains(p));
                assert(m3.chunk.pending@.contains(p));
                assert(m6.chunk.pending@.contains(p));
                match exit_jump {
                    Some(j) => {
                        assert(crate::instructions::spec_decode(pre.chunk.code@, p) is Some);
                        assert(p + 3 <= pre.chunk.code@.len());
                        assert(p != j - 3);
                        assert(m8.chunk.pending@.contains(p));
                    },
                    None => {
                        assert(m8.chunk.pending@.contains(p));
                    },
                }
            }
            if !self.had_error {
                assert(m2.chunk.pending@ == pre.chunk.pending@);
                match exit_jump {
                    Some(j) => {
                        assert(m3.chunk.pending@ == m2.chunk.pending@.insert(j - 3));
                        assert(!m2.chunk.pending@.contains(j - 3));
                        assert(m6.chunk.pending@ == m3.chunk.pending@);
                        assert(self.chunk.pending@ == m6.chunk.pending@.remove(j - 3));
                        assert(self.chunk.pending@ =~= pre.chunk.pending@);
                    },
                    None => {
                        assert(m3.chunk.pending@ == m2.chunk.pending@);
                        assert(self.chunk.pending@ =~= pre.chunk.pending@);
                    },
                }
                let kept = self.compiler.locals@.len() as int;
                let n0 = pre.compiler.locals@.len() as int;
                assert forall|i: int| 0 <= i < n0 implies !compiler_state::local_in_scope(
                    m8.compiler.locals@,
                    i,
                    d1,
                ) by {
                    assert(m8.compiler.locals@[i] == pre.compiler.locals@[i]);
                    assert(pre.compiler.locals@[i].depth is Some);
                }
                if kept < n0 {
                    assert(compiler_state::local_in_scope(m8.compiler.locals@, kept, d1));
                }
                if kept > n0 {
                    assert(!compiler_state::local_in_scope(m8.compiler.locals@, n0, d1));
                    assert(m8.compiler.locals@[n0].depth == Some(d1));
                }
                assert(kept == n0);
                assert(self.compiler.locals@ =~= pre.compiler.locals@);
            }
        }
    }

    /// Short-circuit `or`: if the left operand is falsey, drop it and
    /// take the right operand's value; else skip the right operand.
    fn or_operator(&mut self, _can_assign: bool)
        requires
            old(self).wf(),
        ensures
            final(self).wf(),
            parser_frame(*old(self), *final(self)),
            final(self).compiler == old(self).compiler,
            old(self).panic_mode ==> final(self).errors@ == old(self).errors@ && final(self).panic_mode,
        decreases old(self).metric(), 2int,
    {
        let ghost pre = *self;
        let else_jump = self.emit_jump(true);
        let ghost m1 = *self;
        let end_jump = self.emit_jump(false);
        let ghost m2 = *self;
        self.patch_jump(else_jump);
        let ghost m3 = *self;
        self.emit_ins(Op::Pop);
        let ghost m4 = *self;
        self.parse_precedence(ParsePrecedence::Or);
        let ghost m5 = *self;
        proof {
            assert(self.chunk.pending@.contains(end_jump - 3));
        }
        self.patch_jump(end_jump);
        proof {
            lemma_extends_trans(pre.chunk, m1.chunk, m2.chunk);
            lemma_extends_trans(pre.chunk, m2.chunk, m3.chunk);
            lemma_extends_trans(pre.chunk, m3.chunk, m4.chunk);
            lemma_extends_trans(pre.chunk, m4.chunk, m5.chunk);
            lemma_extends_trans(pre.chunk, m5.chunk, self.chunk);
            if !self.had_error {
                assert(self.chunk.pending@ =~= pre.chunk.pending@);
            }
        }
    }
}

} // verus!
