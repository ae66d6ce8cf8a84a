//! What the compiler emits, as a function of the tokens.
//!
//! The compiler makes one pass over the tokens and writes bytecode as it
//! goes. This module says what it writes: each routine of the compiler is a
//! function from the state before it to the state after it. The state holds
//! the tokens and how far the compiler has read, the chunk so far, the local
//! variables in scope, and the errors found.
//!
//! The routines call each other, and what makes their definitions
//! well-founded is that the input only shrinks. So where a routine goes on
//! after another one has run, its definition asks that the input has not
//! grown, and where it repeats itself, that the input has shrunk. The first
//! is always so ([`crate::growth`]); the second is so until the input ends,
//! which is where the repetitions stop.
use vstd::prelude::*;
use crate::chunk::ChunkView;
use crate::function::{FunctionType, FunctionView};
use crate::opcode::Opcode;
use crate::parse_rule::Handler;
use crate::precedence::Precedence;
use crate::token::{TokenTypeView, TokenView};
use crate::value::ValueView;

verus! {

/// A local variable: its name and the depth of the scope that declared it.
pub ghost struct LocalView {
    pub name: Seq<char>,
    pub depth: nat,
}

/// An error found while compiling, with the line of the token it was found at.
pub ghost struct DiagnosticView {
    pub line: usize,
    pub message: Seq<char>,
}

pub ghost struct ParserView {
    /// The tokens of the source, in order.
    pub tokens: Seq<TokenView>,
    /// The values of the number literals of the source, in order.
    pub numbers: Seq<u64>,
    /// How many tokens have been fetched.
    pub cursor: int,
    /// How many of them were number literals.
    pub numerals: int,
    /// The token that the compiler looks at, and the one before it.
    pub current: TokenView,
    pub previous: TokenView,
    /// The values of these two tokens, where they are number literals.
    pub current_value: u64,
    pub previous_value: u64,
    /// Whether the compiler has read past the last token.
    pub ended: bool,
    pub chunk: ChunkView,
    /// The local variables in scope, in the order of their declaration, which
    /// is the order of their slots on the operand stack.
    pub locals: Seq<LocalView>,
    pub scope_depth: nat,
    pub diagnostics: Seq<DiagnosticView>,
}

/// What the compiler looks at before the first and after the last token.
pub open spec fn end_token(line: usize) -> TokenView {
    TokenView { token_type: TokenTypeView::Eof, line, col: 0, len: 0 }
}

/// The message for a token that starts no expression.
pub open spec fn expected_expression() -> Seq<char> {
    "Expected expression"@
}

/// The message for a number literal for which no value was handed in.
pub open spec fn number_without_value() -> Seq<char> {
    "Number literal has no value"@
}

/// The message for the 257th constant of a chunk.
pub open spec fn too_many_constants() -> Seq<char> {
    "Too many constants in this chunk"@
}

/// The message for the 256th local variable in scope.
pub open spec fn too_many_locals() -> Seq<char> {
    "Too many local variables"@
}

/// The message for a jump over more than 32767 bytes.
pub open spec fn jump_out_of_bounds() -> Seq<char> {
    "Jump is out of bounds"@
}

/// The message for a parenthesis that is not closed.
pub open spec fn expect_right_paren() -> Seq<char> {
    "Expect ')' after expression"@
}

/// The message for a block that is not closed.
pub open spec fn expect_right_brace() -> Seq<char> {
    "Expect '}' after block"@
}

/// The message for a condition that is not in parentheses.
pub open spec fn expect_condition() -> Seq<char> {
    "Expect expression to be evaluated as boolean"@
}

/// The name of the function that a program is compiled to.
pub open spec fn script_name() -> Seq<char> {
    "script"@
}

/// The slot of the local variable of the given name that was declared last,
/// if there is one: inner declarations shadow outer ones.
pub open spec fn resolve(locals: Seq<LocalView>, name: Seq<char>) -> Option<int>
    decreases locals.len(),
{
    if locals.len() == 0 {
        None
    } else if locals.last().name == name {
        Some(locals.len() - 1)
    } else {
        resolve(locals.drop_last(), name)
    }
}

/// The instruction that a binary operator token compiles to, and whether a
/// `Not` follows it.
pub open spec fn binary_code(operator: TokenTypeView) -> Option<(Opcode, bool)> {
    match operator {
        TokenTypeView::Plus => Some((Opcode::Add, false)),
        TokenTypeView::Minus => Some((Opcode::Subtract, false)),
        TokenTypeView::Star => Some((Opcode::Multiply, false)),
        TokenTypeView::Slash => Some((Opcode::Divide, false)),
        TokenTypeView::Mod => Some((Opcode::Mod, false)),
        TokenTypeView::BangEqual => Some((Opcode::Equal, true)),
        TokenTypeView::EqualEqual => Some((Opcode::Equal, false)),
        TokenTypeView::Greater => Some((Opcode::Greater, false)),
        TokenTypeView::GreaterEqual => Some((Opcode::Less, true)),
        TokenTypeView::Less => Some((Opcode::Less, false)),
        TokenTypeView::LessEqual => Some((Opcode::Greater, true)),
        TokenTypeView::BitwiseAnd => Some((Opcode::BitwiseAnd, false)),
        TokenTypeView::BitwiseOr => Some((Opcode::BitwiseOr, false)),
        TokenTypeView::LogicalAnd => Some((Opcode::LogicalAnd, false)),
        TokenTypeView::LogicalOr => Some((Opcode::LogicalOr, false)),
        _ => None,
    }
}

impl ParserView {
    /// The local variables are in the order of their scopes: none is deeper
    /// than the current scope, and none is deeper than one declared after it.
    pub open spec fn scoped(self) -> bool {
        &&& forall|i: int| 0 <= i < self.locals.len() ==> self.locals[i].depth <= self.scope_depth
        &&& forall|i: int, j: int|
            0 <= i <= j < self.locals.len() ==> self.locals[i].depth <= self.locals[j].depth
    }

    /// The compiler before it has read anything.
    pub open spec fn start(tokens: Seq<TokenView>) -> ParserView {
        ParserView {
            tokens,
            numbers: Seq::empty(),
            cursor: 0,
            numerals: 0,
            current: end_token(1),
            previous: end_token(1),
            current_value: 0,
            previous_value: 0,
            ended: false,
            chunk: ChunkView::empty(),
            locals: Seq::empty(),
            scope_depth: 0,
            diagnostics: Seq::empty(),
        }
    }

    /// The compiler with the values of the number literals handed in.
    pub open spec fn with_numbers(self, numbers: Seq<u64>) -> ParserView {
        ParserView { numbers, ..self }
    }

    /// How much there is left to read: the tokens not yet fetched, and the
    /// end of the input unless it has been reached.
    pub open spec fn remaining(self) -> nat {
        (if 0 <= self.cursor <= self.tokens.len() {
            (self.tokens.len() - self.cursor) as nat
        } else {
            0nat
        }) + if self.ended {
            0nat
        } else {
            1nat
        }
    }

    /// Whether an error has been recorded.
    pub open spec fn had_error(self) -> bool {
        self.diagnostics.len() > 0
    }

    /// Records an error on the given line.
    pub open spec fn error_at(self, line: usize, message: Seq<char>) -> ParserView {
        ParserView {
            diagnostics: self.diagnostics.push(DiagnosticView { line, message }),
            ..self
        }
    }

    /// An error at the token just consumed.
    pub open spec fn error(self, message: Seq<char>) -> ParserView {
        self.error_at(self.previous.line, message)
    }

    /// An error at the token that the compiler looks at.
    pub open spec fn error_at_current(self, message: Seq<char>) -> ParserView {
        self.error_at(self.current.line, message)
    }

    /// Moves on by one token. A number literal takes the next of the values
    /// and is an error where there is none left; a token that the lexer could
    /// not read is an error with the lexer's message. Past the last token the
    /// compiler looks at the end of the input and stays there.
    pub open spec fn advance(self) -> ParserView {
        let moved = ParserView {
            previous: self.current,
            previous_value: self.current_value,
            ..self
        };
        if !self.ended && 0 <= self.cursor < self.tokens.len() {
            let token = self.tokens[self.cursor];
            let fetched = ParserView { current: token, cursor: self.cursor + 1, ..moved };
            match token.token_type {
                TokenTypeView::Number(_) => if 0 <= self.numerals < self.numbers.len() {
                    ParserView {
                        current_value: self.numbers[self.numerals],
                        numerals: self.numerals + 1,
                        ..fetched
                    }
                } else {
                    ParserView {
                        current_value: 0,
                        numerals: self.numerals + 1,
                        ..fetched
                    }.error_at(token.line, number_without_value())
                },
                TokenTypeView::Error(message) => fetched.error_at(token.line, message),
                _ => fetched,
            }
        } else {
            ParserView { current: end_token(self.current.line), ended: true, ..moved }
        }
    }

    /// Whether the compiler looks at a token of the given kind.
    pub open spec fn check(self, kind: TokenTypeView) -> bool {
        self.current.token_type == kind
    }

    /// Consumes the current token if it is of the given kind.
    pub open spec fn matches(self, kind: TokenTypeView) -> ParserView {
        if self.check(kind) {
            self.advance()
        } else {
            self
        }
    }

    /// Consumes the current token, which is an error unless it is of the
    /// given kind.
    pub open spec fn consume(self, kind: TokenTypeView, message: Seq<char>) -> ParserView {
        if self.check(kind) {
            self.advance()
        } else {
            self.error_at_current(message).advance()
        }
    }

    /// Appends a byte, on the line of the token just consumed.
    pub open spec fn emit_byte(self, byte: u8) -> ParserView {
        ParserView { chunk: self.chunk.write(byte, self.previous.line), ..self }
    }

    /// Appends two bytes.
    pub open spec fn emit_bytes(self, a: u8, b: u8) -> ParserView {
        self.emit_byte(a).emit_byte(b)
    }

    /// Appends the byte of an operation.
    pub open spec fn emit_op(self, op: Opcode) -> ParserView {
        self.emit_byte(op.byte())
    }

    /// Appends the bytes of two operations.
    pub open spec fn emit_ops(self, a: Opcode, b: Opcode) -> ParserView {
        self.emit_op(a).emit_op(b)
    }

    /// The index that `make_constant` returns: that of the new constant, or 0
    /// where the index does not fit in a byte.
    pub open spec fn constant_index(self) -> int {
        if self.chunk.constants.len() > 255 {
            0
        } else {
            self.chunk.constants.len() as int
        }
    }

    /// Adds a constant to the pool; the 257th and later ones are errors.
    pub open spec fn make_constant(self, value: ValueView) -> ParserView {
        let added = ParserView { chunk: self.chunk.add_constant(value), ..self };
        if self.chunk.constants.len() > 255 {
            added.error(too_many_constants())
        } else {
            added
        }
    }

    /// Adds a constant and the instruction that loads it.
    pub open spec fn emit_constant(self, value: ValueView) -> ParserView {
        self.make_constant(value).emit_bytes(Opcode::Constant.byte(), self.constant_index() as u8)
    }

    /// Emits a jump with a placeholder for its offset. The placeholder stands
    /// at the offset `self.chunk.code.len() + 1`.
    pub open spec fn emit_jump(self, op: Opcode) -> ParserView {
        self.emit_op(op).emit_bytes(0xff, 0xff)
    }

    /// Fills in the placeholder at `offset` so that the jump lands at the
    /// end of the code as it is now. The offset that is written counts from
    /// behind the placeholder: it is the length of the code less `offset`
    /// less two. More than 32767 is an error.
    pub open spec fn patch_jump(self, offset: int) -> ParserView {
        let jump = self.chunk.code.len() - offset - 2;
        let checked = if jump > 32767 {
            self.error(jump_out_of_bounds())
        } else {
            self
        };
        ParserView {
            chunk: ChunkView {
                code: self.chunk.code.update(offset, ((jump / 256) % 256) as u8).update(
                    offset + 1,
                    (jump % 256) as u8,
                ),
                ..self.chunk
            },
            ..checked
        }
    }

    /// Enters a scope.
    pub open spec fn begin_scope(self) -> ParserView {
        ParserView { scope_depth: self.scope_depth + 1, ..self }
    }

    /// Drops the local variables that were declared deeper than the current
    /// depth, the last first, with one `Pop` for each.
    pub open spec fn pop_locals(self) -> ParserView
        decreases self.locals.len(),
    {
        if self.locals.len() > 0 && self.locals.last().depth > self.scope_depth {
            ParserView { locals: self.locals.drop_last(), ..self.emit_op(Opcode::Pop) }.pop_locals()
        } else {
            self
        }
    }

    /// Leaves a scope: the locals declared in it go.
    pub open spec fn end_scope(self) -> ParserView {
        ParserView {
            scope_depth: if self.scope_depth > 0 {
                (self.scope_depth - 1) as nat
            } else {
                0nat
            },
            ..self
        }.pop_locals()
    }

    /// Declares a local variable at the current depth; the 256th is an error.
    pub open spec fn add_local(self, name: Seq<char>) -> ParserView {
        if self.locals.len() >= 255 {
            self.error(too_many_locals())
        } else {
            ParserView {
                locals: self.locals.push(LocalView { name, depth: self.scope_depth }),
                ..self
            }
        }
    }

    /// A number literal loads its value.
    pub open spec fn number(self) -> ParserView {
        if self.previous.token_type is Number {
            self.emit_constant(ValueView::Number(self.previous_value))
        } else {
            self
        }
    }

    /// A string literal loads its contents.
    pub open spec fn string(self) -> ParserView {
        match self.previous.token_type {
            TokenTypeView::String(contents) => self.emit_constant(ValueView::String(contents)),
            _ => self,
        }
    }

    /// `false`, `nil` and `true` have an instruction each.
    pub open spec fn literal(self) -> ParserView {
        match self.previous.token_type {
            TokenTypeView::False => self.emit_op(Opcode::False),
            TokenTypeView::Nil => self.emit_op(Opcode::Nil),
            TokenTypeView::True => self.emit_op(Opcode::True),
            _ => self,
        }
    }

    /// The operator's instruction, after both operands.
    pub open spec fn emit_binary(self, operator: TokenTypeView) -> ParserView {
        match binary_code(operator) {
            Some((op, negated)) => if negated {
                self.emit_ops(op, Opcode::Not)
            } else {
                self.emit_op(op)
            },
            None => self,
        }
    }

    /// The operator's instruction, after the operand.
    pub open spec fn emit_unary(self, operator: TokenTypeView) -> ParserView {
        match operator {
            TokenTypeView::Minus => self.emit_op(Opcode::Negate),
            TokenTypeView::Bang => self.emit_op(Opcode::Not),
            _ => self,
        }
    }

    /// The rest of an expression whose left operand is compiled: as long as
    /// the current token is a binary operator that binds at least as tightly
    /// as `precedence`, the operator and its right operand.
    pub open spec fn infix_loop(self, precedence: Precedence) -> ParserView
        decreases self.remaining(), 0nat,
    {
        let rule = self.current.token_type.rule();
        if rule.infix is Some && precedence.rank() <= rule.precedence.rank() {
            let next = self.advance();
            if next.remaining() < self.remaining() {
                let done = next.binary();
                if done.remaining() < self.remaining() {
                    done.infix_loop(precedence)
                } else {
                    done
                }
            } else {
                next
            }
        } else {
            self
        }
    }

    /// An expression of at least the given precedence: a token that can
    /// start one, compiled by its prefix routine, and what follows it.
    pub open spec fn parse_precedence(self, precedence: Precedence) -> ParserView
        decreases self.remaining(), 1nat,
    {
        let next = self.advance();
        if next.remaining() < self.remaining() {
            next.prefixed(precedence)
        } else {
            next.error(expected_expression())
        }
    }

    /// An expression: one that may be an assignment.
    pub open spec fn expression(self) -> ParserView
        decreases self.remaining(), 2nat,
    {
        self.parse_precedence(Precedence::Assignment)
    }

    /// A parenthesised expression, whose opening parenthesis is consumed.
    pub open spec fn grouping(self) -> ParserView
        decreases self.remaining(), 3nat,
    {
        self.expression().consume(TokenTypeView::RightParen, expect_right_paren())
    }

    /// A unary operator, which is consumed, and its operand.
    pub open spec fn unary(self) -> ParserView
        decreases self.remaining(), 3nat,
    {
        self.parse_precedence(Precedence::Unary).emit_unary(self.previous.token_type)
    }

    /// The right operand of a binary operator, which is consumed, and the
    /// operator's instruction. The operand is parsed one level above the
    /// operator, so that operators of one level group to the left.
    pub open spec fn binary(self) -> ParserView
        decreases self.remaining(), 3nat,
    {
        let operator = self.previous.token_type;
        self.parse_precedence(operator.rule().precedence.above()).emit_binary(operator)
    }

    /// An identifier, which is consumed: a read of the variable, or, where an
    /// assignment is allowed and `=` follows, the assigned expression and a
    /// write. A local variable in scope is addressed by its slot, anything
    /// else as a global by its name.
    pub open spec fn variable(self, can_assign: bool) -> ParserView
        decreases self.remaining(), 3nat,
    {
        match self.previous.token_type {
            TokenTypeView::Identifier(name) => {
                let slot = resolve(self.locals, name);
                let named = if slot is Some {
                    self
                } else {
                    self.make_constant(ValueView::String(name))
                };
                let arg = if slot is Some {
                    slot->0
                } else {
                    self.constant_index()
                };
                if can_assign && named.check(TokenTypeView::Equal) {
                    named.advance().expression().emit_op(
                        if slot is Some {
                            Opcode::SetLocal
                        } else {
                            Opcode::SetGlobal
                        },
                    ).emit_byte(arg as u8)
                } else {
                    named.emit_op(
                        if slot is Some {
                            Opcode::GetLocal
                        } else {
                            Opcode::GetGlobal
                        },
                    ).emit_byte(arg as u8)
                }
            },
            _ => self,
        }
    }

    /// The routine that a rule names.
    pub open spec fn dispatch(self, handler: Handler, can_assign: bool) -> ParserView
        decreases self.remaining(), 4nat,
    {
        match handler {
            Handler::Grouping => self.grouping(),
            Handler::Unary => self.unary(),
            Handler::Binary => self.binary(),
            Handler::String => self.string(),
            Handler::Number => self.number(),
            Handler::Literal => self.literal(),
            Handler::Variable => self.variable(can_assign),
        }
    }

    /// An expression whose first token is consumed: the prefix routine of
    /// that token, then the operators that follow. A token that starts no
    /// expression is an error. Assignment is allowed only where the
    /// expression is parsed at the lowest level.
    pub open spec fn prefixed(self, precedence: Precedence) -> ParserView
        decreases self.remaining(), 5nat,
    {
        match self.previous.token_type.rule().prefix {
            Some(handler) => {
                let done = self.dispatch(
                    handler,
                    precedence.rank() <= Precedence::Assignment.rank(),
                );
                if done.remaining() <= self.remaining() {
                    done.infix_loop(precedence)
                } else {
                    done
                }
            },
            None => self.error(expected_expression()),
        }
    }

    /// The end of a simple statement: a semicolon, if there is one.
    pub open spec fn end_statement(self) -> ParserView {
        self.matches(TokenTypeView::Semicolon)
    }

    /// An expression whose value is dropped.
    pub open spec fn expression_statement(self) -> ParserView
        decreases self.remaining(), 6nat,
    {
        self.expression().emit_op(Opcode::Pop).end_statement()
    }

    /// `print`, which is consumed, and the expression to print.
    pub open spec fn print_statement(self) -> ParserView
        decreases self.remaining(), 6nat,
    {
        self.expression().emit_op(Opcode::Print).end_statement()
    }

    /// The variable of the given name gets the value of the expression that
    /// follows. Outside every block this defines a global variable. Inside a
    /// block it declares a local one, whose value stays on the stack where
    /// the expression left it.
    pub open spec fn variable_definition(self, name: Seq<char>) -> ParserView
        decreases self.remaining(), 6nat,
    {
        let valued = self.expression();
        if valued.scope_depth > 0 {
            valued.add_local(name).end_statement()
        } else {
            valued.make_constant(ValueView::String(name)).emit_op(Opcode::DefineGlobal).emit_byte(
                valued.constant_index() as u8,
            ).end_statement()
        }
    }

    /// An `if` statement, whose `if` is consumed: the condition, a jump over
    /// the first branch that is taken when the condition is falsy, the first
    /// branch, a jump over the second branch, and the second branch if
    /// `else` follows. Each way drops the condition from the stack first.
    pub open spec fn if_statement(self) -> ParserView
        decreases self.remaining(), 9nat,
    {
        let tested = self.expression();
        let then_jump = (tested.chunk.code.len() + 1) as int;
        let entered = tested.emit_jump(Opcode::JumpIfFalse).emit_op(Opcode::Pop);
        if entered.remaining() <= self.remaining() {
            let first = entered.statement();
            let else_jump = (first.chunk.code.len() + 1) as int;
            let between = first.emit_jump(Opcode::Jump).patch_jump(then_jump).emit_op(Opcode::Pop);
            let second = if between.check(TokenTypeView::Else) && between.advance().remaining()
                <= self.remaining() {
                between.advance().statement()
            } else {
                between.matches(TokenTypeView::Else)
            };
            second.patch_jump(else_jump)
        } else {
            entered
        }
    }

    /// A condition in parentheses and the statement that it guards, with a
    /// jump over the statement that is taken when the condition is falsy.
    pub open spec fn conditional(self) -> ParserView
        decreases self.remaining(), 9nat,
    {
        let tested = self.consume(TokenTypeView::LeftParen, expect_condition()).expression().consume(
            TokenTypeView::RightParen,
            expect_condition(),
        );
        let then_jump = (tested.chunk.code.len() + 1) as int;
        let entered = tested.emit_jump(Opcode::JumpIfFalse);
        if entered.remaining() <= self.remaining() {
            entered.statement().patch_jump(then_jump)
        } else {
            entered
        }
    }

    /// A statement: `print`, a block, `if`, or an expression.
    pub open spec fn statement(self) -> ParserView
        decreases self.remaining(), 8nat,
    {
        match self.current.token_type {
            TokenTypeView::Print => self.advance().print_statement(),
            TokenTypeView::LeftBrace => {
                let inside = self.advance().begin_scope();
                if inside.remaining() < self.remaining() {
                    inside.block().end_scope()
                } else {
                    inside.end_scope()
                }
            },
            TokenTypeView::If => {
                let next = self.advance();
                if next.remaining() < self.remaining() {
                    next.if_statement()
                } else {
                    next
                }
            },
            _ => self.expression_statement(),
        }
    }

    /// The declarations of a block up to its closing brace or the end of the
    /// input.
    pub open spec fn block_items(self) -> ParserView
        decreases self.remaining(), 11nat,
    {
        if self.check(TokenTypeView::RightBrace) || self.ended {
            self
        } else {
            let next = self.declaration();
            if next.remaining() < self.remaining() {
                next.block_items()
            } else {
                next
            }
        }
    }

    /// A block, whose opening brace is consumed.
    pub open spec fn block(self) -> ParserView
        decreases self.remaining(), 12nat,
    {
        self.block_items().consume(TokenTypeView::RightBrace, expect_right_brace())
    }

    /// A declaration: an identifier followed by `=` starts a definition;
    /// anything else is a statement.
    pub open spec fn declaration(self) -> ParserView
        decreases self.remaining(), 10nat,
    {
        match self.current.token_type {
            TokenTypeView::Identifier(name) => {
                let next = self.advance();
                if next.check(TokenTypeView::Equal) {
                    next.advance().variable_definition(name)
                } else {
                    next.prefixed(Precedence::Assignment).emit_op(Opcode::Pop).end_statement()
                }
            },
            _ => self.statement(),
        }
    }

    /// Declarations up to the end of the input.
    pub open spec fn declarations(self) -> ParserView
        decreases self.remaining(), 13nat,
    {
        if self.ended {
            self
        } else {
            let next = self.declaration();
            if next.remaining() < self.remaining() {
                next.declarations()
            } else {
                next
            }
        }
    }

    /// The whole program: the first token is fetched, declarations are
    /// compiled until the input ends, and a `Return` closes the code.
    pub open spec fn program(self) -> ParserView {
        self.advance().declarations().emit_op(Opcode::Return)
    }

    /// The result of compiling: the script as a function, or the errors if
    /// there were any.
    pub open spec fn compile(self) -> Result<FunctionView, Seq<DiagnosticView>> {
        let done = self.program();
        if done.had_error() {
            Err(done.diagnostics)
        } else {
            Ok(
                FunctionView {
                    num_params: 0,
                    chunk: done.chunk,
                    name: script_name(),
                    native: false,
                    function_type: FunctionType::Script,
                },
            )
        }
    }
}

/// A local variable ends with its scope. Leaving a scope keeps the locals
/// that were declared outside it, in their order, and drops the others; it
/// emits one `Pop` for each local it drops and changes nothing else in the
/// code. A name that was declared only inside the scope resolves to no slot
/// afterwards.
pub proof fn lemma_end_scope(s: ParserView, name: Seq<char>)
    requires
        s.scoped(),
        s.scope_depth > 0,
    ensures
        ({
            let t = s.end_scope();
            let kept = t.locals.len() as int;
            &&& t.scoped()
            &&& t.scope_depth == s.scope_depth - 1
            &&& kept <= s.locals.len()
            &&& t.locals == s.locals.take(kept)
            &&& forall|i: int| kept <= i < s.locals.len() ==> s.locals[i].depth == s.scope_depth
            &&& t.chunk.code == s.chunk.code + Seq::new(
                (s.locals.len() - kept) as nat,
                |i: int| Opcode::Pop.byte(),
            )
            &&& t.chunk.constants == s.chunk.constants
            &&& (forall|i: int|
                0 <= i < s.locals.len() && s.locals[i].name == name ==> s.locals[i].depth
                    == s.scope_depth) ==> resolve(t.locals, name) is None
        }),
{
    let entered = ParserView { scope_depth: (s.scope_depth - 1) as nat, ..s };
    lemma_pop_locals(entered);
    let t = s.end_scope();
    lemma_resolve(t.locals, name);
}

/// Dropping the locals that are deeper than the current scope.
proof fn lemma_pop_locals(s: ParserView)
    requires
        forall|i: int| 0 <= i < s.locals.len() ==> s.locals[i].depth <= s.scope_depth + 1,
        forall|i: int, j: int|
            0 <= i <= j < s.locals.len() ==> s.locals[i].depth <= s.locals[j].depth,
    ensures
        ({
            let t = s.pop_locals();
            let kept = t.locals.len() as int;
            &&& t.scoped()
            &&& t.scope_depth == s.scope_depth
            &&& kept <= s.locals.len()
            &&& t.locals == s.locals.take(kept)
            &&& forall|i: int| kept <= i < s.locals.len() ==> s.locals[i].depth == s.scope_depth + 1
            &&& t.chunk.code == s.chunk.code + Seq::new(
                (s.locals.len() - kept) as nat,
                |i: int| Opcode::Pop.byte(),
            )
            &&& t.chunk.constants == s.chunk.constants
        }),
    decreases s.locals.len(),
{
    if s.locals.len() > 0 && s.locals.last().depth > s.scope_depth {
        let next = ParserView { locals: s.locals.drop_last(), ..s.emit_op(Opcode::Pop) };
        assert forall|i: int| 0 <= i < next.locals.len() implies next.locals[i] == s.locals[i] by {}
        lemma_pop_locals(next);
        let t = s.pop_locals();
        assert(t == next.pop_locals());
        let kept = t.locals.len() as int;
        assert(next.locals.take(kept) =~= s.locals.take(kept));
        assert(t.locals =~= s.locals.take(kept));
        assert forall|i: int| kept <= i < s.locals.len() implies s.locals[i].depth
            == s.scope_depth + 1 by {
            if i < next.locals.len() {
                assert(next.locals[i] == s.locals[i]);
            } else {
                assert(s.locals[i] == s.locals.last());
            }
        }
        assert(next.chunk.code == s.chunk.code.push(Opcode::Pop.byte()));
        assert(t.chunk.code =~= s.chunk.code + Seq::new(
            (s.locals.len() - kept) as nat,
            |i: int| Opcode::Pop.byte(),
        ));
    } else {
        assert(s.locals =~= s.locals.take(s.locals.len() as int));
        assert(s.chunk.code =~= s.chunk.code + Seq::new(0nat, |i: int| Opcode::Pop.byte()));
        assert forall|i: int| 0 <= i < s.locals.len() implies s.locals[i].depth
            <= s.scope_depth by {
            assert(s.locals[i].depth <= s.locals.last().depth);
        }
    }
}

/// Resolving a name gives the slot of its last declaration: the local in
/// that slot has the name and no later local has it; and no slot is given
/// exactly when no local has the name.
pub proof fn lemma_resolve(locals: Seq<LocalView>, name: Seq<char>)
    ensures
        match resolve(locals, name) {
            Some(slot) => {
                &&& 0 <= slot < locals.len()
                &&& locals[slot].name == name
                &&& forall|i: int| slot < i < locals.len() ==> locals[i].name != name
            },
            None => forall|i: int| 0 <= i < locals.len() ==> locals[i].name != name,
        },
    decreases locals.len(),
{
    if locals.len() > 0 && locals.last().name != name {
        let before = locals.drop_last();
        lemma_resolve(before, name);
        assert forall|i: int| 0 <= i < before.len() implies before[i] == locals[i] by {}
        match resolve(before, name) {
            Some(slot) => {
                assert(locals[slot] == before[slot]);
                assert forall|i: int| slot < i < locals.len() implies locals[i].name != name by {
                    if i < before.len() {
                        assert(before[i] == locals[i]);
                    }
                }
            },
            None => {
                assert forall|i: int| 0 <= i < locals.len() implies locals[i].name != name by {
                    if i < before.len() {
                        assert(before[i] == locals[i]);
                    }
                }
            },
        }
    }
}

/// An identifier that names no local variable in scope is compiled as a
/// global: its name goes to the constant pool, and the read is a `GetGlobal`
/// with the index of the name.
pub proof fn lemma_unresolved_is_global(s: ParserView, name: Seq<char>)
    requires
        s.previous.token_type == TokenTypeView::Identifier(name),
        resolve(s.locals, name) is None,
    ensures
        s.variable(false) == s.make_constant(ValueView::String(name)).emit_op(
            Opcode::GetGlobal,
        ).emit_byte(s.constant_index() as u8),
{
}

/// A patched jump lands where the code ended when it was patched. The two
/// bytes at the placeholder spell, high byte first, the distance from behind
/// the placeholder to the end of the code; nothing else in the chunk
/// changes; and no error is recorded as long as the distance is at most
/// 32767.
pub proof fn lemma_patch_jump(s: ParserView, offset: int)
    requires
        0 <= offset,
        offset + 2 <= s.chunk.code.len(),
        s.chunk.code.len() - offset - 2 <= 32767,
    ensures
        ({
            let t = s.patch_jump(offset);
            let code = t.chunk.code;
            &&& code.len() == s.chunk.code.len()
            &&& offset + 2 + crate::chunk::short(code[offset], code[offset + 1]) == code.len()
            &&& forall|i: int|
                0 <= i < code.len() && i != offset && i != offset + 1 ==> code[i]
                    == s.chunk.code[i]
            &&& t.chunk.lines == s.chunk.lines
            &&& t.chunk.constants == s.chunk.constants
            &&& t.diagnostics == s.diagnostics
        }),
{
    let jump = s.chunk.code.len() - offset - 2;
    assert(0 <= jump <= 32767);
    assert((jump / 256) % 256 == jump / 256);
    assert((jump / 256) * 256 + jump % 256 == jump);
}

} // verus!
