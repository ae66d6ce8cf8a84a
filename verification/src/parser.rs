//! The compiler: one pass over the tokens, bytecode as it goes.
//!
//! What each routine emits is defined in [`crate::grammar`]; the routines
//! here do it.
use vstd::prelude::*;
use vstd::string::*;
use crate::chunk::Chunk;
use crate::function::{lemma_function_view, Function, FunctionType};
use crate::grammar::{resolve, DiagnosticView, LocalView, ParserView};
use crate::opcode::Opcode;
use crate::parse_rule::Handler;
use crate::precedence::Precedence;
use crate::scanner::{lemma_token_count, next_token, tokens_from, Scanner};
use crate::token::{Token, TokenType};
use crate::value::Value;
use crate::vm::VmView;

verus! {

/// An error found while compiling.
#[derive(Debug)]
pub struct Diagnostic {
    pub line: usize,
    pub message: String,
}

impl Diagnostic {
    /// What the diagnostic says.
    pub open spec fn view(&self) -> DiagnosticView {
        DiagnosticView { line: self.line, message: self.message@ }
    }
}

/// The views of a list of diagnostics, one for one.
pub open spec fn diagnostic_views(diagnostics: Seq<Diagnostic>) -> Seq<DiagnosticView> {
    Seq::new(diagnostics.len(), |i: int| diagnostics[i]@)
}

/// A local variable.
struct Local {
    name: String,
    depth: usize,
}

spec fn local_views(locals: Seq<Local>) -> Seq<LocalView> {
    Seq::new(
        locals.len(),
        |i: int| LocalView { name: locals[i].name@, depth: locals[i].depth as nat },
    )
}

pub struct Parser {
    current: Token,
    previous: Token,
    current_value: u64,
    previous_value: u64,
    scanner: Scanner,
    numbers: Vec<u64>,
    numerals: usize,
    chunk: Chunk,
    locals: Vec<Local>,
    diagnostics: Vec<Diagnostic>,
    end_flag: bool,
    scope_depth: usize,
}

impl Parser {
    /// The state of the compiler as the grammar sees it.
    pub closed spec fn view(&self) -> ParserView {
        let tokens = tokens_from(self.scanner@.source, 0);
        ParserView {
            tokens,
            numbers: self.numbers@,
            cursor: tokens.len() - tokens_from(self.scanner@.source, self.scanner@.pos).len(),
            numerals: self.numerals as int,
            current: self.current@,
            previous: self.previous@,
            current_value: self.current_value,
            previous_value: self.previous_value,
            ended: self.end_flag,
            chunk: self.chunk@,
            locals: local_views(self.locals@),
            scope_depth: self.scope_depth as nat,
            diagnostics: diagnostic_views(self.diagnostics@),
        }
    }

    /// The compiler is in step with its lexer, its chunk has a line for each
    /// byte, and its counters fit.
    pub closed spec fn wf(&self) -> bool {
        let src = self.scanner@.source;
        let pos = self.scanner@.pos;
        let tokens = tokens_from(src, 0);
        let cursor = tokens.len() - tokens_from(src, pos).len();
        &&& self.scanner.wf()
        &&& self.chunk.wf()
        &&& self.locals.len() <= 255
        &&& self@.scoped()
        &&& tokens.len() <= src.len() < usize::MAX
        &&& 0 <= cursor
        &&& tokens_from(src, pos) =~= tokens.skip(cursor)
        &&& self.end_flag ==> self.current@.token_type is Eof && next_token(src, pos) is None
        &&& self.scope_depth + (if self.current@.token_type is Eof {
            0int
        } else {
            1int
        }) <= cursor
        &&& self.numerals <= cursor
    }

    /// A compiler for the given source, before it has read anything.
    pub fn new(source: String) -> (p: Parser)
        requires
            source@.len() < usize::MAX,
        ensures
            p.wf(),
            p@ == ParserView::start(tokens_from(source@, 0)),
    {
        let p = Parser {
            current: Token::new(TokenType::Eof, 1, 0, 0),
            previous: Token::new(TokenType::Eof, 1, 0, 0),
            current_value: 0,
            previous_value: 0,
            scanner: Scanner::new(source),
            numbers: Vec::new(),
            numerals: 0,
            chunk: Chunk::new(),
            locals: Vec::new(),
            diagnostics: Vec::new(),
            end_flag: false,
            scope_depth: 0,
        };
        assert(p@.locals =~= Seq::empty());
        assert(p@.diagnostics =~= Seq::empty());
        assert(p@.numbers =~= Seq::empty());
        assert(tokens_from(source@, 0).skip(0) =~= tokens_from(source@, 0));
        proof {
            lemma_token_count(source@, 0);
        }
        p
    }

    /// Compiles the source. `numbers` holds the values of its number
    /// literals in the order in which they stand in the source. The result is
    /// the script as a function, or the errors if there were any. The code
    /// of the function has a line for every byte. Unless something was
    /// compiled by hand before, it is a row of whole instructions whose
    /// indices into the constant pool are inside it; and where the compiler
    /// is fresh, a machine that enters the function is in step with typed
    /// code, which is to say that the program cannot fail for a reason that
    /// lies in its code ([`crate::typing`]).
    #[verifier::rlimit(50)]
    pub fn compile(self, numbers: Vec<u64>) -> (r: Result<Function, Vec<Diagnostic>>)
        requires
            self.wf(),
        ensures
            match self@.with_numbers(numbers@).compile() {
                Ok(function) => {
                    &&& r matches Ok(f) && f@ == function && f.chunk.wf()
                    &&& self@.tidy() ==> function.chunk.tidy()
                    &&& self@ == ParserView::start(self@.tokens) ==> VmView::fresh().enter(
                        function,
                    ).safe_in(function.chunk)
                },
                Err(diagnostics) => r matches Err(d) && diagnostic_views(d@) == diagnostics,
            },
    {
        proof {
            if self@.tidy() {
                crate::tidy::lemma_program_tidy(self@.with_numbers(numbers@));
            }
            if self@ == ParserView::start(self@.tokens) && self@.with_numbers(
                numbers@,
            ).compile() is Ok {
                crate::typing::lemma_compiled_runs_safely(
                    self@.tokens,
                    numbers@,
                    VmView::fresh(),
                    None,
                    0,
                );
            }
        }
        let ghost start = self@.with_numbers(numbers@);
        let mut parser = self;
        parser.numbers = numbers;
        assert(parser@ == start);
        parser.advance();
        parser.declarations();
        parser.emit_op(Opcode::Return);
        assert(parser@ == start.program());
        if parser.diagnostics.len() > 0 {
            Err(parser.diagnostics)
        } else {
            let mut function = Function::new("script".to_owned(), FunctionType::Script);
            function.chunk = parser.chunk;
            proof {
                lemma_function_view(&function);
            }
            Ok(function)
        }
    }

    /// Declarations up to the end of the input.
    #[verifier::rlimit(50)]
    fn declarations(&mut self)
        requires
            old(self).wf(),
        ensures
            final(self).wf(),
            final(self)@ == old(self)@.declarations(),
    {
        while !self.end_flag
            invariant
                self.wf(),
                self@.declarations() == old(self)@.declarations(),
            decreases self@.remaining(),
        {
            let ghost before = self@;
            self.declaration();
            assert(before.declarations() == self@.declarations());
        }
    }

    fn expression(&mut self)
        requires
            old(self).wf(),
        ensures
            final(self).wf(),
            final(self)@ == old(self)@.expression(),
            final(self)@.remaining() <= old(self)@.remaining(),
            final(self)@.chunk.code.len() >= old(self)@.chunk.code.len(),
        decreases old(self)@.remaining(), 2nat,
    {
        self.parse_precedence(Precedence::Assignment);
    }

    #[verifier::rlimit(50)]
    fn declaration(&mut self)
        requires
            old(self).wf(),
        ensures
            final(self).wf(),
            final(self)@ == old(self)@.declaration(),
            final(self)@.remaining() <= old(self)@.remaining(),
            !old(self)@.ended ==> final(self)@.remaining() < old(self)@.remaining(),
            final(self)@.chunk.code.len() >= old(self)@.chunk.code.len(),
        decreases old(self)@.remaining(), 10nat,
    {
        let name = match &self.current.token_type {
            TokenType::Identifier(name) => Some(name.clone()),
            _ => None,
        };
        match name {
            Some(name) => {
                self.advance();
                if self.matches(TokenType::Equal) {
                    self.variable_definition(name);
                } else {
                    self.prefixed(Precedence::Assignment);
                    self.emit_op(Opcode::Pop);
                    self.end_statement();
                }
            },
            None => {
                self.statement();
            },
        }
    }

    #[verifier::rlimit(60)]
    fn statement(&mut self)
        requires
            old(self).wf(),
        ensures
            final(self).wf(),
            final(self)@ == old(self)@.statement(),
            final(self)@.remaining() <= old(self)@.remaining(),
            !old(self)@.ended ==> final(self)@.remaining() < old(self)@.remaining(),
            final(self)@.chunk.code.len() >= old(self)@.chunk.code.len(),
        decreases old(self)@.remaining(), 8nat,
    {
        match &self.current.token_type {
            TokenType::Print => {
                self.advance();
                self.print_statement();
            },
            TokenType::LeftBrace => {
                self.advance();
                self.begin_scope();
                self.block();
                self.end_scope();
            },
            TokenType::If => {
                self.advance();
                self.if_statement();
            },
            _ => {
                self.expression_statement();
            },
        }
    }

    /// The end of a simple statement: a semicolon, if there is one.
    fn end_statement(&mut self)
        requires
            old(self).wf(),
        ensures
            final(self).wf(),
            final(self)@ == old(self)@.end_statement(),
            final(self)@.remaining() <= old(self)@.remaining(),
            final(self)@.chunk.code.len() == old(self)@.chunk.code.len(),
    {
        self.matches(TokenType::Semicolon);
    }

    #[verifier::rlimit(50)]
    fn expression_statement(&mut self)
        requires
            old(self).wf(),
        ensures
            final(self).wf(),
            final(self)@ == old(self)@.expression_statement(),
            final(self)@.remaining() <= old(self)@.remaining(),
            !old(self)@.ended ==> final(self)@.remaining() < old(self)@.remaining(),
            final(self)@.chunk.code.len() >= old(self)@.chunk.code.len(),
        decreases old(self)@.remaining(), 6nat,
    {
        self.parse_precedence(Precedence::Assignment);
        self.emit_op(Opcode::Pop);
        self.end_statement();
    }

    #[verifier::rlimit(50)]
    fn block(&mut self)
        requires
            old(self).wf(),
        ensures
            final(self).wf(),
            final(self)@ == old(self)@.block(),
            final(self)@.remaining() <= old(self)@.remaining(),
            final(self)@.chunk.code.len() >= old(self)@.chunk.code.len(),
        decreases old(self)@.remaining(), 12nat,
    {
        loop
            invariant_except_break
                self.wf(),
                self@.block_items() == old(self)@.block_items(),
                self@.remaining() <= old(self)@.remaining(),
                self@.chunk.code.len() >= old(self)@.chunk.code.len(),
            ensures
                self.wf(),
                self@ == old(self)@.block_items(),
                self@.remaining() <= old(self)@.remaining(),
                self@.chunk.code.len() >= old(self)@.chunk.code.len(),
            decreases self@.remaining(),
        {
            if self.end_flag || self.current.token_type.is(&TokenType::RightBrace) {
                break ;
            }
            let ghost before = self@;
            self.declaration();
            assert(before.block_items() == self@.block_items());
        }
        self.consume(TokenType::RightBrace, "Expect '}' after block");
    }

    #[verifier::rlimit(60)]
    fn if_statement(&mut self)
        requires
            old(self).wf(),
        ensures
            final(self).wf(),
            final(self)@ == old(self)@.if_statement(),
            final(self)@.remaining() <= old(self)@.remaining(),
            final(self)@.chunk.code.len() >= old(self)@.chunk.code.len(),
        decreases old(self)@.remaining(), 9nat,
    {
        self.expression();
        let then_jump = self.emit_jump(Opcode::JumpIfFalse);
        self.emit_op(Opcode::Pop);
        self.statement();
        let else_jump = self.emit_jump(Opcode::Jump);
        self.patch_jump(then_jump);
        self.emit_op(Opcode::Pop);
        if self.matches(TokenType::Else) {
            self.statement();
        }
        self.patch_jump(else_jump);
    }

    /// A condition in parentheses and the statement that it guards.
    #[verifier::rlimit(50)]
    pub fn conditional(&mut self, val: bool)
        requires
            old(self).wf(),
        ensures
            final(self).wf(),
            final(self)@ == old(self)@.conditional(),
        decreases old(self)@.remaining(), 9nat,
    {
        self.consume(TokenType::LeftParen, "Expect expression to be evaluated as boolean");
        self.expression();
        self.consume(TokenType::RightParen, "Expect expression to be evaluated as boolean");
        let then_jump = self.emit_jump(Opcode::JumpIfFalse);
        self.statement();
        self.patch_jump(then_jump);
    }

    /// Moves on by one token.
    #[verifier::rlimit(50)]
    pub fn advance(&mut self)
        requires
            old(self).wf(),
        ensures
            final(self).wf(),
            final(self)@ == old(self)@.advance(),
            final(self)@.remaining() <= old(self)@.remaining(),
            !old(self)@.ended ==> final(self)@.remaining() < old(self)@.remaining(),
            final(self)@.chunk == old(self)@.chunk,
    {
        let ghost src = self.scanner@.source;
        let ghost pos = self.scanner@.pos;
        let ghost tokens = tokens_from(src, 0);
        self.previous = self.current.duplicate();
        self.previous_value = self.current_value;
        let line = self.current.line;
        if self.end_flag {
            self.current = Token::new(TokenType::Eof, line, 0, 0);
            return ;
        }
        match self.scanner.next() {
            Some(token) => {
                proof {
                    let end = self.scanner@.pos;
                    assert(tokens_from(src, pos) == seq![token@] + tokens_from(src, end));
                    let cursor = tokens.len() - tokens_from(src, pos).len();
                    assert(tokens.skip(cursor)[0] == token@);
                    assert(tokens.skip(cursor + 1) =~= tokens.skip(cursor).skip(1));
                    assert((seq![token@] + tokens_from(src, end)).skip(1) =~= tokens_from(src, end));
                    assert(tokens_from(src, end) =~= tokens.skip(cursor + 1));
                }
                let number = match &token.token_type {
                    TokenType::Number(_) => true,
                    _ => false,
                };
                let message = match &token.token_type {
                    TokenType::Error(message) => Some(message.clone()),
                    _ => None,
                };
                let token_line = token.line;
                self.current = token;
                if number {
                    if self.numerals < self.numbers.len() {
                        self.current_value = self.numbers[self.numerals];
                        self.numerals += 1;
                    } else {
                        self.current_value = 0;
                        self.numerals += 1;
                        self.error_at(token_line, "Number literal has no value");
                    }
                } else {
                    match message {
                        Some(message) => {
                            self.report(token_line, message);
                        },
                        None => {},
                    }
                }
            },
            None => {
                assert(tokens_from(src, pos) =~= Seq::empty());
                self.end_flag = true;
                self.current = Token::new(TokenType::Eof, line, 0, 0);
            },
        }
    }

    /// Consumes the current token, which is an error unless it is of the
    /// given kind.
    fn consume(&mut self, token_type: TokenType, msg: &str)
        requires
            old(self).wf(),
        ensures
            final(self).wf(),
            final(self)@ == old(self)@.consume(token_type@, msg@),
            final(self)@.remaining() <= old(self)@.remaining(),
            final(self)@.chunk == old(self)@.chunk,
    {
        if !self.current.token_type.is(&token_type) {
            self.error_at_current(msg);
        }
        self.advance();
    }

    /// A string literal loads its contents.
    pub fn string(&mut self, _can_assign: bool)
        requires
            old(self).wf(),
        ensures
            final(self).wf(),
            final(self)@ == old(self)@.string(),
            final(self)@.remaining() == old(self)@.remaining(),
            final(self)@.chunk.code.len() >= old(self)@.chunk.code.len(),
    {
        let contents = match &self.previous.token_type {
            TokenType::String(s) => Some(s.clone()),
            _ => None,
        };
        match contents {
            Some(s) => {
                self.emit_constant(Value::String(s));
            },
            None => {},
        }
    }

    /// Records an error at the token just consumed.
    fn error(&mut self, msg: &str)
        requires
            old(self).wf(),
        ensures
            final(self).wf(),
            final(self)@ == old(self)@.error(msg@),
    {
        let line = self.previous.line;
        self.error_at(line, msg);
    }

    /// Records an error at the token that the compiler looks at.
    fn error_at_current(&mut self, msg: &str)
        requires
            old(self).wf(),
        ensures
            final(self).wf(),
            final(self)@ == old(self)@.error_at_current(msg@),
    {
        let line = self.current.line;
        self.error_at(line, msg);
    }

    fn error_at(&mut self, line: usize, msg: &str)
        requires
            old(self).wf(),
        ensures
            final(self).wf(),
            final(self)@ == old(self)@.error_at(line, msg@),
    {
        self.report(line, msg.to_owned());
    }

    fn report(&mut self, line: usize, message: String)
        requires
            old(self).wf(),
        ensures
            final(self).wf(),
            final(self)@ == old(self)@.error_at(line, message@),
    {
        self.diagnostics.push(Diagnostic { line, message });
        assert(self@.diagnostics =~= old(self)@.diagnostics.push(
            DiagnosticView { line, message: message@ },
        ));
    }

    /// A number literal loads its value.
    pub fn number(&mut self, _can_assign: bool)
        requires
            old(self).wf(),
        ensures
            final(self).wf(),
            final(self)@ == old(self)@.number(),
            final(self)@.remaining() == old(self)@.remaining(),
            final(self)@.chunk.code.len() >= old(self)@.chunk.code.len(),
    {
        let number = match &self.previous.token_type {
            TokenType::Number(_) => true,
            _ => false,
        };
        if number {
            self.emit_constant(Value::Number(self.previous_value));
        }
    }

    fn emit_byte(&mut self, byte: u8)
        requires
            old(self).wf(),
        ensures
            final(self).wf(),
            final(self)@ == old(self)@.emit_byte(byte),
    {
        self.chunk.write(byte, self.previous.line);
    }

    fn emit_bytes(&mut self, a: u8, b: u8)
        requires
            old(self).wf(),
        ensures
            final(self).wf(),
            final(self)@ == old(self)@.emit_bytes(a, b),
    {
        self.emit_byte(a);
        self.emit_byte(b);
    }

    fn emit_op(&mut self, op: Opcode)
        requires
            old(self).wf(),
        ensures
            final(self).wf(),
            final(self)@ == old(self)@.emit_op(op),
    {
        self.emit_byte(op.to_u8());
    }

    fn emit_ops(&mut self, op1: Opcode, op2: Opcode)
        requires
            old(self).wf(),
        ensures
            final(self).wf(),
            final(self)@ == old(self)@.emit_ops(op1, op2),
    {
        self.emit_byte(op1.to_u8());
        self.emit_byte(op2.to_u8());
    }

    fn emit_constant(&mut self, value: Value)
        requires
            old(self).wf(),
        ensures
            final(self).wf(),
            final(self)@ == old(self)@.emit_constant(value@),
    {
        let constant = self.make_constant(value);
        self.emit_bytes(Opcode::Constant.to_u8(), constant as u8);
    }

    /// Emits a jump with a placeholder for its offset, and says where the
    /// placeholder stands.
    fn emit_jump(&mut self, op: Opcode) -> (offset: usize)
        requires
            old(self).wf(),
        ensures
            final(self).wf(),
            final(self)@ == old(self)@.emit_jump(op),
            offset == old(self)@.chunk.code.len() + 1,
            offset + 2 == final(self)@.chunk.code.len(),
    {
        self.emit_byte(op.to_u8());
        self.emit_bytes(0xff, 0xff);
        self.chunk.code.len() - 2
    }

    /// Fills in the placeholder at `offset` so that the jump lands at the
    /// end of the code as it is now.
    fn patch_jump(&mut self, offset: usize)
        requires
            old(self).wf(),
            offset + 2 <= old(self)@.chunk.code.len(),
        ensures
            final(self).wf(),
            final(self)@ == old(self)@.patch_jump(offset as int),
    {
        let jump = self.chunk.code.len() - offset - 2;
        if jump > 32767 {
            self.error("Jump is out of bounds");
        }
        let hi = ((jump / 256) % 256) as u8;
        let lo = (jump % 256) as u8;
        self.chunk.code[offset] = hi;
        self.chunk.code[offset + 1] = lo;
        assert(self@.chunk.constants =~= old(self)@.chunk.constants);
    }

    /// Adds a constant to the pool and returns its index, or 0 where the
    /// index does not fit in a byte, which is an error.
    fn make_constant(&mut self, value: Value) -> (index: usize)
        requires
            old(self).wf(),
        ensures
            final(self).wf(),
            final(self)@ == old(self)@.make_constant(value@),
            index == old(self)@.constant_index(),
            index <= 255,
    {
        let constant = self.chunk.add_constant(value);
        if constant > 255 {
            self.error("Too many constants in this chunk");
            0
        } else {
            constant
        }
    }

    /// A parenthesised expression, whose opening parenthesis is consumed.
    #[verifier::rlimit(50)]
    pub fn grouping(&mut self, _can_assign: bool)
        requires
            old(self).wf(),
        ensures
            final(self).wf(),
            final(self)@ == old(self)@.grouping(),
            final(self)@.remaining() <= old(self)@.remaining(),
            final(self)@.chunk.code.len() >= old(self)@.chunk.code.len(),
        decreases old(self)@.remaining(), 3nat,
    {
        self.expression();
        self.consume(TokenType::RightParen, "Expect ')' after expression");
    }

    /// A unary operator, which is consumed, and its operand.
    #[verifier::rlimit(50)]
    pub fn unary(&mut self, _can_assign: bool)
        requires
            old(self).wf(),
        ensures
            final(self).wf(),
            final(self)@ == old(self)@.unary(),
            final(self)@.remaining() <= old(self)@.remaining(),
            final(self)@.chunk.code.len() >= old(self)@.chunk.code.len(),
        decreases old(self)@.remaining(), 3nat,
    {
        let operator = self.previous.token_type.duplicate();
        self.parse_precedence(Precedence::Unary);
        match operator {
            TokenType::Minus => self.emit_op(Opcode::Negate),
            TokenType::Bang => self.emit_op(Opcode::Not),
            _ => {},
        }
    }

    /// The right operand of a binary operator, which is consumed, and the
    /// operator's instruction.
    #[verifier::rlimit(50)]
    pub fn binary(&mut self, _can_assign: bool)
        requires
            old(self).wf(),
        ensures
            final(self).wf(),
            final(self)@ == old(self)@.binary(),
            final(self)@.remaining() <= old(self)@.remaining(),
            final(self)@.chunk.code.len() >= old(self)@.chunk.code.len(),
        decreases old(self)@.remaining(), 3nat,
    {
        let operator = self.previous.token_type.duplicate();
        let rule = operator.rule();
        let precedence = rule.precedence.next();
        self.parse_precedence(precedence);
        match operator {
            TokenType::Plus => self.emit_op(Opcode::Add),
            TokenType::Minus => self.emit_op(Opcode::Subtract),
            TokenType::Star => self.emit_op(Opcode::Multiply),
            TokenType::Slash => self.emit_op(Opcode::Divide),
            TokenType::Mod => self.emit_op(Opcode::Mod),
            TokenType::BangEqual => self.emit_ops(Opcode::Equal, Opcode::Not),
            TokenType::EqualEqual => self.emit_op(Opcode::Equal),
            TokenType::Greater => self.emit_op(Opcode::Greater),
            TokenType::GreaterEqual => self.emit_ops(Opcode::Less, Opcode::Not),
            TokenType::Less => self.emit_op(Opcode::Less),
            TokenType::LessEqual => self.emit_ops(Opcode::Greater, Opcode::Not),
            TokenType::BitwiseAnd => self.emit_op(Opcode::BitwiseAnd),
            TokenType::BitwiseOr => self.emit_op(Opcode::BitwiseOr),
            TokenType::LogicalAnd => self.emit_op(Opcode::LogicalAnd),
            TokenType::LogicalOr => self.emit_op(Opcode::LogicalOr),
            _ => {},
        }
    }

    /// An expression of at least the given precedence.
    #[verifier::rlimit(50)]
    fn parse_precedence(&mut self, precedence: Precedence)
        requires
            old(self).wf(),
        ensures
            final(self).wf(),
            final(self)@ == old(self)@.parse_precedence(precedence),
            final(self)@.remaining() <= old(self)@.remaining(),
            !old(self)@.ended ==> final(self)@.remaining() < old(self)@.remaining(),
            final(self)@.chunk.code.len() >= old(self)@.chunk.code.len(),
        decreases old(self)@.remaining(), 1nat,
    {
        let at_end = self.end_flag;
        self.advance();
        if at_end {
            self.error("Expected expression");
        } else {
            self.prefixed(precedence);
        }
    }

    /// An expression whose first token is consumed.
    #[verifier::rlimit(50)]
    fn prefixed(&mut self, precedence: Precedence)
        requires
            old(self).wf(),
        ensures
            final(self).wf(),
            final(self)@ == old(self)@.prefixed(precedence),
            final(self)@.remaining() <= old(self)@.remaining(),
            final(self)@.chunk.code.len() >= old(self)@.chunk.code.len(),
        decreases old(self)@.remaining(), 5nat,
    {
        let rule = self.previous.token_type.rule();
        match rule.prefix {
            Some(handler) => {
                let can_assign = precedence.level() <= Precedence::Assignment.level();
                self.dispatch(handler, can_assign);
                self.infix_loop(precedence, can_assign);
            },
            None => {
                self.error("Expected expression");
            },
        }
    }

    /// The operators that follow an operand, with their right operands.
    #[verifier::rlimit(50)]
    fn infix_loop(&mut self, precedence: Precedence, can_assign: bool)
        requires
            old(self).wf(),
        ensures
            final(self).wf(),
            final(self)@ == old(self)@.infix_loop(precedence),
            final(self)@.remaining() <= old(self)@.remaining(),
            final(self)@.chunk.code.len() >= old(self)@.chunk.code.len(),
        decreases old(self)@.remaining(), 0nat,
    {
        let rule = self.current.token_type.rule();
        if rule.infix.is_some() && precedence.level() <= rule.precedence.level() {
            self.advance();
            self.binary(can_assign);
            self.infix_loop(precedence, can_assign);
        }
    }

    /// The routine that a rule names.
    #[verifier::rlimit(50)]
    fn dispatch(&mut self, handler: Handler, can_assign: bool)
        requires
            old(self).wf(),
        ensures
            final(self).wf(),
            final(self)@ == old(self)@.dispatch(handler, can_assign),
            final(self)@.remaining() <= old(self)@.remaining(),
            final(self)@.chunk.code.len() >= old(self)@.chunk.code.len(),
        decreases old(self)@.remaining(), 4nat,
    {
        match handler {
            Handler::Grouping => self.grouping(can_assign),
            Handler::Unary => self.unary(can_assign),
            Handler::Binary => self.binary(can_assign),
            Handler::String => self.string(can_assign),
            Handler::Number => self.number(can_assign),
            Handler::Literal => self.literal(can_assign),
            Handler::Variable => self.variable(can_assign),
        }
    }

    /// `false`, `nil` and `true` have an instruction each.
    pub fn literal(&mut self, _can_assign: bool)
        requires
            old(self).wf(),
        ensures
            final(self).wf(),
            final(self)@ == old(self)@.literal(),
            final(self)@.remaining() == old(self)@.remaining(),
            final(self)@.chunk.code.len() >= old(self)@.chunk.code.len(),
    {
        match &self.previous.token_type {
            TokenType::False => self.emit_op(Opcode::False),
            TokenType::Nil => self.emit_op(Opcode::Nil),
            TokenType::True => self.emit_op(Opcode::True),
            _ => {},
        }
    }

    #[verifier::rlimit(50)]
    fn print_statement(&mut self)
        requires
            old(self).wf(),
        ensures
            final(self).wf(),
            final(self)@ == old(self)@.print_statement(),
            final(self)@.remaining() <= old(self)@.remaining(),
            final(self)@.chunk.code.len() >= old(self)@.chunk.code.len(),
        decreases old(self)@.remaining(), 6nat,
    {
        self.parse_precedence(Precedence::Assignment);
        self.emit_op(Opcode::Print);
        self.end_statement();
    }

    /// Consumes the current token if it is of the given kind, and says
    /// whether it was.
    fn matches(&mut self, token_type: TokenType) -> (r: bool)
        requires
            old(self).wf(),
        ensures
            final(self).wf(),
            r == old(self)@.check(token_type@),
            final(self)@ == old(self)@.matches(token_type@),
            final(self)@.remaining() <= old(self)@.remaining(),
            final(self)@.chunk == old(self)@.chunk,
    {
        if self.current.token_type.is(&token_type) {
            self.advance();
            true
        } else {
            false
        }
    }

    /// An identifier, which is consumed: a read of the variable or, where it
    /// is allowed and `=` follows, an assignment to it.
    #[verifier::rlimit(50)]
    pub fn variable(&mut self, can_assign: bool)
        requires
            old(self).wf(),
        ensures
            final(self).wf(),
            final(self)@ == old(self)@.variable(can_assign),
            final(self)@.remaining() <= old(self)@.remaining(),
            final(self)@.chunk.code.len() >= old(self)@.chunk.code.len(),
        decreases old(self)@.remaining(), 3nat,
    {
        let name = match &self.previous.token_type {
            TokenType::Identifier(name) => Some(name.clone()),
            _ => None,
        };
        match name {
            Some(name) => {
                let (get_op, set_op, var) = match self.resolve_local(&name) {
                    Ok(id) => (Opcode::GetLocal, Opcode::SetLocal, id),
                    Err(_) => (
                        Opcode::GetGlobal,
                        Opcode::SetGlobal,
                        self.make_constant(Value::String(name)),
                    ),
                };
                if can_assign && self.matches(TokenType::Equal) {
                    self.expression();
                    self.emit_op(set_op);
                } else {
                    self.emit_op(get_op);
                }
                self.emit_byte(var as u8);
            },
            None => {},
        }
    }

    #[verifier::rlimit(50)]
    fn variable_definition(&mut self, name: String)
        requires
            old(self).wf(),
        ensures
            final(self).wf(),
            final(self)@ == old(self)@.variable_definition(name@),
            final(self)@.remaining() <= old(self)@.remaining(),
            final(self)@.chunk.code.len() >= old(self)@.chunk.code.len(),
        decreases old(self)@.remaining(), 6nat,
    {
        self.expression();
        if self.scope_depth > 0 {
            self.add_local(name);
        } else {
            let global = self.make_constant(Value::String(name));
            self.emit_op(Opcode::DefineGlobal);
            self.emit_byte(global as u8);
        }
        self.end_statement();
    }

    /// Declares a local variable at the current depth.
    fn add_local(&mut self, name: String)
        requires
            old(self).wf(),
        ensures
            final(self).wf(),
            final(self)@ == old(self)@.add_local(name@),
    {
        if self.locals.len() >= 255 {
            self.error("Too many local variables");
            return ;
        }
        let local = Local { name, depth: self.scope_depth };
        self.locals.push(local);
        assert(self@.locals =~= old(self)@.locals.push(
            LocalView { name: name@, depth: old(self)@.scope_depth },
        ));
    }

    fn begin_scope(&mut self)
        requires
            old(self).wf(),
            old(self)@.scope_depth + 1 + (if old(self)@.current.token_type is Eof {
                0int
            } else {
                1int
            }) <= old(self)@.cursor,
        ensures
            final(self).wf(),
            final(self)@ == old(self)@.begin_scope(),
    {
        self.scope_depth += 1;
    }

    /// Leaves a scope: the locals declared in it go, with a `Pop` each.
    #[verifier::rlimit(50)]
    fn end_scope(&mut self)
        requires
            old(self).wf(),
        ensures
            final(self).wf(),
            final(self)@ == old(self)@.end_scope(),
            final(self)@.remaining() == old(self)@.remaining(),
            final(self)@.chunk.code.len() >= old(self)@.chunk.code.len(),
    {
        let target = if self.scope_depth > 0 {
            self.scope_depth - 1
        } else {
            0
        };
        let ghost start = ParserView { scope_depth: target as nat, ..self@ };
        while self.locals.len() > 0 && self.locals[self.locals.len() - 1].depth > target
            invariant
                self.wf(),
                target <= self.scope_depth == old(self).scope_depth,
                (ParserView { scope_depth: target as nat, ..self@ }).pop_locals()
                    == start.pop_locals(),
                self@.remaining() == start.remaining(),
                self@.chunk.code.len() >= start.chunk.code.len(),
            decreases self.locals.len(),
        {
            let ghost before = self@;
            assert(before.locals.last().depth == self.locals@.last().depth);
            self.emit_op(Opcode::Pop);
            self.locals.pop();
            assert(self@.locals =~= before.locals.drop_last());
            assert(self@ == (ParserView {
                locals: before.locals.drop_last(),
                ..before.emit_op(Opcode::Pop)
            }));
        }
        proof {
            if self.locals.len() > 0 {
                assert(self@.locals.last().depth == self.locals@.last().depth);
                assert forall|i: int| 0 <= i < self@.locals.len() implies self@.locals[i].depth
                    <= target by {
                    assert(self@.locals[i].depth <= self@.locals.last().depth);
                }
            }
        }
        self.scope_depth = target;
    }

    /// The slot of the local variable of the given name that was declared
    /// last.
    fn resolve_local(&self, name: &String) -> (r: Result<usize, ()>)
        requires
            self.wf(),
        ensures
            match resolve(self@.locals, name@) {
                Some(slot) => r == Ok::<usize, ()>(slot as usize) && 0 <= slot < 255,
                None => r is Err,
            },
    {
        let mut i = self.locals.len();
        assert(self@.locals.take(i as int) =~= self@.locals);
        while i > 0
            invariant
                i <= self.locals.len() <= 255,
                resolve(self@.locals, name@) == resolve(self@.locals.take(i as int), name@),
            decreases i,
        {
            let ghost prefix = self@.locals.take(i as int);
            assert(prefix.last().name == self.locals@[i - 1].name@);
            assert(prefix.drop_last() =~= self@.locals.take(i - 1));
            if self.locals[i - 1].name == *name {
                return Ok(i - 1);
            }
            i -= 1;
        }
        Err(())
    }

    /// The local variables of a compiler are in the order of their scopes.
    pub proof fn lemma_scoped(&self)
        requires
            self.wf(),
        ensures
            self@.scoped(),
    {
    }

    /// The errors found so far, in the order in which they were found.
    pub fn diagnostics(&self) -> (r: &Vec<Diagnostic>)
        ensures
            diagnostic_views(r@) == self@.diagnostics,
    {
        &self.diagnostics
    }

    /// Whether an error has been found so far.
    pub fn had_error(&self) -> (r: bool)
        ensures
            r == self@.had_error(),
    {
        self.diagnostics.len() > 0
    }
}

} // verus!
