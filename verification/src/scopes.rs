//! Local variables end with their block.
//!
//! An expression declares nothing. A declaration inside a block adds one
//! local at the depth of the block. A statement, whatever blocks it holds,
//! leaves the locals as it found them: what a block declares is dropped at
//! its closing brace. So an identifier that is read after a block never
//! resolves to a slot that the block had declared.
use vstd::prelude::*;
use crate::grammar::{lemma_end_scope, resolve, ParserView};
use crate::growth::starts_with;
use crate::opcode::Opcode;
use crate::parse_rule::Handler;
use crate::precedence::Precedence;
use crate::token::TokenTypeView;
use crate::value::ValueView;

verus! {

impl ParserView {
    /// This state is in the same scope as `before` and has the same locals.
    pub open spec fn same_scope(self, before: ParserView) -> bool {
        self.scope_depth == before.scope_depth && self.locals == before.locals
    }

    /// This state is in the same scope as `before`; it has the locals of
    /// `before` and after them none but locals of this scope.
    pub open spec fn keeps_scope(self, before: ParserView) -> bool {
        &&& self.scope_depth == before.scope_depth
        &&& starts_with(self.locals, before.locals)
        &&& forall|i: int|
            before.locals.len() <= i < self.locals.len() ==> (#[trigger] self.locals[i]).depth
                == before.scope_depth
    }
}

/// A state that keeps the scope of a state in which the locals are in order
/// has its locals in order.
pub proof fn lemma_keeps_scoped(after: ParserView, before: ParserView)
    requires
        before.scoped(),
        after.keeps_scope(before),
    ensures
        after.scoped(),
{
    assert forall|i: int| 0 <= i < after.locals.len() implies after.locals[i].depth
        <= after.scope_depth by {
        if i < before.locals.len() {
            assert(after.locals[i] == before.locals[i]);
        }
    }
    assert forall|i: int, j: int| 0 <= i <= j < after.locals.len() implies after.locals[i].depth
        <= after.locals[j].depth by {
        if j < before.locals.len() {
            assert(after.locals[i] == before.locals[i]);
            assert(after.locals[j] == before.locals[j]);
        } else if i < before.locals.len() {
            assert(after.locals[i] == before.locals[i]);
        }
    }
}

pub(crate) proof fn lemma_keeps_chain(a: ParserView, b: ParserView, c: ParserView)
    requires
        a.keeps_scope(b),
        b.keeps_scope(c),
    ensures
        a.keeps_scope(c),
{
    assert forall|i: int| 0 <= i < c.locals.len() implies #[trigger] a.locals[i] == c.locals[i] by {
        assert(a.locals[i] == b.locals[i]);
        assert(b.locals[i] == c.locals[i]);
    }
    assert forall|i: int| c.locals.len() <= i < a.locals.len() implies (#[trigger] a.locals[i]).depth
        == c.scope_depth by {
        if i < b.locals.len() {
            assert(a.locals[i] == b.locals[i]);
        }
    }
}

/// The routines that compile no expression and no statement leave the scope
/// alone, but for the three that are there to change it.
#[verifier::rlimit(50)]
pub proof fn lemma_steps_same_scope(s: ParserView)
    ensures
        s.advance().same_scope(s),
        forall|kind: TokenTypeView| #[trigger] s.matches(kind).same_scope(s),
        forall|kind: TokenTypeView, message: Seq<char>| #[trigger]
            s.consume(kind, message).same_scope(s),
        forall|byte: u8| #[trigger] s.emit_byte(byte).same_scope(s),
        forall|a: u8, b: u8| #[trigger] s.emit_bytes(a, b).same_scope(s),
        forall|op: Opcode| #[trigger] s.emit_op(op).same_scope(s),
        forall|a: Opcode, b: Opcode| #[trigger] s.emit_ops(a, b).same_scope(s),
        forall|value: ValueView| #[trigger] s.make_constant(value).same_scope(s),
        forall|value: ValueView| #[trigger] s.emit_constant(value).same_scope(s),
        forall|op: Opcode| #[trigger] s.emit_jump(op).same_scope(s),
        forall|offset: int| #[trigger] s.patch_jump(offset).same_scope(s),
        forall|message: Seq<char>| #[trigger] s.error(message).same_scope(s),
        forall|message: Seq<char>| #[trigger] s.error_at_current(message).same_scope(s),
        forall|kind: TokenTypeView| #[trigger] s.emit_binary(kind).same_scope(s),
        forall|kind: TokenTypeView| #[trigger] s.emit_unary(kind).same_scope(s),
        forall|name: Seq<char>| #[trigger] s.add_local(name).keeps_scope(s),
        s.end_statement().same_scope(s),
        s.number().same_scope(s),
        s.string().same_scope(s),
        s.literal().same_scope(s),
        s.begin_scope().locals == s.locals,
        s.begin_scope().scope_depth == s.scope_depth + 1,
{
}

pub(crate) proof fn lemma_infix_loop(s: ParserView, precedence: Precedence)
    ensures
        s.infix_loop(precedence).same_scope(s),
    decreases s.remaining(), 0nat,
{
    lemma_steps_same_scope(s);
    let rule = s.current.token_type.rule();
    if rule.infix is Some && precedence.rank() <= rule.precedence.rank() {
        let next = s.advance();
        if next.remaining() < s.remaining() {
            lemma_binary(next);
            let done = next.binary();
            if done.remaining() < s.remaining() {
                lemma_infix_loop(done, precedence);
            }
        }
    }
}

pub(crate) proof fn lemma_parse_precedence(s: ParserView, precedence: Precedence)
    ensures
        s.parse_precedence(precedence).same_scope(s),
    decreases s.remaining(), 1nat,
{
    lemma_steps_same_scope(s);
    let next = s.advance();
    lemma_steps_same_scope(next);
    if next.remaining() < s.remaining() {
        lemma_prefixed(next, precedence);
    }
}

/// An expression declares nothing.
pub proof fn lemma_expression(s: ParserView)
    ensures
        s.expression().same_scope(s),
    decreases s.remaining(), 2nat,
{
    lemma_parse_precedence(s, Precedence::Assignment);
}

pub(crate) proof fn lemma_grouping(s: ParserView)
    ensures
        s.grouping().same_scope(s),
    decreases s.remaining(), 3nat,
{
    lemma_expression(s);
    lemma_steps_same_scope(s.expression());
}

pub(crate) proof fn lemma_unary(s: ParserView)
    ensures
        s.unary().same_scope(s),
    decreases s.remaining(), 3nat,
{
    lemma_parse_precedence(s, Precedence::Unary);
    lemma_steps_same_scope(s.parse_precedence(Precedence::Unary));
}

pub(crate) proof fn lemma_binary(s: ParserView)
    ensures
        s.binary().same_scope(s),
    decreases s.remaining(), 3nat,
{
    let precedence = s.previous.token_type.rule().precedence.above();
    lemma_parse_precedence(s, precedence);
    lemma_steps_same_scope(s.parse_precedence(precedence));
}

#[verifier::rlimit(50)]
pub(crate) proof fn lemma_variable(s: ParserView, can_assign: bool)
    ensures
        s.variable(can_assign).same_scope(s),
    decreases s.remaining(), 3nat,
{
    lemma_steps_same_scope(s);
    match s.previous.token_type {
        TokenTypeView::Identifier(name) => {
            let slot = resolve(s.locals, name);
            let named = if slot is Some {
                s
            } else {
                s.make_constant(ValueView::String(name))
            };
            lemma_steps_same_scope(named);
            if can_assign && named.check(TokenTypeView::Equal) {
                let next = named.advance();
                lemma_expression(next);
                let valued = next.expression();
                lemma_steps_same_scope(valued);
                let set = valued.emit_op(
                    if slot is Some {
                        Opcode::SetLocal
                    } else {
                        Opcode::SetGlobal
                    },
                );
                lemma_steps_same_scope(set);
            } else {
                let get = named.emit_op(
                    if slot is Some {
                        Opcode::GetLocal
                    } else {
                        Opcode::GetGlobal
                    },
                );
                lemma_steps_same_scope(get);
            }
        },
        _ => {},
    }
}

pub(crate) proof fn lemma_dispatch(s: ParserView, handler: Handler, can_assign: bool)
    ensures
        s.dispatch(handler, can_assign).same_scope(s),
    decreases s.remaining(), 4nat,
{
    lemma_steps_same_scope(s);
    match handler {
        Handler::Grouping => lemma_grouping(s),
        Handler::Unary => lemma_unary(s),
        Handler::Binary => lemma_binary(s),
        Handler::Variable => lemma_variable(s, can_assign),
        _ => {},
    }
}

pub(crate) proof fn lemma_prefixed(s: ParserView, precedence: Precedence)
    ensures
        s.prefixed(precedence).same_scope(s),
    decreases s.remaining(), 5nat,
{
    lemma_steps_same_scope(s);
    match s.previous.token_type.rule().prefix {
        Some(handler) => {
            let can_assign = precedence.rank() <= Precedence::Assignment.rank();
            lemma_dispatch(s, handler, can_assign);
            let done = s.dispatch(handler, can_assign);
            if done.remaining() <= s.remaining() {
                lemma_infix_loop(done, precedence);
            }
        },
        None => {},
    }
}

pub(crate) proof fn lemma_expression_statement(s: ParserView)
    ensures
        s.expression_statement().same_scope(s),
    decreases s.remaining(), 6nat,
{
    lemma_expression(s);
    let valued = s.expression();
    lemma_steps_same_scope(valued);
    lemma_steps_same_scope(valued.emit_op(Opcode::Pop));
}

pub(crate) proof fn lemma_print_statement(s: ParserView)
    ensures
        s.print_statement().same_scope(s),
    decreases s.remaining(), 6nat,
{
    lemma_expression(s);
    let valued = s.expression();
    lemma_steps_same_scope(valued);
    lemma_steps_same_scope(valued.emit_op(Opcode::Print));
}

/// A definition outside every block declares no local; inside a block it
/// declares at most one, at the depth of the block.
pub proof fn lemma_variable_definition(s: ParserView, name: Seq<char>)
    ensures
        s.variable_definition(name).keeps_scope(s),
        s.scope_depth == 0 ==> s.variable_definition(name).same_scope(s),
        s.variable_definition(name).locals.len() <= s.locals.len() + 1,
    decreases s.remaining(), 6nat,
{
    lemma_expression(s);
    let valued = s.expression();
    lemma_steps_same_scope(valued);
    if valued.scope_depth > 0 {
        let declared = valued.add_local(name);
        lemma_steps_same_scope(declared);
    } else {
        let named = valued.make_constant(ValueView::String(name));
        lemma_steps_same_scope(named);
        let defined = named.emit_op(Opcode::DefineGlobal);
        lemma_steps_same_scope(defined);
        let indexed = defined.emit_byte(valued.constant_index() as u8);
        lemma_steps_same_scope(indexed);
    }
}

#[verifier::rlimit(50)]
pub(crate) proof fn lemma_if_statement(s: ParserView)
    requires
        s.scoped(),
    ensures
        s.if_statement().same_scope(s),
    decreases s.remaining(), 9nat,
{
    lemma_expression(s);
    let tested = s.expression();
    lemma_steps_same_scope(tested);
    let jumped = tested.emit_jump(Opcode::JumpIfFalse);
    lemma_steps_same_scope(jumped);
    let entered = jumped.emit_op(Opcode::Pop);
    if entered.remaining() <= s.remaining() {
        lemma_statement(entered);
        let first = entered.statement();
        lemma_steps_same_scope(first);
        let left = first.emit_jump(Opcode::Jump);
        lemma_steps_same_scope(left);
        let patched = left.patch_jump((tested.chunk.code.len() + 1) as int);
        lemma_steps_same_scope(patched);
        let between = patched.emit_op(Opcode::Pop);
        lemma_steps_same_scope(between);
        let second = if between.check(TokenTypeView::Else) && between.advance().remaining()
            <= s.remaining() {
            between.advance().statement()
        } else {
            between.matches(TokenTypeView::Else)
        };
        if between.check(TokenTypeView::Else) && between.advance().remaining() <= s.remaining() {
            lemma_statement(between.advance());
        }
        lemma_steps_same_scope(second);
    }
}

/// A guarded statement leaves the locals as it found them.
pub proof fn lemma_conditional(s: ParserView)
    requires
        s.scoped(),
    ensures
        s.conditional().same_scope(s),
    decreases s.remaining(), 9nat,
{
    lemma_steps_same_scope(s);
    let opened = s.consume(TokenTypeView::LeftParen, crate::grammar::expect_condition());
    lemma_expression(opened);
    let valued = opened.expression();
    lemma_steps_same_scope(valued);
    let tested = valued.consume(TokenTypeView::RightParen, crate::grammar::expect_condition());
    lemma_steps_same_scope(tested);
    let entered = tested.emit_jump(Opcode::JumpIfFalse);
    if entered.remaining() <= s.remaining() {
        lemma_statement(entered);
        lemma_steps_same_scope(entered.statement());
    }
}

/// A statement leaves the locals as it found them. What a block declares
/// is gone behind its closing brace, so a name resolves after the block as
/// it did before it.
#[verifier::rlimit(50)]
pub proof fn lemma_statement(s: ParserView)
    requires
        s.scoped(),
    ensures
        s.statement().same_scope(s),
        forall|name: Seq<char>| #[trigger]
            resolve(s.statement().locals, name) == resolve(s.locals, name),
    decreases s.remaining(), 8nat,
{
    lemma_steps_same_scope(s);
    let next = s.advance();
    lemma_steps_same_scope(next);
    match s.current.token_type {
        TokenTypeView::Print => {
            lemma_print_statement(next);
        },
        TokenTypeView::LeftBrace => {
            let inside = next.begin_scope();
            assert(inside.scoped());
            let done = if inside.remaining() < s.remaining() {
                inside.block()
            } else {
                inside
            };
            if inside.remaining() < s.remaining() {
                lemma_block(inside);
            }
            assert(done.keeps_scope(inside));
            lemma_keeps_scoped(done, inside);
            lemma_end_scope(done, Seq::empty());
            let left = done.end_scope();
            let kept = left.locals.len() as int;
            assert(left == s.statement());
            if kept < s.locals.len() {
                assert(done.locals[kept] == s.locals[kept]);
                assert(done.locals[kept].depth == done.scope_depth);
            }
            if kept > s.locals.len() {
                assert(left.locals[kept - 1] == done.locals[kept - 1]);
                assert(done.locals[kept - 1].depth == inside.scope_depth);
            }
            assert(left.locals =~= s.locals);
        },
        TokenTypeView::If => {
            if next.remaining() < s.remaining() {
                lemma_if_statement(next);
            }
        },
        _ => {
            lemma_expression_statement(s);
        },
    }
}

pub(crate) proof fn lemma_block_items(s: ParserView)
    requires
        s.scoped(),
    ensures
        s.block_items().keeps_scope(s),
    decreases s.remaining(), 11nat,
{
    if !(s.check(TokenTypeView::RightBrace) || s.ended) {
        lemma_declaration(s);
        let next = s.declaration();
        lemma_keeps_scoped(next, s);
        if next.remaining() < s.remaining() {
            lemma_block_items(next);
            lemma_keeps_chain(next.block_items(), next, s);
        }
    }
}

/// A block declares locals of its own depth only.
pub proof fn lemma_block(s: ParserView)
    requires
        s.scoped(),
    ensures
        s.block().keeps_scope(s),
    decreases s.remaining(), 12nat,
{
    lemma_block_items(s);
    lemma_steps_same_scope(s.block_items());
}

/// A declaration keeps the locals that were there and adds none but locals
/// of the current depth.
pub proof fn lemma_declaration(s: ParserView)
    requires
        s.scoped(),
    ensures
        s.declaration().keeps_scope(s),
    decreases s.remaining(), 10nat,
{
    lemma_steps_same_scope(s);
    match s.current.token_type {
        TokenTypeView::Identifier(name) => {
            let next = s.advance();
            lemma_steps_same_scope(next);
            if next.check(TokenTypeView::Equal) {
                let after = next.advance();
                lemma_variable_definition(after, name);
            } else {
                lemma_prefixed(next, Precedence::Assignment);
                let valued = next.prefixed(Precedence::Assignment);
                lemma_steps_same_scope(valued);
                lemma_steps_same_scope(valued.emit_op(Opcode::Pop));
            }
        },
        _ => {
            lemma_statement(s);
        },
    }
}

/// Declarations keep the locals that were there and add none but locals of
/// the current depth.
pub proof fn lemma_declarations(s: ParserView)
    requires
        s.scoped(),
    ensures
        s.declarations().keeps_scope(s),
    decreases s.remaining(), 13nat,
{
    if !s.ended {
        lemma_declaration(s);
        let next = s.declaration();
        lemma_keeps_scoped(next, s);
        if next.remaining() < s.remaining() {
            lemma_declarations(next);
            lemma_keeps_chain(next.declarations(), next, s);
        }
    }
}

/// A program declares no local variable: outside every block each
/// definition is a global one, and every block takes its locals with it.
pub proof fn lemma_program(tokens: Seq<crate::token::TokenView>, numbers: Seq<u64>)
    ensures
        ParserView::start(tokens).with_numbers(numbers).program().locals.len() == 0,
        ParserView::start(tokens).with_numbers(numbers).program().scope_depth == 0,
{
    let s = ParserView::start(tokens).with_numbers(numbers);
    lemma_steps_same_scope(s);
    let first = s.advance();
    assert(first.scoped());
    lemma_top_level(first);
    lemma_steps_same_scope(first.declarations());
}

/// Outside every block nothing declares a local.
#[verifier::rlimit(50)]
proof fn lemma_top_level(s: ParserView)
    requires
        s.scoped(),
        s.scope_depth == 0,
    ensures
        s.declarations().same_scope(s),
    decreases s.remaining(), 13nat,
{
    if !s.ended {
        lemma_steps_same_scope(s);
        let next = s.declaration();
        match s.current.token_type {
            TokenTypeView::Identifier(name) => {
                let after = s.advance();
                lemma_steps_same_scope(after);
                if after.check(TokenTypeView::Equal) {
                    lemma_variable_definition(after.advance(), name);
                } else {
                    lemma_prefixed(after, Precedence::Assignment);
                    let valued = after.prefixed(Precedence::Assignment);
                    lemma_steps_same_scope(valued);
                    lemma_steps_same_scope(valued.emit_op(Opcode::Pop));
                }
            },
            _ => {
                lemma_statement(s);
            },
        }
        assert(next.same_scope(s));
        if next.remaining() < s.remaining() {
            lemma_top_level(next);
        }
    }
}

} // verus!
