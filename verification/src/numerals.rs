//! Which value goes to which number literal.
//!
//! The host converts the digits that [`crate::scanner::numerals`] lists and
//! hands the values to the compiler in the same order. The compiler takes
//! one value for each number literal that it reads, so the value at some
//! place in the list goes to the literal whose digits stand at that place.
use vstd::prelude::*;
use crate::grammar::{resolve, ParserView};
use crate::growth::starts_with;
use crate::opcode::Opcode;
use crate::parse_rule::Handler;
use crate::precedence::Precedence;
use crate::scanner::numeral_texts;
use crate::token::{TokenTypeView, TokenView};
use crate::value::ValueView;

verus! {

impl ParserView {
    /// The compiler has taken one value for each number literal among the
    /// tokens that it has read.
    pub open spec fn counted(self) -> bool {
        &&& 0 <= self.cursor <= self.tokens.len()
        &&& self.numerals == numeral_texts(self.tokens.take(self.cursor)).len()
    }
}

/// The number literals among the first tokens are the first number literals
/// among all the tokens.
pub proof fn lemma_numerals_prefix(tokens: Seq<TokenView>, count: int)
    requires
        0 <= count <= tokens.len(),
    ensures
        starts_with(numeral_texts(tokens), numeral_texts(tokens.take(count))),
    decreases tokens.len() - count,
{
    if count == tokens.len() {
        assert(tokens.take(count) =~= tokens);
    } else {
        lemma_numerals_prefix(tokens, count + 1);
        let longer = tokens.take(count + 1);
        assert(longer.drop_last() =~= tokens.take(count));
        let more = numeral_texts(longer);
        let fewer = numeral_texts(tokens.take(count));
        assert(starts_with(more, fewer));
        assert forall|i: int| 0 <= i < fewer.len() implies #[trigger] numeral_texts(tokens)[i]
            == fewer[i] by {
            assert(numeral_texts(tokens)[i] == more[i]);
        }
    }
}

/// The value that the compiler takes for a number literal is the one at the
/// place where the digits of the literal stand among the digits of all the
/// number literals: when the next token is a number literal, its digits are
/// the entry of `numeral_texts` at the index from which `advance` takes the
/// value.
pub proof fn lemma_value_goes_to_its_literal(s: ParserView)
    requires
        s.counted(),
        !s.ended,
        s.cursor < s.tokens.len(),
        s.tokens[s.cursor].token_type is Number,
    ensures
        s.numerals < numeral_texts(s.tokens).len(),
        s.tokens[s.cursor].token_type == TokenTypeView::Number(numeral_texts(s.tokens)[s.numerals]),
        s.numerals < s.numbers.len() ==> s.advance().current_value == s.numbers[s.numerals]
            && s.advance().diagnostics == s.diagnostics,
        s.advance().counted(),
{
    lemma_numerals_prefix(s.tokens, s.cursor + 1);
    let longer = s.tokens.take(s.cursor + 1);
    assert(longer.drop_last() =~= s.tokens.take(s.cursor));
    assert(longer.last() == s.tokens[s.cursor]);
    assert(numeral_texts(longer)[s.numerals] == numeral_texts(s.tokens)[s.numerals]);
}

/// The routines that compile no expression and no statement keep the count.
#[verifier::rlimit(50)]
pub proof fn lemma_steps_counted(s: ParserView)
    requires
        s.counted(),
    ensures
        s.advance().counted(),
        forall|kind: TokenTypeView| #[trigger] s.matches(kind).counted(),
        forall|kind: TokenTypeView, message: Seq<char>| #[trigger]
            s.consume(kind, message).counted(),
        forall|byte: u8| #[trigger] s.emit_byte(byte).counted(),
        forall|a: u8, b: u8| #[trigger] s.emit_bytes(a, b).counted(),
        forall|op: Opcode| #[trigger] s.emit_op(op).counted(),
        forall|a: Opcode, b: Opcode| #[trigger] s.emit_ops(a, b).counted(),
        forall|value: ValueView| #[trigger] s.make_constant(value).counted(),
        forall|value: ValueView| #[trigger] s.emit_constant(value).counted(),
        forall|op: Opcode| #[trigger] s.emit_jump(op).counted(),
        forall|offset: int| #[trigger] s.patch_jump(offset).counted(),
        forall|name: Seq<char>| #[trigger] s.add_local(name).counted(),
        forall|message: Seq<char>| #[trigger] s.error(message).counted(),
        forall|message: Seq<char>| #[trigger] s.error_at_current(message).counted(),
        forall|kind: TokenTypeView| #[trigger] s.emit_binary(kind).counted(),
        forall|kind: TokenTypeView| #[trigger] s.emit_unary(kind).counted(),
        s.begin_scope().counted(),
        s.end_scope().counted(),
        s.end_statement().counted(),
        s.number().counted(),
        s.string().counted(),
        s.literal().counted(),
{
    if !s.ended && s.cursor < s.tokens.len() {
        let longer = s.tokens.take(s.cursor + 1);
        assert(longer.drop_last() =~= s.tokens.take(s.cursor));
        assert(longer.last() == s.tokens[s.cursor]);
    }
    assert(s.advance().counted());
    assert forall|kind: TokenTypeView, message: Seq<char>| #[trigger]
        s.consume(kind, message).counted() by {
        let t = s.error_at_current(message);
        assert(t.tokens == s.tokens && t.cursor == s.cursor && t.numerals == s.numerals);
        assert(t.advance().tokens == s.tokens);
        assert(t.advance().cursor == s.advance().cursor);
        assert(t.advance().numerals == s.advance().numerals);
    }
    let left = ParserView {
        scope_depth: if s.scope_depth > 0 {
            (s.scope_depth - 1) as nat
        } else {
            0nat
        },
        ..s
    };
    lemma_pop_locals_counted(left);
}

proof fn lemma_pop_locals_counted(s: ParserView)
    requires
        s.counted(),
    ensures
        s.pop_locals().counted(),
    decreases s.locals.len(),
{
    if s.locals.len() > 0 && s.locals.last().depth > s.scope_depth {
        let next = ParserView { locals: s.locals.drop_last(), ..s.emit_op(Opcode::Pop) };
        lemma_pop_locals_counted(next);
    }
}

pub(crate) proof fn lemma_infix_loop(s: ParserView, precedence: Precedence)
    requires
        s.counted(),
    ensures
        s.infix_loop(precedence).counted(),
    decreases s.remaining(), 0nat,
{
    lemma_steps_counted(s);
    let rule = s.current.token_type.rule();
    if rule.infix is Some && precedence.rank() <= rule.precedence.rank() {
        let next = s.advance();
        if next.remaining() < s.remaining() {
            lemma_binary(next);
            let done = next.binary();
            if done.remaining() < s.remaining() {
                lemma_infix_loop(done, precedence);
            }
        }
    }
}

pub(crate) proof fn lemma_parse_precedence(s: ParserView, precedence: Precedence)
    requires
        s.counted(),
    ensures
        s.parse_precedence(precedence).counted(),
    decreases s.remaining(), 1nat,
{
    lemma_steps_counted(s);
    let next = s.advance();
    lemma_steps_counted(next);
    if next.remaining() < s.remaining() {
        lemma_prefixed(next, precedence);
    }
}

pub(crate) proof fn lemma_expression(s: ParserView)
    requires
        s.counted(),
    ensures
        s.expression().counted(),
    decreases s.remaining(), 2nat,
{
    lemma_parse_precedence(s, Precedence::Assignment);
}

pub(crate) proof fn lemma_grouping(s: ParserView)
    requires
        s.counted(),
    ensures
        s.grouping().counted(),
    decreases s.remaining(), 3nat,
{
    lemma_expression(s);
    lemma_steps_counted(s.expression());
}

pub(crate) proof fn lemma_unary(s: ParserView)
    requires
        s.counted(),
    ensures
        s.unary().counted(),
    decreases s.remaining(), 3nat,
{
    lemma_parse_precedence(s, Precedence::Unary);
    lemma_steps_counted(s.parse_precedence(Precedence::Unary));
}

pub(crate) proof fn lemma_binary(s: ParserView)
    requires
        s.counted(),
    ensures
        s.binary().counted(),
    decreases s.remaining(), 3nat,
{
    let precedence = s.previous.token_type.rule().precedence.above();
    lemma_parse_precedence(s, precedence);
    lemma_steps_counted(s.parse_precedence(precedence));
}

#[verifier::rlimit(50)]
pub(crate) proof fn lemma_variable(s: ParserView, can_assign: bool)
    requires
        s.counted(),
    ensures
        s.variable(can_assign).counted(),
    decreases s.remaining(), 3nat,
{
    lemma_steps_counted(s);
    match s.previous.token_type {
        TokenTypeView::Identifier(name) => {
            let slot = resolve(s.locals, name);
            let named = if slot is Some {
                s
            } else {
                s.make_constant(ValueView::String(name))
            };
            lemma_steps_counted(named);
            if can_assign && named.check(TokenTypeView::Equal) {
                let next = named.advance();
                lemma_expression(next);
                let valued = next.expression();
                lemma_steps_counted(valued);
                let set = valued.emit_op(
                    if slot is Some {
                        Opcode::SetLocal
                    } else {
                        Opcode::SetGlobal
                    },
                );
                lemma_steps_counted(set);
            } else {
                let get = named.emit_op(
                    if slot is Some {
                        Opcode::GetLocal
                    } else {
                        Opcode::GetGlobal
                    },
                );
                lemma_steps_counted(get);
            }
        },
        _ => {},
    }
}

pub(crate) proof fn lemma_dispatch(s: ParserView, handler: Handler, can_assign: bool)
    requires
        s.counted(),
    ensures
        s.dispatch(handler, can_assign).counted(),
    decreases s.remaining(), 4nat,
{
    lemma_steps_counted(s);
    match handler {
        Handler::Grouping => lemma_grouping(s),
        Handler::Unary => lemma_unary(s),
        Handler::Binary => lemma_binary(s),
        Handler::Variable => lemma_variable(s, can_assign),
        _ => {},
    }
}

pub(crate) proof fn lemma_prefixed(s: ParserView, precedence: Precedence)
    requires
        s.counted(),
    ensures
        s.prefixed(precedence).counted(),
    decreases s.remaining(), 5nat,
{
    lemma_steps_counted(s);
    match s.previous.token_type.rule().prefix {
        Some(handler) => {
            let can_assign = precedence.rank() <= Precedence::Assignment.rank();
            lemma_dispatch(s, handler, can_assign);
            let done = s.dispatch(handler, can_assign);
            if done.remaining() <= s.remaining() {
                lemma_infix_loop(done, precedence);
            }
        },
        None => {},
    }
}

pub(crate) proof fn lemma_expression_statement(s: ParserView)
    requires
        s.counted(),
    ensures
        s.expression_statement().counted(),
    decreases s.remaining(), 6nat,
{
    lemma_expression(s);
    let valued = s.expression();
    lemma_steps_counted(valued);
    lemma_steps_counted(valued.emit_op(Opcode::Pop));
}

pub(crate) proof fn lemma_print_statement(s: ParserView)
    requires
        s.counted(),
    ensures
        s.print_statement().counted(),
    decreases s.remaining(), 6nat,
{
    lemma_expression(s);
    let valued = s.expression();
    lemma_steps_counted(valued);
    lemma_steps_counted(valued.emit_op(Opcode::Print));
}

pub(crate) proof fn lemma_variable_definition(s: ParserView, name: Seq<char>)
    requires
        s.counted(),
    ensures
        s.variable_definition(name).counted(),
    decreases s.remaining(), 6nat,
{
    lemma_expression(s);
    let valued = s.expression();
    lemma_steps_counted(valued);
    if valued.scope_depth > 0 {
        lemma_steps_counted(valued.add_local(name));
    } else {
        let named = valued.make_constant(ValueView::String(name));
        lemma_steps_counted(named);
        let defined = named.emit_op(Opcode::DefineGlobal);
        lemma_steps_counted(defined);
        lemma_steps_counted(defined.emit_byte(valued.constant_index() as u8));
    }
}

#[verifier::rlimit(50)]
pub(crate) proof fn lemma_if_statement(s: ParserView)
    requires
        s.counted(),
    ensures
        s.if_statement().counted(),
    decreases s.remaining(), 9nat,
{
    lemma_expression(s);
    let tested = s.expression();
    lemma_steps_counted(tested);
    let jumped = tested.emit_jump(Opcode::JumpIfFalse);
    lemma_steps_counted(jumped);
    let entered = jumped.emit_op(Opcode::Pop);
    if entered.remaining() <= s.remaining() {
        lemma_statement(entered);
        let first = entered.statement();
        lemma_steps_counted(first);
        let left = first.emit_jump(Opcode::Jump);
        lemma_steps_counted(left);
        let patched = left.patch_jump((tested.chunk.code.len() + 1) as int);
        lemma_steps_counted(patched);
        let between = patched.emit_op(Opcode::Pop);
        lemma_steps_counted(between);
        let second = if between.check(TokenTypeView::Else) && between.advance().remaining()
            <= s.remaining() {
            between.advance().statement()
        } else {
            between.matches(TokenTypeView::Else)
        };
        if between.check(TokenTypeView::Else) && between.advance().remaining() <= s.remaining() {
            lemma_statement(between.advance());
        }
        lemma_steps_counted(second);
    }
}

/// A guarded statement takes one value for each number literal that it reads.
pub proof fn lemma_conditional(s: ParserView)
    requires
        s.counted(),
    ensures
        s.conditional().counted(),
    decreases s.remaining(), 9nat,
{
    lemma_steps_counted(s);
    let opened = s.consume(TokenTypeView::LeftParen, crate::grammar::expect_condition());
    lemma_expression(opened);
    let valued = opened.expression();
    lemma_steps_counted(valued);
    let tested = valued.consume(TokenTypeView::RightParen, crate::grammar::expect_condition());
    lemma_steps_counted(tested);
    let entered = tested.emit_jump(Opcode::JumpIfFalse);
    if entered.remaining() <= s.remaining() {
        lemma_statement(entered);
        lemma_steps_counted(entered.statement());
    }
}

#[verifier::rlimit(50)]
pub(crate) proof fn lemma_statement(s: ParserView)
    requires
        s.counted(),
    ensures
        s.statement().counted(),
    decreases s.remaining(), 8nat,
{
    lemma_steps_counted(s);
    let next = s.advance();
    lemma_steps_counted(next);
    match s.current.token_type {
        TokenTypeView::Print => {
            lemma_print_statement(next);
        },
        TokenTypeView::LeftBrace => {
            let inside = next.begin_scope();
            if inside.remaining() < s.remaining() {
                lemma_block(inside);
                lemma_steps_counted(inside.block());
            } else {
                lemma_steps_counted(inside);
            }
        },
        TokenTypeView::If => {
            if next.remaining() < s.remaining() {
                lemma_if_statement(next);
            }
        },
        _ => {
            lemma_expression_statement(s);
        },
    }
}

pub(crate) proof fn lemma_block_items(s: ParserView)
    requires
        s.counted(),
    ensures
        s.block_items().counted(),
    decreases s.remaining(), 11nat,
{
    if !(s.check(TokenTypeView::RightBrace) || s.ended) {
        lemma_declaration(s);
        let next = s.declaration();
        if next.remaining() < s.remaining() {
            lemma_block_items(next);
        }
    }
}

pub(crate) proof fn lemma_block(s: ParserView)
    requires
        s.counted(),
    ensures
        s.block().counted(),
    decreases s.remaining(), 12nat,
{
    lemma_block_items(s);
    lemma_steps_counted(s.block_items());
}

pub(crate) proof fn lemma_declaration(s: ParserView)
    requires
        s.counted(),
    ensures
        s.declaration().counted(),
    decreases s.remaining(), 10nat,
{
    lemma_steps_counted(s);
    match s.current.token_type {
        TokenTypeView::Identifier(name) => {
            let next = s.advance();
            lemma_steps_counted(next);
            if next.check(TokenTypeView::Equal) {
                lemma_variable_definition(next.advance(), name);
            } else {
                lemma_prefixed(next, Precedence::Assignment);
                let valued = next.prefixed(Precedence::Assignment);
                lemma_steps_counted(valued);
                lemma_steps_counted(valued.emit_op(Opcode::Pop));
            }
        },
        _ => {
            lemma_statement(s);
        },
    }
}

pub(crate) proof fn lemma_declarations(s: ParserView)
    requires
        s.counted(),
    ensures
        s.declarations().counted(),
    decreases s.remaining(), 13nat,
{
    if !s.ended {
        lemma_declaration(s);
        let next = s.declaration();
        if next.remaining() < s.remaining() {
            lemma_declarations(next);
        }
    }
}

/// Throughout a compilation the compiler has taken one value for each
/// number literal that it has read, and so at most as many as the source
/// holds.
#[verifier::rlimit(50)]
pub proof fn lemma_program(tokens: Seq<TokenView>, numbers: Seq<u64>)
    ensures
        ParserView::start(tokens).with_numbers(numbers).program().counted(),
        ParserView::start(tokens).with_numbers(numbers).program().numerals <= numeral_texts(
            tokens,
        ).len(),
{
    let s = ParserView::start(tokens).with_numbers(numbers);
    assert(s.tokens.take(0) =~= Seq::empty());
    lemma_program_counted(s);
    crate::growth::lemma_program(s);
    let done = s.program();
    assert(done.tokens == tokens);
    lemma_numerals_prefix(tokens, done.cursor);
}

/// A program compiled from a state that has kept the count keeps it.
pub proof fn lemma_program_counted(s: ParserView)
    requires
        s.counted(),
    ensures
        s.program().counted(),
{
    lemma_steps_counted(s);
    lemma_declarations(s.advance());
    lemma_steps_counted(s.advance().declarations());
}

} // verus!
