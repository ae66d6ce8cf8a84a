//! The compiler only adds.
//!
//! Whatever routine runs, the tokens and the number values stay, the
//! compiler does not go back in its input, and the code, the lines, the
//! constants and the errors that were there before are still there, in their
//! places, followed by what the routine added. The one thing that is ever
//! overwritten is the placeholder of a jump, by the statement that emitted
//! it. From this follows where the jumps of an `if` land.
use vstd::prelude::*;
use crate::chunk::short;
use crate::grammar::ParserView;
use crate::opcode::Opcode;
use crate::parse_rule::Handler;
use crate::precedence::Precedence;
use crate::token::TokenTypeView;
use crate::value::ValueView;
use crate::vm::{lemma_jump_lands, VmView};

verus! {

/// The sequence `longer` starts with the sequence `shorter`.
pub open spec fn starts_with<A>(longer: Seq<A>, shorter: Seq<A>) -> bool {
    &&& shorter.len() <= longer.len()
    &&& forall|i: int| 0 <= i < shorter.len() ==> #[trigger] longer[i] == shorter[i]
}

impl ParserView {
    /// This state comes after `before` and has taken nothing back.
    pub open spec fn extends(self, before: ParserView) -> bool {
        &&& self.tokens == before.tokens
        &&& self.numbers == before.numbers
        &&& self.remaining() <= before.remaining()
        &&& starts_with(self.chunk.code, before.chunk.code)
        &&& starts_with(self.chunk.lines, before.chunk.lines)
        &&& starts_with(self.chunk.constants, before.chunk.constants)
        &&& starts_with(self.diagnostics, before.diagnostics)
        &&& before.chunk.wf() ==> self.chunk.wf()
    }
}

/// A state extends itself, and extending is transitive.
pub proof fn lemma_extends_chain(a: ParserView, b: ParserView, c: ParserView)
    requires
        a.extends(b),
        b.extends(c),
    ensures
        a.extends(c),
        a.extends(a),
{
    assert forall|i: int| 0 <= i < c.chunk.code.len() implies #[trigger] a.chunk.code[i]
        == c.chunk.code[i] by {
        assert(a.chunk.code[i] == b.chunk.code[i]);
        assert(b.chunk.code[i] == c.chunk.code[i]);
    }
    assert forall|i: int| 0 <= i < c.chunk.lines.len() implies #[trigger] a.chunk.lines[i]
        == c.chunk.lines[i] by {
        assert(a.chunk.lines[i] == b.chunk.lines[i]);
        assert(b.chunk.lines[i] == c.chunk.lines[i]);
    }
    assert forall|i: int| 0 <= i < c.chunk.constants.len() implies #[trigger] a.chunk.constants[i]
        == c.chunk.constants[i] by {
        assert(a.chunk.constants[i] == b.chunk.constants[i]);
        assert(b.chunk.constants[i] == c.chunk.constants[i]);
    }
    assert forall|i: int| 0 <= i < c.diagnostics.len() implies #[trigger] a.diagnostics[i]
        == c.diagnostics[i] by {
        assert(a.diagnostics[i] == b.diagnostics[i]);
        assert(b.diagnostics[i] == c.diagnostics[i]);
    }
}

/// Dropping locals only adds `Pop`s.
proof fn lemma_pop_locals_extends(s: ParserView)
    ensures
        s.pop_locals().extends(s),
        s.pop_locals().remaining() == s.remaining(),
    decreases s.locals.len(),
{
    if s.locals.len() > 0 && s.locals.last().depth > s.scope_depth {
        let next = ParserView { locals: s.locals.drop_last(), ..s.emit_op(Opcode::Pop) };
        lemma_pop_locals_extends(next);
        assert(next.extends(s));
        lemma_extends_chain(s.pop_locals(), next, s);
    }
}

/// Every routine that compiles no expression and no statement only adds.
#[verifier::rlimit(50)]
pub proof fn lemma_steps_extend(s: ParserView)
    ensures
        s.extends(s),
        s.advance().extends(s),
        forall|kind: TokenTypeView| #[trigger] s.matches(kind).extends(s),
        forall|kind: TokenTypeView, message: Seq<char>| #[trigger]
            s.consume(kind, message).extends(s),
        forall|byte: u8| #[trigger] s.emit_byte(byte).extends(s),
        forall|a: u8, b: u8| #[trigger] s.emit_bytes(a, b).extends(s),
        forall|op: Opcode| #[trigger] s.emit_op(op).extends(s),
        forall|a: Opcode, b: Opcode| #[trigger] s.emit_ops(a, b).extends(s),
        forall|value: ValueView| #[trigger] s.make_constant(value).extends(s),
        forall|value: ValueView| #[trigger] s.emit_constant(value).extends(s),
        forall|op: Opcode| #[trigger] s.emit_jump(op).extends(s),
        forall|name: Seq<char>| #[trigger] s.add_local(name).extends(s),
        forall|message: Seq<char>| #[trigger] s.error(message).extends(s),
        forall|message: Seq<char>| #[trigger] s.error_at_current(message).extends(s),
        forall|kind: TokenTypeView| #[trigger] s.emit_binary(kind).extends(s),
        forall|kind: TokenTypeView| #[trigger] s.emit_unary(kind).extends(s),
        s.begin_scope().extends(s),
        s.end_scope().extends(s),
        s.end_statement().extends(s),
        s.number().extends(s),
        s.string().extends(s),
        s.literal().extends(s),
{
    let entered = ParserView {
        scope_depth: if s.scope_depth > 0 {
            (s.scope_depth - 1) as nat
        } else {
            0nat
        },
        ..s
    };
    lemma_pop_locals_extends(entered);
    assert forall|kind: TokenTypeView, message: Seq<char>| #[trigger]
        s.consume(kind, message).extends(s) by {
        let t = s.error_at_current(message);
        assert(t.advance().extends(t));
    }
    assert forall|value: ValueView| #[trigger] s.emit_constant(value).extends(s) by {
        let t = s.make_constant(value);
        assert(t.extends(s));
        assert(t.emit_bytes(Opcode::Constant.byte(), s.constant_index() as u8).extends(t));
    }
}

/// The operators that follow an operand only add.
pub proof fn lemma_infix_loop(s: ParserView, precedence: Precedence)
    ensures
        s.infix_loop(precedence).extends(s),
    decreases s.remaining(), 0nat,
{
    lemma_steps_extend(s);
    let rule = s.current.token_type.rule();
    if rule.infix is Some && precedence.rank() <= rule.precedence.rank() {
        let next = s.advance();
        if next.remaining() < s.remaining() {
            lemma_binary(next);
            let done = next.binary();
            lemma_extends_chain(done, next, s);
            if done.remaining() < s.remaining() {
                lemma_infix_loop(done, precedence);
                lemma_extends_chain(done.infix_loop(precedence), done, s);
            }
        }
    }
}

/// An expression only adds.
pub proof fn lemma_parse_precedence(s: ParserView, precedence: Precedence)
    ensures
        s.parse_precedence(precedence).extends(s),
    decreases s.remaining(), 1nat,
{
    lemma_steps_extend(s);
    let next = s.advance();
    lemma_steps_extend(next);
    if next.remaining() < s.remaining() {
        lemma_prefixed(next, precedence);
        lemma_extends_chain(next.prefixed(precedence), next, s);
    } else {
        lemma_extends_chain(next.error(crate::grammar::expected_expression()), next, s);
    }
}

pub(crate) proof fn lemma_expression(s: ParserView)
    ensures
        s.expression().extends(s),
    decreases s.remaining(), 2nat,
{
    lemma_parse_precedence(s, Precedence::Assignment);
}

pub(crate) proof fn lemma_grouping(s: ParserView)
    ensures
        s.grouping().extends(s),
    decreases s.remaining(), 3nat,
{
    lemma_expression(s);
    let inner = s.expression();
    lemma_steps_extend(inner);
    lemma_extends_chain(s.grouping(), inner, s);
}

pub(crate) proof fn lemma_unary(s: ParserView)
    ensures
        s.unary().extends(s),
    decreases s.remaining(), 3nat,
{
    lemma_parse_precedence(s, Precedence::Unary);
    let operand = s.parse_precedence(Precedence::Unary);
    lemma_steps_extend(operand);
    lemma_extends_chain(s.unary(), operand, s);
}

pub(crate) proof fn lemma_binary(s: ParserView)
    ensures
        s.binary().extends(s),
    decreases s.remaining(), 3nat,
{
    let operator = s.previous.token_type;
    let precedence = operator.rule().precedence.above();
    lemma_parse_precedence(s, precedence);
    let operand = s.parse_precedence(precedence);
    lemma_steps_extend(operand);
    lemma_extends_chain(s.binary(), operand, s);
}

#[verifier::rlimit(50)]
pub(crate) proof fn lemma_variable(s: ParserView, can_assign: bool)
    ensures
        s.variable(can_assign).extends(s),
    decreases s.remaining(), 3nat,
{
    lemma_steps_extend(s);
    match s.previous.token_type {
        TokenTypeView::Identifier(name) => {
            let slot = crate::grammar::resolve(s.locals, name);
            let named = if slot is Some {
                s
            } else {
                s.make_constant(ValueView::String(name))
            };
            lemma_steps_extend(named);
            if can_assign && named.check(TokenTypeView::Equal) {
                let next = named.advance();
                lemma_extends_chain(next, named, s);
                lemma_expression(next);
                let valued = next.expression();
                lemma_extends_chain(valued, next, s);
                lemma_steps_extend(valued);
                let set = valued.emit_op(
                    if slot is Some {
                        Opcode::SetLocal
                    } else {
                        Opcode::SetGlobal
                    },
                );
                lemma_extends_chain(set, valued, s);
                lemma_steps_extend(set);
                lemma_extends_chain(s.variable(can_assign), set, s);
            } else {
                let get = named.emit_op(
                    if slot is Some {
                        Opcode::GetLocal
                    } else {
                        Opcode::GetGlobal
                    },
                );
                lemma_extends_chain(get, named, s);
                lemma_steps_extend(get);
                lemma_extends_chain(s.variable(can_assign), get, s);
            }
        },
        _ => {},
    }
}

pub(crate) proof fn lemma_dispatch(s: ParserView, handler: Handler, can_assign: bool)
    ensures
        s.dispatch(handler, can_assign).extends(s),
    decreases s.remaining(), 4nat,
{
    lemma_steps_extend(s);
    match handler {
        Handler::Grouping => lemma_grouping(s),
        Handler::Unary => lemma_unary(s),
        Handler::Binary => lemma_binary(s),
        Handler::Variable => lemma_variable(s, can_assign),
        _ => {},
    }
}

pub(crate) proof fn lemma_prefixed(s: ParserView, precedence: Precedence)
    ensures
        s.prefixed(precedence).extends(s),
    decreases s.remaining(), 5nat,
{
    lemma_steps_extend(s);
    match s.previous.token_type.rule().prefix {
        Some(handler) => {
            let can_assign = precedence.rank() <= Precedence::Assignment.rank();
            lemma_dispatch(s, handler, can_assign);
            let done = s.dispatch(handler, can_assign);
            lemma_infix_loop(done, precedence);
            lemma_extends_chain(done.infix_loop(precedence), done, s);
        },
        None => {},
    }
}

pub(crate) proof fn lemma_expression_statement(s: ParserView)
    ensures
        s.expression_statement().extends(s),
    decreases s.remaining(), 6nat,
{
    lemma_expression(s);
    let valued = s.expression();
    lemma_steps_extend(valued);
    let popped = valued.emit_op(Opcode::Pop);
    lemma_extends_chain(popped, valued, s);
    lemma_steps_extend(popped);
    lemma_extends_chain(s.expression_statement(), popped, s);
}

pub(crate) proof fn lemma_print_statement(s: ParserView)
    ensures
        s.print_statement().extends(s),
    decreases s.remaining(), 6nat,
{
    lemma_expression(s);
    let valued = s.expression();
    lemma_steps_extend(valued);
    let printed = valued.emit_op(Opcode::Print);
    lemma_extends_chain(printed, valued, s);
    lemma_steps_extend(printed);
    lemma_extends_chain(s.print_statement(), printed, s);
}

#[verifier::rlimit(50)]
pub(crate) proof fn lemma_variable_definition(s: ParserView, name: Seq<char>)
    ensures
        s.variable_definition(name).extends(s),
    decreases s.remaining(), 6nat,
{
    lemma_expression(s);
    let valued = s.expression();
    lemma_steps_extend(valued);
    if valued.scope_depth > 0 {
        let declared = valued.add_local(name);
        lemma_extends_chain(declared, valued, s);
        lemma_steps_extend(declared);
        lemma_extends_chain(s.variable_definition(name), declared, s);
    } else {
        let named = valued.make_constant(ValueView::String(name));
        lemma_extends_chain(named, valued, s);
        lemma_steps_extend(named);
        let defined = named.emit_op(Opcode::DefineGlobal);
        lemma_extends_chain(defined, named, s);
        lemma_steps_extend(defined);
        let indexed = defined.emit_byte(valued.constant_index() as u8);
        lemma_extends_chain(indexed, defined, s);
        lemma_steps_extend(indexed);
        lemma_extends_chain(s.variable_definition(name), indexed, s);
    }
}

/// Patching a placeholder that stands at or after the end of the earlier
/// code keeps the earlier code.
proof fn lemma_patch_keeps(s: ParserView, offset: int, before: ParserView)
    requires
        s.extends(before),
        before.chunk.code.len() <= offset,
        offset + 2 <= s.chunk.code.len(),
    ensures
        s.patch_jump(offset).extends(before),
        s.patch_jump(offset).chunk.code.len() == s.chunk.code.len(),
        forall|i: int|
            0 <= i < s.chunk.code.len() && i != offset && i != offset + 1 ==> s.patch_jump(
                offset,
            ).chunk.code[i] == s.chunk.code[i],
        s.patch_jump(offset).remaining() == s.remaining(),
        s.patch_jump(offset).current == s.current,
        s.chunk.code.len() - offset - 2 <= 32767 ==> offset + 2 + short(
            s.patch_jump(offset).chunk.code[offset],
            s.patch_jump(offset).chunk.code[offset + 1],
        ) == s.chunk.code.len(),
{
    let jump = s.chunk.code.len() - offset - 2;
    if jump <= 32767 {
        assert((jump / 256) % 256 == jump / 256);
        assert((jump / 256) * 256 + jump % 256 == jump);
    }
    let t = s.patch_jump(offset);
    assert forall|i: int| 0 <= i < before.chunk.code.len() implies #[trigger] t.chunk.code[i]
        == before.chunk.code[i] by {
        assert(s.chunk.code[i] == before.chunk.code[i]);
    }
    assert forall|i: int| 0 <= i < before.diagnostics.len() implies #[trigger] t.diagnostics[i]
        == before.diagnostics[i] by {
        assert(s.diagnostics[i] == before.diagnostics[i]);
    }
}

/// Where the jumps of an `if` land, and that an `if` only adds.
///
/// The code of an `if` statement is, in this order: the condition; a
/// `JumpIfFalse` with its operand; a `Pop`; the first branch; a `Jump` with
/// its operand; a `Pop`; the second branch, if there is one. The
/// `JumpIfFalse` stands where the condition ends, at `t`, and the `Jump`
/// where the first branch ends, at `e`. Unless a distance is more than 32767,
/// the operand of the `JumpIfFalse` leads from behind itself to the second
/// `Pop`, which opens the way that is taken when the condition is falsy, and
/// the operand of the `Jump` leads from behind itself to the end of the whole
/// statement. What the branches compile leaves these seven bytes alone.
#[verifier::rlimit(50)]
pub proof fn lemma_if_statement(s: ParserView)
    ensures
        s.if_statement().extends(s),
        ({
            let tested = s.expression();
            let entered = tested.emit_jump(Opcode::JumpIfFalse).emit_op(Opcode::Pop);
            let first = entered.statement();
            let t = tested.chunk.code.len() as int;
            let e = first.chunk.code.len() as int;
            let code = s.if_statement().chunk.code;
            let end = code.len() as int;
            &&& s.chunk.code.len() <= t
            &&& t + 4 <= e
            &&& e + 4 <= end
            &&& code[t] == Opcode::JumpIfFalse.byte()
            &&& code[t + 3] == Opcode::Pop.byte()
            &&& code[e] == Opcode::Jump.byte()
            &&& code[e + 3] == Opcode::Pop.byte()
            &&& e - t <= 32767 ==> t + 3 + short(code[t + 1], code[t + 2]) == e + 3
            &&& end - e - 3 <= 32767 ==> e + 3 + short(code[e + 1], code[e + 2]) == end
        }),
    decreases s.remaining(), 9nat,
{
    lemma_expression(s);
    let tested = s.expression();
    let t = tested.chunk.code.len() as int;
    lemma_steps_extend(tested);
    let jumped = tested.emit_jump(Opcode::JumpIfFalse);
    lemma_steps_extend(jumped);
    let entered = jumped.emit_op(Opcode::Pop);
    lemma_extends_chain(entered, jumped, tested);
    lemma_extends_chain(entered, tested, s);
    assert(entered.chunk.code.len() == t + 4);
    assert(entered.chunk.code[t] == Opcode::JumpIfFalse.byte());
    assert(entered.chunk.code[t + 3] == Opcode::Pop.byte());
    lemma_statement(entered);
    let first = entered.statement();
    let e = first.chunk.code.len() as int;
    lemma_extends_chain(first, entered, s);
    lemma_steps_extend(first);
    let left = first.emit_jump(Opcode::Jump);
    lemma_extends_chain(left, first, entered);
    lemma_extends_chain(left, entered, tested);
    assert(left.chunk.code.len() == e + 3);
    assert(left.chunk.code[e] == Opcode::Jump.byte());
    assert(left.chunk.code[t] == entered.chunk.code[t]);
    assert(left.chunk.code[t + 3] == entered.chunk.code[t + 3]);
    lemma_patch_keeps(left, t + 1, tested);
    let patched = left.patch_jump(t + 1);
    lemma_extends_chain(patched, tested, s);
    lemma_steps_extend(patched);
    let between = patched.emit_op(Opcode::Pop);
    lemma_extends_chain(between, patched, tested);
    lemma_extends_chain(between, tested, s);
    assert(between.chunk.code.len() == e + 4);
    assert(between.chunk.code[e + 3] == Opcode::Pop.byte());
    lemma_steps_extend(between);
    let second = if between.check(TokenTypeView::Else) && between.advance().remaining()
        <= s.remaining() {
        between.advance().statement()
    } else {
        between.matches(TokenTypeView::Else)
    };
    if between.check(TokenTypeView::Else) && between.advance().remaining() <= s.remaining() {
        lemma_statement(between.advance());
        lemma_extends_chain(second, between.advance(), between);
    }
    assert(second.extends(between));
    assert(second.chunk.code[t] == between.chunk.code[t]);
    assert(second.chunk.code[t + 1] == between.chunk.code[t + 1]);
    assert(second.chunk.code[t + 2] == between.chunk.code[t + 2]);
    assert(second.chunk.code[t + 3] == between.chunk.code[t + 3]);
    assert(second.chunk.code[e] == between.chunk.code[e]);
    assert(second.chunk.code[e + 3] == between.chunk.code[e + 3]);
    lemma_extends_chain(second, between, tested);
    lemma_patch_keeps(second, e + 1, tested);
    lemma_extends_chain(second.patch_jump(e + 1), tested, s);
    assert(s.if_statement() == second.patch_jump(e + 1));
}

impl ParserView {
    /// Where the `JumpIfFalse` of the `if` statement that is compiled from
    /// this state stands: at the end of the condition.
    pub open spec fn then_jump_at(self) -> int {
        self.expression().chunk.code.len() as int
    }

    /// Where the `Jump` of that statement stands: at the end of the first
    /// branch.
    pub open spec fn else_jump_at(self) -> int {
        self.expression().emit_jump(Opcode::JumpIfFalse).emit_op(
            Opcode::Pop,
        ).statement().chunk.code.len() as int
    }

    /// Where that statement ends.
    pub open spec fn if_end(self) -> int {
        self.if_statement().chunk.code.len() as int
    }
}

/// An `if` at run time. Take a machine that runs code which starts with the
/// code of an `if` statement, none of whose two jumps spans more than 32767
/// bytes. At the `JumpIfFalse`, with a truthy condition on the stack, the
/// machine goes on with the `Pop` that opens the first branch; with a falsy
/// one it goes to the `Pop` that opens the second branch, and so runs
/// nothing of the first. At the `Jump` that closes the first branch it goes
/// to the first instruction behind the whole statement, and so runs nothing
/// of the second. The stack is the same before and after each of these
/// steps.
#[verifier::rlimit(50)]
pub proof fn lemma_if_runs(s: ParserView, m: VmView)
    requires
        m.frames.len() > 0,
        starts_with(m.chunk().code, s.if_statement().chunk.code),
        s.else_jump_at() - s.then_jump_at() <= 32767,
        s.if_end() - s.else_jump_at() - 3 <= 32767,
    ensures
        ({
            let t = s.then_jump_at();
            let e = s.else_jump_at();
            let end = s.if_end();
            &&& t + 4 <= e && e + 4 <= end <= m.chunk().code.len()
            &&& decode_at(m, t + 3) == Opcode::Pop
            &&& decode_at(m, e + 3) == Opcode::Pop
            &&& m.top().ip == t && m.stack.len() > 0 && !m.peek(0).falsey() ==> m.goes_to(t + 3)
            &&& m.top().ip == t && m.stack.len() > 0 && m.peek(0).falsey() ==> m.goes_to(e + 3)
            &&& m.top().ip == e ==> m.goes_to(end)
        }),
{
    lemma_if_statement(s);
    let code = s.if_statement().chunk.code;
    let t = s.then_jump_at();
    let e = s.else_jump_at();
    let end = s.if_end();
    assert(m.chunk().code[t] == code[t]);
    assert(m.chunk().code[t + 1] == code[t + 1]);
    assert(m.chunk().code[t + 2] == code[t + 2]);
    assert(m.chunk().code[t + 3] == code[t + 3]);
    assert(m.chunk().code[e] == code[e]);
    assert(m.chunk().code[e + 1] == code[e + 1]);
    assert(m.chunk().code[e + 2] == code[e + 2]);
    assert(m.chunk().code[e + 3] == code[e + 3]);
    if m.top().ip == t {
        lemma_jump_taken(m, Opcode::JumpIfFalse, t, e + 3);
    }
    if m.top().ip == e {
        lemma_jump_taken(m, Opcode::Jump, e, end);
    }
}

/// A jump whose operand leads to `target`.
proof fn lemma_jump_taken(m: VmView, op: Opcode, at: int, target: int)
    requires
        m.frames.len() > 0,
        m.top().ip == at,
        0 <= at,
        at + 2 < m.chunk().code.len(),
        op == Opcode::Jump || op == Opcode::JumpIfFalse,
        m.chunk().code[at] == op.byte(),
        at + 3 + short(m.chunk().code[at + 1], m.chunk().code[at + 2]) == target,
        target <= m.chunk().code.len(),
    ensures
        op == Opcode::Jump ==> m.goes_to(target),
        op == Opcode::JumpIfFalse && m.stack.len() > 0 && m.peek(0).falsey() ==> m.goes_to(target),
        op == Opcode::JumpIfFalse && m.stack.len() > 0 && !m.peek(0).falsey() ==> m.goes_to(at + 3),
{
    lemma_jump_lands(m, None);
}

/// The operation that the byte at `at` in the running code names.
pub open spec fn decode_at(m: VmView, at: int) -> Opcode {
    crate::opcode::decode(m.chunk().code[at])
}

/// A guarded statement only adds.
#[verifier::rlimit(50)]
pub proof fn lemma_conditional(s: ParserView)
    ensures
        s.conditional().extends(s),
    decreases s.remaining(), 9nat,
{
    lemma_steps_extend(s);
    let opened = s.consume(TokenTypeView::LeftParen, crate::grammar::expect_condition());
    lemma_expression(opened);
    let valued = opened.expression();
    lemma_extends_chain(valued, opened, s);
    lemma_steps_extend(valued);
    let tested = valued.consume(TokenTypeView::RightParen, crate::grammar::expect_condition());
    lemma_extends_chain(tested, valued, s);
    lemma_steps_extend(tested);
    let entered = tested.emit_jump(Opcode::JumpIfFalse);
    lemma_extends_chain(entered, tested, s);
    if entered.remaining() <= s.remaining() {
        lemma_statement(entered);
        let body = entered.statement();
        lemma_extends_chain(body, entered, tested);
        lemma_patch_keeps(body, (tested.chunk.code.len() + 1) as int, tested);
        lemma_extends_chain(s.conditional(), tested, s);
    }
}

#[verifier::rlimit(50)]
pub(crate) proof fn lemma_statement(s: ParserView)
    ensures
        s.statement().extends(s),
    decreases s.remaining(), 8nat,
{
    lemma_steps_extend(s);
    let next = s.advance();
    lemma_steps_extend(next);
    match s.current.token_type {
        TokenTypeView::Print => {
            lemma_print_statement(next);
            lemma_extends_chain(next.print_statement(), next, s);
        },
        TokenTypeView::LeftBrace => {
            let inside = next.begin_scope();
            lemma_extends_chain(inside, next, s);
            if inside.remaining() < s.remaining() {
                lemma_block(inside);
                let done = inside.block();
                lemma_extends_chain(done, inside, s);
                lemma_steps_extend(done);
                lemma_extends_chain(done.end_scope(), done, s);
            } else {
                lemma_steps_extend(inside);
                lemma_extends_chain(inside.end_scope(), inside, s);
            }
        },
        TokenTypeView::If => {
            if next.remaining() < s.remaining() {
                lemma_if_statement(next);
                lemma_extends_chain(next.if_statement(), next, s);
            }
        },
        _ => {
            lemma_expression_statement(s);
        },
    }
}

pub(crate) proof fn lemma_block_items(s: ParserView)
    ensures
        s.block_items().extends(s),
    decreases s.remaining(), 11nat,
{
    lemma_steps_extend(s);
    if !(s.check(TokenTypeView::RightBrace) || s.ended) {
        lemma_declaration(s);
        let next = s.declaration();
        if next.remaining() < s.remaining() {
            lemma_block_items(next);
            lemma_extends_chain(next.block_items(), next, s);
        }
    }
}

pub(crate) proof fn lemma_block(s: ParserView)
    ensures
        s.block().extends(s),
    decreases s.remaining(), 12nat,
{
    lemma_block_items(s);
    let items = s.block_items();
    lemma_steps_extend(items);
    lemma_extends_chain(s.block(), items, s);
}

#[verifier::rlimit(50)]
pub(crate) proof fn lemma_declaration(s: ParserView)
    ensures
        s.declaration().extends(s),
    decreases s.remaining(), 10nat,
{
    lemma_steps_extend(s);
    match s.current.token_type {
        TokenTypeView::Identifier(name) => {
            let next = s.advance();
            lemma_steps_extend(next);
            if next.check(TokenTypeView::Equal) {
                let after = next.advance();
                lemma_extends_chain(after, next, s);
                lemma_variable_definition(after, name);
                lemma_extends_chain(after.variable_definition(name), after, s);
            } else {
                lemma_prefixed(next, Precedence::Assignment);
                let valued = next.prefixed(Precedence::Assignment);
                lemma_extends_chain(valued, next, s);
                lemma_steps_extend(valued);
                let popped = valued.emit_op(Opcode::Pop);
                lemma_extends_chain(popped, valued, s);
                lemma_steps_extend(popped);
                lemma_extends_chain(popped.end_statement(), popped, s);
            }
        },
        _ => {
            lemma_statement(s);
        },
    }
}

pub(crate) proof fn lemma_declarations(s: ParserView)
    ensures
        s.declarations().extends(s),
    decreases s.remaining(), 13nat,
{
    lemma_steps_extend(s);
    if !s.ended {
        lemma_declaration(s);
        let next = s.declaration();
        if next.remaining() < s.remaining() {
            lemma_declarations(next);
            lemma_extends_chain(next.declarations(), next, s);
        }
    }
}

/// A compiled program only adds to what was there, keeps a line for every
/// byte, and ends with `Return`.
pub proof fn lemma_program(s: ParserView)
    ensures
        s.program().extends(s),
        s.program().chunk.code.len() > 0,
        s.program().chunk.code.last() == Opcode::Return.byte(),
{
    lemma_steps_extend(s);
    let first = s.advance();
    lemma_declarations(first);
    let body = first.declarations();
    lemma_extends_chain(body, first, s);
    lemma_steps_extend(body);
    lemma_extends_chain(s.program(), body, s);
}

} // verus!
