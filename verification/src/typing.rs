//! What the compiler writes is typed.
//!
//! As long as the compiler records no error, its code is typed in the sense
//! of [`crate::safety`]: an expression leaves one value more on the stack
//! than it found, a statement leaves the stack as high as the local
//! variables in scope reach, and the locals are the lowest values on the
//! stack, each in its slot. So a program that compiles runs without any of
//! the failures that would lie in the code.
use vstd::prelude::*;
use crate::chunk::short;
use crate::grammar::{binary_code, resolve, ParserView};
use crate::growth;
use crate::growth::starts_with;
use crate::opcode::{decode, Opcode};
use crate::safety::{
    lemma_closed, lemma_entry, lemma_safe_run, lemma_typed_longer, lemma_typed_patched,
    lemma_typed_pool, program_error,
};
use crate::token::TokenView;
use crate::vm::{SignalView, VmView};
use crate::scopes;
use crate::tidy;
use crate::token::TokenTypeView;
use crate::value::ValueView;

verus! {

/// For an instruction without operands that the compiler writes: how many
/// values it needs on the stack.
pub open spec fn simple_need(op: Opcode) -> Option<int> {
    match op {
        Opcode::Nil | Opcode::True | Opcode::False => Some(0),
        Opcode::Negate | Opcode::Not | Opcode::Print | Opcode::Pop => Some(1),
        Opcode::Add
        | Opcode::Subtract
        | Opcode::Multiply
        | Opcode::Divide
        | Opcode::Mod
        | Opcode::Equal
        | Opcode::Greater
        | Opcode::Less
        | Opcode::LogicalAnd
        | Opcode::LogicalOr
        | Opcode::BitwiseAnd
        | Opcode::BitwiseOr => Some(2),
        _ => None,
    }
}

/// For such an instruction: by how much it changes the height.
pub open spec fn simple_change(op: Opcode) -> int {
    match op {
        Opcode::Nil | Opcode::True | Opcode::False => 1,
        Opcode::Negate | Opcode::Not => 0,
        _ => -1,
    }
}

/// For an instruction with one operand byte: by how much it changes the
/// height.
pub open spec fn byte_effect(op: Opcode) -> Option<int> {
    match op {
        Opcode::Constant | Opcode::GetGlobal | Opcode::GetLocal => Some(1),
        Opcode::SetGlobal | Opcode::SetLocal => Some(0),
        Opcode::DefineGlobal => Some(-1),
        _ => None,
    }
}

impl ParserView {
    /// The code so far is typed by the heights, up to the jumps that are
    /// pending, and the locals have slots that fit in a byte.
    pub open spec fn balanced(self, heights: Seq<int>, pending: Set<int>) -> bool {
        &&& self.chunk.typed(heights, pending)
        &&& self.locals.len() <= 255
        &&& forall|at: int| pending.contains(at) ==> 0 <= at < self.chunk.code.len()
    }

    /// No error has been recorded since `before`.
    pub open spec fn quiet_since(self, before: ParserView) -> bool {
        self.diagnostics == before.diagnostics
    }

    /// The code is typed and the stack is at least as high as the locals
    /// reach: an expression can be compiled.
    pub open spec fn ready(self, heights: Seq<int>, pending: Set<int>) -> bool {
        self.balanced(heights, pending) && heights.last() >= self.locals.len()
    }

    /// The code is typed and the stack is exactly as high as the locals
    /// reach: a statement can be compiled.
    pub open spec fn settled(self, heights: Seq<int>, pending: Set<int>) -> bool {
        self.balanced(heights, pending) && self.scoped() && heights.last() == self.locals.len()
    }
}

/// The heights `after` continue the heights `before` and end `delta` higher.
pub open spec fn continues(after: Seq<int>, before: Seq<int>, delta: int) -> bool {
    starts_with(after, before) && after.last() == before.last() + delta
}

/// If no error was recorded between two states, none was recorded up to a
/// state between them.
pub proof fn lemma_quiet_between(last: ParserView, middle: ParserView, first: ParserView)
    requires
        last.extends(middle),
        middle.extends(first),
        last.quiet_since(first),
    ensures
        middle.quiet_since(first),
        last.quiet_since(middle),
{
    assert(middle.diagnostics =~= first.diagnostics);
}

/// An instruction without operands.
pub proof fn lemma_emit(s: ParserView, heights: Seq<int>, pending: Set<int>, op: Opcode) -> (after:
    Seq<int>)
    requires
        s.balanced(heights, pending),
        simple_need(op) is Some,
        heights.last() >= simple_need(op)->0,
    ensures
        s.emit_op(op).balanced(after, pending),
        continues(after, heights, simple_change(op)),
        after == heights.push(heights.last() + simple_change(op)),
{
    let t = s.emit_op(op);
    let end = s.chunk.code.len() as int;
    let after = heights.push(heights.last() + simple_change(op));
    growth::lemma_steps_extend(s);
    tidy::lemma_simple(s, op);
    assert(t.chunk.code[end] == op.byte());
    assert(decode(op.byte()) == op);
    assert(t.chunk.fits(after, pending, end));
    lemma_typed_longer(s.chunk, t.chunk, heights, after, pending, pending);
    after
}

/// The `Return` that ends a program, which finds the stack empty.
pub proof fn lemma_emit_return(s: ParserView, heights: Seq<int>, pending: Set<int>) -> (after: Seq<
    int,
>)
    requires
        s.balanced(heights, pending),
        heights.last() == 0,
    ensures
        s.emit_op(Opcode::Return).balanced(after, pending),
        starts_with(after, heights),
{
    let t = s.emit_op(Opcode::Return);
    let end = s.chunk.code.len() as int;
    let after = heights.push(0);
    growth::lemma_steps_extend(s);
    tidy::lemma_simple(s, Opcode::Return);
    assert(t.chunk.code[end] == Opcode::Return.byte());
    assert(t.chunk.fits(after, pending, end));
    lemma_typed_longer(s.chunk, t.chunk, heights, after, pending, pending);
    after
}

/// An instruction with one operand byte: an index into the pool that holds
/// a constant of the right kind, or a slot below the height.
pub proof fn lemma_emit_with_byte(
    s: ParserView,
    heights: Seq<int>,
    pending: Set<int>,
    op: Opcode,
    byte: u8,
) -> (after: Seq<int>)
    requires
        s.balanced(heights, pending),
        heights.last() >= 0,
        byte_effect(op) is Some,
        tidy::uses_pool(op) ==> byte < s.chunk.constants.len(),
        op == Opcode::GetGlobal || op == Opcode::SetGlobal || op == Opcode::DefineGlobal
            ==> s.chunk.constants[byte as int] is String,
        op == Opcode::SetGlobal || op == Opcode::DefineGlobal ==> heights.last() >= 1,
        op == Opcode::GetLocal || op == Opcode::SetLocal ==> byte < heights.last(),
    ensures
        s.emit_op(op).emit_byte(byte).balanced(after, pending),
        continues(after, heights, byte_effect(op)->0),
{
    let middle = s.emit_op(op);
    let t = middle.emit_byte(byte);
    let end = s.chunk.code.len() as int;
    let after = heights.push(-1).push(heights.last() + byte_effect(op)->0);
    growth::lemma_steps_extend(s);
    growth::lemma_steps_extend(middle);
    growth::lemma_extends_chain(t, middle, s);
    tidy::lemma_with_byte(s, op, byte);
    assert(t.chunk.code[end] == op.byte());
    assert(t.chunk.code[end + 1] == byte);
    assert(decode(op.byte()) == op);
    assert(t.chunk.constants == s.chunk.constants);
    assert(t.chunk.fits(after, pending, end));
    lemma_typed_longer(s.chunk, t.chunk, heights, after, pending, pending);
    after
}

/// A constant and the instruction that loads it.
pub proof fn lemma_emit_constant(
    s: ParserView,
    heights: Seq<int>,
    pending: Set<int>,
    value: ValueView,
) -> (after: Seq<int>)
    requires
        s.balanced(heights, pending),
        heights.last() >= 0,
    ensures
        s.emit_constant(value).balanced(after, pending),
        continues(after, heights, 1),
{
    let named = s.make_constant(value);
    growth::lemma_steps_extend(s);
    lemma_typed_pool(s.chunk, named.chunk, heights, pending);
    lemma_emit_with_byte(named, heights, pending, Opcode::Constant, s.constant_index() as u8)
}

/// A jump with its placeholder, which is pending from now on. What height
/// the code behind an unconditional jump starts at is decided by the jump
/// that will land there.
pub proof fn lemma_emit_jump(
    s: ParserView,
    heights: Seq<int>,
    pending: Set<int>,
    op: Opcode,
    landing: int,
) -> (after: Seq<int>)
    requires
        s.balanced(heights, pending),
        op == Opcode::Jump || op == Opcode::JumpIfFalse,
        heights.last() >= 0,
        op == Opcode::JumpIfFalse ==> heights.last() >= 1 && landing == heights.last(),
    ensures
        s.emit_jump(op).balanced(after, pending.insert(s.chunk.code.len() as int)),
        starts_with(after, heights),
        after == heights.push(-1).push(-1).push(landing),
        s.emit_jump(op).boundary(s.chunk.code.len() as int),
        s.emit_jump(op).chunk.code.len() == s.chunk.code.len() + 3,
        decode(s.emit_jump(op).chunk.code[s.chunk.code.len() as int]) == op,
{
    let t = s.emit_jump(op);
    let end = s.chunk.code.len() as int;
    let after = heights.push(-1).push(-1).push(landing);
    growth::lemma_steps_extend(s);
    tidy::lemma_jump(s, op);
    assert(t.chunk.code[end] == op.byte());
    assert(t.chunk.fits(after, pending.insert(end), end));
    lemma_typed_longer(s.chunk, t.chunk, heights, after, pending, pending.insert(end));
    after
}

/// Filling in the placeholder of the pending jump at `at` so that it lands
/// at the end of the code, where the height is the one that the jump
/// leaves.
pub proof fn lemma_patch(s: ParserView, heights: Seq<int>, pending: Set<int>, at: int)
    requires
        s.balanced(heights, pending),
        s.boundary(at),
        0 <= at,
        at + 3 <= s.chunk.code.len(),
        decode(s.chunk.code[at]) == Opcode::Jump || decode(s.chunk.code[at])
            == Opcode::JumpIfFalse,
        s.chunk.code.len() - at - 3 <= 32767,
        heights.last() == heights[at],
    ensures
        s.patch_jump(at + 1).balanced(heights, pending.remove(at)),
        s.patch_jump(at + 1).quiet_since(s),
        s.patch_jump(at + 1).same_scope(s),
{
    let t = s.patch_jump(at + 1);
    let end = s.chunk.code.len() as int;
    let jump = end - at - 3;
    assert((jump / 256) % 256 == jump / 256);
    assert((jump / 256) * 256 + jump % 256 == jump);
    assert(short(t.chunk.code[at + 1], t.chunk.code[at + 2]) == jump);
    tidy::lemma_reaches_end(s.chunk, 0);
    lemma_typed_patched(s.chunk, t.chunk, heights, pending, at, end);
}

/// Dropping the locals of a scope: one `Pop` for each.
pub proof fn lemma_pop_locals(s: ParserView, heights: Seq<int>, pending: Set<int>) -> (after: Seq<
    int,
>)
    requires
        s.balanced(heights, pending),
        heights.last() == s.locals.len(),
    ensures
        s.pop_locals().balanced(after, pending),
        starts_with(after, heights),
        after.last() == s.pop_locals().locals.len(),
        s.pop_locals().quiet_since(s),
    decreases s.locals.len(),
{
    if s.locals.len() > 0 && s.locals.last().depth > s.scope_depth {
        let popped = lemma_emit(s, heights, pending, Opcode::Pop);
        let next = ParserView { locals: s.locals.drop_last(), ..s.emit_op(Opcode::Pop) };
        let after = lemma_pop_locals(next, popped, pending);
        after
    } else {
        heights
    }
}

/// Leaving a scope.
pub proof fn lemma_end_scope(s: ParserView, heights: Seq<int>, pending: Set<int>) -> (after: Seq<
    int,
>)
    requires
        s.balanced(heights, pending),
        heights.last() == s.locals.len(),
    ensures
        s.end_scope().balanced(after, pending),
        starts_with(after, heights),
        after.last() == s.end_scope().locals.len(),
        s.end_scope().quiet_since(s),
{
    let left = ParserView {
        scope_depth: if s.scope_depth > 0 {
            (s.scope_depth - 1) as nat
        } else {
            0nat
        },
        ..s
    };
    lemma_pop_locals(left, heights, pending)
}

/// The routines that write no code leave the typing as it is.
pub proof fn lemma_steps_balanced(s: ParserView, heights: Seq<int>, pending: Set<int>)
    requires
        s.balanced(heights, pending),
    ensures
        s.advance().balanced(heights, pending),
        forall|kind: TokenTypeView| #[trigger] s.matches(kind).balanced(heights, pending),
        forall|kind: TokenTypeView, message: Seq<char>| #[trigger]
            s.consume(kind, message).balanced(heights, pending),
        forall|message: Seq<char>| #[trigger] s.error(message).balanced(heights, pending),
        s.begin_scope().balanced(heights, pending),
        s.end_statement().balanced(heights, pending),
        forall|value: ValueView| #[trigger] s.make_constant(value).balanced(heights, pending),
        forall|name: Seq<char>|
            (#[trigger] s.add_local(name)).quiet_since(s) ==> s.add_local(name).balanced(
                heights,
                pending,
            ) && s.add_local(name).locals.len() == s.locals.len() + 1,
        forall|value: ValueView|
            (#[trigger] s.make_constant(value)).quiet_since(s) ==> s.constant_index()
                == s.chunk.constants.len() && s.constant_index() <= 255 && s.make_constant(
                value,
            ).chunk.constants[s.constant_index()] == value,
{
    growth::lemma_steps_extend(s);
    assert forall|value: ValueView| #[trigger] s.make_constant(value).balanced(
        heights,
        pending,
    ) by {
        lemma_typed_pool(s.chunk, s.make_constant(value).chunk, heights, pending);
    }
    assert forall|kind: TokenTypeView, message: Seq<char>| #[trigger]
        s.consume(kind, message).balanced(heights, pending) by {
        let t = s.error_at_current(message);
        assert(t.chunk == s.chunk && t.locals == s.locals);
        assert(t.advance().chunk == s.chunk);
    }
    assert forall|name: Seq<char>|
        (#[trigger] s.add_local(name)).quiet_since(s) implies s.add_local(name).balanced(
        heights,
        pending,
    ) && s.add_local(name).locals.len() == s.locals.len() + 1 by {
        if s.locals.len() >= 255 {
            assert(s.add_local(name).diagnostics.len() == s.diagnostics.len() + 1);
        }
    }
    assert forall|value: ValueView|
        (#[trigger] s.make_constant(value)).quiet_since(s) implies s.constant_index()
        == s.chunk.constants.len() && s.constant_index() <= 255 && s.make_constant(
        value,
    ).chunk.constants[s.constant_index()] == value by {
        if s.chunk.constants.len() > 255 {
            assert(s.make_constant(value).diagnostics.len() == s.diagnostics.len() + 1);
        }
    }
}

/// Unless an error was recorded, the code is typed, one value higher than
/// before, with the same locals: what an expression does.
pub open spec fn pushes(
    t: ParserView,
    after: Seq<int>,
    s: ParserView,
    heights: Seq<int>,
    pending: Set<int>,
) -> bool {
    t.quiet_since(s) ==> t.balanced(after, pending) && continues(after, heights, 1)
        && t.same_scope(s)
}

/// Unless an error was recorded, the code is typed, as high as before, with
/// the same locals: what an operator with its right operand does to the
/// left operand.
pub open spec fn keeps(
    t: ParserView,
    after: Seq<int>,
    s: ParserView,
    heights: Seq<int>,
    pending: Set<int>,
) -> bool {
    t.quiet_since(s) ==> t.balanced(after, pending) && continues(after, heights, 0)
        && t.same_scope(s)
}

/// Unless an error was recorded, the code is typed and as high as the locals
/// reach: what a statement does.
pub open spec fn settles(
    t: ParserView,
    after: Seq<int>,
    s: ParserView,
    heights: Seq<int>,
    pending: Set<int>,
) -> bool {
    t.quiet_since(s) ==> t.settled(after, pending) && starts_with(after, heights)
}

/// Continuing heights twice is continuing them once.
pub proof fn lemma_continues(c: Seq<int>, b: Seq<int>, a: Seq<int>, second: int, first: int)
    requires
        continues(c, b, second),
        continues(b, a, first),
        a.len() > 0,
    ensures
        continues(c, a, first + second),
        starts_with(c, a),
{
    assert forall|i: int| 0 <= i < a.len() implies #[trigger] c[i] == a[i] by {
        assert(c[i] == b[i]);
    }
}

pub(crate) proof fn lemma_starts(c: Seq<int>, b: Seq<int>, a: Seq<int>)
    requires
        starts_with(c, b),
        starts_with(b, a),
    ensures
        starts_with(c, a),
{
    assert forall|i: int| 0 <= i < a.len() implies #[trigger] c[i] == a[i] by {
        assert(c[i] == b[i]);
    }
}

/// A number literal, a string literal, `false`, `nil` or `true`.
pub proof fn lemma_atom(s: ParserView, heights: Seq<int>, pending: Set<int>) -> (after: Seq<int>)
    requires
        s.ready(heights, pending),
    ensures
        s.previous.token_type is Number ==> pushes(s.number(), after, s, heights, pending),
        s.previous.token_type is String ==> pushes(s.string(), after, s, heights, pending),
        s.previous.token_type is False || s.previous.token_type is Nil
            || s.previous.token_type is True ==> pushes(s.literal(), after, s, heights, pending),
{
    match s.previous.token_type {
        TokenTypeView::Number(_) => lemma_emit_constant(
            s,
            heights,
            pending,
            ValueView::Number(s.previous_value),
        ),
        TokenTypeView::String(contents) => lemma_emit_constant(
            s,
            heights,
            pending,
            ValueView::String(contents),
        ),
        TokenTypeView::False => lemma_emit(s, heights, pending, Opcode::False),
        TokenTypeView::Nil => lemma_emit(s, heights, pending, Opcode::Nil),
        TokenTypeView::True => lemma_emit(s, heights, pending, Opcode::True),
        _ => heights,
    }
}

/// The operators that follow an operand: the operand stays the only value
/// that the expression has added.
#[verifier::rlimit(100)]
pub proof fn lemma_infix_loop(
    s: ParserView,
    heights: Seq<int>,
    pending: Set<int>,
    precedence: crate::precedence::Precedence,
) -> (after: Seq<int>)
    requires
        s.ready(heights, pending),
        heights.last() >= s.locals.len() + 1,
    ensures
        keeps(s.infix_loop(precedence), after, s, heights, pending),
    decreases s.remaining(), 0nat,
{
    let last = s.infix_loop(precedence);
    let rule = s.current.token_type.rule();
    growth::lemma_steps_extend(s);
    growth::lemma_infix_loop(s, precedence);
    scopes::lemma_steps_same_scope(s);
    lemma_steps_balanced(s, heights, pending);
    if rule.infix is Some && precedence.rank() <= rule.precedence.rank() {
        let next = s.advance();
        if next.remaining() < s.remaining() {
            growth::lemma_binary(next);
            let done = next.binary();
            if last.quiet_since(s) {
                if done.remaining() < s.remaining() {
                    growth::lemma_infix_loop(done, precedence);
                    growth::lemma_extends_chain(done, next, s);
                    lemma_quiet_between(last, done, s);
                }
                lemma_quiet_between(done, next, s);
                let middle = lemma_binary(next, heights, pending);
                if done.remaining() < s.remaining() {
                    let after = lemma_infix_loop(done, middle, pending, precedence);
                    lemma_continues(after, middle, heights, 0, 0);
                    after
                } else {
                    middle
                }
            } else {
                heights
            }
        } else {
            heights
        }
    } else {
        heights
    }
}

/// An expression of at least some precedence.
#[verifier::rlimit(100)]
pub proof fn lemma_parse_precedence(
    s: ParserView,
    heights: Seq<int>,
    pending: Set<int>,
    precedence: crate::precedence::Precedence,
) -> (after: Seq<int>)
    requires
        s.ready(heights, pending),
    ensures
        pushes(s.parse_precedence(precedence), after, s, heights, pending),
    decreases s.remaining(), 1nat,
{
    let next = s.advance();
    growth::lemma_steps_extend(s);
    growth::lemma_steps_extend(next);
    scopes::lemma_steps_same_scope(s);
    lemma_steps_balanced(s, heights, pending);
    if next.remaining() < s.remaining() {
        growth::lemma_prefixed(next, precedence);
        let last = next.prefixed(precedence);
        if last.quiet_since(s) {
            lemma_quiet_between(last, next, s);
            lemma_prefixed(next, heights, pending, precedence)
        } else {
            heights
        }
    } else {
        heights
    }
}

/// An expression leaves one value more on the stack than it found.
pub proof fn lemma_expression(s: ParserView, heights: Seq<int>, pending: Set<int>) -> (after: Seq<
    int,
>)
    requires
        s.ready(heights, pending),
    ensures
        pushes(s.expression(), after, s, heights, pending),
    decreases s.remaining(), 2nat,
{
    lemma_parse_precedence(s, heights, pending, crate::precedence::Precedence::Assignment)
}

#[verifier::rlimit(100)]
pub(crate) proof fn lemma_grouping(s: ParserView, heights: Seq<int>, pending: Set<int>) -> (after: Seq<
    int,
>)
    requires
        s.ready(heights, pending),
    ensures
        pushes(s.grouping(), after, s, heights, pending),
    decreases s.remaining(), 3nat,
{
    let inner = s.expression();
    let last = s.grouping();
    growth::lemma_expression(s);
    growth::lemma_steps_extend(inner);
    scopes::lemma_steps_same_scope(inner);
    if last.quiet_since(s) {
        lemma_quiet_between(last, inner, s);
        let after = lemma_expression(s, heights, pending);
        lemma_steps_balanced(inner, after, pending);
        after
    } else {
        heights
    }
}

#[verifier::rlimit(100)]
pub(crate) proof fn lemma_unary(s: ParserView, heights: Seq<int>, pending: Set<int>) -> (after: Seq<int>)
    requires
        s.ready(heights, pending),
        s.previous.token_type is Minus || s.previous.token_type is Bang,
    ensures
        pushes(s.unary(), after, s, heights, pending),
    decreases s.remaining(), 3nat,
{
    let precedence = crate::precedence::Precedence::Unary;
    let operand = s.parse_precedence(precedence);
    let last = s.unary();
    growth::lemma_parse_precedence(s, precedence);
    growth::lemma_steps_extend(operand);
    scopes::lemma_steps_same_scope(operand);
    if last.quiet_since(s) {
        lemma_quiet_between(last, operand, s);
        let middle = lemma_parse_precedence(s, heights, pending, precedence);
        let after = lemma_emit(
            operand,
            middle,
            pending,
            if s.previous.token_type is Minus {
                Opcode::Negate
            } else {
                Opcode::Not
            },
        );
        lemma_continues(after, middle, heights, 0, 1);
        after
    } else {
        heights
    }
}

/// The right operand of a binary operator and the operator's instruction:
/// two operands become one value.
#[verifier::rlimit(100)]
pub proof fn lemma_binary(s: ParserView, heights: Seq<int>, pending: Set<int>) -> (after: Seq<int>)
    requires
        s.ready(heights, pending),
        heights.last() >= s.locals.len() + 1,
        binary_code(s.previous.token_type) is Some,
    ensures
        keeps(s.binary(), after, s, heights, pending),
    decreases s.remaining(), 3nat,
{
    let operator = s.previous.token_type;
    let precedence = operator.rule().precedence.above();
    let operand = s.parse_precedence(precedence);
    let last = s.binary();
    growth::lemma_parse_precedence(s, precedence);
    growth::lemma_steps_extend(operand);
    scopes::lemma_steps_same_scope(operand);
    if last.quiet_since(s) {
        lemma_quiet_between(last, operand, s);
        let middle = lemma_parse_precedence(s, heights, pending, precedence);
        match binary_code(operator) {
            Some((op, negated)) => {
                let applied = lemma_emit(operand, middle, pending, op);
                lemma_continues(applied, middle, heights, -1, 1);
                if negated {
                    let emitted = operand.emit_op(op);
                    scopes::lemma_steps_same_scope(emitted);
                    let after = lemma_emit(emitted, applied, pending, Opcode::Not);
                    lemma_continues(after, applied, heights, 0, 0);
                    after
                } else {
                    applied
                }
            },
            None => heights,
        }
    } else {
        heights
    }
}

/// A variable that is read or assigned: a local by its slot, which lies
/// below the height of the stack, a global by its name in the pool.
#[verifier::rlimit(100)]
pub proof fn lemma_variable(
    s: ParserView,
    heights: Seq<int>,
    pending: Set<int>,
    can_assign: bool,
) -> (after: Seq<int>)
    requires
        s.ready(heights, pending),
        s.previous.token_type is Identifier,
    ensures
        pushes(s.variable(can_assign), after, s, heights, pending),
    decreases s.remaining(), 3nat,
{
    let name = s.previous.token_type->Identifier_0;
    let slot = resolve(s.locals, name);
    let last = s.variable(can_assign);
    growth::lemma_variable(s, can_assign);
    growth::lemma_steps_extend(s);
    scopes::lemma_variable(s, can_assign);
    scopes::lemma_steps_same_scope(s);
    crate::grammar::lemma_resolve(s.locals, name);
    lemma_steps_balanced(s, heights, pending);
    let named = if slot is Some {
        s
    } else {
        s.make_constant(ValueView::String(name))
    };
    let arg = if slot is Some {
        slot->0
    } else {
        s.constant_index()
    };
    growth::lemma_steps_extend(named);
    scopes::lemma_steps_same_scope(named);
    lemma_steps_balanced(named, heights, pending);
    if last.quiet_since(s) {
        if can_assign && named.check(TokenTypeView::Equal) {
            let next = named.advance();
            growth::lemma_expression(next);
            let valued = next.expression();
            growth::lemma_steps_extend(valued);
            let set = valued.emit_op(
                if slot is Some {
                    Opcode::SetLocal
                } else {
                    Opcode::SetGlobal
                },
            );
            growth::lemma_steps_extend(set);
            growth::lemma_extends_chain(last, set, valued);
            growth::lemma_extends_chain(valued, next, named);
            growth::lemma_extends_chain(valued, named, s);
            lemma_quiet_between(last, valued, s);
            lemma_quiet_between(valued, named, s);
            lemma_quiet_between(valued, next, named);
            let middle = lemma_expression(next, heights, pending);
            if slot is None {
                assert(valued.chunk.constants[arg] == named.chunk.constants[arg]);
            }
            let after = lemma_emit_with_byte(
                valued,
                middle,
                pending,
                if slot is Some {
                    Opcode::SetLocal
                } else {
                    Opcode::SetGlobal
                },
                arg as u8,
            );
            lemma_continues(after, middle, heights, 0, 1);
            after
        } else {
            let get = named.emit_op(
                if slot is Some {
                    Opcode::GetLocal
                } else {
                    Opcode::GetGlobal
                },
            );
            growth::lemma_steps_extend(get);
            growth::lemma_extends_chain(last, get, named);
            lemma_quiet_between(last, named, s);
            lemma_emit_with_byte(
                named,
                heights,
                pending,
                if slot is Some {
                    Opcode::GetLocal
                } else {
                    Opcode::GetGlobal
                },
                arg as u8,
            )
        }
    } else {
        heights
    }
}

/// The prefix routine of the token just consumed.
pub proof fn lemma_dispatch(
    s: ParserView,
    heights: Seq<int>,
    pending: Set<int>,
    handler: crate::parse_rule::Handler,
    can_assign: bool,
) -> (after: Seq<int>)
    requires
        s.ready(heights, pending),
        s.previous.token_type.rule().prefix == Some(handler),
    ensures
        pushes(s.dispatch(handler, can_assign), after, s, heights, pending),
    decreases s.remaining(), 4nat,
{
    match handler {
        crate::parse_rule::Handler::Grouping => lemma_grouping(s, heights, pending),
        crate::parse_rule::Handler::Unary => lemma_unary(s, heights, pending),
        crate::parse_rule::Handler::Variable => lemma_variable(s, heights, pending, can_assign),
        _ => lemma_atom(s, heights, pending),
    }
}

/// An expression whose first token is consumed.
#[verifier::rlimit(100)]
pub proof fn lemma_prefixed(
    s: ParserView,
    heights: Seq<int>,
    pending: Set<int>,
    precedence: crate::precedence::Precedence,
) -> (after: Seq<int>)
    requires
        s.ready(heights, pending),
    ensures
        pushes(s.prefixed(precedence), after, s, heights, pending),
    decreases s.remaining(), 5nat,
{
    let last = s.prefixed(precedence);
    growth::lemma_steps_extend(s);
    match s.previous.token_type.rule().prefix {
        Some(handler) => {
            let can_assign = precedence.rank() <= crate::precedence::Precedence::Assignment.rank();
            growth::lemma_dispatch(s, handler, can_assign);
            let done = s.dispatch(handler, can_assign);
            growth::lemma_infix_loop(done, precedence);
            if last.quiet_since(s) {
                lemma_quiet_between(last, done, s);
                let middle = lemma_dispatch(s, heights, pending, handler, can_assign);
                let after = lemma_infix_loop(done, middle, pending, precedence);
                lemma_continues(after, middle, heights, 0, 1);
                after
            } else {
                heights
            }
        },
        None => {
            assert(last.diagnostics.len() == s.diagnostics.len() + 1);
            heights
        },
    }
}

/// The errors of a state are those of an earlier state and perhaps more.
pub open spec fn later(after: ParserView, before: ParserView) -> bool {
    starts_with(after.diagnostics, before.diagnostics)
}

/// An expression whose value is dropped, or printed.
#[verifier::rlimit(100)]
pub proof fn lemma_simple_statement(
    s: ParserView,
    heights: Seq<int>,
    pending: Set<int>,
    op: Opcode,
) -> (after: Seq<int>)
    requires
        s.settled(heights, pending),
        op == Opcode::Pop || op == Opcode::Print,
    ensures
        settles(
            s.expression().emit_op(op).end_statement(),
            after,
            s,
            heights,
            pending,
        ),
        s.expression().emit_op(op).end_statement().same_scope(s),
    decreases s.remaining(), 6nat,
{
    let valued = s.expression();
    let dropped = valued.emit_op(op);
    let last = dropped.end_statement();
    growth::lemma_expression(s);
    growth::lemma_steps_extend(valued);
    growth::lemma_steps_extend(dropped);
    scopes::lemma_expression(s);
    scopes::lemma_steps_same_scope(valued);
    scopes::lemma_steps_same_scope(dropped);
    if last.quiet_since(s) {
        assert(valued.diagnostics =~= s.diagnostics);
        assert(dropped.diagnostics =~= s.diagnostics);
        let middle = lemma_expression(s, heights, pending);
        let after = lemma_emit(valued, middle, pending, op);
        lemma_steps_balanced(dropped, after, pending);
        lemma_starts(after, middle, heights);
        after
    } else {
        heights
    }
}

/// A definition: outside every block the value is taken by the global
/// variable, inside a block it stays on the stack as the new local.
#[verifier::rlimit(100)]
pub proof fn lemma_variable_definition(
    s: ParserView,
    heights: Seq<int>,
    pending: Set<int>,
    name: Seq<char>,
) -> (after: Seq<int>)
    requires
        s.settled(heights, pending),
    ensures
        settles(s.variable_definition(name), after, s, heights, pending),
    decreases s.remaining(), 6nat,
{
    let valued = s.expression();
    let last = s.variable_definition(name);
    growth::lemma_expression(s);
    growth::lemma_steps_extend(valued);
    scopes::lemma_expression(s);
    scopes::lemma_variable_definition(s, name);
    scopes::lemma_keeps_scoped(last, s);
    scopes::lemma_steps_same_scope(valued);
    if valued.scope_depth > 0 {
        let declared = valued.add_local(name);
        growth::lemma_steps_extend(declared);
        scopes::lemma_steps_same_scope(declared);
        if last.quiet_since(s) {
            assert(valued.diagnostics =~= s.diagnostics);
            assert(declared.diagnostics =~= s.diagnostics);
            let after = lemma_expression(s, heights, pending);
            lemma_steps_balanced(valued, after, pending);
            lemma_steps_balanced(declared, after, pending);
            after
        } else {
            heights
        }
    } else {
        let named = valued.make_constant(ValueView::String(name));
        growth::lemma_steps_extend(named);
        let defined = named.emit_op(Opcode::DefineGlobal);
        growth::lemma_steps_extend(defined);
        let indexed = defined.emit_byte(valued.constant_index() as u8);
        growth::lemma_steps_extend(indexed);
        scopes::lemma_steps_same_scope(named);
        scopes::lemma_steps_same_scope(defined);
        scopes::lemma_steps_same_scope(indexed);
        if last.quiet_since(s) {
            assert(valued.diagnostics =~= s.diagnostics);
            assert(named.diagnostics =~= s.diagnostics);
            assert(defined.diagnostics =~= s.diagnostics);
            assert(indexed.diagnostics =~= s.diagnostics);
            let middle = lemma_expression(s, heights, pending);
            lemma_steps_balanced(valued, middle, pending);
            let after = lemma_emit_with_byte(
                named,
                middle,
                pending,
                Opcode::DefineGlobal,
                valued.constant_index() as u8,
            );
            lemma_steps_balanced(indexed, after, pending);
            lemma_starts(after, middle, heights);
            after
        } else {
            heights
        }
    }
}

/// The start of the first branch of an `if`: the jump over the branch, which
/// is pending, and the `Pop` that drops the condition.
pub proof fn lemma_enter_branch(tested: ParserView, heights: Seq<int>, pending: Set<int>) -> (after:
    Seq<int>)
    requires
        tested.balanced(heights, pending),
        heights.last() >= 1,
    ensures
        ({
            let t = tested.chunk.code.len() as int;
            let entered = tested.emit_jump(Opcode::JumpIfFalse).emit_op(Opcode::Pop);
            &&& entered.balanced(after, pending.insert(t))
            &&& starts_with(after, heights)
            &&& after.last() == heights.last() - 1
            &&& after[t] == heights.last()
            &&& entered.boundary(t)
            &&& decode(entered.chunk.code[t]) == Opcode::JumpIfFalse
            &&& entered.chunk.code.len() == t + 4
            &&& entered.extends(tested)
            &&& entered.same_scope(tested)
            &&& entered.quiet_since(tested)
        }),
{
    let t = tested.chunk.code.len() as int;
    let jumped = tested.emit_jump(Opcode::JumpIfFalse);
    let entered = jumped.emit_op(Opcode::Pop);
    let middle = lemma_emit_jump(tested, heights, pending, Opcode::JumpIfFalse, heights.last());
    let after = lemma_emit(jumped, middle, pending.insert(t), Opcode::Pop);
    growth::lemma_steps_extend(tested);
    growth::lemma_steps_extend(jumped);
    growth::lemma_extends_chain(entered, jumped, tested);
    tidy::lemma_added(jumped, entered);
    assert(entered.chunk.code[t] == jumped.chunk.code[t]);
    lemma_starts(after, middle, heights);
    after
}

/// From the end of the first branch of an `if` to the start of the second:
/// the pending jump over the second branch, the patch that lets the jump
/// over the first branch land behind it, and the `Pop` that drops the
/// condition on that way.
#[verifier::rlimit(100)]
pub proof fn lemma_between_branches(
    first: ParserView,
    heights: Seq<int>,
    pending: Set<int>,
    t: int,
) -> (after: Seq<int>)
    requires
        first.balanced(heights, pending),
        heights.last() >= 0,
        pending.contains(t),
        first.boundary(t),
        0 <= t,
        t + 4 <= first.chunk.code.len(),
        decode(first.chunk.code[t]) == Opcode::JumpIfFalse,
        heights[t] >= 1,
        first.chunk.code.len() - t <= 32767,
    ensures
        ({
            let e = first.chunk.code.len() as int;
            let between = first.emit_jump(Opcode::Jump).patch_jump(t + 1).emit_op(Opcode::Pop);
            &&& between.balanced(after, pending.insert(e).remove(t))
            &&& starts_with(after, heights)
            &&& after.last() == heights[t] - 1
            &&& after[e] == heights.last()
            &&& between.boundary(e)
            &&& decode(between.chunk.code[e]) == Opcode::Jump
            &&& between.chunk.code.len() == e + 4
            &&& between.same_scope(first)
            &&& between.quiet_since(first)
            &&& between.remaining() == first.remaining()
            &&& between.current == first.current
        }),
{
    let e = first.chunk.code.len() as int;
    let left = first.emit_jump(Opcode::Jump);
    let patched = left.patch_jump(t + 1);
    let between = patched.emit_op(Opcode::Pop);
    let jumped = lemma_emit_jump(first, heights, pending, Opcode::Jump, heights[t]);
    growth::lemma_steps_extend(first);
    tidy::lemma_added(first, left);
    assert(left.boundary(t));
    assert(left.chunk.code[t] == first.chunk.code[t]);
    assert(jumped[t] == heights[t]);
    lemma_patch(left, jumped, pending.insert(e), t);
    tidy::lemma_patch(left, t, first);
    assert(patched.boundary(e));
    assert(patched.chunk.code[e] == left.chunk.code[e]);
    let after = lemma_emit(patched, jumped, pending.insert(e).remove(t), Opcode::Pop);
    growth::lemma_steps_extend(patched);
    tidy::lemma_added(patched, between);
    assert(between.chunk.code[e] == patched.chunk.code[e]);
    lemma_starts(after, jumped, heights);
    assert(after[e] == heights[e]);
    after
}

/// An `if` statement leaves the stack as it found it, whichever way the
/// machine goes.
#[verifier::rlimit(100)]
pub proof fn lemma_if_statement(s: ParserView, heights: Seq<int>, pending: Set<int>) -> (after: Seq<
    int,
>)
    requires
        s.settled(heights, pending),
    ensures
        settles(s.if_statement(), after, s, heights, pending),
        s.if_statement().same_scope(s),
    decreases s.remaining(), 9nat,
{
    let last = s.if_statement();
    let tested = s.expression();
    let t = tested.chunk.code.len() as int;
    let entered = tested.emit_jump(Opcode::JumpIfFalse).emit_op(Opcode::Pop);
    growth::lemma_expression(s);
    growth::lemma_if_statement(s);
    scopes::lemma_if_statement(s);
    scopes::lemma_expression(s);
    growth::lemma_steps_extend(tested);
    growth::lemma_steps_extend(tested.emit_jump(Opcode::JumpIfFalse));
    let first = entered.statement();
    let e = first.chunk.code.len() as int;
    growth::lemma_statement(entered);
    let between = first.emit_jump(Opcode::Jump).patch_jump(t + 1).emit_op(Opcode::Pop);
    let second = if between.check(TokenTypeView::Else) && between.advance().remaining()
        <= s.remaining() {
        between.advance().statement()
    } else {
        between.matches(TokenTypeView::Else)
    };
    if last.quiet_since(s) && entered.remaining() <= s.remaining() {
        lemma_if_quiet(s);
        let h1 = lemma_expression(s, heights, pending);
        let h3 = lemma_enter_branch(tested, h1, pending);
        let inside = pending.insert(t);
        assert(entered.scoped());
        let h4 = lemma_statement(entered, h3, inside);
        scopes::lemma_statement(entered);
        tidy::lemma_added(entered, first);
        assert(first.boundary(t));
        assert(first.chunk.code[t] == entered.chunk.code[t]);
        assert(h4[t] == h3[t]);
        let h6 = lemma_between_branches(first, h4, inside, t);
        let outside = inside.insert(e).remove(t);
        assert(between.scoped());
        growth::lemma_steps_extend(between);
        scopes::lemma_steps_same_scope(between);
        lemma_steps_balanced(between, h6, outside);
        let h7 = if between.check(TokenTypeView::Else) && between.advance().remaining()
            <= s.remaining() {
            let next = between.advance();
            assert(next.scoped());
            growth::lemma_statement(next);
            scopes::lemma_statement(next);
            growth::lemma_extends_chain(second, next, between);
            let h = lemma_statement(next, h6, outside);
            h
        } else {
            h6
        };
        assert(second.extends(between));
        tidy::lemma_added(between, second);
        assert(second.boundary(e));
        assert(second.chunk.code[e] == between.chunk.code[e]);
        assert(h7[e] == h6[e]);
        lemma_patch(second, h7, outside, e);
        assert(outside.remove(e) =~= pending);
        lemma_starts(h3, h1, heights);
        lemma_starts(h4, h3, heights);
        lemma_starts(h6, h4, heights);
        lemma_starts(h7, h6, heights);
        h7
    } else {
        heights
    }
}

/// Where an `if` statement records no error, none of its parts does, and
/// neither of its jumps is too long.
#[verifier::rlimit(100)]
proof fn lemma_if_quiet(s: ParserView)
    requires
        s.if_statement().quiet_since(s),
    ensures
        ({
            let tested = s.expression();
            let t = tested.chunk.code.len() as int;
            let entered = tested.emit_jump(Opcode::JumpIfFalse).emit_op(Opcode::Pop);
            let first = entered.statement();
            let e = first.chunk.code.len() as int;
            let between = first.emit_jump(Opcode::Jump).patch_jump(t + 1).emit_op(Opcode::Pop);
            let second = if between.check(TokenTypeView::Else) && between.advance().remaining()
                <= s.remaining() {
                between.advance().statement()
            } else {
                between.matches(TokenTypeView::Else)
            };
            &&& tested.quiet_since(s)
            &&& entered.remaining() <= s.remaining()
            &&& first.quiet_since(entered)
            &&& e - t <= 32767
            &&& between.quiet_since(first)
            &&& second.quiet_since(between)
            &&& between.check(TokenTypeView::Else) && between.advance().remaining()
                <= s.remaining() ==> between.advance().quiet_since(between)
            &&& second.chunk.code.len() - e - 3 <= 32767
            &&& s.if_statement() == second.patch_jump(e + 1)
        }),
{
    let tested = s.expression();
    let t = tested.chunk.code.len() as int;
    let jumped = tested.emit_jump(Opcode::JumpIfFalse);
    let entered = jumped.emit_op(Opcode::Pop);
    let first = entered.statement();
    let e = first.chunk.code.len() as int;
    let left = first.emit_jump(Opcode::Jump);
    let patched = left.patch_jump(t + 1);
    let between = patched.emit_op(Opcode::Pop);
    let second = if between.check(TokenTypeView::Else) && between.advance().remaining()
        <= s.remaining() {
        between.advance().statement()
    } else {
        between.matches(TokenTypeView::Else)
    };
    let last = second.patch_jump(e + 1);
    growth::lemma_expression(s);
    growth::lemma_steps_extend(tested);
    growth::lemma_steps_extend(jumped);
    growth::lemma_statement(entered);
    growth::lemma_steps_extend(first);
    growth::lemma_steps_extend(patched);
    growth::lemma_steps_extend(between);
    if between.check(TokenTypeView::Else) && between.advance().remaining() <= s.remaining() {
        growth::lemma_statement(between.advance());
    }
    assert(later(tested, s));
    assert(later(entered, tested));
    assert(later(first, entered));
    assert(later(left, first));
    assert(later(patched, left));
    assert(later(between, patched));
    assert(later(second, between)) by {
        if between.check(TokenTypeView::Else) && between.advance().remaining() <= s.remaining() {
            growth::lemma_extends_chain(second, between.advance(), between);
        }
    }
    assert(later(last, second));
    assert(tested.diagnostics =~= s.diagnostics);
    assert(entered.diagnostics =~= s.diagnostics);
    assert(first.diagnostics =~= s.diagnostics);
    assert(left.diagnostics =~= s.diagnostics);
    assert(patched.diagnostics =~= s.diagnostics);
    assert(between.diagnostics =~= s.diagnostics);
    assert(second.diagnostics =~= s.diagnostics);
    if between.check(TokenTypeView::Else) && between.advance().remaining() <= s.remaining() {
        assert(between.advance().diagnostics =~= s.diagnostics);
    }
}

/// A statement leaves the stack as high as the local variables reach, which
/// are those that were there before it.
#[verifier::rlimit(100)]
pub proof fn lemma_statement(s: ParserView, heights: Seq<int>, pending: Set<int>) -> (after: Seq<
    int,
>)
    requires
        s.settled(heights, pending),
    ensures
        settles(s.statement(), after, s, heights, pending),
    decreases s.remaining(), 8nat,
{
    let last = s.statement();
    let next = s.advance();
    growth::lemma_steps_extend(s);
    growth::lemma_steps_extend(next);
    growth::lemma_statement(s);
    scopes::lemma_statement(s);
    scopes::lemma_steps_same_scope(s);
    scopes::lemma_steps_same_scope(next);
    lemma_steps_balanced(s, heights, pending);
    match s.current.token_type {
        TokenTypeView::Print => {
            growth::lemma_print_statement(next);
            if last.quiet_since(s) {
                assert(next.diagnostics =~= s.diagnostics);
                lemma_simple_statement(next, heights, pending, Opcode::Print)
            } else {
                heights
            }
        },
        TokenTypeView::LeftBrace => {
            let inside = next.begin_scope();
            lemma_steps_balanced(next, heights, pending);
            if inside.remaining() < s.remaining() {
                growth::lemma_block(inside);
                let done = inside.block();
                growth::lemma_steps_extend(done);
                if last.quiet_since(s) {
                    assert(next.diagnostics =~= s.diagnostics);
                    assert(done.diagnostics =~= s.diagnostics);
                    assert(inside.scoped());
                    let middle = lemma_block(inside, heights, pending);
                    let after = lemma_end_scope(done, middle, pending);
                    lemma_starts(after, middle, heights);
                    after
                } else {
                    heights
                }
            } else {
                heights
            }
        },
        TokenTypeView::If => {
            if next.remaining() < s.remaining() {
                growth::lemma_if_statement(next);
                if last.quiet_since(s) {
                    assert(next.diagnostics =~= s.diagnostics);
                    lemma_if_statement(next, heights, pending)
                } else {
                    heights
                }
            } else {
                heights
            }
        },
        _ => lemma_simple_statement(s, heights, pending, Opcode::Pop),
    }
}

/// The declarations of a block.
#[verifier::rlimit(100)]
pub proof fn lemma_block_items(s: ParserView, heights: Seq<int>, pending: Set<int>) -> (after: Seq<
    int,
>)
    requires
        s.settled(heights, pending),
    ensures
        settles(s.block_items(), after, s, heights, pending),
    decreases s.remaining(), 11nat,
{
    let last = s.block_items();
    growth::lemma_block_items(s);
    if s.check(TokenTypeView::RightBrace) || s.ended {
        heights
    } else {
        let next = s.declaration();
        growth::lemma_declaration(s);
        if next.remaining() < s.remaining() {
            growth::lemma_block_items(next);
            if last.quiet_since(s) {
                assert(next.diagnostics =~= s.diagnostics);
                let middle = lemma_declaration(s, heights, pending);
                let after = lemma_block_items(next, middle, pending);
                lemma_starts(after, middle, heights);
                after
            } else {
                heights
            }
        } else {
            lemma_declaration(s, heights, pending)
        }
    }
}

/// A block, up to its closing brace.
pub proof fn lemma_block(s: ParserView, heights: Seq<int>, pending: Set<int>) -> (after: Seq<int>)
    requires
        s.settled(heights, pending),
    ensures
        settles(s.block(), after, s, heights, pending),
    decreases s.remaining(), 12nat,
{
    let items = s.block_items();
    let last = s.block();
    growth::lemma_block_items(s);
    growth::lemma_steps_extend(items);
    scopes::lemma_steps_same_scope(items);
    if last.quiet_since(s) {
        assert(items.diagnostics =~= s.diagnostics);
        let after = lemma_block_items(s, heights, pending);
        lemma_steps_balanced(items, after, pending);
        after
    } else {
        heights
    }
}

/// A declaration leaves the stack as high as the locals reach, the new one
/// included.
#[verifier::rlimit(100)]
pub proof fn lemma_declaration(s: ParserView, heights: Seq<int>, pending: Set<int>) -> (after: Seq<
    int,
>)
    requires
        s.settled(heights, pending),
    ensures
        settles(s.declaration(), after, s, heights, pending),
    decreases s.remaining(), 10nat,
{
    let last = s.declaration();
    growth::lemma_steps_extend(s);
    growth::lemma_declaration(s);
    scopes::lemma_steps_same_scope(s);
    lemma_steps_balanced(s, heights, pending);
    match s.current.token_type {
        TokenTypeView::Identifier(name) => {
            let next = s.advance();
            growth::lemma_steps_extend(next);
            scopes::lemma_steps_same_scope(next);
            lemma_steps_balanced(next, heights, pending);
            if next.check(TokenTypeView::Equal) {
                let defining = next.advance();
                growth::lemma_variable_definition(defining, name);
                if last.quiet_since(s) {
                    assert(next.diagnostics =~= s.diagnostics);
                    assert(defining.diagnostics =~= s.diagnostics);
                    lemma_variable_definition(defining, heights, pending, name)
                } else {
                    heights
                }
            } else {
                let precedence = crate::precedence::Precedence::Assignment;
                growth::lemma_prefixed(next, precedence);
                scopes::lemma_prefixed(next, precedence);
                let valued = next.prefixed(precedence);
                growth::lemma_steps_extend(valued);
                scopes::lemma_steps_same_scope(valued);
                let dropped = valued.emit_op(Opcode::Pop);
                growth::lemma_steps_extend(dropped);
                scopes::lemma_steps_same_scope(dropped);
                if last.quiet_since(s) {
                    assert(next.diagnostics =~= s.diagnostics);
                    assert(valued.diagnostics =~= s.diagnostics);
                    assert(dropped.diagnostics =~= s.diagnostics);
                    let middle = lemma_prefixed(next, heights, pending, precedence);
                    let after = lemma_emit(valued, middle, pending, Opcode::Pop);
                    lemma_steps_balanced(dropped, after, pending);
                    lemma_starts(after, middle, heights);
                    after
                } else {
                    heights
                }
            }
        },
        _ => lemma_statement(s, heights, pending),
    }
}

/// Declarations up to the end of the input.
#[verifier::rlimit(100)]
pub proof fn lemma_declarations(s: ParserView, heights: Seq<int>, pending: Set<int>) -> (after: Seq<
    int,
>)
    requires
        s.settled(heights, pending),
    ensures
        settles(s.declarations(), after, s, heights, pending),
    decreases s.remaining(), 13nat,
{
    let last = s.declarations();
    growth::lemma_declarations(s);
    if s.ended {
        heights
    } else {
        let next = s.declaration();
        growth::lemma_declaration(s);
        if next.remaining() < s.remaining() {
            growth::lemma_declarations(next);
            if last.quiet_since(s) {
                assert(next.diagnostics =~= s.diagnostics);
                let middle = lemma_declaration(s, heights, pending);
                let after = lemma_declarations(next, middle, pending);
                lemma_starts(after, middle, heights);
                after
            } else {
                heights
            }
        } else {
            lemma_declaration(s, heights, pending)
        }
    }
}

/// The code of a program that compiles without an error is closed: there are
/// heights that type it.
#[verifier::rlimit(100)]
pub proof fn lemma_program(tokens: Seq<TokenView>, numbers: Seq<u64>) -> (heights: Seq<int>)
    ensures
        ({
            let program = ParserView::start(tokens).with_numbers(numbers).program();
            program.diagnostics.len() == 0 ==> program.chunk.closed(heights)
                && program.chunk.code.len() > 0
        }),
{
    let s = ParserView::start(tokens).with_numbers(numbers);
    let first = s.advance();
    let body = first.declarations();
    let program = s.program();
    let none: Set<int> = Set::empty();
    let h0 = seq![0int];
    growth::lemma_steps_extend(s);
    growth::lemma_declarations(first);
    growth::lemma_steps_extend(body);
    scopes::lemma_program(tokens, numbers);
    scopes::lemma_steps_same_scope(s);
    scopes::lemma_steps_same_scope(body);
    if program.diagnostics.len() == 0 {
        assert(first.diagnostics =~= s.diagnostics);
        assert(body.diagnostics =~= s.diagnostics);
        assert(s.chunk.tidy());
        assert(s.balanced(h0, none));
        lemma_steps_balanced(s, h0, none);
        assert(first.settled(h0, none));
        let h1 = lemma_declarations(first, h0, none);
        assert(body.locals.len() == 0);
        let h2 = lemma_emit_return(body, h1, none);
        assert(h1[0] == h0[0]);
        assert(program.chunk.code[body.chunk.code.len() as int] == Opcode::Return.byte());
        lemma_closed(body.chunk, program.chunk, h1, h2);
        h2
    } else {
        h0
    }
}

/// A program that compiles cannot go wrong by the compiler's or the
/// machine's fault. Whatever the host answers and however long the program
/// runs, a machine that has entered the compiled function never fails
/// because the stack is too short, a slot, a constant or a jump is out of
/// place, the code ends too early, or a byte names no operation: where it
/// fails, the program itself did something wrong. When the program is done
/// the stack is empty. And where the machine stops for its host or for its
/// budget, it is in step with the code, so that the same holds of every run
/// that goes on from there.
pub proof fn lemma_compiled_runs_safely(
    tokens: Seq<TokenView>,
    numbers: Seq<u64>,
    machine: VmView,
    answer: Option<u64>,
    budget: nat,
)
    requires
        ParserView::start(tokens).with_numbers(numbers).compile() is Ok,
    ensures
        ({
            let function = ParserView::start(tokens).with_numbers(numbers).compile()->Ok_0;
            let (last, signal) = machine.enter(function).run(answer, budget);
            &&& machine.enter(function).safe_in(function.chunk)
            &&& signal is Continue || signal is Needs ==> last.safe_in(function.chunk)
            &&& signal is Done ==> last.stack.len() == 0 && last.frames.len() == 0
            &&& signal matches SignalView::Failed(fault) ==> program_error(fault.cause)
        }),
{
    let function = ParserView::start(tokens).with_numbers(numbers).compile()->Ok_0;
    let heights = lemma_program(tokens, numbers);
    lemma_entry(machine, function, heights);
    lemma_safe_run(machine.enter(function), function.chunk, answer, budget);
}

} // verus!
