//! Compiled code is a row of whole instructions.
//!
//! The code that the compiler writes can be read from its first byte to its
//! last as one instruction after the other: every opcode byte names an
//! operation, every instruction has all its operand bytes, and every operand
//! that is an index into the constant pool is inside the pool. Patching a
//! jump changes operand bytes only, so it moves no instruction.
use vstd::prelude::*;
use crate::chunk::{ChunkView, Instruction, Operand};
use crate::grammar::{resolve, ParserView};
use crate::growth;
use crate::growth::starts_with;
use crate::opcode::{decode, Opcode};
use crate::parse_rule::Handler;
use crate::precedence::Precedence;
use crate::token::{TokenTypeView, TokenView};
use crate::value::ValueView;

verus! {

/// The operations whose operand is an index into the constant pool.
pub open spec fn uses_pool(op: Opcode) -> bool {
    op == Opcode::Constant || op == Opcode::DefineGlobal || op == Opcode::GetGlobal || op
        == Opcode::SetGlobal
}

/// Whether a disassembled instruction is whole, names an operation, and,
/// where it refers to the pool, refers to one of `constants` constants.
pub open spec fn sound(instruction: Instruction, constants: nat) -> bool {
    &&& instruction.opcode != Opcode::Unknown
    &&& instruction.operand != Operand::Missing
    &&& uses_pool(instruction.opcode) ==> (instruction.operand matches Operand::Byte(index)
        && index < constants)
}

impl ChunkView {
    /// The code from `offset` on is a row of sound instructions that ends
    /// where the code ends.
    pub open spec fn tidy_from(self, offset: int) -> bool
        decreases self.code.len() - offset,
    {
        if offset < 0 || offset >= self.code.len() {
            offset == self.code.len()
        } else {
            sound(self.instruction_at(offset), self.constants.len()) && self.tidy_from(
                self.next_offset(offset),
            )
        }
    }

    /// The whole code is a row of sound instructions.
    pub open spec fn tidy(self) -> bool {
        self.tidy_from(0)
    }

    /// Reading instruction after instruction from `from` comes to `at`.
    pub open spec fn reaches(self, from: int, at: int) -> bool
        decreases self.code.len() - from,
    {
        if from == at {
            true
        } else if from < 0 || from > at || from >= self.code.len() {
            false
        } else {
            self.reaches(self.next_offset(from), at)
        }
    }
}

/// The disassembly of tidy code shows sound instructions only.
pub proof fn lemma_tidy_listing(c: ChunkView, offset: int)
    requires
        c.tidy_from(offset),
    ensures
        forall|i: int|
            0 <= i < c.listing_from(offset).len() ==> sound(
                #[trigger] c.listing_from(offset)[i],
                c.constants.len(),
            ),
    decreases c.code.len() - offset,
{
    if 0 <= offset < c.code.len() {
        let next = c.next_offset(offset);
        lemma_tidy_listing(c, next);
        let rest = c.listing_from(next);
        let all = c.listing_from(offset);
        assert forall|i: int| 0 <= i < all.len() implies sound(
            #[trigger] all[i],
            c.constants.len(),
        ) by {
            if i > 0 {
                assert(all[i] == rest[i - 1]);
            }
        }
    }
}

/// Reading tidy code comes to its end.
pub proof fn lemma_reaches_end(c: ChunkView, from: int)
    requires
        0 <= from <= c.code.len(),
        c.tidy_from(from),
    ensures
        c.reaches(from, c.code.len() as int),
    decreases c.code.len() - from,
{
    if from < c.code.len() {
        lemma_reaches_end(c, c.next_offset(from));
    }
}

/// Tidy code stays tidy where code is added behind it and the pool grows,
/// and what was reached in it is still reached.
#[verifier::rlimit(50)]
pub proof fn lemma_longer(c: ChunkView, d: ChunkView, from: int)
    requires
        0 <= from <= c.code.len(),
        c.tidy_from(from),
        starts_with(d.code, c.code),
        c.constants.len() <= d.constants.len(),
    ensures
        d.tidy_from(c.code.len() as int) ==> d.tidy_from(from),
        forall|at: int| c.reaches(from, at) && at <= c.code.len() ==> #[trigger] d.reaches(from, at),
    decreases c.code.len() - from,
{
    if from < c.code.len() {
        let next = c.next_offset(from);
        let width = decode(c.code[from]).operand_width();
        assert(d.code[from] == c.code[from]);
        assert(from + width < c.code.len());
        if width >= 1 {
            assert(d.code[from + 1] == c.code[from + 1]);
        }
        if width >= 2 {
            assert(d.code[from + 2] == c.code[from + 2]);
        }
        assert(d.next_offset(from) == next);
        assert(d.instruction_at(from).opcode == c.instruction_at(from).opcode);
        assert(d.instruction_at(from).operand == c.instruction_at(from).operand);
        lemma_longer(c, d, next);
        assert forall|at: int| c.reaches(from, at) && at <= c.code.len() implies #[trigger] d.reaches(
            from,
            at,
        ) by {
            if from != at {
                assert(c.reaches(next, at));
                assert(d.reaches(next, at));
            }
        }
    } else {
        assert forall|at: int| c.reaches(from, at) && at <= c.code.len() implies #[trigger] d.reaches(
            from,
            at,
        ) by {}
    }
}

/// Code is as tidy as code of the same length that agrees with it from
/// `from` on, and reaches what that code reaches.
pub proof fn lemma_same_tail(c: ChunkView, d: ChunkView, from: int)
    requires
        0 <= from,
        c.code.len() == d.code.len(),
        forall|i: int| from <= i < c.code.len() ==> c.code[i] == d.code[i],
        c.constants.len() <= d.constants.len(),
        c.tidy_from(from),
    ensures
        d.tidy_from(from),
        forall|at: int| c.reaches(from, at) ==> #[trigger] d.reaches(from, at),
    decreases c.code.len() - from,
{
    if from < c.code.len() {
        let next = c.next_offset(from);
        assert(d.next_offset(from) == next);
        assert(d.instruction_at(from).opcode == c.instruction_at(from).opcode);
        assert(d.instruction_at(from).operand == c.instruction_at(from).operand);
        lemma_same_tail(c, d, next);
        assert forall|at: int| c.reaches(from, at) implies #[trigger] d.reaches(from, at) by {
            if from != at {
                assert(c.reaches(next, at));
                assert(d.reaches(next, at));
            }
        }
    } else {
        assert forall|at: int| c.reaches(from, at) implies #[trigger] d.reaches(from, at) by {
            assert(from == at);
        }
    }
}

/// After an instruction the next starts further on, and nothing between the
/// two is reached.
pub proof fn lemma_reaches_steps(c: ChunkView, from: int, at: int)
    requires
        0 <= from < at,
        c.reaches(from, at),
    ensures
        from < c.code.len(),
        from < c.next_offset(from) <= at,
        c.reaches(c.next_offset(from), at),
{
    reveal_with_fuel(ChunkView::reaches, 2);
}

/// Changing the two operand bytes of a jump keeps tidy code tidy and moves
/// no instruction.
#[verifier::rlimit(50)]
pub proof fn lemma_patched(c: ChunkView, d: ChunkView, t: int, from: int)
    requires
        0 <= from <= t,
        t + 2 < c.code.len(),
        c.tidy_from(from),
        c.reaches(from, t),
        decode(c.code[t]) == Opcode::Jump || decode(c.code[t]) == Opcode::JumpIfFalse,
        d.code.len() == c.code.len(),
        forall|i: int| 0 <= i < c.code.len() && i != t + 1 && i != t + 2 ==> d.code[i] == c.code[i],
        c.constants.len() <= d.constants.len(),
    ensures
        d.tidy_from(from),
        forall|at: int| c.reaches(from, at) ==> #[trigger] d.reaches(from, at),
    decreases t - from,
{
    if from == t {
        assert(c.next_offset(t) == t + 3);
        assert(d.next_offset(t) == t + 3);
        lemma_same_tail(c, d, t + 3);
        assert(d.instruction_at(t).opcode == c.instruction_at(t).opcode);
        assert forall|at: int| c.reaches(from, at) implies #[trigger] d.reaches(from, at) by {
            if from != at {
                assert(c.reaches(t + 3, at));
                assert(d.reaches(t + 3, at));
            }
        }
    } else {
        lemma_reaches_steps(c, from, t);
        let next = c.next_offset(from);
        let width = decode(c.code[from]).operand_width();
        assert(from + width < t);
        assert(d.code[from] == c.code[from]);
        if width >= 1 {
            assert(d.code[from + 1] == c.code[from + 1]);
        }
        if width >= 2 {
            assert(d.code[from + 2] == c.code[from + 2]);
        }
        assert(d.next_offset(from) == next);
        assert(d.instruction_at(from).opcode == c.instruction_at(from).opcode);
        assert(d.instruction_at(from).operand == c.instruction_at(from).operand);
        lemma_patched(c, d, t, next);
        assert forall|at: int| c.reaches(from, at) implies #[trigger] d.reaches(from, at) by {
            if from != at {
                assert(c.reaches(next, at));
                assert(d.reaches(next, at));
            }
        }
    }
}

impl ParserView {
    /// The code so far is tidy.
    pub open spec fn tidy(self) -> bool {
        self.chunk.tidy()
    }

    /// Reading the code so far comes to `at`.
    pub open spec fn boundary(self, at: int) -> bool {
        self.chunk.reaches(0, at)
    }
}

/// A state that extends a tidy state and is tidy behind the code of that
/// state is tidy, and has the instructions of that state where they were.
pub proof fn lemma_added(s: ParserView, t: ParserView)
    requires
        s.tidy(),
        t.extends(s),
    ensures
        t.chunk.tidy_from(s.chunk.code.len() as int) ==> t.tidy(),
        t.boundary(s.chunk.code.len() as int),
        forall|at: int| s.boundary(at) && at <= s.chunk.code.len() ==> #[trigger] t.boundary(at),
{
    lemma_longer(s.chunk, t.chunk, 0);
    lemma_reaches_end(s.chunk, 0);
}

/// The routines that write nothing, or whole instructions, keep the code
/// tidy.
#[verifier::rlimit(50)]
pub proof fn lemma_steps_tidy(s: ParserView)
    requires
        s.tidy(),
    ensures
        s.advance().tidy(),
        forall|kind: TokenTypeView| #[trigger] s.matches(kind).tidy(),
        forall|kind: TokenTypeView, message: Seq<char>| #[trigger] s.consume(kind, message).tidy(),
        forall|value: ValueView| #[trigger] s.make_constant(value).tidy(),
        forall|value: ValueView| #[trigger] s.emit_constant(value).tidy(),
        forall|name: Seq<char>| #[trigger] s.add_local(name).tidy(),
        forall|message: Seq<char>| #[trigger] s.error(message).tidy(),
        forall|message: Seq<char>| #[trigger] s.error_at_current(message).tidy(),
        forall|kind: TokenTypeView| #[trigger] s.emit_binary(kind).tidy(),
        forall|kind: TokenTypeView| #[trigger] s.emit_unary(kind).tidy(),
        forall|op: Opcode|
            op.operand_width() == 0 && op != Opcode::Unknown ==> #[trigger] s.emit_op(op).tidy(),
        forall|op: Opcode, byte: u8|
            op.operand_width() == 1 && (uses_pool(op) ==> byte < s.chunk.constants.len())
                ==> #[trigger] s.emit_op(op).emit_byte(byte).tidy(),
        s.emit_jump(Opcode::Jump).tidy(),
        s.emit_jump(Opcode::JumpIfFalse).tidy(),
        s.begin_scope().tidy(),
        s.end_scope().tidy(),
        s.end_statement().tidy(),
        s.number().tidy(),
        s.string().tidy(),
        s.literal().tidy(),
{
    growth::lemma_steps_extend(s);
    let end = s.chunk.code.len() as int;
    assert forall|op: Opcode|
        op.operand_width() == 0 && op != Opcode::Unknown implies #[trigger] s.emit_op(
        op,
    ).tidy() by {
        lemma_simple(s, op);
    }
    assert forall|op: Opcode, byte: u8|
        op.operand_width() == 1 && (uses_pool(op) ==> byte < s.chunk.constants.len())
            implies #[trigger] s.emit_op(op).emit_byte(byte).tidy() by {
        lemma_with_byte(s, op, byte);
    }
    assert forall|value: ValueView| #[trigger] s.make_constant(value).tidy() by {
        lemma_added(s, s.make_constant(value));
    }
    assert forall|value: ValueView| #[trigger] s.emit_constant(value).tidy() by {
        let named = s.make_constant(value);
        lemma_added(s, named);
        lemma_with_byte(named, Opcode::Constant, s.constant_index() as u8);
    }
    assert forall|kind: TokenTypeView, message: Seq<char>| #[trigger]
        s.consume(kind, message).tidy() by {}
    assert forall|kind: TokenTypeView| #[trigger] s.emit_binary(kind).tidy() by {
        match crate::grammar::binary_code(kind) {
            Some((op, negated)) => {
                lemma_simple(s, op);
                if negated {
                    lemma_simple(s.emit_op(op), Opcode::Not);
                }
            },
            None => {},
        }
    }
    assert forall|kind: TokenTypeView| #[trigger] s.emit_unary(kind).tidy() by {
        lemma_simple(s, Opcode::Negate);
        lemma_simple(s, Opcode::Not);
    }
    lemma_jump(s, Opcode::Jump);
    lemma_jump(s, Opcode::JumpIfFalse);
    let left = ParserView {
        scope_depth: if s.scope_depth > 0 {
            (s.scope_depth - 1) as nat
        } else {
            0nat
        },
        ..s
    };
    lemma_pop_locals_tidy(left);
    lemma_simple(s, Opcode::False);
    lemma_simple(s, Opcode::Nil);
    lemma_simple(s, Opcode::True);
    match s.previous.token_type {
        TokenTypeView::String(contents) => {
            let named = s.make_constant(ValueView::String(contents));
            lemma_added(s, named);
            lemma_with_byte(named, Opcode::Constant, s.constant_index() as u8);
        },
        TokenTypeView::Number(_) => {
            let named = s.make_constant(ValueView::Number(s.previous_value));
            lemma_added(s, named);
            lemma_with_byte(named, Opcode::Constant, s.constant_index() as u8);
        },
        _ => {},
    }
}

/// An instruction without operands keeps the code tidy.
pub proof fn lemma_simple(s: ParserView, op: Opcode)
    requires
        s.tidy(),
        op.operand_width() == 0,
        op != Opcode::Unknown,
    ensures
        s.emit_op(op).tidy(),
{
    let t = s.emit_op(op);
    let end = s.chunk.code.len() as int;
    growth::lemma_steps_extend(s);
    crate::opcode::lemma_opcode_round_trip();
    assert(decode(op.byte()) == op);
    assert(t.chunk.code[end] == op.byte());
    assert(t.chunk.next_offset(end) == end + 1);
    assert(t.chunk.tidy_from(end + 1));
    assert(t.chunk.tidy_from(end));
    lemma_added(s, t);
}

/// An instruction with one operand byte keeps the code tidy.
pub proof fn lemma_with_byte(s: ParserView, op: Opcode, byte: u8)
    requires
        s.tidy(),
        op.operand_width() == 1,
        uses_pool(op) ==> byte < s.chunk.constants.len(),
    ensures
        s.emit_op(op).emit_byte(byte).tidy(),
{
    let middle = s.emit_op(op);
    let t = middle.emit_byte(byte);
    let end = s.chunk.code.len() as int;
    growth::lemma_steps_extend(s);
    growth::lemma_steps_extend(middle);
    growth::lemma_extends_chain(t, middle, s);
    crate::opcode::lemma_opcode_round_trip();
    assert(decode(op.byte()) == op);
    assert(t.chunk.code[end] == op.byte());
    assert(t.chunk.code[end + 1] == byte);
    assert(t.chunk.next_offset(end) == end + 2);
    assert(t.chunk.tidy_from(end + 2));
    assert(t.chunk.tidy_from(end));
    lemma_added(s, t);
}

/// A jump with its placeholder keeps the code tidy, and stands where the code
/// ended.
pub proof fn lemma_jump(s: ParserView, op: Opcode)
    requires
        s.tidy(),
        op == Opcode::Jump || op == Opcode::JumpIfFalse,
    ensures
        s.emit_jump(op).tidy(),
        s.emit_jump(op).boundary(s.chunk.code.len() as int),
        s.emit_jump(op).extends(s),
        s.emit_jump(op).chunk.code.len() == s.chunk.code.len() + 3,
        decode(s.emit_jump(op).chunk.code[s.chunk.code.len() as int]) == op,
{
    let t = s.emit_jump(op);
    let end = s.chunk.code.len() as int;
    growth::lemma_steps_extend(s);
    assert(t.chunk.code[end] == op.byte());
    assert(t.chunk.next_offset(end) == end + 3);
    assert(t.chunk.tidy_from(end + 3));
    assert(t.chunk.tidy_from(end));
    lemma_added(s, t);
}

pub(crate) proof fn lemma_pop_locals_tidy(s: ParserView)
    requires
        s.tidy(),
    ensures
        s.pop_locals().tidy(),
    decreases s.locals.len(),
{
    if s.locals.len() > 0 && s.locals.last().depth > s.scope_depth {
        lemma_simple(s, Opcode::Pop);
        let next = ParserView { locals: s.locals.drop_last(), ..s.emit_op(Opcode::Pop) };
        lemma_pop_locals_tidy(next);
    }
}

/// Patching the placeholder of a jump that stands in tidy code, behind the
/// code of an earlier state, keeps the code tidy and the earlier state
/// extended.
pub proof fn lemma_patch(s: ParserView, at: int, before: ParserView)
    requires
        s.tidy(),
        s.boundary(at),
        0 <= at,
        at + 3 <= s.chunk.code.len(),
        decode(s.chunk.code[at]) == Opcode::Jump || decode(s.chunk.code[at]) == Opcode::JumpIfFalse,
    ensures
        s.patch_jump(at + 1).tidy(),
        forall|other: int| s.boundary(other) ==> #[trigger] s.patch_jump(at + 1).boundary(other),
        s.patch_jump(at + 1).chunk.code.len() == s.chunk.code.len(),
        s.patch_jump(at + 1).chunk.constants == s.chunk.constants,
        forall|i: int|
            0 <= i < s.chunk.code.len() && i != at + 1 && i != at + 2 ==> s.patch_jump(
                at + 1,
            ).chunk.code[i] == s.chunk.code[i],
{
    let t = s.patch_jump(at + 1);
    lemma_patched(s.chunk, t.chunk, at, 0);
}

pub(crate) proof fn lemma_infix_loop(s: ParserView, precedence: Precedence)
    requires
        s.tidy(),
    ensures
        s.infix_loop(precedence).tidy(),
    decreases s.remaining(), 0nat,
{
    lemma_steps_tidy(s);
    let rule = s.current.token_type.rule();
    if rule.infix is Some && precedence.rank() <= rule.precedence.rank() {
        let next = s.advance();
        if next.remaining() < s.remaining() {
            lemma_binary(next);
            let done = next.binary();
            if done.remaining() < s.remaining() {
                lemma_infix_loop(done, precedence);
            }
        }
    }
}

pub(crate) proof fn lemma_parse_precedence(s: ParserView, precedence: Precedence)
    requires
        s.tidy(),
    ensures
        s.parse_precedence(precedence).tidy(),
    decreases s.remaining(), 1nat,
{
    lemma_steps_tidy(s);
    let next = s.advance();
    lemma_steps_tidy(next);
    if next.remaining() < s.remaining() {
        lemma_prefixed(next, precedence);
    }
}

/// An expression keeps the code tidy.
pub proof fn lemma_expression(s: ParserView)
    requires
        s.tidy(),
    ensures
        s.expression().tidy(),
    decreases s.remaining(), 2nat,
{
    lemma_parse_precedence(s, Precedence::Assignment);
}

pub(crate) proof fn lemma_grouping(s: ParserView)
    requires
        s.tidy(),
    ensures
        s.grouping().tidy(),
    decreases s.remaining(), 3nat,
{
    lemma_expression(s);
    lemma_steps_tidy(s.expression());
}

pub(crate) proof fn lemma_unary(s: ParserView)
    requires
        s.tidy(),
    ensures
        s.unary().tidy(),
    decreases s.remaining(), 3nat,
{
    lemma_parse_precedence(s, Precedence::Unary);
    lemma_steps_tidy(s.parse_precedence(Precedence::Unary));
}

pub(crate) proof fn lemma_binary(s: ParserView)
    requires
        s.tidy(),
    ensures
        s.binary().tidy(),
    decreases s.remaining(), 3nat,
{
    let precedence = s.previous.token_type.rule().precedence.above();
    lemma_parse_precedence(s, precedence);
    lemma_steps_tidy(s.parse_precedence(precedence));
}

#[verifier::rlimit(50)]
pub(crate) proof fn lemma_variable(s: ParserView, can_assign: bool)
    requires
        s.tidy(),
    ensures
        s.variable(can_assign).tidy(),
    decreases s.remaining(), 3nat,
{
    lemma_steps_tidy(s);
    growth::lemma_steps_extend(s);
    match s.previous.token_type {
        TokenTypeView::Identifier(name) => {
            let slot = resolve(s.locals, name);
            let named = if slot is Some {
                s
            } else {
                s.make_constant(ValueView::String(name))
            };
            let arg = if slot is Some {
                slot->0
            } else {
                s.constant_index()
            };
            lemma_steps_tidy(named);
            growth::lemma_steps_extend(named);
            if can_assign && named.check(TokenTypeView::Equal) {
                let next = named.advance();
                lemma_expression(next);
                growth::lemma_expression(next);
                let valued = next.expression();
                lemma_with_byte(
                    valued,
                    if slot is Some {
                        Opcode::SetLocal
                    } else {
                        Opcode::SetGlobal
                    },
                    arg as u8,
                );
            } else {
                lemma_with_byte(
                    named,
                    if slot is Some {
                        Opcode::GetLocal
                    } else {
                        Opcode::GetGlobal
                    },
                    arg as u8,
                );
            }
        },
        _ => {},
    }
}

pub(crate) proof fn lemma_dispatch(s: ParserView, handler: Handler, can_assign: bool)
    requires
        s.tidy(),
    ensures
        s.dispatch(handler, can_assign).tidy(),
    decreases s.remaining(), 4nat,
{
    lemma_steps_tidy(s);
    match handler {
        Handler::Grouping => lemma_grouping(s),
        Handler::Unary => lemma_unary(s),
        Handler::Binary => lemma_binary(s),
        Handler::Variable => lemma_variable(s, can_assign),
        _ => {},
    }
}

pub(crate) proof fn lemma_prefixed(s: ParserView, precedence: Precedence)
    requires
        s.tidy(),
    ensures
        s.prefixed(precedence).tidy(),
    decreases s.remaining(), 5nat,
{
    lemma_steps_tidy(s);
    match s.previous.token_type.rule().prefix {
        Some(handler) => {
            let can_assign = precedence.rank() <= Precedence::Assignment.rank();
            lemma_dispatch(s, handler, can_assign);
            let done = s.dispatch(handler, can_assign);
            if done.remaining() <= s.remaining() {
                lemma_infix_loop(done, precedence);
            }
        },
        None => {},
    }
}

pub(crate) proof fn lemma_expression_statement(s: ParserView)
    requires
        s.tidy(),
    ensures
        s.expression_statement().tidy(),
    decreases s.remaining(), 6nat,
{
    lemma_expression(s);
    let valued = s.expression();
    lemma_steps_tidy(valued);
    lemma_steps_tidy(valued.emit_op(Opcode::Pop));
}

pub(crate) proof fn lemma_print_statement(s: ParserView)
    requires
        s.tidy(),
    ensures
        s.print_statement().tidy(),
    decreases s.remaining(), 6nat,
{
    lemma_expression(s);
    let valued = s.expression();
    lemma_steps_tidy(valued);
    lemma_steps_tidy(valued.emit_op(Opcode::Print));
}

pub(crate) proof fn lemma_variable_definition(s: ParserView, name: Seq<char>)
    requires
        s.tidy(),
    ensures
        s.variable_definition(name).tidy(),
    decreases s.remaining(), 6nat,
{
    lemma_expression(s);
    let valued = s.expression();
    lemma_steps_tidy(valued);
    if valued.scope_depth > 0 {
        lemma_steps_tidy(valued.add_local(name));
    } else {
        let named = valued.make_constant(ValueView::String(name));
        lemma_with_byte(named, Opcode::DefineGlobal, valued.constant_index() as u8);
        lemma_steps_tidy(named.emit_op(Opcode::DefineGlobal).emit_byte(
            valued.constant_index() as u8,
        ));
    }
}

/// From the end of the first branch of an `if` to the start of the second:
/// the jump over the second branch, the patch of the jump over the first,
/// and the `Pop`.
#[verifier::rlimit(50)]
proof fn lemma_between_branches(tested: ParserView, first: ParserView)
    requires
        tested.tidy(),
        first.tidy(),
        first.extends(tested.emit_jump(Opcode::JumpIfFalse).emit_op(Opcode::Pop)),
    ensures
        ({
            let t = tested.chunk.code.len() as int;
            let e = first.chunk.code.len() as int;
            let between = first.emit_jump(Opcode::Jump).patch_jump(t + 1).emit_op(Opcode::Pop);
            &&& between.tidy()
            &&& between.boundary(e)
            &&& between.chunk.code.len() == e + 4
            &&& decode(between.chunk.code[e]) == Opcode::Jump
        }),
{
    let t = tested.chunk.code.len() as int;
    let e = first.chunk.code.len() as int;
    lemma_jump(tested, Opcode::JumpIfFalse);
    let jumped = tested.emit_jump(Opcode::JumpIfFalse);
    lemma_simple(jumped, Opcode::Pop);
    growth::lemma_steps_extend(jumped);
    let entered = jumped.emit_op(Opcode::Pop);
    lemma_added(jumped, entered);
    assert(entered.boundary(t));
    assert(entered.chunk.code[t] == jumped.chunk.code[t]);
    lemma_added(entered, first);
    assert(first.boundary(t));
    assert(first.chunk.code[t] == entered.chunk.code[t]);
    lemma_jump(first, Opcode::Jump);
    let left = first.emit_jump(Opcode::Jump);
    lemma_added(first, left);
    assert(left.boundary(t));
    assert(left.boundary(e));
    assert(left.chunk.code[t] == first.chunk.code[t]);
    lemma_patch(left, t, tested);
    let patched = left.patch_jump(t + 1);
    assert(patched.boundary(e));
    assert(patched.chunk.code[e] == left.chunk.code[e]);
    lemma_simple(patched, Opcode::Pop);
    growth::lemma_steps_extend(patched);
    let between = patched.emit_op(Opcode::Pop);
    lemma_added(patched, between);
    assert(between.boundary(e));
    assert(between.chunk.code[e] == patched.chunk.code[e]);
}

/// The patch of the jump over the second branch of an `if`.
proof fn lemma_after_branches(between: ParserView, second: ParserView, e: int)
    requires
        between.tidy(),
        between.boundary(e),
        0 <= e,
        e + 4 == between.chunk.code.len(),
        decode(between.chunk.code[e]) == Opcode::Jump,
        second.tidy(),
        second.extends(between),
    ensures
        second.patch_jump(e + 1).tidy(),
{
    lemma_added(between, second);
    assert(second.boundary(e));
    assert(second.chunk.code[e] == between.chunk.code[e]);
    lemma_patch(second, e, between);
}

#[verifier::rlimit(50)]
pub(crate) proof fn lemma_if_statement(s: ParserView)
    requires
        s.tidy(),
    ensures
        s.if_statement().tidy(),
    decreases s.remaining(), 9nat,
{
    lemma_expression(s);
    let tested = s.expression();
    let t = tested.chunk.code.len() as int;
    lemma_jump(tested, Opcode::JumpIfFalse);
    let jumped = tested.emit_jump(Opcode::JumpIfFalse);
    lemma_simple(jumped, Opcode::Pop);
    let entered = jumped.emit_op(Opcode::Pop);
    if entered.remaining() <= s.remaining() {
        lemma_statement(entered);
        growth::lemma_statement(entered);
        let first = entered.statement();
        let e = first.chunk.code.len() as int;
        lemma_between_branches(tested, first);
        let between = first.emit_jump(Opcode::Jump).patch_jump(t + 1).emit_op(Opcode::Pop);
        lemma_steps_tidy(between);
        growth::lemma_steps_extend(between);
        let second = if between.check(TokenTypeView::Else) && between.advance().remaining()
            <= s.remaining() {
            between.advance().statement()
        } else {
            between.matches(TokenTypeView::Else)
        };
        if between.check(TokenTypeView::Else) && between.advance().remaining() <= s.remaining() {
            lemma_statement(between.advance());
            growth::lemma_statement(between.advance());
            growth::lemma_extends_chain(second, between.advance(), between);
        }
        lemma_after_branches(between, second, e);
    }
}

/// A guarded statement keeps the code tidy.
#[verifier::rlimit(50)]
pub proof fn lemma_conditional(s: ParserView)
    requires
        s.tidy(),
    ensures
        s.conditional().tidy(),
    decreases s.remaining(), 9nat,
{
    lemma_steps_tidy(s);
    let opened = s.consume(TokenTypeView::LeftParen, crate::grammar::expect_condition());
    lemma_expression(opened);
    let valued = opened.expression();
    lemma_steps_tidy(valued);
    let tested = valued.consume(TokenTypeView::RightParen, crate::grammar::expect_condition());
    let t = tested.chunk.code.len() as int;
    lemma_jump(tested, Opcode::JumpIfFalse);
    let entered = tested.emit_jump(Opcode::JumpIfFalse);
    if entered.remaining() <= s.remaining() {
        lemma_statement(entered);
        growth::lemma_statement(entered);
        let body = entered.statement();
        lemma_added(entered, body);
        assert(body.boundary(t));
        assert(body.chunk.code[t] == entered.chunk.code[t]);
        lemma_patch(body, t, tested);
    }
}

/// A statement keeps the code tidy.
#[verifier::rlimit(50)]
pub proof fn lemma_statement(s: ParserView)
    requires
        s.tidy(),
    ensures
        s.statement().tidy(),
    decreases s.remaining(), 8nat,
{
    lemma_steps_tidy(s);
    let next = s.advance();
    lemma_steps_tidy(next);
    match s.current.token_type {
        TokenTypeView::Print => {
            lemma_print_statement(next);
        },
        TokenTypeView::LeftBrace => {
            let inside = next.begin_scope();
            if inside.remaining() < s.remaining() {
                lemma_block(inside);
                lemma_steps_tidy(inside.block());
            } else {
                lemma_steps_tidy(inside);
            }
        },
        TokenTypeView::If => {
            if next.remaining() < s.remaining() {
                lemma_if_statement(next);
            }
        },
        _ => {
            lemma_expression_statement(s);
        },
    }
}

pub(crate) proof fn lemma_block_items(s: ParserView)
    requires
        s.tidy(),
    ensures
        s.block_items().tidy(),
    decreases s.remaining(), 11nat,
{
    if !(s.check(TokenTypeView::RightBrace) || s.ended) {
        lemma_declaration(s);
        let next = s.declaration();
        if next.remaining() < s.remaining() {
            lemma_block_items(next);
        }
    }
}

pub(crate) proof fn lemma_block(s: ParserView)
    requires
        s.tidy(),
    ensures
        s.block().tidy(),
    decreases s.remaining(), 12nat,
{
    lemma_block_items(s);
    lemma_steps_tidy(s.block_items());
}

pub(crate) proof fn lemma_declaration(s: ParserView)
    requires
        s.tidy(),
    ensures
        s.declaration().tidy(),
    decreases s.remaining(), 10nat,
{
    lemma_steps_tidy(s);
    match s.current.token_type {
        TokenTypeView::Identifier(name) => {
            let next = s.advance();
            lemma_steps_tidy(next);
            if next.check(TokenTypeView::Equal) {
                lemma_variable_definition(next.advance(), name);
            } else {
                lemma_prefixed(next, Precedence::Assignment);
                let valued = next.prefixed(Precedence::Assignment);
                lemma_steps_tidy(valued);
                lemma_steps_tidy(valued.emit_op(Opcode::Pop));
            }
        },
        _ => {
            lemma_statement(s);
        },
    }
}

pub(crate) proof fn lemma_declarations(s: ParserView)
    requires
        s.tidy(),
    ensures
        s.declarations().tidy(),
    decreases s.remaining(), 13nat,
{
    if !s.ended {
        lemma_declaration(s);
        let next = s.declaration();
        if next.remaining() < s.remaining() {
            lemma_declarations(next);
        }
    }
}

/// The code of a compiled program is tidy, whatever the tokens: its
/// disassembly shows no unknown opcode and no missing operand, and every
/// index into the constant pool is inside the pool.
pub proof fn lemma_program(tokens: Seq<TokenView>, numbers: Seq<u64>)
    ensures
        ({
            let chunk = ParserView::start(tokens).with_numbers(numbers).program().chunk;
            &&& chunk.tidy()
            &&& chunk.wf()
            &&& forall|i: int|
                0 <= i < chunk.listing().len() ==> sound(
                    #[trigger] chunk.listing()[i],
                    chunk.constants.len(),
                )
        }),
{
    let s = ParserView::start(tokens).with_numbers(numbers);
    lemma_program_tidy(s);
    growth::lemma_program(s);
    lemma_tidy_listing(s.program().chunk, 0);
}

/// A program compiled onto tidy code is tidy.
pub proof fn lemma_program_tidy(s: ParserView)
    requires
        s.tidy(),
    ensures
        s.program().tidy(),
{
    lemma_steps_tidy(s);
    lemma_declarations(s.advance());
    lemma_simple(s.advance().declarations(), Opcode::Return);
}

} // verus!
