//! Code that cannot go wrong.
//!
//! Code is typed by giving every instruction the height of the operand stack
//! in front of it. The heights fit where each instruction finds as many
//! operands as it takes, every slot it names is below the height, every
//! constant it takes for a name is a string, and the instructions that can
//! come next stand at the height it leaves. A machine that runs typed code
//! from the height that the code expects never finds a stack too short, a
//! slot, a constant or a jump out of place, or a byte it does not know: it
//! can only stop for what the program itself does wrong, such as adding a
//! string to a number or reading a variable that was never defined.
use vstd::prelude::*;
use crate::chunk::{short, ChunkView};
use crate::growth::starts_with;
use crate::opcode::{decode, Opcode};
use crate::tidy::{
    lemma_longer, lemma_patched, lemma_reaches_end, lemma_reaches_steps, lemma_same_tail,
};
use crate::vm::{Cause, SignalView, VmView};

verus! {

/// What a program can do wrong by itself.
pub open spec fn program_error(cause: Cause) -> bool {
    cause == Cause::OperandMustBeNumber || cause == Cause::OperandsMustBeNumbers || cause
        == Cause::NoStringOperation || cause == Cause::FractionalOperand || cause
        == Cause::UndefinedVariable
}

impl ChunkView {
    /// A jump to `target` finds an instruction there, or the end of the code,
    /// at the height `h`.
    pub open spec fn lands(self, heights: Seq<int>, target: int, h: int) -> bool {
        self.reaches(0, target) && target <= self.code.len() && heights[target] == h
    }

    /// The instruction at `at` fits the heights. A jump whose placeholder is
    /// still pending fits wherever it leads.
    pub open spec fn fits(self, heights: Seq<int>, pending: Set<int>, at: int) -> bool {
        let op = decode(self.code[at]);
        let h = heights[at];
        let k = self.code[at + 1] as int;
        let behind = at + 1 + op.operand_width();
        let target = at + 3 + short(self.code[at + 1], self.code[at + 2]);
        &&& 0 <= h
        &&& match op {
            Opcode::Constant | Opcode::Nil | Opcode::True | Opcode::False => heights[behind] == h
                + 1,
            Opcode::Negate | Opcode::Not => h >= 1 && heights[behind] == h,
            Opcode::Print | Opcode::Pop => h >= 1 && heights[behind] == h - 1,
            Opcode::DefineGlobal => h >= 1 && self.constants[k] is String && heights[behind] == h
                - 1,
            Opcode::GetGlobal => self.constants[k] is String && heights[behind] == h + 1,
            Opcode::SetGlobal => h >= 1 && self.constants[k] is String && heights[behind] == h,
            Opcode::GetLocal => k < h && heights[behind] == h + 1,
            Opcode::SetLocal => k < h && heights[behind] == h,
            Opcode::JumpIfFalse => h >= 1 && heights[behind] == h && (!pending.contains(at)
                ==> self.lands(heights, target, h)),
            Opcode::Jump => !pending.contains(at) ==> self.lands(heights, target, h),
            Opcode::Return => h == 0,
            Opcode::Loop | Opcode::Call | Opcode::Unknown => false,
            _ => h >= 2 && heights[behind] == h - 1,
        }
    }

    /// The code is tidy and every instruction fits the heights, of which
    /// there is one for every byte and one for the end of the code.
    pub open spec fn typed(self, heights: Seq<int>, pending: Set<int>) -> bool {
        &&& self.tidy()
        &&& heights.len() == self.code.len() + 1
        &&& forall|at: int|
            0 <= at < self.code.len() && #[trigger] self.reaches(0, at) ==> self.fits(
                heights,
                pending,
                at,
            )
    }

    /// After the instruction at `at` comes an instruction, wherever the
    /// machine goes.
    pub open spec fn leads_inside(self, at: int) -> bool {
        let op = decode(self.code[at]);
        let behind = at + 1 + op.operand_width();
        let target = at + 3 + short(self.code[at + 1], self.code[at + 2]);
        if op == Opcode::Return {
            true
        } else if op == Opcode::Jump {
            target < self.code.len()
        } else if op == Opcode::JumpIfFalse {
            target < self.code.len() && behind < self.code.len()
        } else {
            behind < self.code.len()
        }
    }

    /// The code is typed, no jump is pending, and the machine cannot run off
    /// its end.
    pub open spec fn closed(self, heights: Seq<int>) -> bool {
        &&& self.typed(heights, Set::empty())
        &&& heights[0] == 0
        &&& forall|at: int|
            0 <= at < self.code.len() && #[trigger] self.reaches(0, at) ==> self.leads_inside(at)
    }
}

impl VmView {
    /// The machine runs the chunk in its only frame, stands in front of one
    /// of its instructions, and has as many values on the stack as the
    /// heights say.
    pub open spec fn poised(self, chunk: ChunkView, heights: Seq<int>) -> bool {
        &&& self.frames.len() == 1
        &&& self.chunk() == chunk
        &&& self.top().base == 0
        &&& 0 <= self.top().ip < chunk.code.len()
        &&& chunk.reaches(0, self.top().ip)
        &&& self.stack.len() == heights[self.top().ip]
    }

    /// The machine runs the chunk and is in step with some typing of it.
    pub open spec fn safe_in(self, chunk: ChunkView) -> bool {
        exists|heights: Seq<int>| chunk.closed(heights) && self.poised(chunk, heights)
    }
}

/// Reading on from an instruction that is reached comes to the next.
pub proof fn lemma_reaches_next(c: ChunkView, from: int, at: int)
    requires
        0 <= from <= at < c.code.len(),
        c.reaches(from, at),
    ensures
        c.reaches(from, c.next_offset(at)),
        at < c.next_offset(at),
    decreases at - from,
{
    reveal_with_fuel(ChunkView::reaches, 2);
    if from != at {
        lemma_reaches_steps(c, from, at);
        lemma_reaches_next(c, c.next_offset(from), at);
    }
}

/// Of two places that are reached the later is reached from the earlier.
pub proof fn lemma_line(c: ChunkView, from: int, a: int, b: int)
    requires
        0 <= from <= a <= b,
        c.reaches(from, a),
        c.reaches(from, b),
    ensures
        c.reaches(a, b),
    decreases a - from,
{
    if from != a {
        lemma_reaches_steps(c, from, a);
        if from != b {
            lemma_reaches_steps(c, from, b);
            lemma_line(c, c.next_offset(from), a, b);
        }
    }
}

/// What is reached in code that was added to was reached before, if it lies
/// in the earlier code, and is reached from the end of the earlier code, if
/// it lies behind it.
pub proof fn lemma_paths(c: ChunkView, d: ChunkView, from: int)
    requires
        0 <= from <= c.code.len(),
        c.tidy_from(from),
        starts_with(d.code, c.code),
    ensures
        forall|at: int| #[trigger] d.reaches(from, at) && at <= c.code.len() ==> c.reaches(from, at),
        forall|at: int|
            #[trigger] d.reaches(from, at) && at >= c.code.len() ==> d.reaches(
                c.code.len() as int,
                at,
            ),
    decreases c.code.len() - from,
{
    if from < c.code.len() {
        let next = c.next_offset(from);
        let width = decode(c.code[from]).operand_width();
        assert(d.code[from] == c.code[from]);
        assert(from + width < c.code.len());
        assert(d.next_offset(from) == next);
        lemma_paths(c, d, next);
        assert forall|at: int| #[trigger] d.reaches(from, at) && at <= c.code.len() implies c.reaches(
            from,
            at,
        ) by {
            if from != at {
                assert(d.reaches(next, at));
            }
        }
        assert forall|at: int| #[trigger] d.reaches(from, at) && at >= c.code.len() implies d.reaches(
            c.code.len() as int,
            at,
        ) by {
            assert(d.reaches(next, at));
        }
    } else {
        assert forall|at: int| #[trigger] d.reaches(from, at) && at <= c.code.len() implies c.reaches(
            from,
            at,
        ) by {}
    }
}

/// An instruction that fits keeps fitting when code is added behind the
/// code, the pool grows, and the heights and the pending jumps of the
/// earlier code stay.
proof fn lemma_still_fits(
    c: ChunkView,
    d: ChunkView,
    h1: Seq<int>,
    h2: Seq<int>,
    earlier: Set<int>,
    later: Set<int>,
    at: int,
)
    requires
        c.typed(h1, earlier),
        0 <= at < c.code.len(),
        c.reaches(0, at),
        starts_with(d.code, c.code),
        starts_with(d.constants, c.constants),
        starts_with(h2, h1),
        earlier.contains(at) == later.contains(at),
    ensures
        d.fits(h2, later, at),
{
    let op = decode(c.code[at]);
    let width = op.operand_width();
    lemma_tidy_at(c, 0, at);
    assert(at + width < c.code.len());
    assert(d.code[at] == c.code[at]);
    if width >= 1 {
        assert(d.code[at + 1] == c.code[at + 1]);
    }
    if width >= 2 {
        assert(d.code[at + 2] == c.code[at + 2]);
    }
    assert(h2[at] == h1[at]);
    assert(h2[at + 1 + width] == h1[at + 1 + width]);
    assert(c.fits(h1, earlier, at));
    if crate::tidy::uses_pool(op) {
        let k = c.code[at + 1] as int;
        assert(d.constants[k] == c.constants[k]);
    }
    if (op == Opcode::Jump || op == Opcode::JumpIfFalse) && !earlier.contains(at) {
        let target = at + 3 + short(c.code[at + 1], c.code[at + 2]);
        lemma_longer(c, d, 0);
        assert(d.reaches(0, target));
        assert(h2[target] == h1[target]);
    }
}

/// An instruction that is reached in tidy code is sound, whole, and followed
/// by tidy code.
pub proof fn lemma_tidy_at(c: ChunkView, from: int, at: int)
    requires
        0 <= from <= at < c.code.len(),
        c.tidy_from(from),
        c.reaches(from, at),
    ensures
        crate::tidy::sound(c.instruction_at(at), c.constants.len()),
        at + decode(c.code[at]).operand_width() < c.code.len(),
        c.next_offset(at) == at + 1 + decode(c.code[at]).operand_width(),
        c.tidy_from(at),
        c.tidy_from(c.next_offset(at)),
    decreases at - from,
{
    if from != at {
        lemma_reaches_steps(c, from, at);
        lemma_tidy_at(c, c.next_offset(from), at);
    }
}

/// Typed code stays typed when one instruction that fits is added.
pub proof fn lemma_typed_longer(
    c: ChunkView,
    d: ChunkView,
    h1: Seq<int>,
    h2: Seq<int>,
    earlier: Set<int>,
    later: Set<int>,
)
    requires
        c.typed(h1, earlier),
        d.tidy(),
        starts_with(d.code, c.code),
        starts_with(d.constants, c.constants),
        starts_with(h2, h1),
        h2.len() == d.code.len() + 1,
        forall|at: int| 0 <= at < c.code.len() ==> earlier.contains(at) == later.contains(at),
        c.code.len() < d.code.len(),
        d.next_offset(c.code.len() as int) == d.code.len(),
        d.fits(h2, later, c.code.len() as int),
    ensures
        d.typed(h2, later),
{
    lemma_paths(c, d, 0);
    assert forall|at: int| 0 <= at < d.code.len() && #[trigger] d.reaches(0, at) implies d.fits(
        h2,
        later,
        at,
    ) by {
        if at < c.code.len() {
            assert(c.reaches(0, at));
            lemma_still_fits(c, d, h1, h2, earlier, later, at);
        } else {
            assert(d.reaches(c.code.len() as int, at));
            reveal_with_fuel(ChunkView::reaches, 2);
            assert(at == c.code.len());
        }
    }
}

/// Typed code stays typed when only its pool grows.
pub proof fn lemma_typed_pool(c: ChunkView, d: ChunkView, heights: Seq<int>, pending: Set<int>)
    requires
        c.typed(heights, pending),
        d.code == c.code,
        starts_with(d.constants, c.constants),
    ensures
        d.typed(heights, pending),
{
    lemma_same_tail(c, d, 0);
    assert forall|at: int| 0 <= at < d.code.len() && #[trigger] d.reaches(0, at) implies d.fits(
        heights,
        pending,
        at,
    ) by {
        lemma_paths(c, d, 0);
        assert(c.reaches(0, at));
        lemma_still_fits(c, d, heights, heights, pending, pending, at);
    }
}

/// Patching a pending jump so that it lands at `target`, where the height is
/// the height that the jump leaves, keeps typed code typed; the jump is no
/// longer pending.
pub proof fn lemma_typed_patched(
    c: ChunkView,
    d: ChunkView,
    heights: Seq<int>,
    pending: Set<int>,
    t: int,
    target: int,
)
    requires
        c.typed(heights, pending),
        0 <= t,
        t + 2 < c.code.len(),
        c.reaches(0, t),
        decode(c.code[t]) == Opcode::Jump || decode(c.code[t]) == Opcode::JumpIfFalse,
        d.code.len() == c.code.len(),
        forall|i: int| 0 <= i < c.code.len() && i != t + 1 && i != t + 2 ==> d.code[i] == c.code[i],
        d.constants == c.constants,
        t + 3 + short(d.code[t + 1], d.code[t + 2]) == target,
        c.reaches(0, target),
        target <= c.code.len(),
        heights[target] == heights[t],
    ensures
        d.typed(heights, pending.remove(t)),
{
    lemma_patched(c, d, t, 0);
    assert(d.reaches(0, t));
    lemma_patched(d, c, t, 0);
    assert forall|at: int| 0 <= at < d.code.len() && #[trigger] d.reaches(0, at) implies d.fits(
        heights,
        pending.remove(t),
        at,
    ) by {
        assert(c.reaches(0, at));
        assert(c.fits(heights, pending, at));
        lemma_tidy_at(c, 0, at);
        let op = decode(c.code[at]);
        let width = op.operand_width();
        if at < t {
            lemma_line(c, 0, at, t);
            lemma_reaches_steps(c, at, t);
            assert(at + width < t);
        } else if at > t {
            lemma_line(c, 0, t, at);
            lemma_reaches_steps(c, t, at);
            assert(at >= t + 3);
        }
        if at != t {
            assert(d.code[at] == c.code[at]);
            if width >= 1 {
                assert(d.code[at + 1] == c.code[at + 1]);
            }
            if width >= 2 {
                assert(d.code[at + 2] == c.code[at + 2]);
            }
            if (op == Opcode::Jump || op == Opcode::JumpIfFalse) && !pending.contains(at) {
                let landing = at + 3 + short(c.code[at + 1], c.code[at + 2]);
                assert(c.reaches(0, landing));
                assert(d.reaches(0, landing));
            }
        } else {
            assert(d.reaches(0, target));
        }
    }
}

/// A step of a machine that is poised on closed code: it goes on poised, or
/// asks its host and stays as it is, or is done with an empty stack, or
/// fails for what the program does wrong.
#[verifier::rlimit(100)]
pub proof fn lemma_step_safe(m: VmView, chunk: ChunkView, heights: Seq<int>, answer: Option<u64>)
    requires
        chunk.closed(heights),
        m.poised(chunk, heights),
    ensures
        ({
            let (next, signal) = m.step(answer);
            &&& signal is Continue ==> next.poised(chunk, heights)
            &&& signal is Needs ==> next == m
            &&& signal is Done ==> next.stack.len() == 0 && next.frames.len() == 0
            &&& signal matches SignalView::Failed(fault) ==> program_error(fault.cause)
        }),
{
    let at = m.top().ip;
    let op = decode(chunk.code[at]);
    let width = op.operand_width();
    lemma_tidy_at(chunk, 0, at);
    lemma_reaches_next(chunk, 0, at);
    assert(chunk.fits(heights, Set::empty(), at));
    assert(chunk.leads_inside(at));
    let behind = m.at(at + 1 + width);
    assert(behind.chunk() == chunk);
    assert(behind.frames.len() == 1);
    assert(behind.top().ip == at + 1 + width);
    assert(behind.stack == m.stack);
    crate::vm::lemma_step_outcome(m, answer);
    if op == Opcode::Jump || op == Opcode::JumpIfFalse {
        let target = at + 3 + short(chunk.code[at + 1], chunk.code[at + 2]);
        assert(behind.at(target).chunk() == chunk);
        assert(behind.at(target).top().ip == target);
    }
}

/// A run of a machine that is poised on closed code never fails for a reason
/// that lies in the code: it ends poised again when it stops for its host
/// or for its budget, with an empty stack when the program is done, and
/// otherwise with what the program did wrong.
pub proof fn lemma_run_safe(
    m: VmView,
    chunk: ChunkView,
    heights: Seq<int>,
    answer: Option<u64>,
    budget: nat,
)
    requires
        chunk.closed(heights),
        m.poised(chunk, heights),
    ensures
        ({
            let (last, signal) = m.run(answer, budget);
            &&& signal is Continue || signal is Needs ==> last.poised(chunk, heights)
            &&& signal is Done ==> last.stack.len() == 0 && last.frames.len() == 0
            &&& signal matches SignalView::Failed(fault) ==> program_error(fault.cause)
        }),
    decreases budget,
{
    if budget > 0 {
        lemma_step_safe(m, chunk, heights, answer);
        let (next, signal) = m.step(answer);
        if signal is Continue {
            lemma_run_safe(next, chunk, heights, None, (budget - 1) as nat);
        }
    }
}

/// Typed code without pending jumps, with a `Return` added that finds the
/// stack empty, is closed: every jump lands in front of an instruction, and
/// after every instruction but the `Return` comes another.
pub proof fn lemma_closed(c: ChunkView, d: ChunkView, h1: Seq<int>, h2: Seq<int>)
    requires
        c.typed(h1, Set::empty()),
        d.typed(h2, Set::empty()),
        starts_with(d.code, c.code),
        d.code.len() == c.code.len() + 1,
        decode(d.code[c.code.len() as int]) == Opcode::Return,
        starts_with(h2, h1),
        h1[0] == 0,
    ensures
        d.closed(h2),
{
    lemma_paths(c, d, 0);
    assert forall|at: int| 0 <= at < d.code.len() && #[trigger] d.reaches(0, at) implies d.leads_inside(
        at,
    ) by {
        if at < c.code.len() {
            assert(c.reaches(0, at));
            assert(c.fits(h1, Set::empty(), at));
            lemma_tidy_at(c, 0, at);
            let width = decode(c.code[at]).operand_width();
            assert(d.code[at] == c.code[at]);
            if width >= 1 {
                assert(d.code[at + 1] == c.code[at + 1]);
            }
            if width >= 2 {
                assert(d.code[at + 2] == c.code[at + 2]);
            }
        } else {
            assert(d.fits(h2, Set::empty(), at));
            lemma_tidy_at(d, 0, at);
        }
    }
}

/// A machine that enters a function whose code is closed is poised.
pub proof fn lemma_entry(m: VmView, function: crate::function::FunctionView, heights: Seq<int>)
    requires
        function.chunk.closed(heights),
        function.chunk.code.len() > 0,
    ensures
        m.enter(function).poised(function.chunk, heights),
        m.enter(function).safe_in(function.chunk),
{
}

/// A run of a machine that is in step with closed code keeps it in step: it
/// never fails for a reason that lies in the code, and it is done with an
/// empty stack.
pub proof fn lemma_safe_run(m: VmView, chunk: ChunkView, answer: Option<u64>, budget: nat)
    requires
        m.safe_in(chunk),
    ensures
        ({
            let (last, signal) = m.run(answer, budget);
            &&& signal is Continue || signal is Needs ==> last.safe_in(chunk)
            &&& signal is Done ==> last.stack.len() == 0 && last.frames.len() == 0
            &&& signal matches SignalView::Failed(fault) ==> program_error(fault.cause)
        }),
{
    let heights = choose|heights: Seq<int>| chunk.closed(heights) && m.poised(chunk, heights);
    lemma_run_safe(m, chunk, heights, answer, budget);
}

} // verus!
