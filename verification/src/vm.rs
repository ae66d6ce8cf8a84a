//! The stack machine.
//!
//! The machine runs one instruction at a time on an operand stack, a table of
//! global variables and a stack of call frames. Arithmetic that rounds is not
//! done here: where an instruction has to add, subtract, multiply, divide,
//! take a remainder or combine the bits of two numbers, the machine stops in
//! front of it and asks its host with [`Signal::Needs`]; the host computes the
//! number and hands it back as the answer, and the machine goes on from there.
//! What a program prints is collected, in order, for the host to show.
use vstd::prelude::*;
use vstd::string::*;
use crate::chunk::{make_short, short, ChunkView};
use crate::function::{lemma_function_view, Function, FunctionView};
use crate::number;
use crate::opcode::{decode, from_u8, Opcode};
use crate::operator::Operator;
use crate::value::{views, Value, ValueView};

verus! {

/// The two ways in which running a program ends badly.
#[derive(Clone, Copy, Debug, PartialEq, Eq, Structural)]
pub enum InterpretError {
    CompileError,
    RuntimeError,
}

/// What stopped the machine.
#[derive(Clone, Copy, Debug, PartialEq, Eq, Structural)]
pub enum Cause {
    /// Negation of a value that is no number.
    OperandMustBeNumber,
    /// Arithmetic or comparison on operands that are not two numbers.
    OperandsMustBeNumbers,
    /// An operator other than `+`, `&&` and `||` on two strings.
    NoStringOperation,
    /// `&` or `|` on a number that is not whole.
    FractionalOperand,
    /// A read of a global variable that was never defined.
    UndefinedVariable,
    /// A call of a value that is no function.
    NotCallable,
    /// A byte that names no operation.
    UnknownOpcode,
    /// An instruction that needs more operands than the stack holds.
    StackUnderflow,
    /// The code ends before the next instruction or in the middle of it.
    CodeOverrun,
    /// A constant index beyond the pool, or a constant of the wrong kind.
    BadConstant,
    /// A local slot beyond the stack.
    BadSlot,
    /// A jump to before the start or beyond the end of the code.
    BadJump,
}

impl Cause {
    /// An unknown opcode is the compiler's fault; everything else is a
    /// runtime error.
    pub open spec fn class(self) -> InterpretError {
        if self == Cause::UnknownOpcode {
            InterpretError::CompileError
        } else {
            InterpretError::RuntimeError
        }
    }

    /// Whether the cause is the fault of the compiler or of the program.
    pub fn kind(self) -> (r: InterpretError)
        ensures
            r == self.class(),
    {
        match self {
            Cause::UnknownOpcode => InterpretError::CompileError,
            _ => InterpretError::RuntimeError,
        }
    }

    /// The message for the cause.
    pub open spec fn text(self) -> Seq<char> {
        match self {
            Cause::OperandMustBeNumber => "Operand must be a number"@,
            Cause::OperandsMustBeNumbers => "operands must be numbers"@,
            Cause::NoStringOperation => "no such operation on strings"@,
            Cause::FractionalOperand => "Cannot use fp operands for bitwise operator"@,
            Cause::UndefinedVariable => "Undefined variable"@,
            Cause::NotCallable => "Can only call functions"@,
            Cause::UnknownOpcode => "Unknown opcode"@,
            Cause::StackUnderflow => "Stack underflow"@,
            Cause::CodeOverrun => "Ran off the end of the code"@,
            Cause::BadConstant => "Bad constant"@,
            Cause::BadSlot => "Bad local slot"@,
            Cause::BadJump => "Bad jump"@,
        }
    }

    /// The message for the cause as text.
    pub fn message(self) -> (r: &'static str)
        ensures
            r@ == self.text(),
    {
        match self {
            Cause::OperandMustBeNumber => "Operand must be a number",
            Cause::OperandsMustBeNumbers => "operands must be numbers",
            Cause::NoStringOperation => "no such operation on strings",
            Cause::FractionalOperand => "Cannot use fp operands for bitwise operator",
            Cause::UndefinedVariable => "Undefined variable",
            Cause::NotCallable => "Can only call functions",
            Cause::UnknownOpcode => "Unknown opcode",
            Cause::StackUnderflow => "Stack underflow",
            Cause::CodeOverrun => "Ran off the end of the code",
            Cause::BadConstant => "Bad constant",
            Cause::BadSlot => "Bad local slot",
            Cause::BadJump => "Bad jump",
        }
    }
}

/// A failed instruction: why it failed, the source line of the instruction,
/// and the name of the variable where the cause is an undefined variable.
#[derive(Debug)]
pub struct Fault {
    pub cause: Cause,
    pub line: usize,
    pub subject: String,
}

pub ghost struct FaultView {
    pub cause: Cause,
    pub line: usize,
    pub subject: Seq<char>,
}

impl Fault {
    /// What the fault says.
    pub open spec fn view(&self) -> FaultView {
        FaultView { cause: self.cause, line: self.line, subject: self.subject@ }
    }
}

/// What the machine tells its host when it stops.
#[derive(Debug)]
pub enum Signal {
    /// There is more to run.
    Continue,
    /// The program has returned from its outermost frame.
    Done,
    /// The next instruction applies the operator to the two numbers; the
    /// machine waits in front of it for the result.
    Needs(Operator, u64, u64),
    /// An instruction failed; the run is over.
    Failed(Fault),
}

pub ghost enum SignalView {
    Continue,
    Done,
    Needs(Operator, u64, u64),
    Failed(FaultView),
}

impl Signal {
    /// What the signal says.
    pub open spec fn view(&self) -> SignalView {
        match self {
            Signal::Continue => SignalView::Continue,
            Signal::Done => SignalView::Done,
            Signal::Needs(op, a, b) => SignalView::Needs(*op, *a, *b),
            Signal::Failed(fault) => SignalView::Failed(fault@),
        }
    }
}

/// One active call: the function, where in its code the call stands, and
/// where on the operand stack its locals begin.
#[derive(Debug)]
pub struct CallFrame {
    function: Function,
    ip: usize,
    base: usize,
}

pub ghost struct FrameView {
    pub function: FunctionView,
    pub ip: int,
    pub base: int,
}

impl CallFrame {
    /// The frame: the function, the instruction pointer, the base.
    pub closed spec fn view(&self) -> FrameView {
        FrameView { function: self.function@, ip: self.ip as int, base: self.base as int }
    }

    /// A frame at the start of the function's code.
    pub fn new(function: Function, base: usize) -> (frame: CallFrame)
        ensures
            frame@ == (FrameView { function: function@, ip: 0, base: base as int }),
    {
        CallFrame { function, ip: 0, base }
    }
}

/// A global variable.
#[derive(Debug)]
struct Global {
    name: String,
    value: Value,
}

/// The table that a list of variables with different names stands for.
spec fn table(entries: Seq<Global>) -> Map<Seq<char>, ValueView> {
    Map::new(
        |k: Seq<char>| exists|i: int| 0 <= i < entries.len() && entries[i].name@ == k,
        |k: Seq<char>| entries[choose|i: int| 0 <= i < entries.len() && entries[i].name@ == k].value@,
    )
}

/// No name stands twice in the list.
spec fn distinct(entries: Seq<Global>) -> bool {
    forall|i: int, j: int|
        0 <= i < entries.len() && 0 <= j < entries.len() && i != j ==> entries[i].name@
            != entries[j].name@
}

spec fn frame_views(frames: Seq<CallFrame>) -> Seq<FrameView> {
    Seq::new(frames.len(), |i: int| frames[i]@)
}

/// The state of a machine: the operand stack with its top last, the global
/// variables by name, the call frames with the active one last, and what has
/// been printed so far.
pub ghost struct VmView {
    pub stack: Seq<ValueView>,
    pub globals: Map<Seq<char>, ValueView>,
    pub frames: Seq<FrameView>,
    pub output: Seq<ValueView>,
}

/// The number that an operand of `&`, `|` or of an arithmetic operator
/// stands for: a boolean counts as one, whatever it holds.
pub open spec fn numeric(v: ValueView) -> Option<u64> {
    match v {
        ValueView::Number(n) => Some(n),
        ValueView::Bool(_) => Some(number::ONE),
        _ => None,
    }
}

/// The operator of an instruction that takes two operands through
/// `binary_op`.
pub open spec fn operator_of(op: Opcode) -> Option<Operator> {
    match op {
        Opcode::Add => Some(Operator::Plus),
        Opcode::Subtract => Some(Operator::Minus),
        Opcode::Multiply => Some(Operator::Star),
        Opcode::Divide => Some(Operator::Slash),
        Opcode::Mod => Some(Operator::Mod),
        Opcode::Greater => Some(Operator::GreaterThan),
        Opcode::Less => Some(Operator::LessThan),
        Opcode::LogicalAnd => Some(Operator::AmpAmp),
        Opcode::LogicalOr => Some(Operator::PipePipe),
        Opcode::BitwiseAnd => Some(Operator::Amp),
        Opcode::BitwiseOr => Some(Operator::Pipe),
        _ => None,
    }
}

impl VmView {
    /// A machine with nothing on its stack, no variables, no call and no
    /// output.
    pub open spec fn fresh() -> VmView {
        VmView {
            stack: Seq::empty(),
            globals: Map::empty(),
            frames: Seq::empty(),
            output: Seq::empty(),
        }
    }

    /// The active frame.
    pub open spec fn top(self) -> FrameView {
        self.frames.last()
    }

    /// The chunk that is running.
    pub open spec fn chunk(self) -> ChunkView {
        self.top().function.chunk
    }

    /// The machine with the active frame's instruction pointer moved.
    pub open spec fn at(self, ip: int) -> VmView {
        VmView {
            frames: self.frames.update(self.frames.len() - 1, FrameView { ip, ..self.top() }),
            ..self
        }
    }

    /// The machine with one more value on the stack.
    pub open spec fn push(self, v: ValueView) -> VmView {
        VmView { stack: self.stack.push(v), ..self }
    }

    /// The machine without the top of the stack.
    pub open spec fn pop(self) -> VmView {
        VmView { stack: self.stack.drop_last(), ..self }
    }

    /// The value `distance` places below the top of the stack.
    pub open spec fn peek(self, distance: int) -> ValueView {
        self.stack[self.stack.len() - 1 - distance]
    }

    /// The machine after a run has ended badly: no frames, an empty stack;
    /// the variables and the output stay.
    pub open spec fn halted(self) -> VmView {
        VmView { stack: Seq::empty(), frames: Seq::empty(), ..self }
    }

    /// The machine ready to run a program: an empty stack and one frame, at
    /// the start of the program, with its locals at the bottom of the stack.
    pub open spec fn enter(self, function: FunctionView) -> VmView {
        VmView {
            stack: Seq::empty(),
            frames: seq![FrameView { function, ip: 0, base: 0 }],
            ..self
        }
    }

    /// The source line of the byte at `at` in the running chunk, or 0 where
    /// the chunk has no line for it.
    pub open spec fn line(self, at: int) -> usize {
        if 0 <= at < self.chunk().lines.len() {
            self.chunk().lines[at]
        } else {
            0
        }
    }

    /// The instruction at `at` fails: the run is over.
    pub open spec fn fail(self, cause: Cause, at: int) -> (VmView, SignalView) {
        (
            self.halted(),
            SignalView::Failed(FaultView { cause, line: self.line(at), subject: Seq::empty() }),
        )
    }

    /// The host is asked for `x op y`, or its answer takes the place of the
    /// two operands.
    pub open spec fn ask(self, op: Operator, x: u64, y: u64, at: int, answer: Option<u64>) -> (
        VmView,
        SignalView,
    ) {
        match answer {
            None => (self.at(at), SignalView::Needs(op, x, y)),
            Some(r) => (self.pop().pop().push(ValueView::Number(r)), SignalView::Continue),
        }
    }

    /// A binary operator on the two topmost values. `&&` and `||` go by
    /// truthiness and take every value. Otherwise two numbers are compared
    /// here or handed to the host; a boolean counts as the number one for `&`
    /// and `|` only, which demand whole numbers; two strings can be joined
    /// with `+`; everything else is an error.
    pub open spec fn binary_op(self, op: Operator, at: int, answer: Option<u64>) -> (
        VmView,
        SignalView,
    ) {
        if self.stack.len() < 2 {
            self.fail(Cause::StackUnderflow, at)
        } else {
            let a = self.peek(1);
            let b = self.peek(0);
            let rest = self.pop().pop();
            if op == Operator::AmpAmp {
                (rest.push(ValueView::Bool(!a.falsey() && !b.falsey())), SignalView::Continue)
            } else if op == Operator::PipePipe {
                (rest.push(ValueView::Bool(!a.falsey() || !b.falsey())), SignalView::Continue)
            } else if numeric(a) is Some && numeric(b) is Some {
                let x = numeric(a)->0;
                let y = numeric(b)->0;
                if op.is_bitwise() {
                    if number::fractional(x) || number::fractional(y) {
                        self.fail(Cause::FractionalOperand, at)
                    } else {
                        self.ask(op, x, y, at, answer)
                    }
                } else if a is Bool || b is Bool {
                    self.fail(Cause::OperandsMustBeNumbers, at)
                } else if op == Operator::LessThan {
                    (rest.push(ValueView::Bool(number::less(x, y))), SignalView::Continue)
                } else if op == Operator::GreaterThan {
                    (rest.push(ValueView::Bool(number::less(y, x))), SignalView::Continue)
                } else {
                    self.ask(op, x, y, at, answer)
                }
            } else if a is String && b is String {
                if op == Operator::Plus {
                    (
                        rest.push(ValueView::String(a->String_0 + b->String_0)),
                        SignalView::Continue,
                    )
                } else {
                    self.fail(Cause::NoStringOperation, at)
                }
            } else {
                self.fail(Cause::OperandsMustBeNumbers, at)
            }
        }
    }

    /// `Return`. From the outermost frame it ends the run and leaves the
    /// stack as it is. From a call it takes the result from the top of the
    /// stack, drops the frame together with the callee and its arguments, and
    /// leaves the result for the caller.
    pub open spec fn do_return(self, at: int) -> (VmView, SignalView) {
        if self.frames.len() == 1 {
            (VmView { frames: Seq::empty(), ..self }, SignalView::Done)
        } else if self.top().base < 1 || self.top().base > self.stack.len() {
            self.fail(Cause::StackUnderflow, at)
        } else {
            (
                VmView {
                    stack: self.stack.take(self.top().base - 1).push(self.peek(0)),
                    frames: self.frames.drop_last(),
                    ..self
                },
                SignalView::Continue,
            )
        }
    }

    /// `Call` with `argc` arguments: the callee stands just below them, and
    /// the new frame's locals begin at the first of them.
    pub open spec fn call(self, argc: int, at: int) -> (VmView, SignalView) {
        if self.stack.len() <= argc {
            self.fail(Cause::StackUnderflow, at)
        } else {
            match self.peek(argc) {
                ValueView::Function(f) => (
                    VmView {
                        frames: self.frames.push(
                            FrameView { function: f, ip: 0, base: self.stack.len() - argc },
                        ),
                        ..self
                    },
                    SignalView::Continue,
                ),
                _ => self.fail(Cause::NotCallable, at),
            }
        }
    }

    /// `DefineGlobal`: binds the name in the pool to the top of the stack and
    /// pops it; a function in the pool is bound to its own name.
    pub open spec fn define_global(self, index: int, at: int) -> (VmView, SignalView) {
        if index >= self.chunk().constants.len() {
            self.fail(Cause::BadConstant, at)
        } else {
            match self.chunk().constants[index] {
                ValueView::String(name) => if self.stack.len() == 0 {
                    self.fail(Cause::StackUnderflow, at)
                } else {
                    (
                        VmView { globals: self.globals.insert(name, self.peek(0)), ..self.pop() },
                        SignalView::Continue,
                    )
                },
                ValueView::Function(f) => (
                    VmView {
                        globals: self.globals.insert(f.name, ValueView::Function(f)),
                        ..self
                    },
                    SignalView::Continue,
                ),
                _ => self.fail(Cause::BadConstant, at),
            }
        }
    }

    /// `GetGlobal`: pushes the value of the variable named in the pool; an
    /// undefined variable is an error that names it.
    pub open spec fn get_global(self, index: int, at: int) -> (VmView, SignalView) {
        if index >= self.chunk().constants.len() {
            self.fail(Cause::BadConstant, at)
        } else {
            match self.chunk().constants[index] {
                ValueView::String(name) => if self.globals.dom().contains(name) {
                    (self.push(self.globals[name]), SignalView::Continue)
                } else {
                    (
                        self.halted(),
                        SignalView::Failed(
                            FaultView {
                                cause: Cause::UndefinedVariable,
                                line: self.line(at),
                                subject: name,
                            },
                        ),
                    )
                },
                _ => self.fail(Cause::BadConstant, at),
            }
        }
    }

    /// `SetGlobal`: binds the name in the pool to the top of the stack, which
    /// stays there as the value of the assignment.
    pub open spec fn set_global(self, index: int, at: int) -> (VmView, SignalView) {
        if index >= self.chunk().constants.len() {
            self.fail(Cause::BadConstant, at)
        } else {
            match self.chunk().constants[index] {
                ValueView::String(name) => if self.stack.len() == 0 {
                    self.fail(Cause::StackUnderflow, at)
                } else {
                    (
                        VmView { globals: self.globals.insert(name, self.peek(0)), ..self },
                        SignalView::Continue,
                    )
                },
                _ => self.fail(Cause::BadConstant, at),
            }
        }
    }

    /// A forward jump over `offset` bytes.
    pub open spec fn jump(self, offset: int, at: int) -> (VmView, SignalView) {
        if self.top().ip + offset > self.chunk().code.len() {
            self.fail(Cause::BadJump, at)
        } else {
            (self.at(self.top().ip + offset), SignalView::Continue)
        }
    }

    /// The effect of one instruction. The machine stands behind the
    /// instruction, which began at `at`; `operand` is what its operand bytes
    /// spell.
    pub open spec fn execute(self, op: Opcode, operand: int, at: int, answer: Option<u64>) -> (
        VmView,
        SignalView,
    ) {
        match op {
            Opcode::Return => self.do_return(at),
            Opcode::Constant => if operand < self.chunk().constants.len() {
                (self.push(self.chunk().constants[operand]), SignalView::Continue)
            } else {
                self.fail(Cause::BadConstant, at)
            },
            Opcode::Nil => (self.push(ValueView::Nil), SignalView::Continue),
            Opcode::True => (self.push(ValueView::Bool(true)), SignalView::Continue),
            Opcode::False => (self.push(ValueView::Bool(false)), SignalView::Continue),
            Opcode::Negate => if self.stack.len() == 0 {
                self.fail(Cause::StackUnderflow, at)
            } else {
                match self.peek(0) {
                    ValueView::Number(n) => (
                        self.pop().push(ValueView::Number(number::negated(n))),
                        SignalView::Continue,
                    ),
                    _ => self.fail(Cause::OperandMustBeNumber, at),
                }
            },
            Opcode::Not => if self.stack.len() == 0 {
                self.fail(Cause::StackUnderflow, at)
            } else {
                (self.pop().push(ValueView::Bool(self.peek(0).falsey())), SignalView::Continue)
            },
            Opcode::Equal => if self.stack.len() < 2 {
                self.fail(Cause::StackUnderflow, at)
            } else {
                (
                    self.pop().pop().push(ValueView::Bool(self.peek(1).same(self.peek(0)))),
                    SignalView::Continue,
                )
            },
            Opcode::Print => if self.stack.len() == 0 {
                self.fail(Cause::StackUnderflow, at)
            } else {
                (
                    VmView { output: self.output.push(self.peek(0)), ..self.pop() },
                    SignalView::Continue,
                )
            },
            Opcode::Pop => if self.stack.len() == 0 {
                self.fail(Cause::StackUnderflow, at)
            } else {
                (self.pop(), SignalView::Continue)
            },
            Opcode::DefineGlobal => self.define_global(operand, at),
            Opcode::GetGlobal => self.get_global(operand, at),
            Opcode::SetGlobal => self.set_global(operand, at),
            Opcode::GetLocal => if self.top().base + operand < self.stack.len() {
                (self.push(self.stack[self.top().base + operand]), SignalView::Continue)
            } else {
                self.fail(Cause::BadSlot, at)
            },
            Opcode::SetLocal => if self.stack.len() == 0 {
                self.fail(Cause::StackUnderflow, at)
            } else if self.top().base + operand < self.stack.len() {
                (
                    VmView {
                        stack: self.stack.update(self.top().base + operand, self.peek(0)),
                        ..self
                    },
                    SignalView::Continue,
                )
            } else {
                self.fail(Cause::BadSlot, at)
            },
            Opcode::JumpIfFalse => if self.stack.len() == 0 {
                self.fail(Cause::StackUnderflow, at)
            } else if self.peek(0).falsey() {
                self.jump(operand, at)
            } else {
                (self, SignalView::Continue)
            },
            Opcode::Jump => self.jump(operand, at),
            Opcode::Loop => if self.top().ip - operand < 0 {
                self.fail(Cause::BadJump, at)
            } else {
                (self.at(self.top().ip - operand), SignalView::Continue)
            },
            Opcode::Call => self.call(operand, at),
            Opcode::Unknown => self.fail(Cause::UnknownOpcode, at),
            _ => self.binary_op(operator_of(op)->0, at, answer),
        }
    }

    /// What the operand bytes of the instruction at `at` spell: one byte, or
    /// two with the high byte first.
    pub open spec fn operand(self, at: int, width: nat) -> int {
        let code = self.chunk().code;
        if width == 1 {
            code[at + 1] as int
        } else if width == 2 {
            short(code[at + 1], code[at + 2]) as int
        } else {
            0
        }
    }

    /// One step: the instruction at the active frame's instruction pointer.
    /// `answer` is the host's result for it, if the machine asked for one
    /// and the host has it; an answer that was not asked for is ignored. With
    /// no frame there is nothing to run and the machine says `Done`.
    pub open spec fn step(self, answer: Option<u64>) -> (VmView, SignalView) {
        if self.frames.len() == 0 {
            (self, SignalView::Done)
        } else {
            let at = self.top().ip;
            let code = self.chunk().code;
            if at >= code.len() {
                self.fail(Cause::CodeOverrun, at)
            } else {
                let op = decode(code[at]);
                let width = op.operand_width();
                if at + width >= code.len() {
                    self.fail(Cause::CodeOverrun, at)
                } else {
                    self.at(at + 1 + width).execute(op, self.operand(at, width), at, answer)
                }
            }
        }
    }

    /// The next step moves the instruction pointer to `ip` and changes
    /// nothing else.
    pub open spec fn goes_to(self, ip: int) -> bool {
        self.step(None) == (self.at(ip), SignalView::Continue)
    }

    /// Up to `budget` steps: the machine runs until it is done, fails, needs
    /// its host, or has used up the budget, in which case it says `Continue`.
    /// The answer goes to the first step.
    pub open spec fn run(self, answer: Option<u64>, budget: nat) -> (VmView, SignalView)
        decreases budget,
    {
        if budget == 0 {
            (self, SignalView::Continue)
        } else {
            let (next, signal) = self.step(answer);
            if signal is Continue {
                next.run(None, (budget - 1) as nat)
            } else {
                (next, signal)
            }
        }
    }
}

/// The machine.
#[derive(Debug)]
pub struct Vm {
    stack: Vec<Value>,
    globals: Vec<Global>,
    frames: Vec<CallFrame>,
    output: Vec<Value>,
}

impl Vm {
    /// The state of the machine.
    pub closed spec fn view(&self) -> VmView {
        VmView {
            stack: views(self.stack@),
            globals: table(self.globals@),
            frames: frame_views(self.frames@),
            output: views(self.output@),
        }
    }

    /// The table of globals holds every name once.
    pub closed spec fn wf(&self) -> bool {
        distinct(self.globals@)
    }

    /// A machine with nothing on its stack, no variables and no output.
    pub fn new() -> (vm: Vm)
        ensures
            vm.wf(),
            vm@ == VmView::fresh(),
    {
        let vm = Vm { stack: Vec::new(), globals: Vec::new(), frames: Vec::new(), output: Vec::new() };
        assert(vm@.stack =~= Seq::empty());
        assert(vm@.frames =~= Seq::empty());
        assert(vm@.output =~= Seq::empty());
        assert(vm@.globals =~= Map::empty());
        vm
    }

    /// Starts the program and runs it for up to `budget` instructions: until
    /// it returns, fails, needs the host, or the budget is used up.
    pub fn run(&mut self, function: Function, budget: usize) -> (r: Signal)
        requires
            old(self).wf(),
        ensures
            final(self).wf(),
            (final(self)@, r@) == old(self)@.enter(function@).run(None, budget as nat),
    {
        self.stack.clear();
        self.frames.clear();
        self.frames.push(CallFrame::new(function, 0));
        assert(self@.stack =~= Seq::empty());
        assert(self@.frames =~= seq![FrameView { function: function@, ip: 0, base: 0 }]);
        assert(self@ == old(self)@.enter(function@));
        self.resume(None, budget)
    }

    /// Goes on running for up to `budget` instructions. After `Needs`, the
    /// answer is the number that the host computed; otherwise it is `None`.
    pub fn resume(&mut self, answer: Option<u64>, budget: usize) -> (r: Signal)
        requires
            old(self).wf(),
        ensures
            final(self).wf(),
            (final(self)@, r@) == old(self)@.run(answer, budget as nat),
    {
        let mut pending = answer;
        let mut left = budget;
        loop
            invariant
                self.wf(),
                self@.run(pending, left as nat) == old(self)@.run(answer, budget as nat),
            decreases left,
        {
            if left == 0 {
                return Signal::Continue;
            }
            let ghost before = self@;
            let signal = self.step(pending);
            assert(before.run(pending, left as nat) == if signal@ is Continue {
                self@.run(None, (left - 1) as nat)
            } else {
                (self@, signal@)
            });
            match signal {
                Signal::Continue => {
                    pending = None;
                    left = left - 1;
                },
                _ => {
                    return signal;
                },
            }
        }
    }

    /// Runs the instruction at the instruction pointer of the active frame.
    #[verifier::rlimit(50)]
    pub fn step(&mut self, answer: Option<u64>) -> (r: Signal)
        requires
            old(self).wf(),
        ensures
            final(self).wf(),
            (final(self)@, r@) == old(self)@.step(answer),
    {
        let n = self.frames.len();
        if n == 0 {
            return Signal::Done;
        }
        let at = self.frames[n - 1].ip;
        let len = self.frames[n - 1].function.chunk.code.len();
        if at >= len {
            return self.runtime_error(Cause::CodeOverrun, at);
        }
        let ghost before = self@;
        let byte = self.read_byte();
        let op = from_u8(byte);
        let width = op.width();
        if width >= len - at {
            let r = self.runtime_error(Cause::CodeOverrun, at);
            assert(self@ == before.halted());
            return r;
        }
        let operand: u16 = if width == 1 {
            self.read_byte() as u16
        } else if width == 2 {
            self.read_short()
        } else {
            0
        };
        assert(self@.frames =~= before.at(at + 1 + width).frames);
        assert(self@ == before.at(at + 1 + width));
        self.execute(op, operand, at, answer)
    }

    /// The active frame as the machine holds it.
    proof fn lemma_top(&self)
        requires
            self.frames.len() > 0,
        ensures
            ({
                let frame = self.frames@.last();
                &&& self@.top() == frame@
                &&& self@.top().ip == frame.ip
                &&& self@.top().base == frame.base
                &&& self@.chunk().code == frame.function.chunk.code@
                &&& self@.chunk().lines == frame.function.chunk.lines@
                &&& self@.chunk().constants.len() == frame.function.chunk.constants@.len()
                &&& forall|i: int|
                    0 <= i < frame.function.chunk.constants@.len()
                        ==> #[trigger] self@.chunk().constants[i]
                        == frame.function.chunk.constants@[i]@
            }),
    {
        lemma_function_view(&self.frames@.last().function);
    }

    /// The next byte of the running code; moves the instruction pointer on.
    fn read_byte(&mut self) -> (byte: u8)
        requires
            old(self).frames.len() > 0,
            old(self)@.top().ip < old(self)@.chunk().code.len(),
        ensures
            byte == old(self)@.chunk().code[old(self)@.top().ip],
            final(self)@ == old(self)@.at(old(self)@.top().ip + 1),
            final(self).globals == old(self).globals,
            final(self).frames.len() == old(self).frames.len(),
    {
        let n = self.frames.len();
        let ip = self.frames[n - 1].ip;
        proof {
            self.lemma_top();
            assert(ip < self.frames@[n - 1].function.chunk.code.len());
        }
        let byte = self.frames[n - 1].function.chunk.code[ip];
        self.frames[n - 1].ip = ip + 1;
        assert(self@.frames =~= old(self)@.at(ip + 1).frames);
        byte
    }

    /// The next two bytes of the running code as one number, the high byte
    /// first; moves the instruction pointer on.
    fn read_short(&mut self) -> (r: u16)
        requires
            old(self).frames.len() > 0,
            old(self)@.top().ip + 1 < old(self)@.chunk().code.len(),
        ensures
            r == short(
                old(self)@.chunk().code[old(self)@.top().ip],
                old(self)@.chunk().code[old(self)@.top().ip + 1],
            ),
            final(self)@ == old(self)@.at(old(self)@.top().ip + 2),
            final(self).globals == old(self).globals,
            final(self).frames.len() == old(self).frames.len(),
    {
        let hi = self.read_byte();
        let lo = self.read_byte();
        assert(self@.frames =~= old(self)@.at(old(self)@.top().ip + 2).frames);
        make_short(hi, lo)
    }

    /// Moves the instruction pointer of the active frame.
    fn jump_to(&mut self, ip: usize)
        requires
            old(self).frames.len() > 0,
        ensures
            final(self)@ == old(self)@.at(ip as int),
            final(self).globals == old(self).globals,
            final(self).frames.len() == old(self).frames.len(),
    {
        let n = self.frames.len();
        self.frames[n - 1].ip = ip;
        assert(self@.frames =~= old(self)@.at(ip as int).frames);
    }

    /// The source line of the byte at `at` in the running chunk.
    fn line_of(&self, at: usize) -> (line: usize)
        requires
            self.frames.len() > 0,
        ensures
            line == self@.line(at as int),
    {
        let n = self.frames.len();
        let lines = &self.frames[n - 1].function.chunk.lines;
        if at < lines.len() {
            lines[at]
        } else {
            0
        }
    }

    /// Ends the run with an error at the instruction that began at `at`.
    fn runtime_error(&mut self, cause: Cause, at: usize) -> (r: Signal)
        requires
            old(self).frames.len() > 0,
        ensures
            final(self)@ == old(self)@.halted(),
            final(self).globals == old(self).globals,
            r@ == old(self)@.fail(cause, at as int).1,
    {
        self.fault(cause, at, String::new())
    }

    /// Ends the run with an error about the named subject.
    fn fault(&mut self, cause: Cause, at: usize, subject: String) -> (r: Signal)
        requires
            old(self).frames.len() > 0,
        ensures
            final(self)@ == old(self)@.halted(),
            final(self).globals == old(self).globals,
            r@ == SignalView::Failed(
                FaultView { cause, line: old(self)@.line(at as int), subject: subject@ },
            ),
    {
        let line = self.line_of(at);
        self.stack.clear();
        self.frames.clear();
        assert(self@.stack =~= Seq::empty());
        assert(self@.frames =~= Seq::empty());
        Signal::Failed(Fault { cause, line, subject })
    }

    fn push(&mut self, value: Value)
        ensures
            final(self)@ == old(self)@.push(value@),
            final(self).globals == old(self).globals,
            final(self).frames == old(self).frames,
    {
        self.stack.push(value);
        assert(self@.stack =~= old(self)@.stack.push(value@));
    }

    fn pop(&mut self) -> (value: Value)
        requires
            old(self)@.stack.len() > 0,
        ensures
            value@ == old(self)@.peek(0),
            final(self)@ == old(self)@.pop(),
            final(self).globals == old(self).globals,
            final(self).frames == old(self).frames,
    {
        let value = self.stack.pop().unwrap();
        assert(self@.stack =~= old(self)@.stack.drop_last());
        value
    }

    /// The value `distance` places below the top of the stack.
    fn peek(&self, distance: usize) -> (value: &Value)
        requires
            distance < self@.stack.len(),
        ensures
            value@ == self@.peek(distance as int),
    {
        let len = self.stack.len();
        &self.stack[len - 1 - distance]
    }

    /// The host is asked for `x op y`, or its answer replaces the operands.
    fn ask(&mut self, op: Operator, x: u64, y: u64, at: usize, answer: Option<u64>) -> (r: Signal)
        requires
            old(self).frames.len() > 0,
            old(self)@.stack.len() >= 2,
        ensures
            (final(self)@, r@) == old(self)@.ask(op, x, y, at as int, answer),
            final(self).globals == old(self).globals,
    {
        match answer {
            None => {
                self.jump_to(at);
                Signal::Needs(op, x, y)
            },
            Some(result) => {
                self.pop();
                self.pop();
                self.push(Value::Number(result));
                Signal::Continue
            },
        }
    }

    /// The number that an operand stands for, and whether it is a boolean.
    fn numeric_of(value: &Value) -> (r: (Option<u64>, bool))
        ensures
            r.0 == numeric(value@),
            r.1 == (value@ is Bool),
    {
        match value {
            Value::Number(n) => (Some(*n), false),
            Value::Bool(_) => (Some(number::ONE), true),
            _ => (None, false),
        }
    }

    /// Replaces the two topmost values by one.
    fn replace_two(&mut self, value: Value)
        requires
            old(self)@.stack.len() >= 2,
        ensures
            final(self)@ == old(self)@.pop().pop().push(value@),
            final(self).globals == old(self).globals,
            final(self).frames == old(self).frames,
    {
        self.pop();
        self.pop();
        self.push(value);
    }

    /// A binary operator on the two topmost values.
    #[verifier::rlimit(50)]
    fn binary_op(&mut self, op: Operator, at: usize, answer: Option<u64>) -> (r: Signal)
        requires
            old(self).frames.len() > 0,
        ensures
            (final(self)@, r@) == old(self)@.binary_op(op, at as int, answer),
            final(self).globals == old(self).globals,
    {
        if self.stack.len() < 2 {
            return self.runtime_error(Cause::StackUnderflow, at);
        }
        match op {
            Operator::AmpAmp => {
                let both = !self.peek(1).is_falsey() && !self.peek(0).is_falsey();
                self.replace_two(Value::Bool(both));
                return Signal::Continue;
            },
            Operator::PipePipe => {
                let either = !self.peek(1).is_falsey() || !self.peek(0).is_falsey();
                self.replace_two(Value::Bool(either));
                return Signal::Continue;
            },
            _ => {},
        }
        let (left, left_bool) = Self::numeric_of(self.peek(1));
        let (right, right_bool) = Self::numeric_of(self.peek(0));
        match (left, right) {
            (Some(x), Some(y)) => {
                match op {
                    Operator::Amp | Operator::Pipe => {
                        if number::has_fraction(x) || number::has_fraction(y) {
                            self.runtime_error(Cause::FractionalOperand, at)
                        } else {
                            self.ask(op, x, y, at, answer)
                        }
                    },
                    _ => {
                        if left_bool || right_bool {
                            self.runtime_error(Cause::OperandsMustBeNumbers, at)
                        } else {
                            match op {
                                Operator::LessThan => {
                                    self.replace_two(Value::Bool(number::lt(x, y)));
                                    Signal::Continue
                                },
                                Operator::GreaterThan => {
                                    self.replace_two(Value::Bool(number::lt(y, x)));
                                    Signal::Continue
                                },
                                _ => self.ask(op, x, y, at, answer),
                            }
                        }
                    },
                }
            },
            _ => {
                let strings = match (self.peek(1), self.peek(0)) {
                    (Value::String(_), Value::String(_)) => true,
                    _ => false,
                };
                if !strings {
                    self.runtime_error(Cause::OperandsMustBeNumbers, at)
                } else {
                    match op {
                        Operator::Plus => {
                            let b = self.pop();
                            let a = self.pop();
                            match (a, b) {
                                (Value::String(s), Value::String(t)) => {
                                    self.push(Value::String(s.concat(t.as_str())));
                                },
                                _ => {},
                            }
                            Signal::Continue
                        },
                        _ => self.runtime_error(Cause::NoStringOperation, at),
                    }
                }
            },
        }
    }

    /// The effect of one instruction whose bytes have been read.
    #[verifier::rlimit(50)]
    fn execute(&mut self, op: Opcode, operand: u16, at: usize, answer: Option<u64>) -> (r: Signal)
        requires
            old(self).wf(),
            old(self).frames.len() > 0,
            old(self)@.top().ip <= old(self)@.chunk().code.len(),
        ensures
            final(self).wf(),
            (final(self)@, r@) == old(self)@.execute(op, operand as int, at as int, answer),
    {
        match op {
            Opcode::Return => self.do_return(at),
            Opcode::Constant => self.constant(operand as usize, at),
            Opcode::Nil => {
                self.push(Value::Nil);
                Signal::Continue
            },
            Opcode::True => {
                self.push(Value::Bool(true));
                Signal::Continue
            },
            Opcode::False => {
                self.push(Value::Bool(false));
                Signal::Continue
            },
            Opcode::Negate => self.negate(at),
            Opcode::Not => self.not(at),
            Opcode::Equal => self.equal(at),
            Opcode::Print => self.print(at),
            Opcode::Pop => self.discard(at),
            Opcode::DefineGlobal => self.define_global(operand as usize, at),
            Opcode::GetGlobal => self.get_global(operand as usize, at),
            Opcode::SetGlobal => self.set_global(operand as usize, at),
            Opcode::GetLocal => self.get_local(operand as usize, at),
            Opcode::SetLocal => self.set_local(operand as usize, at),
            Opcode::JumpIfFalse => self.jump_if_false(operand as usize, at),
            Opcode::Jump => self.jump(operand as usize, at),
            Opcode::Loop => self.loop_back(operand as usize, at),
            Opcode::Call => self.call(operand as usize, at),
            Opcode::Unknown => self.runtime_error(Cause::UnknownOpcode, at),
            Opcode::Add => self.binary_op(Operator::Plus, at, answer),
            Opcode::Subtract => self.binary_op(Operator::Minus, at, answer),
            Opcode::Multiply => self.binary_op(Operator::Star, at, answer),
            Opcode::Divide => self.binary_op(Operator::Slash, at, answer),
            Opcode::Mod => self.binary_op(Operator::Mod, at, answer),
            Opcode::Greater => self.binary_op(Operator::GreaterThan, at, answer),
            Opcode::Less => self.binary_op(Operator::LessThan, at, answer),
            Opcode::LogicalAnd => self.binary_op(Operator::AmpAmp, at, answer),
            Opcode::LogicalOr => self.binary_op(Operator::PipePipe, at, answer),
            Opcode::BitwiseAnd => self.binary_op(Operator::Amp, at, answer),
            Opcode::BitwiseOr => self.binary_op(Operator::Pipe, at, answer),
        }
    }

    fn do_return(&mut self, at: usize) -> (r: Signal)
        requires
            old(self).frames.len() > 0,
        ensures
            (final(self)@, r@) == old(self)@.do_return(at as int),
            final(self).globals == old(self).globals,
    {
        let n = self.frames.len();
        if n == 1 {
            self.frames.clear();
            assert(self@.frames =~= Seq::empty());
            return Signal::Done;
        }
        let base = self.frames[n - 1].base;
        if base < 1 || base > self.stack.len() {
            return self.runtime_error(Cause::StackUnderflow, at);
        }
        proof {
            self.lemma_top();
        }
        let result = self.pop();
        let ghost popped = self.stack@;
        assert(views(popped) == old(self)@.stack.drop_last());
        assert(views(popped).len() == popped.len());
        assert(old(self)@.stack.len() == old(self).stack@.len());
        self.stack.truncate(base - 1);
        assert(self.stack@ == popped.subrange(0, base - 1));
        self.stack.push(result);
        self.frames.pop();
        assert(self@.stack =~= old(self)@.stack.take(base - 1).push(old(self)@.peek(0))) by {
            assert(self.stack@.len() == base);
            assert forall|i: int| 0 <= i < base - 1 implies self@.stack[i] == old(self)@.stack[i] by {
                assert(self.stack@[i] == popped[i]);
                assert(views(popped)[i] == popped[i]@);
            }
        }
        assert(self@.frames =~= old(self)@.frames.drop_last());
        Signal::Continue
    }

    fn constant(&mut self, index: usize, at: usize) -> (r: Signal)
        requires
            old(self).frames.len() > 0,
        ensures
            (final(self)@, r@) == old(self)@.execute(Opcode::Constant, index as int, at as int, None),
            final(self).globals == old(self).globals,
    {
        let n = self.frames.len();
        if index < self.frames[n - 1].function.chunk.constants.len() {
            let value = self.frames[n - 1].function.chunk.constants[index].duplicate();
            self.push(value);
            Signal::Continue
        } else {
            self.runtime_error(Cause::BadConstant, at)
        }
    }

    fn negate(&mut self, at: usize) -> (r: Signal)
        requires
            old(self).frames.len() > 0,
        ensures
            (final(self)@, r@) == old(self)@.execute(Opcode::Negate, 0, at as int, None),
            final(self).globals == old(self).globals,
    {
        if self.stack.len() == 0 {
            return self.runtime_error(Cause::StackUnderflow, at);
        }
        match self.peek(0) {
            Value::Number(n) => {
                let negated = Value::Number(number::negate(*n));
                self.pop();
                self.push(negated);
                Signal::Continue
            },
            _ => self.runtime_error(Cause::OperandMustBeNumber, at),
        }
    }

    fn not(&mut self, at: usize) -> (r: Signal)
        requires
            old(self).frames.len() > 0,
        ensures
            (final(self)@, r@) == old(self)@.execute(Opcode::Not, 0, at as int, None),
            final(self).globals == old(self).globals,
    {
        if self.stack.len() == 0 {
            return self.runtime_error(Cause::StackUnderflow, at);
        }
        let value = self.pop().is_falsey();
        self.push(Value::Bool(value));
        Signal::Continue
    }

    fn equal(&mut self, at: usize) -> (r: Signal)
        requires
            old(self).frames.len() > 0,
        ensures
            (final(self)@, r@) == old(self)@.execute(Opcode::Equal, 0, at as int, None),
            final(self).globals == old(self).globals,
    {
        if self.stack.len() < 2 {
            return self.runtime_error(Cause::StackUnderflow, at);
        }
        let b = self.pop();
        let a = self.pop();
        self.push(Value::Bool(a.eq(&b)));
        Signal::Continue
    }

    fn print(&mut self, at: usize) -> (r: Signal)
        requires
            old(self).frames.len() > 0,
        ensures
            (final(self)@, r@) == old(self)@.execute(Opcode::Print, 0, at as int, None),
            final(self).globals == old(self).globals,
    {
        if self.stack.len() == 0 {
            return self.runtime_error(Cause::StackUnderflow, at);
        }
        let value = self.pop();
        self.output.push(value);
        assert(self@.output =~= old(self)@.output.push(old(self)@.peek(0)));
        Signal::Continue
    }

    fn discard(&mut self, at: usize) -> (r: Signal)
        requires
            old(self).frames.len() > 0,
        ensures
            (final(self)@, r@) == old(self)@.execute(Opcode::Pop, 0, at as int, None),
            final(self).globals == old(self).globals,
    {
        if self.stack.len() == 0 {
            return self.runtime_error(Cause::StackUnderflow, at);
        }
        self.pop();
        Signal::Continue
    }

    fn get_local(&mut self, slot: usize, at: usize) -> (r: Signal)
        requires
            old(self).frames.len() > 0,
        ensures
            (final(self)@, r@) == old(self)@.execute(Opcode::GetLocal, slot as int, at as int, None),
            final(self).globals == old(self).globals,
    {
        let n = self.frames.len();
        let base = self.frames[n - 1].base;
        let len = self.stack.len();
        if base < len && slot < len - base {
            let value = self.stack[base + slot].duplicate();
            self.push(value);
            Signal::Continue
        } else {
            self.runtime_error(Cause::BadSlot, at)
        }
    }

    fn set_local(&mut self, slot: usize, at: usize) -> (r: Signal)
        requires
            old(self).frames.len() > 0,
        ensures
            (final(self)@, r@) == old(self)@.execute(Opcode::SetLocal, slot as int, at as int, None),
            final(self).globals == old(self).globals,
    {
        let n = self.frames.len();
        let base = self.frames[n - 1].base;
        let len = self.stack.len();
        if len == 0 {
            return self.runtime_error(Cause::StackUnderflow, at);
        }
        if base < len && slot < len - base {
            let value = self.peek(0).duplicate();
            self.stack[base + slot] = value;
            assert(self@.stack =~= old(self)@.stack.update(base + slot, old(self)@.peek(0)));
            Signal::Continue
        } else {
            self.runtime_error(Cause::BadSlot, at)
        }
    }

    fn jump(&mut self, offset: usize, at: usize) -> (r: Signal)
        requires
            old(self).frames.len() > 0,
            old(self)@.top().ip <= old(self)@.chunk().code.len(),
        ensures
            (final(self)@, r@) == old(self)@.jump(offset as int, at as int),
            final(self).globals == old(self).globals,
    {
        let n = self.frames.len();
        let ip = self.frames[n - 1].ip;
        let len = self.frames[n - 1].function.chunk.code.len();
        if offset > len - ip {
            self.runtime_error(Cause::BadJump, at)
        } else {
            self.jump_to(ip + offset);
            Signal::Continue
        }
    }

    fn jump_if_false(&mut self, offset: usize, at: usize) -> (r: Signal)
        requires
            old(self).frames.len() > 0,
            old(self)@.top().ip <= old(self)@.chunk().code.len(),
        ensures
            (final(self)@, r@) == old(self)@.execute(
                Opcode::JumpIfFalse,
                offset as int,
                at as int,
                None,
            ),
            final(self).globals == old(self).globals,
    {
        if self.stack.len() == 0 {
            return self.runtime_error(Cause::StackUnderflow, at);
        }
        if self.peek(0).is_falsey() {
            self.jump(offset, at)
        } else {
            Signal::Continue
        }
    }

    fn loop_back(&mut self, offset: usize, at: usize) -> (r: Signal)
        requires
            old(self).frames.len() > 0,
        ensures
            (final(self)@, r@) == old(self)@.execute(Opcode::Loop, offset as int, at as int, None),
            final(self).globals == old(self).globals,
    {
        let n = self.frames.len();
        let ip = self.frames[n - 1].ip;
        if offset > ip {
            self.runtime_error(Cause::BadJump, at)
        } else {
            self.jump_to(ip - offset);
            Signal::Continue
        }
    }

    fn call(&mut self, argc: usize, at: usize) -> (r: Signal)
        requires
            old(self).frames.len() > 0,
        ensures
            (final(self)@, r@) == old(self)@.call(argc as int, at as int),
            final(self).globals == old(self).globals,
    {
        let len = self.stack.len();
        if len <= argc {
            return self.runtime_error(Cause::StackUnderflow, at);
        }
        match self.peek(argc) {
            Value::Function(f) => {
                let frame = CallFrame::new(f.duplicate(), len - argc);
                self.frames.push(frame);
                assert(self@.frames =~= old(self)@.frames.push(frame@));
                Signal::Continue
            },
            _ => self.runtime_error(Cause::NotCallable, at),
        }
    }

    /// Where the variable of the given name stands in the table.
    fn find_global(&self, name: &String) -> (r: Option<usize>)
        ensures
            match r {
                Some(i) => i < self.globals.len() && self.globals@[i as int].name@ == name@,
                None => forall|i: int|
                    0 <= i < self.globals.len() ==> self.globals@[i].name@ != name@,
            },
    {
        let mut i: usize = 0;
        while i < self.globals.len()
            invariant
                i <= self.globals.len(),
                forall|j: int| 0 <= j < i ==> self.globals@[j].name@ != name@,
            decreases self.globals.len() - i,
        {
            if self.globals[i].name == *name {
                return Some(i);
            }
            i += 1;
        }
        None
    }

    /// Binds the name to the value, whether or not it was bound before.
    #[verifier::rlimit(50)]
    fn bind(&mut self, name: String, value: Value)
        requires
            old(self).wf(),
        ensures
            final(self).wf(),
            final(self)@ == (VmView {
                globals: old(self)@.globals.insert(name@, value@),
                ..old(self)@
            }),
            final(self).frames == old(self).frames,
            final(self).stack == old(self).stack,
    {
        let ghost before = self.globals@;
        match self.find_global(&name) {
            Some(i) => {
                self.globals[i] = Global { name, value };
                proof {
                    lemma_table_update(before, i as int, self.globals@[i as int]);
                }
            },
            None => {
                self.globals.push(Global { name, value });
                proof {
                    lemma_table_push(before, self.globals@.last());
                }
            },
        }
    }

    /// The name that the constant at `index` holds, if it holds one.
    fn name_at(&self, index: usize) -> (r: Option<String>)
        requires
            self.frames.len() > 0,
        ensures
            match r {
                Some(name) => index < self@.chunk().constants.len()
                    && self@.chunk().constants[index as int] == ValueView::String(name@),
                None => index >= self@.chunk().constants.len()
                    || !(self@.chunk().constants[index as int] is String),
            },
    {
        let n = self.frames.len();
        let constants = &self.frames[n - 1].function.chunk.constants;
        if index < constants.len() {
            match &constants[index] {
                Value::String(name) => Some(name.clone()),
                _ => None,
            }
        } else {
            None
        }
    }

    #[verifier::rlimit(50)]
    fn define_global(&mut self, index: usize, at: usize) -> (r: Signal)
        requires
            old(self).wf(),
            old(self).frames.len() > 0,
        ensures
            final(self).wf(),
            (final(self)@, r@) == old(self)@.define_global(index as int, at as int),
    {
        match self.name_at(index) {
            Some(name) => {
                if self.stack.len() == 0 {
                    return self.runtime_error(Cause::StackUnderflow, at);
                }
                let value = self.pop();
                self.bind(name, value);
                Signal::Continue
            },
            None => {
                let n = self.frames.len();
                let constants = &self.frames[n - 1].function.chunk.constants;
                if index < constants.len() {
                    match &constants[index] {
                        Value::Function(f) => {
                            let name = f.name.clone();
                            let value = Value::Function(f.duplicate());
                            self.bind(name, value);
                            Signal::Continue
                        },
                        _ => self.runtime_error(Cause::BadConstant, at),
                    }
                } else {
                    self.runtime_error(Cause::BadConstant, at)
                }
            },
        }
    }

    #[verifier::rlimit(50)]
    fn get_global(&mut self, index: usize, at: usize) -> (r: Signal)
        requires
            old(self).wf(),
            old(self).frames.len() > 0,
        ensures
            final(self).wf(),
            (final(self)@, r@) == old(self)@.get_global(index as int, at as int),
    {
        match self.name_at(index) {
            Some(name) => {
                match self.find_global(&name) {
                    Some(i) => {
                        proof {
                            lemma_table_lookup(self.globals@, i as int);
                        }
                        let value = self.globals[i].value.duplicate();
                        self.push(value);
                        Signal::Continue
                    },
                    None => {
                        proof {
                            lemma_table_absent(self.globals@, name@);
                        }
                        self.fault(Cause::UndefinedVariable, at, name)
                    },
                }
            },
            None => self.runtime_error(Cause::BadConstant, at),
        }
    }

    fn set_global(&mut self, index: usize, at: usize) -> (r: Signal)
        requires
            old(self).wf(),
            old(self).frames.len() > 0,
        ensures
            final(self).wf(),
            (final(self)@, r@) == old(self)@.set_global(index as int, at as int),
    {
        match self.name_at(index) {
            Some(name) => {
                if self.stack.len() == 0 {
                    return self.runtime_error(Cause::StackUnderflow, at);
                }
                let value = self.peek(0).duplicate();
                self.bind(name, value);
                Signal::Continue
            },
            None => self.runtime_error(Cause::BadConstant, at),
        }
    }

    /// What the programs run so far have printed, in order.
    pub fn output(&self) -> (r: &Vec<Value>)
        ensures
            views(r@) == self@.output,
    {
        &self.output
    }

    /// Hands over what has been printed and starts a new record.
    pub fn take_output(&mut self) -> (r: Vec<Value>)
        ensures
            views(r@) == old(self)@.output,
            final(self)@ == (VmView { output: Seq::empty(), ..old(self)@ }),
            final(self).wf() == old(self).wf(),
    {
        let mut out: Vec<Value> = Vec::new();
        std::mem::swap(&mut out, &mut self.output);
        assert(self@.output =~= Seq::empty());
        out
    }

    /// The operand stack, its top last.
    pub fn stack(&self) -> (r: &Vec<Value>)
        ensures
            views(r@) == self@.stack,
    {
        &self.stack
    }

    /// The value of a global variable, if it is defined.
    pub fn global(&self, name: &String) -> (r: Option<&Value>)
        requires
            self.wf(),
        ensures
            match r {
                Some(value) => self@.globals.dom().contains(name@) && self@.globals[name@]
                    == value@,
                None => !self@.globals.dom().contains(name@),
            },
    {
        match self.find_global(name) {
            Some(i) => {
                proof {
                    lemma_table_lookup(self.globals@, i as int);
                }
                Some(&self.globals[i].value)
            },
            None => {
                proof {
                    lemma_table_absent(self.globals@, name@);
                }
                None
            },
        }
    }

    /// How many calls are active.
    pub fn depth(&self) -> (r: usize)
        ensures
            r == self@.frames.len(),
    {
        self.frames.len()
    }
}

/// Where a jump lands. A `Jump` whose operand bytes spell `offset` moves the
/// instruction pointer to `offset` bytes behind the operand and changes
/// nothing else. A `JumpIfFalse` does the same where the top of the stack is
/// falsy, and goes on behind its operand where it is truthy; it leaves the
/// stack as it is either way.
#[verifier::rlimit(50)]
pub proof fn lemma_jump_lands(m: VmView, answer: Option<u64>)
    requires
        m.frames.len() > 0,
        0 <= m.top().ip,
        m.top().ip + 2 < m.chunk().code.len(),
        decode(m.chunk().code[m.top().ip]) == Opcode::Jump || decode(m.chunk().code[m.top().ip])
            == Opcode::JumpIfFalse,
    ensures
        ({
            let at = m.top().ip;
            let code = m.chunk().code;
            let behind = at + 3;
            let target = behind + short(code[at + 1], code[at + 2]);
            let taken = decode(code[at]) == Opcode::Jump || m.peek(0).falsey();
            &&& decode(code[at]) == Opcode::JumpIfFalse && m.stack.len() == 0 ==> m.step(answer)
                == m.fail(Cause::StackUnderflow, at)
            &&& (decode(code[at]) == Opcode::Jump || m.stack.len() > 0) ==> {
                &&& taken && target <= code.len() ==> m.step(answer) == (
                    m.at(target),
                    SignalView::Continue,
                )
                &&& taken && target > code.len() ==> m.step(answer) == m.fail(Cause::BadJump, at)
                &&& !taken ==> m.step(answer) == (m.at(behind), SignalView::Continue)
            }
        }),
{
    let at = m.top().ip;
    let next = m.at(at + 3);
    assert(next.top().ip == at + 3);
    assert(next.chunk() == m.chunk());
    assert(next.at(at + 3).frames =~= next.frames);
    assert(next.halted() == m.halted());
    let target = at + 3 + short(m.chunk().code[at + 1], m.chunk().code[at + 2]);
    assert(next.at(target).frames =~= m.at(target).frames);
}

/// How a step ends. Where the machine asks its host it stays as it was, in
/// front of the instruction. Where an instruction fails, the stack and the
/// frames are dropped, and the variables and the output stay. Where the run
/// is done, no frame is left. A step never takes back output.
#[verifier::rlimit(50)]
pub proof fn lemma_step_outcome(m: VmView, answer: Option<u64>)
    ensures
        ({
            let (next, signal) = m.step(answer);
            &&& signal is Needs ==> next == m && answer is None
            &&& signal is Failed ==> next == m.halted()
            &&& signal is Done ==> next.frames.len() == 0 && next.stack == m.stack && next.globals
                == m.globals && next.output == m.output
            &&& m.output.len() <= next.output.len()
            &&& forall|i: int| 0 <= i < m.output.len() ==> next.output[i] == m.output[i]
        }),
{
    if m.frames.len() > 0 {
        let at = m.top().ip;
        let code = m.chunk().code;
        if at < code.len() {
            let op = decode(code[at]);
            let width = op.operand_width();
            if at + width < code.len() {
                let behind = m.at(at + 1 + width);
                assert(behind.halted() == m.halted());
                assert(behind.at(at).frames =~= m.frames);
                assert(behind.at(at) == m);
                assert(behind.chunk() == m.chunk());
            }
        }
    }
}

/// A budget can be spent in parts: running for `a + b` steps is running for
/// `a` steps and, if the machine then says `Continue`, for `b` more. An
/// answer goes to the first step that is run, so it must not be handed to a
/// part without steps.
pub proof fn lemma_run_in_parts(m: VmView, answer: Option<u64>, a: nat, b: nat)
    requires
        a > 0 || answer is None,
    ensures
        m.run(answer, a + b) == ({
            let (next, signal) = m.run(answer, a);
            if signal is Continue {
                next.run(None, b)
            } else {
                (next, signal)
            }
        }),
    decreases a,
{
    if a > 0 {
        let (next, signal) = m.step(answer);
        if signal is Continue {
            lemma_run_in_parts(next, None, (a - 1) as nat, b);
        }
    }
}

/// The machine ignores an answer unless it asked: where it would ask without
/// one, the answer completes the instruction, and where it would not, the
/// step is the same with and without it.
pub proof fn lemma_answer_only_where_asked(m: VmView, r: u64)
    ensures
        !(m.step(None).1 is Needs) ==> m.step(Some(r)) == m.step(None),
        m.step(None).1 is Needs ==> m.step(Some(r)).1 is Continue,
{
}

/// Arithmetic and ordering do not take a boolean for a number: with a
/// boolean on either side and a number or a boolean on the other, `+`, `-`,
/// `*`, `/`, `%`, `<` and `>` fail, while `&` and `|` count the boolean as
/// one.
pub proof fn lemma_boolean_operands(m: VmView, op: Operator, at: int, answer: Option<u64>)
    requires
        m.stack.len() >= 2,
        m.peek(1) is Bool || m.peek(0) is Bool,
        numeric(m.peek(1)) is Some,
        numeric(m.peek(0)) is Some,
    ensures
        !op.is_bitwise() && !op.is_logical() ==> m.binary_op(op, at, answer) == m.fail(
            Cause::OperandsMustBeNumbers,
            at,
        ),
        op.is_bitwise() && !number::fractional(numeric(m.peek(1))->0) && !number::fractional(
            numeric(m.peek(0))->0,
        ) ==> m.binary_op(op, at, answer) == m.ask(
            op,
            numeric(m.peek(1))->0,
            numeric(m.peek(0))->0,
            at,
            answer,
        ),
        m.peek(1) is Bool ==> numeric(m.peek(1)) == Some(number::ONE),
        m.peek(0) is Bool ==> numeric(m.peek(0)) == Some(number::ONE),
{
}

/// A name that stands in the list is in the table, with the value that
/// stands beside it.
proof fn lemma_table_lookup(entries: Seq<Global>, i: int)
    requires
        distinct(entries),
        0 <= i < entries.len(),
    ensures
        table(entries).dom().contains(entries[i].name@),
        table(entries)[entries[i].name@] == entries[i].value@,
{
    let k = entries[i].name@;
    let j = choose|j: int| 0 <= j < entries.len() && entries[j].name@ == k;
    assert(j == i);
}

/// A name that stands nowhere in the list is not in the table.
proof fn lemma_table_absent(entries: Seq<Global>, k: Seq<char>)
    requires
        forall|i: int| 0 <= i < entries.len() ==> entries[i].name@ != k,
    ensures
        !table(entries).dom().contains(k),
{
}

/// A new value beside a name that stands in the list is an insertion.
proof fn lemma_table_update(entries: Seq<Global>, i: int, g: Global)
    requires
        distinct(entries),
        0 <= i < entries.len(),
        g.name@ == entries[i].name@,
    ensures
        distinct(entries.update(i, g)),
        table(entries.update(i, g)) == table(entries).insert(g.name@, g.value@),
{
    let after = entries.update(i, g);
    assert(distinct(after)) by {
        assert forall|a: int, b: int|
            0 <= a < after.len() && 0 <= b < after.len() && a != b implies after[a].name@
            != after[b].name@ by {
            assert(after[a].name@ == entries[a].name@);
            assert(after[b].name@ == entries[b].name@);
        }
    }
    assert forall|k: Seq<char>| #[trigger]
        table(after).dom().contains(k) == table(entries).insert(g.name@, g.value@).dom().contains(
            k,
        ) by {
        if table(after).dom().contains(k) {
            let j = choose|j: int| 0 <= j < after.len() && after[j].name@ == k;
            assert(entries[j].name@ == k);
        }
        if table(entries).dom().contains(k) {
            let j = choose|j: int| 0 <= j < entries.len() && entries[j].name@ == k;
            assert(after[j].name@ == k);
        }
        if k == g.name@ {
            assert(after[i].name@ == k);
        }
    }
    assert forall|k: Seq<char>| #[trigger]
        table(after).dom().contains(k) implies table(after)[k] == table(entries).insert(
        g.name@,
        g.value@,
    )[k] by {
        let j = choose|j: int| 0 <= j < after.len() && after[j].name@ == k;
        lemma_table_lookup(after, j);
        if j == i {
        } else {
            assert(after[j] == entries[j]);
            lemma_table_lookup(entries, j);
        }
    }
    assert(table(after) =~= table(entries).insert(g.name@, g.value@));
}

/// A new name at the end of the list is an insertion.
proof fn lemma_table_push(entries: Seq<Global>, g: Global)
    requires
        distinct(entries),
        forall|i: int| 0 <= i < entries.len() ==> entries[i].name@ != g.name@,
    ensures
        distinct(entries.push(g)),
        table(entries.push(g)) == table(entries).insert(g.name@, g.value@),
{
    let after = entries.push(g);
    assert(distinct(after)) by {
        assert forall|a: int, b: int|
            0 <= a < after.len() && 0 <= b < after.len() && a != b implies after[a].name@
            != after[b].name@ by {
            if a < entries.len() {
                assert(after[a] == entries[a]);
            }
            if b < entries.len() {
                assert(after[b] == entries[b]);
            }
        }
    }
    assert forall|k: Seq<char>| #[trigger]
        table(after).dom().contains(k) == table(entries).insert(g.name@, g.value@).dom().contains(
            k,
        ) by {
        if table(after).dom().contains(k) {
            let j = choose|j: int| 0 <= j < after.len() && after[j].name@ == k;
            if j < entries.len() {
                assert(entries[j].name@ == k);
            }
        }
        if table(entries).dom().contains(k) {
            let j = choose|j: int| 0 <= j < entries.len() && entries[j].name@ == k;
            assert(after[j].name@ == k);
        }
        if k == g.name@ {
            assert(after[entries.len() as int].name@ == k);
        }
    }
    assert forall|k: Seq<char>| #[trigger]
        table(after).dom().contains(k) implies table(after)[k] == table(entries).insert(
        g.name@,
        g.value@,
    )[k] by {
        let j = choose|j: int| 0 <= j < after.len() && after[j].name@ == k;
        lemma_table_lookup(after, j);
        if j < entries.len() {
            assert(after[j] == entries[j]);
            lemma_table_lookup(entries, j);
        }
    }
    assert(table(after) =~= table(entries).insert(g.name@, g.value@));
}

} // verus!
