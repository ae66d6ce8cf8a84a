use topaz::chunk::Chunk;
use topaz::function::{Function, FunctionType};
use topaz::opcode::Opcode;
use topaz::operator::Operator;
use topaz::value::Value;
use topaz::vm::{CallFrame, Cause, Fault, InterpretError, Signal, Vm};

fn host(op: Operator, a: u64, b: u64) -> u64 {
    let x = f64::from_bits(a);
    let y = f64::from_bits(b);
    let result = match op {
        Operator::Plus => x + y,
        Operator::Minus => x - y,
        Operator::Star => x * y,
        Operator::Slash => x / y,
        Operator::Mod => x % y,
        Operator::Amp => ((x.round() as i64) & (y.round() as i64)) as f64,
        Operator::Pipe => ((x.round() as i64) | (y.round() as i64)) as f64,
        _ => unreachable!("the machine compares by itself"),
    };
    result.to_bits()
}

fn finish(vm: &mut Vm, first: Signal) -> Signal {
    let mut signal = first;
    loop {
        match signal {
            Signal::Needs(op, a, b) => signal = vm.resume(Some(host(op, a, b)), usize::MAX),
            Signal::Continue => signal = vm.resume(None, usize::MAX),
            other => return other,
        }
    }
}

fn run(vm: &mut Vm, function: Function) -> Signal {
    let first = vm.run(function, usize::MAX);
    finish(vm, first)
}

fn num(x: f64) -> Value {
    Value::Number(x.to_bits())
}

fn text(s: &str) -> Value {
    Value::String(String::from(s))
}

fn script(code: &[u8], constants: Vec<Value>) -> Function {
    let mut function = Function::new(String::from("script"), FunctionType::Script);
    for (index, byte) in code.iter().enumerate() {
        function.chunk.write(*byte, index + 1);
    }
    for constant in constants {
        function.chunk.add_constant(constant);
    }
    function
}

fn op(o: Opcode) -> u8 {
    o.to_u8()
}

fn printed(code: &[u8], constants: Vec<Value>) -> Vec<Value> {
    let mut vm = Vm::new();
    let signal = run(&mut vm, script(code, constants));
    assert!(matches!(signal, Signal::Done), "{:?}", signal);
    vm.take_output()
}

fn fault(code: &[u8], constants: Vec<Value>) -> Fault {
    let mut vm = Vm::new();
    match run(&mut vm, script(code, constants)) {
        Signal::Failed(fault) => {
            assert!(vm.stack().is_empty());
            assert_eq!(vm.depth(), 0);
            fault
        }
        other => panic!("{:?}", other),
    }
}

fn binary(o: Opcode) -> Vec<u8> {
    vec![
        op(Opcode::Constant),
        0,
        op(Opcode::Constant),
        1,
        op(o),
        op(Opcode::Print),
        op(Opcode::Return),
    ]
}

fn apply(left: Value, right: Value, o: Opcode) -> Value {
    let code = binary(o);
    let mut out = printed(&code, vec![left, right]);
    assert_eq!(out.len(), 1);
    out.remove(0)
}

fn refuse(left: Value, right: Value, o: Opcode) -> Cause {
    let code = binary(o);
    let fault = fault(&code, vec![left, right]);
    assert_eq!(fault.line, 5);
    fault.cause
}

fn same(a: &Value, b: &Value) -> bool {
    a.identical(b)
}

#[test]
fn constants_added_divided_and_negated() {
    let code = [
        op(Opcode::Constant),
        0,
        op(Opcode::Constant),
        1,
        op(Opcode::Add),
        op(Opcode::Constant),
        2,
        op(Opcode::Divide),
        op(Opcode::Negate),
        op(Opcode::Print),
        op(Opcode::Return),
    ];
    let out = printed(&code, vec![num(1.2), num(3.4), num(5.6)]);
    assert_eq!(out.len(), 1);
    assert!(same(&out[0], &num(-((1.2 + 3.4) / 5.6))));
    match &out[0] {
        Value::Number(bits) => assert_eq!(f64::from_bits(*bits), -0.8214285714285714),
        other => panic!("{:?}", other),
    }
}

#[test]
fn true_plus_one_is_a_runtime_error() {
    let code = [op(Opcode::True), op(Opcode::Constant), 0, op(Opcode::Add), op(Opcode::Return)];
    let fault = fault(&code, vec![num(1.0)]);
    assert_eq!(fault.cause, Cause::OperandsMustBeNumbers);
    assert_eq!(fault.cause.kind(), InterpretError::RuntimeError);
    assert_eq!(fault.cause.message(), "operands must be numbers");
    assert_eq!(fault.line, 4);
    assert_eq!(fault.subject, "");
}

#[test]
fn a_new_machine_is_empty() {
    let mut vm = Vm::new();
    assert!(vm.stack().is_empty());
    assert!(vm.output().is_empty());
    assert_eq!(vm.depth(), 0);
    assert!(vm.global(&String::from("x")).is_none());
    assert!(matches!(vm.step(None), Signal::Done));
    assert!(matches!(vm.resume(None, 10), Signal::Done));
}

#[test]
fn the_machine_asks_and_waits() {
    let mut vm = Vm::new();
    let code = [op(Opcode::Constant), 0, op(Opcode::Constant), 1, op(Opcode::Subtract), op(Opcode::Return)];
    let first = vm.run(script(&code, vec![num(10.0), num(4.0)]), usize::MAX);
    match first {
        Signal::Needs(o, a, b) => {
            assert_eq!(o, Operator::Minus);
            assert_eq!(a, 10.0f64.to_bits());
            assert_eq!(b, 4.0f64.to_bits());
        }
        other => panic!("{:?}", other),
    }
    assert_eq!(vm.stack().len(), 2);
    assert!(matches!(vm.step(None), Signal::Needs(Operator::Minus, _, _)));
    assert!(matches!(vm.resume(None, 5), Signal::Needs(Operator::Minus, _, _)));
    assert_eq!(vm.stack().len(), 2);
    assert!(matches!(vm.step(Some(6.0f64.to_bits())), Signal::Continue));
    assert_eq!(vm.stack().len(), 1);
    assert!(same(&vm.stack()[0], &num(6.0)));
    assert!(matches!(vm.step(None), Signal::Done));
    assert_eq!(vm.depth(), 0);
    assert_eq!(vm.stack().len(), 1);
}

#[test]
fn an_answer_nobody_asked_for_is_ignored() {
    let mut vm = Vm::new();
    let code = [op(Opcode::Nil), op(Opcode::Return)];
    assert!(matches!(vm.run(script(&code, vec![]), 0), Signal::Continue));
    assert!(matches!(vm.step(Some(1.0f64.to_bits())), Signal::Continue));
    assert_eq!(vm.stack().len(), 1);
    assert!(same(&vm.stack()[0], &Value::Nil));
}

#[test]
fn the_budget_bounds_a_run() {
    let mut vm = Vm::new();
    let code = [op(Opcode::Nil), op(Opcode::Pop), op(Opcode::Loop), 0, 5];
    assert!(matches!(vm.run(script(&code, vec![]), 0), Signal::Continue));
    assert_eq!(vm.depth(), 1);
    assert!(vm.stack().is_empty());
    assert!(matches!(vm.resume(None, 1), Signal::Continue));
    assert_eq!(vm.stack().len(), 1);
    assert!(matches!(vm.resume(None, 1000), Signal::Continue));
    assert!(matches!(vm.resume(None, 3), Signal::Continue));
    assert_eq!(vm.depth(), 1);
}

#[test]
fn a_budget_in_parts_is_a_budget_in_one() {
    let code = [
        op(Opcode::True),
        op(Opcode::Not),
        op(Opcode::Print),
        op(Opcode::Nil),
        op(Opcode::Print),
        op(Opcode::Return),
    ];
    let mut whole = Vm::new();
    assert!(matches!(whole.run(script(&code, vec![]), 6), Signal::Done));
    let mut parts = Vm::new();
    assert!(matches!(parts.run(script(&code, vec![]), 2), Signal::Continue));
    assert!(matches!(parts.resume(None, 3), Signal::Continue));
    assert!(matches!(parts.resume(None, 1), Signal::Done));
    assert_eq!(whole.output().len(), 2);
    assert_eq!(parts.output().len(), 2);
    assert!(same(&whole.output()[0], &parts.output()[0]));
    assert!(same(&whole.output()[1], &parts.output()[1]));
    assert!(same(&parts.output()[0], &Value::Bool(false)));
}

#[test]
fn literals_are_pushed() {
    let code = [
        op(Opcode::Nil),
        op(Opcode::Print),
        op(Opcode::True),
        op(Opcode::Print),
        op(Opcode::False),
        op(Opcode::Print),
        op(Opcode::Constant),
        0,
        op(Opcode::Print),
        op(Opcode::Return),
    ];
    let out = printed(&code, vec![text("k")]);
    assert_eq!(out.len(), 4);
    assert!(same(&out[0], &Value::Nil));
    assert!(same(&out[1], &Value::Bool(true)));
    assert!(same(&out[2], &Value::Bool(false)));
    assert!(same(&out[3], &text("k")));
}

#[test]
fn negate_flips_the_sign_of_a_number() {
    let code = [op(Opcode::Constant), 0, op(Opcode::Negate), op(Opcode::Print), op(Opcode::Return)];
    assert!(same(&printed(&code, vec![num(2.5)])[0], &num(-2.5)));
    assert!(same(&printed(&code, vec![num(0.0)])[0], &num(-0.0)));
    assert!(same(&printed(&code, vec![num(f64::NEG_INFINITY)])[0], &num(f64::INFINITY)));
    let fault = fault(&code, vec![text("2.5")]);
    assert_eq!(fault.cause, Cause::OperandMustBeNumber);
    assert_eq!(fault.cause.message(), "Operand must be a number");
    assert_eq!(fault.line, 3);
    assert_eq!(self::fault(&code, vec![Value::Bool(true)]).cause, Cause::OperandMustBeNumber);
    assert_eq!(self::fault(&code, vec![Value::Nil]).cause, Cause::OperandMustBeNumber);
}

#[test]
fn not_goes_by_falsiness() {
    let code = [op(Opcode::Constant), 0, op(Opcode::Not), op(Opcode::Print), op(Opcode::Return)];
    assert!(same(&printed(&code, vec![Value::Nil])[0], &Value::Bool(true)));
    assert!(same(&printed(&code, vec![Value::Bool(false)])[0], &Value::Bool(true)));
    assert!(same(&printed(&code, vec![num(0.0)])[0], &Value::Bool(true)));
    assert!(same(&printed(&code, vec![text("")])[0], &Value::Bool(true)));
    assert!(same(&printed(&code, vec![Value::Bool(true)])[0], &Value::Bool(false)));
    assert!(same(&printed(&code, vec![num(0.1)])[0], &Value::Bool(false)));
    assert!(same(&printed(&code, vec![text("0")])[0], &Value::Bool(false)));
}

#[test]
fn arithmetic_on_numbers_goes_to_the_host() {
    assert!(same(&apply(num(7.5), num(2.0), Opcode::Add), &num(9.5)));
    assert!(same(&apply(num(7.5), num(2.0), Opcode::Subtract), &num(5.5)));
    assert!(same(&apply(num(7.5), num(2.0), Opcode::Multiply), &num(15.0)));
    assert!(same(&apply(num(7.5), num(2.0), Opcode::Divide), &num(3.75)));
    assert!(same(&apply(num(7.5), num(2.0), Opcode::Mod), &num(1.5)));
    assert!(same(&apply(num(1.0), num(0.0), Opcode::Divide), &num(f64::INFINITY)));
    assert!(same(&apply(num(0.1), num(0.2), Opcode::Add), &num(0.1 + 0.2)));
}

#[test]
fn numbers_are_compared_by_the_machine() {
    assert!(same(&apply(num(1.0), num(2.0), Opcode::Less), &Value::Bool(true)));
    assert!(same(&apply(num(2.0), num(1.0), Opcode::Less), &Value::Bool(false)));
    assert!(same(&apply(num(2.0), num(2.0), Opcode::Less), &Value::Bool(false)));
    assert!(same(&apply(num(1.0), num(2.0), Opcode::Greater), &Value::Bool(false)));
    assert!(same(&apply(num(2.0), num(1.0), Opcode::Greater), &Value::Bool(true)));
    assert!(same(&apply(num(-1.0), num(-2.0), Opcode::Greater), &Value::Bool(true)));
    assert!(same(&apply(num(-0.0), num(0.0), Opcode::Less), &Value::Bool(false)));
    assert!(same(&apply(num(f64::NAN), num(0.0), Opcode::Less), &Value::Bool(false)));
    assert!(same(&apply(num(f64::NAN), num(0.0), Opcode::Greater), &Value::Bool(false)));
}

#[test]
fn equal_compares_by_variant_and_value() {
    assert!(same(&apply(num(1.0), num(1.0), Opcode::Equal), &Value::Bool(true)));
    assert!(same(&apply(num(1.0), num(2.0), Opcode::Equal), &Value::Bool(false)));
    assert!(same(&apply(num(0.0), num(-0.0), Opcode::Equal), &Value::Bool(true)));
    assert!(same(&apply(num(f64::NAN), num(f64::NAN), Opcode::Equal), &Value::Bool(false)));
    assert!(same(&apply(text("a"), text("a"), Opcode::Equal), &Value::Bool(true)));
    assert!(same(&apply(text("a"), text("b"), Opcode::Equal), &Value::Bool(false)));
    assert!(same(&apply(Value::Nil, Value::Nil, Opcode::Equal), &Value::Bool(true)));
    assert!(same(&apply(Value::Nil, Value::Bool(false), Opcode::Equal), &Value::Bool(false)));
    assert!(same(&apply(num(1.0), Value::Bool(true), Opcode::Equal), &Value::Bool(false)));
    assert!(same(&apply(num(1.0), text("1"), Opcode::Equal), &Value::Bool(false)));
    assert!(same(&apply(Value::Bool(true), Value::Bool(true), Opcode::Equal), &Value::Bool(true)));
}

#[test]
fn a_boolean_is_no_number_for_arithmetic_and_order() {
    let ops = [
        Opcode::Add,
        Opcode::Subtract,
        Opcode::Multiply,
        Opcode::Divide,
        Opcode::Mod,
        Opcode::Greater,
        Opcode::Less,
    ];
    for o in ops {
        assert_eq!(refuse(Value::Bool(true), num(1.0), o), Cause::OperandsMustBeNumbers);
        assert_eq!(refuse(num(1.0), Value::Bool(false), o), Cause::OperandsMustBeNumbers);
        assert_eq!(refuse(Value::Bool(true), Value::Bool(true), o), Cause::OperandsMustBeNumbers);
    }
}

#[test]
fn a_boolean_counts_as_one_for_bit_operators() {
    assert!(same(&apply(Value::Bool(true), num(3.0), Opcode::BitwiseAnd), &num(1.0)));
    assert!(same(&apply(Value::Bool(false), num(3.0), Opcode::BitwiseAnd), &num(1.0)));
    assert!(same(&apply(num(2.0), Value::Bool(true), Opcode::BitwiseAnd), &num(0.0)));
    assert!(same(&apply(num(2.0), Value::Bool(false), Opcode::BitwiseOr), &num(3.0)));
    assert!(same(&apply(Value::Bool(false), Value::Bool(false), Opcode::BitwiseAnd), &num(1.0)));
    assert!(same(&apply(Value::Bool(true), Value::Bool(true), Opcode::BitwiseOr), &num(1.0)));
}

#[test]
fn bit_operators_take_whole_numbers() {
    assert!(same(&apply(num(5.0), num(3.0), Opcode::BitwiseAnd), &num(1.0)));
    assert!(same(&apply(num(5.0), num(3.0), Opcode::BitwiseOr), &num(7.0)));
    assert!(same(&apply(num(-1.0), num(255.0), Opcode::BitwiseAnd), &num(255.0)));
    assert!(same(&apply(num(0.0), num(0.0), Opcode::BitwiseOr), &num(0.0)));
    assert_eq!(refuse(num(5.5), num(3.0), Opcode::BitwiseAnd), Cause::FractionalOperand);
    assert_eq!(refuse(num(5.0), num(0.25), Opcode::BitwiseOr), Cause::FractionalOperand);
    assert_eq!(refuse(Value::Bool(true), num(0.5), Opcode::BitwiseAnd), Cause::FractionalOperand);
    assert_eq!(refuse(num(1.5), Value::Bool(true), Opcode::BitwiseOr), Cause::FractionalOperand);
    assert_eq!(refuse(text("a"), text("b"), Opcode::BitwiseAnd), Cause::NoStringOperation);
    assert_eq!(refuse(Value::Nil, num(1.0), Opcode::BitwiseOr), Cause::OperandsMustBeNumbers);
}

#[test]
fn logical_operators_go_by_truthiness() {
    let yes = Value::Bool(true);
    let no = Value::Bool(false);
    assert!(same(&apply(num(1.0), num(2.0), Opcode::LogicalAnd), &yes));
    assert!(same(&apply(num(1.0), num(0.0), Opcode::LogicalAnd), &no));
    assert!(same(&apply(num(0.0), num(0.0), Opcode::LogicalOr), &no));
    assert!(same(&apply(num(0.0), num(3.0), Opcode::LogicalOr), &yes));
    assert!(same(&apply(Value::Bool(true), num(0.0), Opcode::LogicalAnd), &no));
    assert!(same(&apply(Value::Bool(false), num(1.0), Opcode::LogicalAnd), &no));
    assert!(same(&apply(Value::Bool(false), num(1.0), Opcode::LogicalOr), &yes));
    assert!(same(&apply(num(1.0), Value::Bool(true), Opcode::LogicalAnd), &yes));
    assert!(same(&apply(Value::Bool(true), Value::Bool(false), Opcode::LogicalAnd), &no));
    assert!(same(&apply(Value::Bool(true), Value::Bool(false), Opcode::LogicalOr), &yes));
    assert!(same(&apply(text("a"), text(""), Opcode::LogicalAnd), &no));
    assert!(same(&apply(text("a"), text("b"), Opcode::LogicalAnd), &yes));
    assert!(same(&apply(text(""), text(""), Opcode::LogicalOr), &no));
    assert!(same(&apply(text(""), text("b"), Opcode::LogicalOr), &yes));
    assert!(same(&apply(Value::Nil, num(1.0), Opcode::LogicalOr), &yes));
    assert!(same(&apply(Value::Nil, text("a"), Opcode::LogicalAnd), &no));
}

#[test]
fn strings_are_joined_by_plus_only() {
    assert!(same(&apply(text("foo"), text("bar"), Opcode::Add), &text("foobar")));
    assert!(same(&apply(text(""), text("é"), Opcode::Add), &text("é")));
    let ops = [
        Opcode::Subtract,
        Opcode::Multiply,
        Opcode::Divide,
        Opcode::Mod,
        Opcode::Greater,
        Opcode::Less,
        Opcode::BitwiseAnd,
        Opcode::BitwiseOr,
    ];
    for o in ops {
        assert_eq!(refuse(text("a"), text("b"), o), Cause::NoStringOperation);
    }
    assert_eq!(refuse(text("a"), num(1.0), Opcode::Add), Cause::OperandsMustBeNumbers);
    assert_eq!(refuse(num(1.0), text("a"), Opcode::Add), Cause::OperandsMustBeNumbers);
    assert_eq!(refuse(Value::Nil, Value::Nil, Opcode::Add), Cause::OperandsMustBeNumbers);
    assert_eq!(refuse(text("a"), Value::Bool(true), Opcode::Less), Cause::OperandsMustBeNumbers);
}

#[test]
fn globals_are_defined_read_and_set() {
    let code = [
        op(Opcode::Constant),
        1,
        op(Opcode::DefineGlobal),
        0,
        op(Opcode::GetGlobal),
        0,
        op(Opcode::Print),
        op(Opcode::Constant),
        2,
        op(Opcode::SetGlobal),
        0,
        op(Opcode::Pop),
        op(Opcode::GetGlobal),
        0,
        op(Opcode::Print),
        op(Opcode::Return),
    ];
    let mut vm = Vm::new();
    let signal = run(&mut vm, script(&code, vec![text("x"), num(1.0), text("two")]));
    assert!(matches!(signal, Signal::Done));
    assert!(vm.stack().is_empty());
    assert_eq!(vm.output().len(), 2);
    assert!(same(&vm.output()[0], &num(1.0)));
    assert!(same(&vm.output()[1], &text("two")));
    assert!(same(vm.global(&String::from("x")).unwrap(), &text("two")));
    assert!(vm.global(&String::from("y")).is_none());
}

#[test]
fn set_global_leaves_the_value_on_the_stack() {
    let code = [op(Opcode::Constant), 1, op(Opcode::SetGlobal), 0, op(Opcode::Return)];
    let mut vm = Vm::new();
    assert!(matches!(run(&mut vm, script(&code, vec![text("x"), num(4.0)])), Signal::Done));
    assert_eq!(vm.stack().len(), 1);
    assert!(same(&vm.stack()[0], &num(4.0)));
    assert!(same(vm.global(&String::from("x")).unwrap(), &num(4.0)));
}

#[test]
fn globals_outlive_a_run() {
    let mut vm = Vm::new();
    let define = [op(Opcode::Constant), 1, op(Opcode::DefineGlobal), 0, op(Opcode::Return)];
    assert!(matches!(run(&mut vm, script(&define, vec![text("kept"), num(9.0)])), Signal::Done));
    let read = [op(Opcode::GetGlobal), 0, op(Opcode::Print), op(Opcode::Return)];
    assert!(matches!(run(&mut vm, script(&read, vec![text("kept")])), Signal::Done));
    assert!(same(&vm.output()[0], &num(9.0)));
    let fail = [op(Opcode::Nil), op(Opcode::Negate), op(Opcode::Return)];
    assert!(matches!(run(&mut vm, script(&fail, vec![])), Signal::Failed(_)));
    assert!(same(vm.global(&String::from("kept")).unwrap(), &num(9.0)));
    assert_eq!(vm.output().len(), 1);
    let out = vm.take_output();
    assert_eq!(out.len(), 1);
    assert!(vm.output().is_empty());
}

#[test]
fn an_undefined_variable_is_named() {
    let code = [op(Opcode::Nil), op(Opcode::Pop), op(Opcode::GetGlobal), 0, op(Opcode::Return)];
    let fault = fault(&code, vec![text("missing")]);
    assert_eq!(fault.cause, Cause::UndefinedVariable);
    assert_eq!(fault.cause.message(), "Undefined variable");
    assert_eq!(fault.subject, "missing");
    assert_eq!(fault.line, 3);
}

#[test]
fn a_global_needs_a_name() {
    let get = [op(Opcode::GetGlobal), 0, op(Opcode::Return)];
    assert_eq!(fault(&get, vec![num(1.0)]).cause, Cause::BadConstant);
    assert_eq!(fault(&get, vec![]).cause, Cause::BadConstant);
    let set = [op(Opcode::Nil), op(Opcode::SetGlobal), 0, op(Opcode::Return)];
    assert_eq!(fault(&set, vec![Value::Nil]).cause, Cause::BadConstant);
    let define = [op(Opcode::Nil), op(Opcode::DefineGlobal), 1, op(Opcode::Return)];
    assert_eq!(fault(&define, vec![text("x")]).cause, Cause::BadConstant);
    let define = [op(Opcode::Nil), op(Opcode::DefineGlobal), 0, op(Opcode::Return)];
    assert_eq!(fault(&define, vec![Value::Bool(true)]).cause, Cause::BadConstant);
    let empty = [op(Opcode::DefineGlobal), 0, op(Opcode::Return)];
    assert_eq!(fault(&empty, vec![text("x")]).cause, Cause::StackUnderflow);
    let empty = [op(Opcode::SetGlobal), 0, op(Opcode::Return)];
    assert_eq!(fault(&empty, vec![text("x")]).cause, Cause::StackUnderflow);
}

#[test]
fn locals_are_slots_above_the_base() {
    let code = [
        op(Opcode::Constant),
        0,
        op(Opcode::Constant),
        1,
        op(Opcode::GetLocal),
        0,
        op(Opcode::Print),
        op(Opcode::GetLocal),
        1,
        op(Opcode::SetLocal),
        0,
        op(Opcode::Pop),
        op(Opcode::GetLocal),
        0,
        op(Opcode::Print),
        op(Opcode::Return),
    ];
    let mut vm = Vm::new();
    assert!(matches!(run(&mut vm, script(&code, vec![num(1.0), num(2.0)])), Signal::Done));
    assert!(same(&vm.output()[0], &num(1.0)));
    assert!(same(&vm.output()[1], &num(2.0)));
    assert_eq!(vm.stack().len(), 2);
    assert!(same(&vm.stack()[0], &num(2.0)));
    assert!(same(&vm.stack()[1], &num(2.0)));
    let beyond = [op(Opcode::Nil), op(Opcode::GetLocal), 1, op(Opcode::Return)];
    assert_eq!(fault(&beyond, vec![]).cause, Cause::BadSlot);
    let beyond = [op(Opcode::Nil), op(Opcode::SetLocal), 1, op(Opcode::Return)];
    assert_eq!(fault(&beyond, vec![]).cause, Cause::BadSlot);
    let empty = [op(Opcode::SetLocal), 0, op(Opcode::Return)];
    assert_eq!(fault(&empty, vec![]).cause, Cause::StackUnderflow);
    let empty = [op(Opcode::GetLocal), 0, op(Opcode::Return)];
    assert_eq!(fault(&empty, vec![]).cause, Cause::BadSlot);
}

#[test]
fn jumps_read_a_big_endian_offset() {
    let mut code = vec![op(Opcode::Jump), 1, 2];
    code.extend(std::iter::repeat(op(Opcode::Unknown)).take(258));
    code.extend([op(Opcode::True), op(Opcode::Print), op(Opcode::Return)]);
    let out = printed(&code, vec![]);
    assert_eq!(out.len(), 1);
    assert!(same(&out[0], &Value::Bool(true)));
}

#[test]
fn jump_if_false_looks_without_popping() {
    let code = [
        op(Opcode::Constant),
        0,
        op(Opcode::JumpIfFalse),
        0,
        2,
        op(Opcode::True),
        op(Opcode::Print),
        op(Opcode::Return),
    ];
    let mut vm = Vm::new();
    assert!(matches!(run(&mut vm, script(&code, vec![Value::Nil])), Signal::Done));
    assert!(vm.output().is_empty());
    assert_eq!(vm.stack().len(), 1);
    assert!(same(&vm.stack()[0], &Value::Nil));
    let mut vm = Vm::new();
    assert!(matches!(run(&mut vm, script(&code, vec![num(1.0)])), Signal::Done));
    assert_eq!(vm.output().len(), 1);
    assert_eq!(vm.stack().len(), 1);
    for falsy in [Value::Bool(false), num(0.0), text("")] {
        let mut vm = Vm::new();
        assert!(matches!(run(&mut vm, script(&code, vec![falsy])), Signal::Done));
        assert!(vm.output().is_empty());
    }
    let empty = [op(Opcode::JumpIfFalse), 0, 0, op(Opcode::Return)];
    assert_eq!(fault(&empty, vec![]).cause, Cause::StackUnderflow);
}

#[test]
fn a_jump_stays_inside_the_code() {
    let end = [op(Opcode::Jump), 0, 0];
    assert_eq!(fault(&end, vec![]).cause, Cause::CodeOverrun);
    let beyond = [op(Opcode::Jump), 0, 1];
    assert_eq!(fault(&beyond, vec![]).cause, Cause::BadJump);
    let far = [op(Opcode::Nil), op(Opcode::JumpIfFalse), 0xff, 0xff, op(Opcode::Return)];
    assert_eq!(fault(&far, vec![]).cause, Cause::BadJump);
    let before = [op(Opcode::Loop), 0, 4];
    assert_eq!(fault(&before, vec![]).cause, Cause::BadJump);
}

#[test]
fn a_loop_goes_back() {
    let code = [
        op(Opcode::Jump),
        0,
        3,
        op(Opcode::True),
        op(Opcode::Print),
        op(Opcode::Return),
        op(Opcode::Loop),
        0,
        6,
    ];
    let out = printed(&code, vec![]);
    assert_eq!(out.len(), 1);
}

#[test]
fn a_call_runs_the_callee_and_hands_its_result_back() {
    let mut double = Function::new(String::from("double"), FunctionType::Fn);
    double.num_params = 1;
    for byte in [op(Opcode::GetLocal), 0, op(Opcode::GetLocal), 0, op(Opcode::Add), op(Opcode::Return)] {
        double.chunk.write(byte, 100);
    }
    let code = [
        op(Opcode::DefineGlobal),
        0,
        op(Opcode::Constant),
        3,
        op(Opcode::GetGlobal),
        1,
        op(Opcode::Constant),
        2,
        op(Opcode::Call),
        1,
        op(Opcode::Print),
        op(Opcode::Print),
        op(Opcode::Return),
    ];
    let constants = vec![Value::Function(double), text("double"), num(21.0), text("below")];
    let mut vm = Vm::new();
    let mut signal = vm.run(script(&code, constants), 6);
    assert!(matches!(signal, Signal::Continue));
    assert_eq!(vm.depth(), 2);
    assert_eq!(vm.stack().len(), 4);
    signal = finish(&mut vm, signal);
    assert!(matches!(signal, Signal::Done));
    assert_eq!(vm.depth(), 0);
    assert!(vm.stack().is_empty());
    assert_eq!(vm.output().len(), 2);
    assert!(same(&vm.output()[0], &num(42.0)));
    assert!(same(&vm.output()[1], &text("below")));
    assert!(matches!(vm.global(&String::from("double")), Some(Value::Function(_))));
}

#[test]
fn only_functions_can_be_called() {
    let code = [op(Opcode::Constant), 0, op(Opcode::Call), 0, op(Opcode::Return)];
    let fault = fault(&code, vec![num(1.0)]);
    assert_eq!(fault.cause, Cause::NotCallable);
    assert_eq!(fault.line, 3);
    let short = [op(Opcode::Nil), op(Opcode::Call), 1, op(Opcode::Return)];
    assert_eq!(self::fault(&short, vec![]).cause, Cause::StackUnderflow);
}

#[test]
fn an_error_inside_a_call_ends_the_run() {
    let mut bad = Function::new(String::from("bad"), FunctionType::Fn);
    for byte in [op(Opcode::Nil), op(Opcode::Nil), op(Opcode::Negate), op(Opcode::Return)] {
        bad.chunk.write(byte, 77);
    }
    let code = [op(Opcode::Constant), 0, op(Opcode::Call), 0, op(Opcode::Return)];
    let fault = fault(&code, vec![Value::Function(bad)]);
    assert_eq!(fault.cause, Cause::OperandMustBeNumber);
    assert_eq!(fault.line, 77);
}

#[test]
fn an_unknown_opcode_is_the_compilers_fault() {
    let code = [op(Opcode::Nil), 200];
    let fault = fault(&code, vec![]);
    assert_eq!(fault.cause, Cause::UnknownOpcode);
    assert_eq!(fault.cause.kind(), InterpretError::CompileError);
    assert_eq!(fault.line, 2);
    for cause in [
        Cause::OperandMustBeNumber,
        Cause::OperandsMustBeNumbers,
        Cause::NoStringOperation,
        Cause::FractionalOperand,
        Cause::UndefinedVariable,
        Cause::NotCallable,
        Cause::StackUnderflow,
        Cause::CodeOverrun,
        Cause::BadConstant,
        Cause::BadSlot,
        Cause::BadJump,
    ] {
        assert_eq!(cause.kind(), InterpretError::RuntimeError);
        assert!(!cause.message().is_empty());
    }
}

#[test]
fn code_must_end_with_a_return() {
    assert_eq!(fault(&[], vec![]).cause, Cause::CodeOverrun);
    assert_eq!(fault(&[op(Opcode::Nil)], vec![]).cause, Cause::CodeOverrun);
    assert_eq!(fault(&[op(Opcode::Constant)], vec![num(1.0)]).cause, Cause::CodeOverrun);
    assert_eq!(fault(&[op(Opcode::Jump), 0], vec![]).cause, Cause::CodeOverrun);
    assert_eq!(fault(&[op(Opcode::Constant), 1, op(Opcode::Return)], vec![num(1.0)]).cause, Cause::BadConstant);
}

#[test]
fn every_instruction_needs_its_operands() {
    for o in [
        Opcode::Negate,
        Opcode::Not,
        Opcode::Equal,
        Opcode::Print,
        Opcode::Pop,
        Opcode::Add,
        Opcode::Less,
        Opcode::LogicalAnd,
        Opcode::BitwiseOr,
    ] {
        assert_eq!(fault(&[op(o), op(Opcode::Return)], vec![]).cause, Cause::StackUnderflow);
    }
    for o in [Opcode::Equal, Opcode::Add, Opcode::Greater, Opcode::LogicalOr, Opcode::BitwiseAnd] {
        let code = [op(Opcode::Nil), op(o), op(Opcode::Return)];
        assert_eq!(fault(&code, vec![]).cause, Cause::StackUnderflow);
    }
}

#[test]
fn the_lines_of_a_short_table_are_zero() {
    let mut function = script(&[op(Opcode::Nil), op(Opcode::Negate)], vec![]);
    function.chunk.lines = vec![5];
    let mut vm = Vm::new();
    match run(&mut vm, function) {
        Signal::Failed(fault) => assert_eq!(fault.line, 0),
        other => panic!("{:?}", other),
    }
}

#[test]
fn a_run_starts_afresh() {
    let mut vm = Vm::new();
    let leave = [op(Opcode::Nil), op(Opcode::True), op(Opcode::Return)];
    assert!(matches!(run(&mut vm, script(&leave, vec![])), Signal::Done));
    assert_eq!(vm.stack().len(), 2);
    let waiting = [op(Opcode::Constant), 0, op(Opcode::Constant), 0, op(Opcode::Add), op(Opcode::Return)];
    assert!(matches!(vm.run(script(&waiting, vec![num(1.0)]), 100), Signal::Needs(_, _, _)));
    assert_eq!(vm.depth(), 1);
    let print = [op(Opcode::Print), op(Opcode::Return)];
    match run(&mut vm, script(&print, vec![])) {
        Signal::Failed(fault) => assert_eq!(fault.cause, Cause::StackUnderflow),
        other => panic!("{:?}", other),
    }
}

#[test]
fn a_frame_starts_at_the_first_instruction() {
    let function = script(&[op(Opcode::Return)], vec![]);
    let frame = CallFrame::new(function, 3);
    assert!(format!("{:?}", frame).contains("ip: 0"));
    assert!(format!("{:?}", frame).contains("base: 3"));
}

#[test]
fn a_chunk_without_lines_still_runs() {
    let mut function = Function::new(String::from("bare"), FunctionType::Script);
    function.chunk = Chunk { code: vec![op(Opcode::True), op(Opcode::Print), op(Opcode::Return)], constants: vec![], lines: vec![] };
    let mut vm = Vm::new();
    assert!(matches!(run(&mut vm, function), Signal::Done));
    assert_eq!(vm.output().len(), 1);
}
