use topaz::chunk::Operand;
use topaz::function::Function;
use topaz::opcode::Opcode;
use topaz::operator::Operator;
use topaz::parser::{Diagnostic, Parser};
use topaz::scanner::numerals;
use topaz::value::Value;
use topaz::vm::{Cause, Fault, InterpretError, Signal, Vm};

fn host(op: Operator, a: u64, b: u64) -> u64 {
    let x = f64::from_bits(a);
    let y = f64::from_bits(b);
    let result = match op {
        Operator::Plus => x + y,
        Operator::Minus => x - y,
        Operator::Star => x * y,
        Operator::Slash => x / y,
        Operator::Mod => x % y,
        Operator::Amp => ((x.round() as i64) & (y.round() as i64)) as f64,
        Operator::Pipe => ((x.round() as i64) | (y.round() as i64)) as f64,
        _ => unreachable!("the machine compares by itself"),
    };
    result.to_bits()
}

fn run(vm: &mut Vm, function: Function) -> Signal {
    let mut signal = vm.run(function, usize::MAX);
    loop {
        match signal {
            Signal::Needs(op, a, b) => signal = vm.resume(Some(host(op, a, b)), usize::MAX),
            Signal::Continue => signal = vm.resume(None, usize::MAX),
            other => return other,
        }
    }
}

fn compile(source: &str) -> Result<Function, Vec<Diagnostic>> {
    let numbers: Vec<u64> = numerals(String::from(source))
        .iter()
        .map(|digits| digits.parse::<f64>().unwrap().to_bits())
        .collect();
    Parser::new(String::from(source)).compile(numbers)
}

fn code(source: &str) -> Vec<u8> {
    match compile(source) {
        Ok(function) => function.chunk.code,
        Err(diagnostics) => panic!("{:?}", diagnostics),
    }
}

fn errors(source: &str) -> Vec<(usize, String)> {
    match compile(source) {
        Ok(function) => panic!("compiled to {:?}", function.chunk.code),
        Err(diagnostics) => diagnostics.into_iter().map(|d| (d.line, d.message)).collect(),
    }
}

fn messages(source: &str) -> Vec<String> {
    errors(source).into_iter().map(|(_, message)| message).collect()
}

fn show(value: &Value) -> String {
    match value {
        Value::Bool(b) => format!("{}", b),
        Value::Nil => String::from("nil"),
        Value::Number(bits) => format!("{}", f64::from_bits(*bits)),
        Value::String(s) => s.clone(),
        Value::Function(f) => format!("<fn {}>", f.name),
    }
}

fn output(source: &str) -> Vec<String> {
    let function = compile(source).unwrap_or_else(|d| panic!("{:?}", d));
    let mut vm = Vm::new();
    let signal = run(&mut vm, function);
    assert!(matches!(signal, Signal::Done), "{:?}", signal);
    assert!(vm.stack().is_empty(), "{:?}", vm.stack());
    assert_eq!(vm.depth(), 0);
    vm.output().iter().map(show).collect()
}

fn failure(source: &str) -> (Vec<String>, Fault) {
    let function = compile(source).unwrap_or_else(|d| panic!("{:?}", d));
    let mut vm = Vm::new();
    match run(&mut vm, function) {
        Signal::Failed(fault) => (vm.output().iter().map(show).collect(), fault),
        other => panic!("{:?}", other),
    }
}

fn op(o: Opcode) -> u8 {
    o.to_u8()
}

#[test]
fn multiplication_binds_tighter_than_addition() {
    assert_eq!(output("print 1 + 2 * 3;"), vec!["7"]);
    assert_eq!(
        code("1 + 2 * 3"),
        vec![
            op(Opcode::Constant),
            0,
            op(Opcode::Constant),
            1,
            op(Opcode::Constant),
            2,
            op(Opcode::Multiply),
            op(Opcode::Add),
            op(Opcode::Pop),
            op(Opcode::Return),
        ]
    );
    assert_eq!(output("1 + 2 * 3"), Vec::<String>::new());
}

#[test]
fn parentheses_group() {
    assert_eq!(output("print (1 + 2) * 3;"), vec!["9"]);
    assert_eq!(
        code("(1 + 2) * 3"),
        vec![
            op(Opcode::Constant),
            0,
            op(Opcode::Constant),
            1,
            op(Opcode::Add),
            op(Opcode::Constant),
            2,
            op(Opcode::Multiply),
            op(Opcode::Pop),
            op(Opcode::Return),
        ]
    );
}

#[test]
fn subtraction_groups_to_the_left() {
    assert_eq!(output("print 1 - 2 - 3;"), vec!["-4"]);
    assert_eq!(output("print 8 / 4 / 2;"), vec!["1"]);
    assert_eq!(output("print 2 * 3 % 4;"), vec!["2"]);
    assert_eq!(
        code("1 - 2 - 3"),
        vec![
            op(Opcode::Constant),
            0,
            op(Opcode::Constant),
            1,
            op(Opcode::Subtract),
            op(Opcode::Constant),
            2,
            op(Opcode::Subtract),
            op(Opcode::Pop),
            op(Opcode::Return),
        ]
    );
}

#[test]
fn unary_operators_bind_tightest() {
    assert_eq!(output("print -1 + 2;"), vec!["1"]);
    assert_eq!(output("print -(1 + 2);"), vec!["-3"]);
    assert_eq!(output("print - - 3;"), vec!["3"]);
    assert_eq!(output("print 2 * -3;"), vec!["-6"]);
    assert_eq!(output("print !nil;"), vec!["true"]);
    assert_eq!(output("print !!0;"), vec!["false"]);
    assert_eq!(output("print !1 == false;"), vec!["true"]);
}

#[test]
fn comparisons_and_equality() {
    assert_eq!(output("print 1 < 2;"), vec!["true"]);
    assert_eq!(output("print 2 <= 2;"), vec!["true"]);
    assert_eq!(output("print 3 <= 2;"), vec!["false"]);
    assert_eq!(output("print 1 > 2;"), vec!["false"]);
    assert_eq!(output("print 2 >= 2;"), vec!["true"]);
    assert_eq!(output("print 1 == 1;"), vec!["true"]);
    assert_eq!(output("print 1 != 1;"), vec!["false"]);
    assert_eq!(output("print 'a' == 'a';"), vec!["true"]);
    assert_eq!(output("print 'a' != 'b';"), vec!["true"]);
    assert_eq!(output("print nil == false;"), vec!["false"]);
    assert_eq!(output("print 1 + 1 == 2;"), vec!["true"]);
    assert_eq!(
        code("1 >= 2"),
        vec![
            op(Opcode::Constant),
            0,
            op(Opcode::Constant),
            1,
            op(Opcode::Less),
            op(Opcode::Not),
            op(Opcode::Pop),
            op(Opcode::Return),
        ]
    );
    assert_eq!(code("1 <= 2")[4..6], [op(Opcode::Greater), op(Opcode::Not)]);
    assert_eq!(code("1 != 2")[4..6], [op(Opcode::Equal), op(Opcode::Not)]);
}

#[test]
fn logical_and_bit_operators() {
    assert_eq!(output("print 5 & 3;"), vec!["1"]);
    assert_eq!(output("print 5 | 3;"), vec!["7"]);
    assert_eq!(output("print true & 3;"), vec!["1"]);
    assert_eq!(output("print 1 && 0;"), vec!["false"]);
    assert_eq!(output("print 1 && 2;"), vec!["true"]);
    assert_eq!(output("print 0 || '';"), vec!["false"]);
    assert_eq!(output("print nil || 'x';"), vec!["true"]);
    assert_eq!(output("print 1 + 2 & 2;"), vec!["2"]);
    let (_, fault) = failure("print 1.5 & 1;");
    assert_eq!(fault.cause, Cause::FractionalOperand);
}

#[test]
fn both_operands_are_always_evaluated() {
    let (_, fault) = failure("print false && -nil;");
    assert_eq!(fault.cause, Cause::OperandMustBeNumber);
    let (_, fault) = failure("print true || missing;");
    assert_eq!(fault.cause, Cause::UndefinedVariable);
}

#[test]
fn strings_and_literals() {
    assert_eq!(output("print 'hello' + ' ' + 'world';"), vec!["hello world"]);
    assert_eq!(output("print '';"), vec![""]);
    assert_eq!(output("print 'héllo';"), vec!["héllo"]);
    assert_eq!(output("print nil; print true; print false;"), vec!["nil", "true", "false"]);
    assert_eq!(output("print 1.5; print 0.25 + 0.5; print 100;"), vec!["1.5", "0.75", "100"]);
    assert_eq!(
        code("'a'; nil; true; false"),
        vec![
            op(Opcode::Constant),
            0,
            op(Opcode::Pop),
            op(Opcode::Nil),
            op(Opcode::Pop),
            op(Opcode::True),
            op(Opcode::Pop),
            op(Opcode::False),
            op(Opcode::Pop),
            op(Opcode::Return),
        ]
    );
}

#[test]
fn constants_go_to_the_pool_in_order() {
    let function = compile("print 1.2 + 3.4; x = 'text'; print x;").unwrap();
    let pool = function.chunk.constants;
    assert_eq!(pool.len(), 5);
    assert!(pool[0].identical(&Value::Number(1.2f64.to_bits())));
    assert!(pool[1].identical(&Value::Number(3.4f64.to_bits())));
    assert!(pool[2].identical(&Value::String(String::from("text"))));
    assert!(pool[3].identical(&Value::String(String::from("x"))));
    assert!(pool[4].identical(&Value::String(String::from("x"))));
    assert_eq!(function.name, "script");
    assert_eq!(function.num_params, 0);
    assert!(!function.native);
}

#[test]
fn doubles_in_a_program() {
    assert_eq!(output("print -((1.2 + 3.4) / 5.6);"), vec![format!("{}", -((1.2f64 + 3.4) / 5.6))]);
    assert_eq!(output("print 0.1 + 0.2;"), vec!["0.30000000000000004"]);
    assert_eq!(output("print 1 / 0;"), vec!["inf"]);
    assert_eq!(output("print 7 % 4;"), vec!["3"]);
}

#[test]
fn big_or_small() {
    let source = "x = 10; if (x > 5) { print 'big'; } else { print 'small'; }";
    assert_eq!(output(source), vec!["big"]);
    assert_eq!(
        output("x = 1; if (x > 5) { print 'big'; } else { print 'small'; }"),
        vec!["small"]
    );
}

#[test]
fn if_false_runs_the_else_branch_only() {
    let source = "if (false) { print 'a'; } else { print 'b'; }";
    assert_eq!(output(source), vec!["b"]);
    assert_eq!(
        code(source),
        vec![
            op(Opcode::False),
            op(Opcode::JumpIfFalse),
            0,
            7,
            op(Opcode::Pop),
            op(Opcode::Constant),
            0,
            op(Opcode::Print),
            op(Opcode::Jump),
            0,
            4,
            op(Opcode::Pop),
            op(Opcode::Constant),
            1,
            op(Opcode::Print),
            op(Opcode::Return),
        ]
    );
    let function = compile(source).unwrap();
    let mut vm = Vm::new();
    let mut steps = 0;
    let mut signal = vm.run(function, 0);
    while matches!(signal, Signal::Continue) {
        signal = vm.step(None);
        steps += 1;
    }
    assert!(matches!(signal, Signal::Done));
    assert_eq!(steps, 6);
    assert!(vm.stack().is_empty());
}

#[test]
fn if_true_runs_the_first_branch_only() {
    let source = "if (true) { print 'a'; } else { print 'b'; } print 'c';";
    assert_eq!(output(source), vec!["a", "c"]);
    assert_eq!(output("if (false) { print 'a'; } else { print 'b'; } print 'c';"), vec!["b", "c"]);
    assert_eq!(output("if (false) print 'a'; print 'c';"), vec!["c"]);
    assert_eq!(output("if (1) print 'a'; print 'c';"), vec!["a", "c"]);
    assert_eq!(output("if 1 < 2 print 'yes'; else print 'no';"), vec!["yes"]);
}

#[test]
fn conditions_go_by_falsiness() {
    for falsy in ["nil", "false", "0", "''", "1 - 1"] {
        let source = format!("if ({}) print 'then'; else print 'else';", falsy);
        assert_eq!(output(&source), vec!["else"], "{}", falsy);
    }
    for truthy in ["true", "1", "'a'", "0.5", "-1", "'false'"] {
        let source = format!("if ({}) print 'then'; else print 'else';", truthy);
        assert_eq!(output(&source), vec!["then"], "{}", truthy);
    }
}

#[test]
fn ifs_nest() {
    let source = "
        x = 7;
        if (x > 5) {
            if (x > 10) { print 'huge'; } else { print 'big'; }
        } else {
            if (x > 2) { print 'medium'; } else { print 'small'; }
        }
        print 'done';
    ";
    assert_eq!(output(source), vec!["big", "done"]);
    assert_eq!(output(&source.replace("x = 7", "x = 11")), vec!["huge", "done"]);
    assert_eq!(output(&source.replace("x = 7", "x = 3")), vec!["medium", "done"]);
    assert_eq!(output(&source.replace("x = 7", "x = 1")), vec!["small", "done"]);
}

#[test]
fn globals_are_defined_at_the_top_level() {
    assert_eq!(output("x = 10; print x; x = x + 1; print x;"), vec!["10", "11"]);
    assert_eq!(
        code("x = 10;"),
        vec![op(Opcode::Constant), 0, op(Opcode::DefineGlobal), 1, op(Opcode::Return)]
    );
    assert_eq!(
        code("x;"),
        vec![op(Opcode::GetGlobal), 0, op(Opcode::Pop), op(Opcode::Return)]
    );
    assert_eq!(output("a = 1; b = 2; print a + b * a;"), vec!["3"]);
}

#[test]
fn an_assignment_is_an_expression() {
    assert_eq!(output("x = 1; if (true) x = 2; print x;"), vec!["2"]);
    assert_eq!(output("x = 1; print x = 5; print x;"), vec!["5", "5"]);
    assert_eq!(output("x = 1; y = (x = 3) + 1; print x; print y;"), vec!["3", "4"]);
    assert_eq!(
        code("print x = 5;"),
        vec![
            op(Opcode::Constant),
            1,
            op(Opcode::SetGlobal),
            0,
            op(Opcode::Print),
            op(Opcode::Return),
        ]
    );
}

#[test]
fn a_statement_may_start_with_an_identifier() {
    assert_eq!(output("x = 2; x + 1; x; print x * x;"), vec!["4"]);
    assert_eq!(
        code("x + 1;"),
        vec![
            op(Opcode::GetGlobal),
            0,
            op(Opcode::Constant),
            1,
            op(Opcode::Add),
            op(Opcode::Pop),
            op(Opcode::Return),
        ]
    );
}

#[test]
fn assignment_needs_a_target() {
    assert_eq!(messages("a + b = c;"), vec!["Expected expression"]);
    assert_eq!(messages("1 = 2;"), vec!["Expected expression"]);
    assert_eq!(messages("x = 1; print -x = 2;"), vec!["Expected expression"]);
}

#[test]
fn locals_live_in_their_block() {
    assert_eq!(output("{ a = 1; print a; }"), vec!["1"]);
    assert_eq!(
        code("{ a = 1; print a; }"),
        vec![
            op(Opcode::Constant),
            0,
            op(Opcode::GetLocal),
            0,
            op(Opcode::Print),
            op(Opcode::Pop),
            op(Opcode::Return),
        ]
    );
    assert_eq!(output("{ a = 1; b = 2; print a + b; { c = a + b; print c * 2; } print b; }"), vec!["3", "6", "2"]);
}

#[test]
fn a_local_is_gone_after_its_block() {
    let source = "{ a = 1; print a; } print a;";
    assert_eq!(
        code(source),
        vec![
            op(Opcode::Constant),
            0,
            op(Opcode::GetLocal),
            0,
            op(Opcode::Print),
            op(Opcode::Pop),
            op(Opcode::GetGlobal),
            1,
            op(Opcode::Print),
            op(Opcode::Return),
        ]
    );
    let (printed, fault) = failure(source);
    assert_eq!(printed, vec!["1"]);
    assert_eq!(fault.cause, Cause::UndefinedVariable);
    assert_eq!(fault.subject, "a");
    assert_eq!(output("a = 5; { a = 1; print a; } print a;"), vec!["1", "5"]);
    assert_eq!(output("{ a = 1; { a = 2; print a; } print a; }"), vec!["2", "1"]);
    assert_eq!(output("{ { a = 1; } b = 2; print b; }"), vec!["2"]);
}

#[test]
fn inner_declarations_shadow_outer_ones() {
    assert_eq!(output("x = 'global'; { x = 'outer'; { x = 'inner'; print x; } print x; } print x;"), vec!["inner", "outer", "global"]);
    assert_eq!(output("{ a = 1; a = 2; print a; }"), vec!["2"]);
    assert_eq!(
        code("{ a = 1; a = 2; print a; }"),
        vec![
            op(Opcode::Constant),
            0,
            op(Opcode::Constant),
            1,
            op(Opcode::GetLocal),
            1,
            op(Opcode::Print),
            op(Opcode::Pop),
            op(Opcode::Pop),
            op(Opcode::Return),
        ]
    );
}

#[test]
fn a_local_can_be_assigned() {
    assert_eq!(output("{ a = 1; if (true) a = a + 1; print a; }"), vec!["2"]);
    assert_eq!(output("{ a = 1; print a = 7; print a; }"), vec!["7", "7"]);
}

#[test]
fn semicolons_are_optional() {
    assert_eq!(output("print 1 print 2"), vec!["1", "2"]);
    assert_eq!(output("x = 1 y = 2 print x + y"), vec!["3"]);
    assert_eq!(output("{ print 1 } print 2"), vec!["1", "2"]);
    assert_eq!(messages(";"), vec!["Expected expression"]);
    assert_eq!(messages("print 1;;"), vec!["Expected expression"]);
}

#[test]
fn an_empty_program_returns() {
    assert_eq!(code(""), vec![op(Opcode::Return)]);
    assert_eq!(code("  # nothing\n"), vec![op(Opcode::Return)]);
    assert_eq!(output(""), Vec::<String>::new());
    assert_eq!(code("{}"), vec![op(Opcode::Return)]);
}

#[test]
fn bytes_carry_the_line_of_their_token() {
    let function = compile("print 1;\n\nprint\n  2 +\n  3;").unwrap();
    assert_eq!(function.chunk.code.len(), function.chunk.lines.len());
    assert_eq!(function.chunk.lines, vec![1, 1, 1, 4, 4, 5, 5, 5, 5, 5]);
}

#[test]
fn a_runtime_error_names_its_line() {
    let (printed, fault) = failure("print 1;\nprint 2;\nprint true + 1;\nprint 3;");
    assert_eq!(printed, vec!["1", "2"]);
    assert_eq!(fault.cause, Cause::OperandsMustBeNumbers);
    assert_eq!(fault.cause.kind(), InterpretError::RuntimeError);
    assert_eq!(fault.cause.message(), "operands must be numbers");
    assert_eq!(fault.line, 3);
}

#[test]
fn true_plus_one_fails_at_run_time() {
    let (printed, fault) = failure("true + 1");
    assert!(printed.is_empty());
    assert_eq!(fault.cause, Cause::OperandsMustBeNumbers);
    assert_eq!(fault.cause.kind(), InterpretError::RuntimeError);
    let (_, fault) = failure("1 < true");
    assert_eq!(fault.cause, Cause::OperandsMustBeNumbers);
    let (_, fault) = failure("'a' - 'b'");
    assert_eq!(fault.cause, Cause::NoStringOperation);
    let (_, fault) = failure("-'a'");
    assert_eq!(fault.cause, Cause::OperandMustBeNumber);
}

#[test]
fn an_expression_is_expected() {
    assert_eq!(errors("print ;"), vec![(1, String::from("Expected expression"))]);
    assert_eq!(messages(")"), vec!["Expected expression"]);
    assert_eq!(messages("1 +"), vec!["Expected expression"]);
    assert_eq!(messages("print"), vec!["Expected expression"]);
    assert_eq!(errors("\n\n*"), vec![(3, String::from("Expected expression"))]);
    assert_eq!(messages("else"), vec!["Expected expression"]);
}

#[test]
fn parentheses_and_braces_must_close() {
    assert_eq!(messages("(1 + 2"), vec!["Expect ')' after expression"]);
    assert_eq!(messages("{ print 1;"), vec!["Expect '}' after block"]);
    assert_eq!(messages("{ { print 1; }"), vec!["Expect '}' after block"]);
    assert_eq!(errors("print (1\n+ 2;"), vec![(2, String::from("Expect ')' after expression"))]);
}

#[test]
fn errors_add_up() {
    let found = errors("print (1;\nprint );\nx = ;");
    assert_eq!(found.len(), 3);
    assert_eq!(found[0], (1, String::from("Expect ')' after expression")));
    assert_eq!(found[1], (2, String::from("Expected expression")));
    assert_eq!(found[2], (3, String::from("Expected expression")));
}

#[test]
fn the_lexers_errors_are_the_compilers() {
    assert_eq!(
        errors("print 'abc"),
        vec![(1, String::from("Unterminated string")), (1, String::from("Expected expression"))]
    );
    assert_eq!(
        messages("x = 1 @"),
        vec!["Unexpected character", "Expected expression"]
    );
}

#[test]
fn a_chunk_holds_256_constants() {
    let mut source = String::new();
    for _ in 0..256 {
        source.push_str("nil == 0;\n");
    }
    let function = compile(&source).unwrap();
    assert_eq!(function.chunk.constants.len(), 256);
    source.push_str("1;");
    assert_eq!(errors(&source), vec![(257, String::from("Too many constants in this chunk"))]);
    source.push_str("2;");
    assert_eq!(
        messages(&source),
        vec!["Too many constants in this chunk", "Too many constants in this chunk"]
    );
}

#[test]
fn a_scope_holds_255_locals() {
    let mut body = String::new();
    for i in 0..255 {
        body.push_str(&format!("v{} = nil;\n", i));
    }
    let fits = format!("{{\n{} print v254; }}", body);
    assert_eq!(output(&fits), vec!["nil"]);
    let overflow = format!("{{\n{} extra = nil; }}", body);
    assert_eq!(errors(&overflow), vec![(257, String::from("Too many local variables"))]);
}

#[test]
fn a_jump_spans_at_most_32767_bytes() {
    let mut body = String::new();
    for _ in 0..16381 {
        body.push_str("nil;");
    }
    let fits = format!("if (true) {{ {} }} print 'after';", body);
    let function = compile(&fits).unwrap();
    assert_eq!(function.chunk.code[2], 0x7f);
    assert_eq!(function.chunk.code[3], 0xfe);
    assert_eq!(output(&fits), vec!["after"]);
    assert_eq!(output(&fits.replace("true", "false")), vec!["after"]);
    let too_far = format!("if (true) {{ {} nil; }}", body);
    assert_eq!(messages(&too_far), vec!["Jump is out of bounds"]);
}

#[test]
fn long_jumps_are_patched_high_byte_first() {
    let mut body = String::new();
    for _ in 0..200 {
        body.push_str("nil;");
    }
    let source = format!("if (false) {{ {} }} else {{ {} print 'else'; }} print 'after';", body, body);
    assert_eq!(output(&source), vec!["else", "after"]);
    let function = compile(&source).unwrap();
    let code = &function.chunk.code;
    assert_eq!(code[1], op(Opcode::JumpIfFalse));
    assert_eq!((code[2] as usize) * 256 + code[3] as usize, 1 + 400 + 3);
    assert_eq!(code[4 + 1 + 400], op(Opcode::Jump));
    assert_eq!((code[406] as usize) * 256 + code[407] as usize, 1 + 400 + 3);
    assert_eq!(code.len(), 408 + 1 + 400 + 3 + 3 + 1);
}

#[test]
fn every_number_literal_needs_a_value() {
    let compiled = Parser::new(String::from("print 1 + 2;")).compile(vec![]);
    match compiled {
        Err(diagnostics) => {
            assert_eq!(diagnostics.len(), 2);
            assert_eq!(diagnostics[0].message, "Number literal has no value");
            assert_eq!(diagnostics[1].message, "Number literal has no value");
        }
        Ok(_) => panic!("compiled"),
    }
    let compiled = Parser::new(String::from("print 1 + 2;")).compile(vec![5.0f64.to_bits()]);
    assert_eq!(compiled.unwrap_err().len(), 1);
    let compiled = Parser::new(String::from("print 1 + 2;"))
        .compile(vec![5.0f64.to_bits(), 6.0f64.to_bits(), 7.0f64.to_bits()]);
    let function = compiled.unwrap();
    assert_eq!(function.chunk.constants.len(), 2);
    assert!(function.chunk.constants[0].identical(&Value::Number(5.0f64.to_bits())));
    assert!(function.chunk.constants[1].identical(&Value::Number(6.0f64.to_bits())));
}

#[test]
fn the_routines_can_be_called_one_by_one() {
    let mut parser = Parser::new(String::from("(true) print 'x';"));
    assert!(!parser.had_error());
    parser.advance();
    parser.conditional(true);
    assert!(!parser.had_error());
    let mut parser = Parser::new(String::from("true print 'x';"));
    parser.advance();
    parser.conditional(false);
    assert!(parser.had_error());
    let mut parser = Parser::new(String::from("'s' nil (nil) -x y"));
    parser.advance();
    parser.advance();
    parser.string(false);
    parser.advance();
    parser.literal(false);
    parser.advance();
    parser.grouping(false);
    parser.advance();
    parser.unary(false);
    parser.advance();
    parser.variable(true);
    assert!(!parser.had_error());
    assert!(parser.diagnostics().is_empty());
    parser.grouping(false);
    assert!(parser.had_error());
    assert_eq!(parser.diagnostics().len(), 2);
    assert_eq!(parser.diagnostics()[0].message, "Expected expression");
    assert_eq!(parser.diagnostics()[1].message, "Expect ')' after expression");
    let mut parser = Parser::new(String::from("+ 2"));
    parser.advance();
    parser.advance();
    parser.binary(false);
    parser.number(false);
    assert!(parser.had_error());
}

#[test]
fn a_machine_can_be_used_again() {
    let mut vm = Vm::new();
    assert!(matches!(run(&mut vm, compile("count = 1;").unwrap()), Signal::Done));
    assert!(matches!(run(&mut vm, compile("count = count + 1;").unwrap()), Signal::Done));
    assert!(matches!(run(&mut vm, compile("print nothing;").unwrap()), Signal::Failed(_)));
    assert!(matches!(run(&mut vm, compile("print count;").unwrap()), Signal::Done));
    assert_eq!(vm.output().len(), 1);
    assert_eq!(show(&vm.output()[0]), "2");
    assert!(vm.stack().is_empty());
}

fn next(seed: &mut u64) -> u64 {
    *seed = seed.wrapping_mul(6364136223846793005).wrapping_add(1442695040888963407);
    *seed >> 33
}

fn atom(seed: &mut u64) -> String {
    let atoms = [
        "1", "2.5", "0", "'a'", "''", "true", "false", "nil", "x", "y", "z", "count", "(1 + 2)",
    ];
    String::from(atoms[(next(seed) % atoms.len() as u64) as usize])
}

fn expression(seed: &mut u64, depth: u32) -> String {
    if depth == 0 {
        return atom(seed);
    }
    let operators = [
        "+", "-", "*", "/", "%", "<", "<=", ">", ">=", "==", "!=", "&", "|", "&&", "||",
    ];
    match next(seed) % 6 {
        0 => atom(seed),
        1 => format!("-{}", expression(seed, depth - 1)),
        2 => format!("!{}", expression(seed, depth - 1)),
        3 => format!("({})", expression(seed, depth - 1)),
        4 => format!("x = {}", expression(seed, depth - 1)),
        _ => {
            let operator = operators[(next(seed) % operators.len() as u64) as usize];
            format!("{} {} {}", expression(seed, depth - 1), operator, expression(seed, depth - 1))
        }
    }
}

fn statement(seed: &mut u64, depth: u32) -> String {
    let names = ["x", "y", "z", "count"];
    let name = names[(next(seed) % names.len() as u64) as usize];
    if depth == 0 {
        return format!("print {};", expression(seed, 1));
    }
    match next(seed) % 7 {
        0 => format!("print {};", expression(seed, 2)),
        1 => format!("{};", expression(seed, 2)),
        2 => format!("{} = {};", name, expression(seed, 2)),
        3 => {
            let mut block = String::from("{ ");
            for _ in 0..next(seed) % 4 {
                block.push_str(&statement(seed, depth - 1));
                block.push(' ');
            }
            block.push('}');
            block
        }
        4 => format!("if ({}) {}", expression(seed, 2), statement(seed, depth - 1)),
        5 => format!(
            "if ({}) {} else {}",
            expression(seed, 2),
            statement(seed, depth - 1),
            statement(seed, depth - 1)
        ),
        _ => format!("{} {}", name, if next(seed) % 2 == 0 { "+ 1;" } else { ";" }),
    }
}

fn program(seed: &mut u64) -> String {
    let mut source = String::new();
    for _ in 0..1 + next(seed) % 6 {
        source.push_str(&statement(seed, 3));
        source.push('\n');
    }
    source
}

#[test]
fn what_compiles_fails_only_by_its_own_fault() {
    let mut seed = 2024;
    let mut done = 0;
    let mut failed = 0;
    let mut refused = 0;
    for _ in 0..600 {
        let source = program(&mut seed);
        let function = match compile(&source) {
            Ok(function) => function,
            Err(_) => {
                refused += 1;
                continue;
            }
        };
        let mut vm = Vm::new();
        match run(&mut vm, function) {
            Signal::Done => {
                assert!(vm.stack().is_empty(), "{}", source);
                assert_eq!(vm.depth(), 0);
                done += 1;
            }
            Signal::Failed(fault) => {
                let own = matches!(
                    fault.cause,
                    Cause::OperandMustBeNumber
                        | Cause::OperandsMustBeNumbers
                        | Cause::NoStringOperation
                        | Cause::FractionalOperand
                        | Cause::UndefinedVariable
                );
                assert!(own, "{}\n{:?}", source, fault);
                failed += 1;
            }
            other => panic!("{}\n{:?}", source, other),
        }
    }
    assert!(done > 20, "{} done, {} failed, {} refused", done, failed, refused);
    assert!(failed > 20, "{} done, {} failed, {} refused", done, failed, refused);
}

#[test]
fn false_conditions_leave_the_stack_empty_too() {
    assert_eq!(output("if (false) print 1;"), Vec::<String>::new());
    assert_eq!(output("if (nil) { x = 1; print x; }"), Vec::<String>::new());
    assert_eq!(output("{ a = 0; if (a) { b = 1; print b; } else { c = 2; print c; } print a; }"), vec!["2", "0"]);
    assert_eq!(output("{ a = 1; if (a) { b = 1; print b; } else { c = 2; print c; } print a; }"), vec!["1", "1"]);
}

#[test]
fn compiled_code_disassembles_cleanly() {
    let mut seed = 7;
    let mut compiled = 0;
    for _ in 0..300 {
        let source = program(&mut seed);
        let function = match compile(&source) {
            Ok(function) => function,
            Err(_) => continue,
        };
        compiled += 1;
        let chunk = &function.chunk;
        let listing = chunk.disassemble();
        let mut offset = 0;
        for instruction in &listing {
            assert_eq!(instruction.offset, offset);
            assert_ne!(instruction.opcode, Opcode::Unknown, "{}", source);
            assert_ne!(instruction.operand, Operand::Missing, "{}", source);
            match (instruction.opcode, instruction.operand) {
                (
                    Opcode::Constant | Opcode::DefineGlobal | Opcode::GetGlobal | Opcode::SetGlobal,
                    Operand::Byte(index),
                ) => assert!((index as usize) < chunk.constants.len()),
                (Opcode::Jump | Opcode::JumpIfFalse, Operand::Short(distance)) => {
                    let target = instruction.offset + 3 + distance as usize;
                    assert!(listing.iter().any(|other| other.offset == target), "{}", source);
                }
                _ => {}
            }
            offset += 1 + instruction.opcode.width();
        }
        assert_eq!(offset, chunk.code.len());
        assert_eq!(listing.last().unwrap().opcode, Opcode::Return);
    }
    assert!(compiled > 50, "{} compiled", compiled);
}
