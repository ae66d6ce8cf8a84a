use topaz::function::{Function, FunctionType};
use topaz::value::Value;

#[test]
fn true_is_not_falsey() {
    assert_eq!(Value::Bool(true).is_falsey(), false);
}

#[test]
fn false_is_falsey() {
    assert_eq!(Value::Bool(false).is_falsey(), true);
}

#[test]
fn nil_is_falsey() {
    assert_eq!(Value::Nil.is_falsey(), true);
}

#[test]
fn numbers_are_not_falsey() {
    assert_eq!(Value::Number(3.14f64.to_bits()).is_falsey(), false);
}

#[test]
fn nil_equals_nil() {
    let a = Value::Nil;
    let b = Value::Nil;
    assert_eq!(a.eq(&b), true);
}

#[test]
fn equal_numbers_are_equal() {
    let a = Value::Number(25.9f64.to_bits());
    let b = Value::Number(25.9f64.to_bits());
    assert_eq!(a.eq(&b), true);
}

#[test]
fn different_numbers_are_not_equal() {
    let a = Value::Number(0.0f64.to_bits());
    let b = Value::Number(25.9f64.to_bits());
    assert_eq!(a.eq(&b), false);
}

#[test]
fn different_types_are_not_equal() {
    let a = Value::Number(0.0f64.to_bits());
    let b = Value::Bool(false);
    assert_eq!(a.eq(&b), false);
}

#[test]
fn different_strings_are_not_equal() {
    let a = Value::String(String::from("star wars"));
    let b = Value::String(String::from("star trek"));
    assert_eq!(a.eq(&b), false);
}

#[test]
fn equal_strings_are_equal() {
    let a = Value::String(String::from("topaz is neat!"));
    let b = Value::String(String::from("topaz is neat!"));
    assert_eq!(a.eq(&b), true);
}

#[test]
fn zero_is_falsey() {
    assert!(Value::Number(0.0f64.to_bits()).is_falsey());
    assert!(Value::Number((-0.0f64).to_bits()).is_falsey());
}

#[test]
fn empty_string_is_falsey() {
    assert!(Value::String(String::new()).is_falsey());
}

#[test]
fn other_values_are_truthy() {
    assert!(!Value::Number(f64::NAN.to_bits()).is_falsey());
    assert!(!Value::Number(f64::MIN_POSITIVE.to_bits()).is_falsey());
    assert!(!Value::Number(f64::INFINITY.to_bits()).is_falsey());
    assert!(!Value::String(String::from(" ")).is_falsey());
    assert!(!Value::String(String::from("false")).is_falsey());
    let f = Function::new(String::from("f"), FunctionType::Fn);
    assert!(!Value::Function(f).is_falsey());
}

#[test]
fn nan_equals_nothing() {
    let nan = Value::Number(f64::NAN.to_bits());
    assert!(!nan.eq(&Value::Number(f64::NAN.to_bits())));
    assert!(!nan.eq(&Value::Number(1.0f64.to_bits())));
    assert!(nan.identical(&Value::Number(f64::NAN.to_bits())));
}

#[test]
fn the_two_zeros_are_equal_but_not_identical() {
    let plus = Value::Number(0.0f64.to_bits());
    let minus = Value::Number((-0.0f64).to_bits());
    assert!(plus.eq(&minus));
    assert!(minus.eq(&plus));
    assert!(!plus.identical(&minus));
}

#[test]
fn nil_equals_only_nil() {
    assert!(!Value::Nil.eq(&Value::Bool(false)));
    assert!(!Value::Nil.eq(&Value::Number(0.0f64.to_bits())));
    assert!(!Value::Nil.eq(&Value::String(String::new())));
    assert!(!Value::Bool(false).eq(&Value::Nil));
}

#[test]
fn booleans_compare_by_value() {
    assert!(Value::Bool(true).eq(&Value::Bool(true)));
    assert!(Value::Bool(false).eq(&Value::Bool(false)));
    assert!(!Value::Bool(true).eq(&Value::Bool(false)));
}

#[test]
fn functions_compare_by_contents() {
    let mut f = Function::new(String::from("f"), FunctionType::Fn);
    f.chunk.write(7, 1);
    f.chunk.add_constant(Value::Number(1.5f64.to_bits()));
    let same = f.duplicate();
    let mut other = f.duplicate();
    other.chunk.write(0, 1);
    let mut renamed = f.duplicate();
    renamed.name = String::from("g");
    let mut constant = f.duplicate();
    constant.chunk.constants[0] = Value::Number(2.5f64.to_bits());
    assert!(Value::Function(f.duplicate()).eq(&Value::Function(same)));
    assert!(!Value::Function(f.duplicate()).eq(&Value::Function(other)));
    assert!(!Value::Function(f.duplicate()).eq(&Value::Function(renamed)));
    assert!(!Value::Function(f.duplicate()).eq(&Value::Function(constant)));
    assert!(!Value::Function(f).eq(&Value::Nil));
}

#[test]
fn new_function_is_empty() {
    let f = Function::new(String::from("main"), FunctionType::Script);
    assert_eq!(f.num_params, 0);
    assert_eq!(f.name, "main");
    assert!(!f.native);
    assert_eq!(f.function_type, FunctionType::Script);
    assert!(f.chunk.code.is_empty());
    assert!(f.chunk.constants.is_empty());
    assert!(f.chunk.lines.is_empty());
}

#[test]
fn duplicate_keeps_every_part() {
    let strings = Value::String(String::from("abc"));
    match strings.duplicate() {
        Value::String(s) => assert_eq!(s, "abc"),
        _ => panic!("not a string"),
    }
    match Value::Number(7.25f64.to_bits()).duplicate() {
        Value::Number(n) => assert_eq!(n, 7.25f64.to_bits()),
        _ => panic!("not a number"),
    }
    assert!(matches!(Value::Nil.duplicate(), Value::Nil));
    assert!(matches!(Value::Bool(true).duplicate(), Value::Bool(true)));
}
