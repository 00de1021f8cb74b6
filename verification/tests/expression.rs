use std::collections::HashMap;

use zxbasic::calculator::{Calculator, Function, Operation};
use zxbasic::expression::{
    evaluate, evaluate_num_with, evaluate_until_keyword, evaluate_with, is_func_0arg, is_func_1arg,
    Called, EmptyEnv, Env, EvalError, UserFn, FUNCS_0ARG, FUNCS_1ARG_NUM, FUNCS_1ARG_STR,
};
use zxbasic::fp_format;
use zxbasic::number::Number;
use zxbasic::value::{is_string_name, Value};

struct Host;

fn f(n: Number) -> f64 {
    f64::from_bits(n.bits)
}

fn n(x: f64) -> Number {
    Number { bits: x.to_bits() }
}

impl Calculator for Host {
    fn operate(&self, op: Operation, a: Number, b: Number) -> Number {
        let (a, b) = (f(a), f(b));
        n(match op {
            Operation::Add => a + b,
            Operation::Subtract => a - b,
            Operation::Multiply => a * b,
            Operation::Divide => a / b,
            Operation::Power => a.powf(b),
        })
    }

    fn apply(&self, function: Function, x: Number) -> Number {
        let x = f(x);
        n(match function {
            Function::Sine => x.sin(),
            Function::Cosine => x.cos(),
            Function::Tangent => x.tan(),
            Function::ArcSine => x.asin(),
            Function::ArcCosine => x.acos(),
            Function::ArcTangent => x.atan(),
            Function::NaturalLog => x.ln(),
            Function::Exponential => x.exp(),
            Function::SquareRoot => x.sqrt(),
            Function::DecimalLog => x.log10(),
            Function::Round => x.round(),
        })
    }

    fn power_of_ten(&self, k: i32) -> Number {
        n(10f64.powi(k))
    }

    fn literal(&self, text: &str) -> Number {
        n(text.parse().unwrap_or(f64::NAN))
    }

    fn places(&self, x: Number, count: usize) -> String {
        format!("{:.*}", count, f(x))
    }
}

struct TestEnv {
    vars: HashMap<&'static str, Value>,
    fns: HashMap<&'static str, (&'static str, &'static str)>,
}

impl Env for TestEnv {
    fn get_var(&self, name: &str) -> Option<Value> {
        self.vars.get(name).cloned()
    }

    fn get_array(&self, name: &str, index: Number) -> Option<Value> {
        if name == "A" {
            Some(Value::Num(n(f(index) * 10.0)))
        } else {
            None
        }
    }

    fn get_user_fn(&self, name: &str) -> Option<UserFn> {
        self.fns.get(name).map(|(param, body)| UserFn {
            param: param.to_string(),
            body: body.to_string(),
        })
    }

    fn call_fn(&self, name: &str, args: &[Value], _seed: &mut u64) -> Option<Called> {
        Some(Called::Value(match (name, args) {
            ("PI", []) => Value::Num(n(core::f64::consts::PI)),
            ("RND", []) => Value::Num(n(0.5)),
            ("SIN", [Value::Num(x)]) => Value::Num(n(f(*x).sin())),
            ("COS", [Value::Num(x)]) => Value::Num(n(f(*x).cos())),
            ("ABS", [Value::Num(x)]) => Value::Num(n(f(*x).abs())),
            ("INT", [Value::Num(x)]) => Value::Num(n(f(*x).floor())),
            ("SQR", [Value::Num(x)]) => Value::Num(n(f(*x).sqrt())),
            ("LN", [Value::Num(x)]) => Value::Num(n(f(*x).ln())),
            ("EXP", [Value::Num(x)]) => Value::Num(n(f(*x).exp())),
            ("SGN", [Value::Num(x)]) => Value::Num(n(f(*x).signum())),
            ("TAN", [Value::Num(x)]) => Value::Num(n(f(*x).tan())),
            ("ASN", [Value::Num(x)]) => Value::Num(n(f(*x).asin())),
            ("ACS", [Value::Num(x)]) => Value::Num(n(f(*x).acos())),
            ("ATN", [Value::Num(x)]) => Value::Num(n(f(*x).atan())),
            ("LEN", [Value::Str(s)]) => Value::Num(n(s.len() as f64)),
            ("CODE", [Value::Str(s)]) => Value::Num(n(s.first().copied().unwrap_or(0) as f64)),
            ("CHR$", [Value::Num(x)]) => Value::Str(vec![f(*x) as u8]),
            ("STR$", [Value::Num(x)]) => Value::Str(fp_format::format(*x, &Host).into_bytes()),
            ("VAL", [Value::Str(s)]) => {
                let src = std::str::from_utf8(s).ok()?;
                return evaluate(src, &Host).ok().map(Called::Value);
            }
            _ => return None,
        }))
    }
}

fn empty_env() -> TestEnv {
    TestEnv {
        vars: HashMap::new(),
        fns: HashMap::new(),
    }
}

fn eval(src: &str, env: &TestEnv) -> Result<Value, EvalError> {
    let mut seed = 0;
    evaluate_with(src, env, &Host, &mut seed)
}

fn ok_num(src: &str, want: f64) {
    let got = f(eval(src, &empty_env()).expect(src).as_num().unwrap());
    let close = if want == 0.0 {
        got.abs() < 1e-12
    } else {
        ((got - want) / want).abs() < 1e-9
    };
    assert!(close, "evaluate({:?}) = {}, want {}", src, got, want);
}

fn ok_str(src: &str, want: &str) {
    let got = eval(src, &empty_env()).expect(src);
    let bytes = got.as_str().unwrap();
    assert_eq!(bytes, want.as_bytes(), "evaluate({:?})", src);
}

#[test]
fn numeric_basics() {
    ok_num("1+2*3", 7.0);
    ok_num("2^3^2", 512.0);
    ok_num("-3", -3.0);
    ok_num("1=1", 1.0);
    ok_num("3<>3", 0.0);
}

#[test]
fn string_literal_and_concat() {
    ok_str("\"hello\"", "hello");
    ok_str("\"foo\"+\"bar\"", "foobar");
}

#[test]
fn string_compare() {
    ok_num("\"abc\"<\"abd\"", 1.0);
    ok_num("\"abc\"=\"abc\"", 1.0);
    ok_num("\"abc\">\"abb\"", 1.0);
}

#[test]
fn type_mismatch_on_minus() {
    let env = empty_env();
    assert!(matches!(
        eval("\"a\"-\"b\"", &env),
        Err(EvalError::TypeMismatch)
    ));
}

#[test]
fn type_mismatch_on_mixed_add() {
    let env = empty_env();
    assert!(matches!(
        eval("\"a\"+1", &env),
        Err(EvalError::TypeMismatch)
    ));
}

#[test]
fn string_funcs() {
    ok_num("LEN \"hello\"", 5.0);
    ok_num("CODE \"A\"", 65.0);
    ok_str("CHR$ 65", "A");
    ok_str("STR$ 42", "42");
    ok_num("VAL \"1+2*3\"", 7.0);
}

#[test]
fn dollar_identifier() {
    let env = TestEnv {
        vars: HashMap::from([
            ("A$", Value::Str(b"hi".to_vec())),
            ("A", Value::Num(n(7.0))),
        ]),
        fns: HashMap::new(),
    };
    match eval("A$", &env).unwrap() {
        Value::Str(s) => assert_eq!(s, b"hi"),
        _ => panic!("expected string"),
    }
    match eval("A", &env).unwrap() {
        Value::Num(x) => assert_eq!(f(x), 7.0),
        _ => panic!("expected num"),
    }
}

#[test]
fn func_calls_legacy() {
    ok_num("INT 3.7", 3.0);
    ok_num("SQR 9", 3.0);
    ok_num("SIN(0)+COS(0)", 1.0);
    ok_num("PI", core::f64::consts::PI);
    ok_num("RND", 0.5);
}

#[test]
fn unterminated_string_errors() {
    let env = empty_env();
    assert_eq!(eval("\"oops", &env), Err(EvalError::UnterminatedString));
}

#[test]
fn evaluate_until_then_skips_quoted_then() {
    // The word THEN inside a string literal must not be treated as the
    // separator.
    let env = empty_env();
    let mut seed = 0;
    let (v, rest) = evaluate_until_keyword(
        "\"if THEN go\" = \"if THEN go\" THEN PRINT 1",
        "THEN",
        &env,
        &Host,
        &mut seed,
    )
    .unwrap();
    assert_eq!(f(v.as_num().unwrap()), 1.0);
    assert_eq!(rest.trim_start(), "PRINT 1");
}

#[test]
fn operators_bind_and_associate() {
    ok_num("10-4-3", 3.0);
    ok_num("100/10/5", 2.0);
    ok_num("2*3^2", 18.0);
    ok_num("-2^2", 4.0);
    ok_num("(1+2)*3", 9.0);
    ok_num("1+1=2", 1.0);
    ok_num("+-+4", -4.0);
    ok_num(" 1 + 2 ", 3.0);
}

#[test]
fn comparisons_of_numbers() {
    ok_num("1<2", 1.0);
    ok_num("2<1", 0.0);
    ok_num("2>1", 1.0);
    ok_num("1<=1", 1.0);
    ok_num("1>=2", 0.0);
    ok_num("1<>2", 1.0);
    ok_num("0=-0", 1.0);
}

#[test]
fn number_literals() {
    ok_num("1.5e3", 1500.0);
    ok_num("1.5E-3", 0.0015);
    ok_num("2E+2", 200.0);
    ok_num("0.5", 0.5);
    ok_num("12.25E1", 122.5);
}

#[test]
fn doubled_quote_is_a_quote() {
    ok_str("\"a\"\"b\"", "a\"b");
    ok_str("\"\"", "");
}

#[test]
fn shorter_string_comes_first() {
    ok_num("\"ab\"<\"abc\"", 1.0);
    ok_num("\"\"<\"a\"", 1.0);
    ok_num("\"b\">\"abc\"", 1.0);
}

#[test]
fn every_mistake_is_reported() {
    let env = empty_env();
    assert_eq!(eval("", &env), Err(EvalError::Nonsense));
    assert_eq!(eval("1 2", &env), Err(EvalError::TrailingInput));
    assert_eq!(eval("(1", &env), Err(EvalError::MissingCloseParen));
    assert_eq!(eval("1e", &env), Err(EvalError::BadNumber));
    assert_eq!(eval(".", &env), Err(EvalError::BadNumber));
    assert_eq!(eval(".5", &env), Err(EvalError::BadNumber));
    assert_eq!(eval("5.", &env), Err(EvalError::BadNumber));
    assert_eq!(eval("5.e3", &env), Err(EvalError::BadNumber));
    assert_eq!(eval("1+5.*2", &env), Err(EvalError::BadNumber));
    assert_eq!(
        eval("nix", &env),
        Err(EvalError::UnknownVariable("NIX".to_string()))
    );
    assert_eq!(
        eval("VAL \"(\"", &env),
        Err(EvalError::UnknownFunction("VAL".to_string()))
    );
    assert_eq!(eval("-\"a\"", &env), Err(EvalError::TypeMismatch));
    assert_eq!(eval("\"a\"<1", &env), Err(EvalError::TypeMismatch));
}

#[test]
fn first_mistake_wins() {
    let env = empty_env();
    assert_eq!(
        eval("x+(", &env),
        Err(EvalError::UnknownVariable("X".to_string()))
    );
}

#[test]
fn arrays_and_user_functions() {
    let mut env = empty_env();
    env.vars.insert("X", Value::Num(n(100.0)));
    env.fns.insert("F", ("X", "X*X+1"));
    env.fns.insert("G", ("Y", "X+Y"));
    env.fns.insert("LOOP", ("Y", "FN LOOP(Y)"));
    let num = |src: &str| f(eval(src, &env).unwrap().as_num().unwrap());
    assert_eq!(num("a(1+1)"), 20.0);
    assert_eq!(num("FN F(5)"), 26.0);
    assert_eq!(num("FN G(FN F(2))"), 105.0);
    assert_eq!(
        eval("B(1)", &env),
        Err(EvalError::UnknownVariable("B".to_string()))
    );
    assert_eq!(
        eval("FN H(1)", &env),
        Err(EvalError::UnknownFunction("H".to_string()))
    );
    assert_eq!(
        eval("FN LOOP(1)", &env),
        Err(EvalError::UnknownFunction("LOOP".to_string()))
    );
}

/// Functions `F0`, `F1` and so on, each of which calls the one before it.
struct Chain;

impl Env for Chain {
    fn get_var(&self, _name: &str) -> Option<Value> {
        None
    }

    fn get_array(&self, _name: &str, _index: Number) -> Option<Value> {
        None
    }

    fn get_user_fn(&self, name: &str) -> Option<UserFn> {
        let k: usize = name[1..].parse().unwrap();
        let body = if k == 0 { "X".to_string() } else { format!("FN F{}(X)+1", k - 1) };
        Some(UserFn { param: "X".to_string(), body })
    }

    fn call_fn(&self, _name: &str, _args: &[Value], _seed: &mut u64) -> Option<Called> {
        None
    }
}

#[test]
fn calls_nest_a_thousand_deep() {
    let call = |src: &str| evaluate_with(src, &Chain, &Host, &mut 0);
    assert_eq!(f(call("FN F999(5)").unwrap().as_num().unwrap()), 1004.0);
    assert_eq!(call("FN F1000(5)"), Err(EvalError::UnknownFunction("F1000".to_string())));
}

#[test]
fn empty_environment_knows_nothing() {
    assert_eq!(f(evaluate("2+2", &Host).unwrap().as_num().unwrap()), 4.0);
    assert_eq!(
        evaluate("PI", &Host),
        Err(EvalError::UnknownFunction("PI".to_string()))
    );
    let mut seed = 9;
    assert_eq!(
        evaluate_num_with("\"a\"", &EmptyEnv, &Host, &mut seed),
        Err(EvalError::TypeMismatch)
    );
    assert_eq!(seed, 9);
}

#[test]
fn built_in_functions_are_listed() {
    for name in FUNCS_0ARG {
        assert!(is_func_0arg(name) && !is_func_1arg(name));
    }
    for name in FUNCS_1ARG_NUM {
        assert!(is_func_1arg(name) && !is_func_0arg(name));
        assert!(!is_string_name(name));
    }
    for name in FUNCS_1ARG_STR {
        assert!(is_func_1arg(name) && !is_func_0arg(name));
        assert!(is_string_name(name));
    }
    assert!(!is_func_0arg("SIN") && !is_func_1arg("PI") && !is_func_1arg("sin"));
}

#[test]
fn keyword_must_be_a_word() {
    let env = empty_env();
    let mut seed = 0;
    assert_eq!(
        evaluate_until_keyword("1 THENCE", "THEN", &env, &Host, &mut seed),
        Err(EvalError::Nonsense)
    );
    let (v, rest) = evaluate_until_keyword("1 then x", "THEN", &env, &Host, &mut seed).unwrap();
    assert_eq!(f(v.as_num().unwrap()), 1.0);
    assert_eq!(rest, " x");
}

#[test]
fn values_know_their_type() {
    let v = Value::from(n(1.5));
    assert!(v.is_num() && !v.is_str());
    assert_eq!(v.as_str(), Err(EvalError::TypeMismatch));
    let v = Value::from("hi");
    assert!(v.is_str() && !v.is_num());
    assert_eq!(v.as_str().unwrap(), b"hi");
    assert_eq!(v.as_num(), Err(EvalError::TypeMismatch));
    assert_eq!(Value::from(b"hi".to_vec()), v);
    assert!(is_string_name("A$"));
    assert!(!is_string_name("A"));
    assert!(!is_string_name(""));
}
