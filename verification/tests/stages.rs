use mal::env::Env;
use mal::printer::pr_str;
use mal::reader::read_str;
use mal::runtime::Runtime;
use mal::stages::{eval_let_step4, eval_step3};
use mal::types::{MalError, MalResult, MalType};

const DEPTH: u64 = 10_000;

fn root() -> Env {
    Env { id: 0 }
}

fn show(r: MalResult) -> String {
    match r {
        Ok(v) => pr_str(&v, true, &Vec::new()),
        Err(MalError::EvalError(m)) => format!("eval error: {m}"),
        Err(MalError::ParseError(m)) => format!("parse error: {m}"),
        Err(_) => "other error".to_string(),
    }
}

fn step3(rt: &mut Runtime, input: &str) -> String {
    let ast = read_str(input).ok().expect("a form");
    show(eval_step3(rt, ast, root(), DEPTH))
}

fn let4(rt: &mut Runtime, input: &str) -> String {
    match read_str(input).ok().expect("a form") {
        MalType::List(l, _) => show(eval_let_step4(rt, &l, root(), DEPTH)),
        _ => panic!("a let* form"),
    }
}

#[test]
fn step3_arithmetic_and_definitions() {
    let mut rt = Runtime::new();
    assert_eq!(step3(&mut rt, "(+ 1 2)"), "3");
    assert_eq!(step3(&mut rt, "(* (+ 1 2) 7)"), "21");
    assert_eq!(step3(&mut rt, "(def! x 10)"), "10");
    assert_eq!(step3(&mut rt, "x"), "10");
    assert_eq!(step3(&mut rt, "(let* (a 1 b (+ a 1)) b)"), "2");
    assert_eq!(step3(&mut rt, "(let* [c 5] c)"), "5");
    assert_eq!(step3(&mut rt, "c"), "eval error: 'c' not found");
    assert_eq!(step3(&mut rt, "[x (+ x 1)]"), "[10 11]");
    assert_eq!(step3(&mut rt, "{\"a\" (+ 1 1)}"), "{\"a\" 2}");
    assert_eq!(step3(&mut rt, "()"), "()");
    assert_eq!(step3(&mut rt, "\"s\""), "\"s\"");
}

#[test]
fn step3_errors() {
    let mut rt = Runtime::new();
    assert_eq!(step3(&mut rt, "(def! x 1 2)"), "eval error: 'def!' expected 2 args, got 3");
    assert_eq!(step3(&mut rt, "(def! x)"), "eval error: 'def!' expected 2 args, got 1");
    assert_eq!(step3(&mut rt, "(def! 1 2)"), "eval error: 1st arg to 'def!' must be symbol");
    assert_eq!(step3(&mut rt, "(let* (a 1))"), "eval error: 'let*' expected 2 args, got 1");
    assert_eq!(step3(&mut rt, "(let* 1 2)"), "eval error: 1st arg to 'let*' must be list");
    assert_eq!(step3(&mut rt, "(let* (a 1 b) a)"), "eval error: odd number of args in 'let*' binding");
    assert_eq!(step3(&mut rt, "(let* (1 2) 3)"), "eval error: key in 'let*' is not symbol");
    assert_eq!(step3(&mut rt, "(1 2)"), "eval error: 1st lsit item not callable");
    assert_eq!(step3(&mut rt, "(nope 2)"), "eval error: 'nope' not found");
    assert_eq!(step3(&mut rt, "(if true 1 2)"), "eval error: 'if' not found");
}

#[test]
fn step3_failed_def_binds_nothing() {
    let mut rt = Runtime::new();
    assert_eq!(step3(&mut rt, "(def! y (nope))"), "eval error: 'nope' not found");
    assert_eq!(step3(&mut rt, "y"), "eval error: 'y' not found");
}

#[test]
fn let_step4_checks() {
    let mut rt = Runtime::with_prelude();
    assert_eq!(let4(&mut rt, "(let* (a 1 b (+ a 1)) (if (= b 2) (do a) 0))"), "1");
    assert_eq!(let4(&mut rt, "(let* [f (fn* (x) (* x x))] (f 4))"), "16");
    assert_eq!(let4(&mut rt, "(let* (a 1) a extra)"), "eval error: 'let*' expected 2 args, got 3");
    assert_eq!(let4(&mut rt, "(let*)"), "eval error: 'let*' expected 2 args, got 0");
    assert_eq!(let4(&mut rt, "(let* x 1)"), "eval error: 1st arg to 'let*' must be list");
    assert_eq!(let4(&mut rt, "(let* (a 1 b) a)"), "eval error: odd number of args in 'let*' binding");
    assert_eq!(let4(&mut rt, "(let* (\"a\" 1) 2)"), "eval error: key in 'let*' is not symbol");
}

#[test]
fn printed_values_read_back() {
    let x = MalType::List(
        vec![
            MalType::Number(-12),
            MalType::String("a \"q\"\nb\\".to_string()),
            MalType::Keyword(":k".to_string()),
            MalType::Vector(vec![MalType::Nil, MalType::Bool(true), MalType::Bool(false)], None),
            MalType::HashMap(
                vec![
                    (":kw\u{29E}".to_string(), MalType::Number(2)),
                    ("s".to_string(), MalType::List(vec![], None)),
                ],
                None,
            ),
        ],
        None,
    );
    let text = pr_str(&x, true, &Vec::new());
    assert_eq!(text, "(-12 \"a \\\"q\\\"\\nb\\\\\" :k [nil true false] {:kw 2 \"s\" ()})");
    let back = read_str(&text).ok().expect("the printed text reads");
    assert_eq!(pr_str(&back, true, &Vec::new()), text);
    match back {
        MalType::List(items, None) => {
            assert_eq!(items.len(), 5);
            assert!(matches!(&items[2], MalType::Keyword(k) if k == ":k"));
            assert!(matches!(&items[3], MalType::Vector(v, None) if v.len() == 3));
            match &items[4] {
                MalType::HashMap(es, None) => {
                    assert_eq!(es.len(), 2);
                    assert_eq!(es[0].0, ":kw\u{29E}");
                    assert_eq!(es[1].0, "s");
                },
                _ => panic!("a hash-map"),
            }
        },
        _ => panic!("a list without metadata"),
    }
}
