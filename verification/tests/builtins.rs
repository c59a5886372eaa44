use mal::builtins::{add, div, mult, sub};
use mal::printer::pr_str;
use mal::types::{MalError, MalResult, MalType};

fn n(x: i64) -> MalType {
    MalType::Number(x)
}

fn show(r: MalResult) -> String {
    match r {
        Ok(v) => pr_str(&v, true, &Vec::new()),
        Err(MalError::EvalError(m)) => format!("eval error: {m}"),
        Err(_) => "other error".to_string(),
    }
}

#[test]
fn add_and_mult_fold_all_arguments() {
    assert_eq!(show(add(vec![n(1), n(2), n(3)])), "6");
    assert_eq!(show(add(vec![])), "0");
    assert_eq!(show(mult(vec![n(2), n(3), n(4)])), "24");
    assert_eq!(show(mult(vec![])), "1");
}

#[test]
fn sub_and_div_take_two_arguments() {
    assert_eq!(show(sub(vec![n(10), n(4)])), "6");
    assert_eq!(show(div(vec![n(-7), n(2)])), "-3");
    assert_eq!(show(sub(vec![n(1)])), "eval error: '-' expects 2 args");
    assert_eq!(show(div(vec![n(1), n(2), n(3)])), "eval error: '/' expects 2 args");
}

#[test]
fn reports_bad_arguments() {
    assert_eq!(show(add(vec![n(1), MalType::Nil])), "eval error: non-number arguments to '+'");
    assert_eq!(show(sub(vec![MalType::Nil])), "eval error: non-number arguments to '-'");
    assert_eq!(show(div(vec![n(1), n(0)])), "eval error: division by zero");
    assert_eq!(show(add(vec![n(i64::MAX), n(1)])), "eval error: integer overflow in '+'");
    assert_eq!(show(mult(vec![n(i64::MAX), n(2)])), "eval error: integer overflow in '*'");
    assert_eq!(show(sub(vec![n(i64::MIN), n(1)])), "eval error: integer overflow in '-'");
    assert_eq!(show(div(vec![n(i64::MIN), n(-1)])), "eval error: integer overflow in '/'");
}
