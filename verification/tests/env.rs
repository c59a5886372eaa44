use mal::env::{Env, EnvStore};
use mal::printer::pr_str;
use mal::types::{MalError, MalResult, MalType};

fn sym(s: &str) -> MalType {
    MalType::Symbol(s.to_string())
}

fn show(r: MalResult) -> String {
    match r {
        Ok(v) => pr_str(&v, true, &Vec::new()),
        Err(MalError::EvalError(m)) => format!("eval error: {m}"),
        Err(_) => "other error".to_string(),
    }
}

fn err_text(r: Result<Env, MalError>) -> String {
    match r {
        Ok(_) => "ok".to_string(),
        Err(MalError::EvalError(m)) => m,
        Err(_) => "other error".to_string(),
    }
}

#[test]
fn binds_parameters() {
    let mut store = EnvStore::new();
    let root = Env::new(&mut store, None, vec![], vec![]).ok().expect("a frame");
    root.set(&mut store, "x".to_string(), MalType::Number(1));
    let f = Env::new(&mut store, Some(root), vec![sym("a"), sym("&"), sym("rest")], vec![MalType::Number(2), MalType::Number(3), MalType::Number(4)])
        .ok()
        .expect("a frame");
    assert_eq!(show(f.get(&store, "a")), "2");
    assert_eq!(show(f.get(&store, "rest")), "(3 4)");
    assert_eq!(show(f.get(&store, "x")), "1");
    assert_eq!(show(f.get(&store, "y")), "eval error: 'y' not found");
    assert_eq!(show(root.get(&store, "a")), "eval error: 'a' not found");
}

#[test]
fn set_replaces_and_shadows() {
    let mut store = EnvStore::new();
    let root = Env::new(&mut store, None, vec![], vec![]).ok().expect("a frame");
    root.set(&mut store, "x".to_string(), MalType::Number(1));
    root.set(&mut store, "x".to_string(), MalType::Number(2));
    assert_eq!(show(root.get(&store, "x")), "2");
    let inner = Env::new(&mut store, Some(root), vec![sym("x")], vec![MalType::Number(9)]).ok().expect("a frame");
    assert_eq!(show(inner.get(&store, "x")), "9");
    assert_eq!(show(root.get(&store, "x")), "2");
}

#[test]
fn reports_binding_errors() {
    let mut store = EnvStore::new();
    assert_eq!(err_text(Env::new(&mut store, None, vec![sym("&")], vec![])), "no symbol after &");
    assert_eq!(err_text(Env::new(&mut store, None, vec![sym("a")], vec![])), "more args expected");
    assert_eq!(err_text(Env::new(&mut store, None, vec![MalType::Number(1)], vec![])), "bind is not a symbol");
    assert_eq!(store.frames.len(), 0);
}
