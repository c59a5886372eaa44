use mal::env::Env;
use mal::printer::{pr_str, print_string_readably};
use mal::types::{new_hashmap, new_list, new_vector, Builtin, MalType};

#[test]
fn prints_strings_readably_or_not() {
    assert_eq!(print_string_readably("a\"b\\c\nd"), "\"a\\\"b\\\\c\\nd\"");
    let s = MalType::String("x\ny".to_string());
    assert_eq!(pr_str(&s, true, &Vec::new()), "\"x\\ny\"");
    assert_eq!(pr_str(&s, false, &Vec::new()), "x\ny");
}

#[test]
fn prints_collections() {
    let v = new_list(vec![MalType::Number(1), new_vector(vec![MalType::Nil, MalType::Bool(true)])]);
    assert_eq!(pr_str(&v, true, &Vec::new()), "(1 [nil true])");
    let m = new_hashmap(vec![
        (format!(":k{}", mal::types::KW_SUFFIX), MalType::Number(-3)),
        ("s".to_string(), MalType::String("v".to_string())),
    ]);
    assert_eq!(pr_str(&m, true, &Vec::new()), "{:k -3 \"s\" \"v\"}");
    assert_eq!(pr_str(&new_list(Vec::new()), true, &Vec::new()), "()");
}

#[test]
fn prints_functions_and_atoms() {
    let f = MalType::BuiltinFunc(Builtin::Add, None);
    assert_eq!(pr_str(&f, true, &Vec::new()), "#<builtin>");
    let lambda = MalType::Lambda {
        params: vec![MalType::Symbol("a".to_string())],
        body: Box::new(MalType::Symbol("a".to_string())),
        capt_env: Env { id: 0 },
        is_macro: false,
        meta: None,
    };
    assert_eq!(pr_str(&lambda, true, &Vec::new()), "(fn* (a) a)");
    let atoms = vec![MalType::Number(5), MalType::Atom(0)];
    assert_eq!(pr_str(&MalType::Atom(0), true, &atoms), "(atom 5)");
    assert_eq!(pr_str(&MalType::Atom(7), true, &atoms), "(atom ...)");
    let self_ref = vec![MalType::Atom(0)];
    assert_eq!(pr_str(&MalType::Atom(0), true, &self_ref), "(atom (atom ...))");
}
