use mal::env::Env;
use mal::printer::pr_str;
use mal::repl::ns;
use mal::types::{new_hashmap, new_list, new_vector, MalError, MalType, KW_SUFFIX};

fn show(v: &MalType) -> String {
    pr_str(v, true, &Vec::new())
}

#[test]
fn truthiness() {
    assert!(!MalType::Nil.to_bool());
    assert!(!MalType::Bool(false).to_bool());
    assert!(MalType::Bool(true).to_bool());
    assert!(MalType::Number(0).to_bool());
    assert!(new_list(Vec::new()).to_bool());
}

#[test]
fn hash_map_keys() {
    match MalType::Keyword(":k".to_string()).to_key() {
        Ok(k) => assert_eq!(k, format!(":k{KW_SUFFIX}")),
        Err(_) => panic!("a keyword is a key"),
    }
    match MalType::String("s".to_string()).to_key() {
        Ok(k) => assert_eq!(k, "s"),
        Err(_) => panic!("a string is a key"),
    }
    assert!(matches!(MalType::Number(1).to_key(), Err(MalError::ParseError(m)) if m == "hash-map key not hashable"));
}

#[test]
fn list_shapes() {
    let l = new_list(vec![MalType::Symbol("catch*".to_string()), MalType::Number(1)]);
    assert!(l.is_list_with_sym("catch*"));
    assert!(!l.is_list_with_sym("try*"));
    assert!(!new_vector(vec![MalType::Symbol("catch*".to_string())]).is_list_with_sym("catch*"));
    assert!(new_vector(Vec::new()).is_vector());
    assert!(!l.is_vector());
    assert_eq!(show(&new_hashmap(Vec::new())), "{}");
}

#[test]
fn first_items() {
    assert_eq!(show(&new_list(vec![MalType::Number(7), MalType::Number(8)]).get_first().expect("a first item")), "7");
    assert_eq!(show(&new_vector(Vec::new()).get_first().expect("nil")), "nil");
    assert_eq!(show(&MalType::Nil.get_first().expect("nil")), "nil");
    assert!(MalType::Number(1).get_first().is_none());
}

#[test]
fn macros_and_errors_as_values() {
    let mut f = MalType::Lambda {
        params: Vec::new(),
        body: Box::new(MalType::Nil),
        capt_env: Env { id: 0 },
        is_macro: false,
        meta: None,
    };
    f.set_macro();
    assert!(matches!(f, MalType::Lambda { is_macro: true, .. }));
    let mut n = MalType::Number(3);
    n.set_macro();
    assert_eq!(show(&n), "3");
    assert_eq!(show(&MalError::EmptyInput.into_mal()), "\"no input\"");
    assert_eq!(show(&MalError::EvalError("boom".to_string()).into_mal()), "\"boom\"");
    assert_eq!(show(&MalError::Exception(MalType::Number(4)).into_mal()), "4");
}

#[test]
fn core_namespace() {
    let entries = ns();
    assert_eq!(entries.len(), 63);
    assert_eq!(entries[0].0, "*host-language*");
    assert_eq!(show(&entries[0].1), "\"rust\"");
    assert_eq!(entries[1].0, "*ARGV*");
    assert_eq!(entries[2].0, "+");
    assert_eq!(entries[62].0, "conj");
}
