use mal::printer::pr_str;
use mal::reader::{is_macro, read_atom, read_atom_string, read_form, read_map, read_str, tokenize, tokens_from_captures, Reader};
use mal::types::{MalError, MalResult, MalType};

fn show(r: MalResult) -> String {
    match r {
        Ok(v) => pr_str(&v, true, &Vec::new()),
        Err(MalError::ParseError(m)) => format!("parse error: {m}"),
        Err(MalError::EvalError(m)) => format!("eval error: {m}"),
        Err(MalError::EmptyInput) => "empty".to_string(),
        Err(_) => "other error".to_string(),
    }
}

#[test]
fn reads_forms() {
    assert_eq!(show(read_str("(1 2 (3))")), "(1 2 (3))");
    assert_eq!(show(read_str("[1 \"a\" :k nil true false]")), "[1 \"a\" :k nil true false]");
    assert_eq!(show(read_str("{:a 1 \"b\" 2}")), "{:a 1 \"b\" 2}");
    assert_eq!(show(read_str("  ,, (+   1 2) ; trailing")), "(+ 1 2)");
    assert_eq!(show(read_str("-12")), "-12");
    assert_eq!(show(read_str("+5")), "5");
    assert_eq!(show(read_str("abc 1 2")), "abc");
}

#[test]
fn reads_reader_macros() {
    assert_eq!(show(read_str("'x")), "(quote x)");
    assert_eq!(show(read_str("`x")), "(quasiquote x)");
    assert_eq!(show(read_str("~x")), "(unquote x)");
    assert_eq!(show(read_str("~@x")), "(splice-unquote x)");
    assert_eq!(show(read_str("@a")), "(deref a)");
    assert_eq!(show(read_str("^{:m 1} [1]")), "(with-meta [1] {:m 1})");
    assert!(is_macro("~@"));
    assert!(!is_macro("("));
}

#[test]
fn reads_strings_with_escapes() {
    assert_eq!(show(read_str("\"a\\nb\"")), "\"a\\nb\"");
    match read_str("\"q\\\"x\\\\y\"") {
        Ok(MalType::String(s)) => assert_eq!(s, "q\"x\\y"),
        _ => panic!("expected a string"),
    }
    match read_atom_string("\"\\x\"") {
        Ok(MalType::String(s)) => assert_eq!(s, "x"),
        _ => panic!("expected a string"),
    }
}

#[test]
fn reports_parse_errors() {
    assert_eq!(show(read_str("(1 2")), "parse error: unbalanced '('");
    assert_eq!(show(read_str("[1")), "parse error: unbalanced '['");
    assert_eq!(show(read_str(")")), "parse error: unbalanced ')'");
    assert_eq!(show(read_str("\"abc")), "parse error: unbalanced '\"'");
    assert_eq!(show(read_str("\"\\\"")), "parse error: unbalanced '\\'");
    assert_eq!(show(read_str("{1 2}")), "parse error: hash-map key not hashable");
    assert_eq!(show(read_str("{:a}")), "parse error: odd number of items in {} literal");
    assert_eq!(show(read_str("'")), "parse error: underflow");
    assert_eq!(show(read_str("")), "empty");
    assert_eq!(show(read_str("; just a comment")), "empty");
}

#[test]
fn tokenizes_with_the_regex() {
    let toks = tokenize("(+ 1 2) ; c").expect("the token pattern compiles");
    assert_eq!(toks, vec!["(", "+", "1", "2", ")"]);
    let toks = tokenize("~@a \"s p\" [x]").expect("the token pattern compiles");
    assert_eq!(toks, vec!["~@", "a", "\"s p\"", "[", "x", "]"]);
}

#[test]
fn reader_walks_tokens() {
    let mut r = Reader::new(vec!["a".to_string(), "b".to_string()]);
    assert!(!r.is_empty());
    assert_eq!(r.peek().map(|s| s.as_str()), Some("a"));
    assert_eq!(r.next(), "a");
    assert_eq!(r.next(), "b");
    assert!(r.is_empty());
    assert!(r.peek().is_none());
}

#[test]
fn reads_atoms_and_maps() {
    assert_eq!(show(read_atom("42".to_string())), "42");
    assert_eq!(show(read_atom("nil".to_string())), "nil");
    assert_eq!(show(read_atom(":kw".to_string())), ":kw");
    assert_eq!(show(read_atom("sym".to_string())), "sym");
    assert_eq!(show(read_atom("]".to_string())), "parse error: unbalanced ']'");
    assert_eq!(show(read_atom("99999999999999999999".to_string())), "99999999999999999999");
    let items = vec![MalType::Keyword(":a".to_string()), MalType::Number(1), MalType::Keyword(":a".to_string()), MalType::Number(2)];
    assert_eq!(show(read_map(items)), "{:a 2}");
}

#[test]
fn tokens_from_given_captures() {
    let caps = vec![Some("(".to_string()), Some("; note".to_string()), Some("x".to_string()), None, Some("y".to_string())];
    assert_eq!(tokens_from_captures(&caps), vec!["(", "x"]);
    let caps = vec![Some("a".to_string()), Some("b".to_string())];
    assert_eq!(tokens_from_captures(&caps), vec!["a", "b"]);
    assert!(tokens_from_captures(&Vec::new()).is_empty());
}

#[test]
fn reads_forms_from_given_tokens() {
    let toks = ["(", "a", "[", "1", "]", ")"].iter().map(|t| t.to_string()).collect();
    let mut r = Reader::new(toks);
    assert_eq!(show(read_form(&mut r)), "(a [1])");
    assert!(r.is_empty());
}
