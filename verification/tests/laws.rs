use mal::env::{Env, EnvStore};
use mal::printer::{pr_str, print_string_readably};
use mal::reader::{read_atom, read_atom_string};
use mal::repl::rep;
use mal::runtime::Runtime;
use mal::text::format_i64;
use mal::types::{MalResult, MalType};

fn show(r: MalResult) -> String {
    match r {
        Ok(v) => pr_str(&v, true, &Vec::new()),
        Err(_) => "error".to_string(),
    }
}

#[test]
fn string_token_round_trip() {
    for s in ["", "plain", "with \"quotes\"", "back\\slash", "new\nline", "ʞ unicode"] {
        match read_atom_string(&print_string_readably(s)) {
            Ok(MalType::String(back)) => assert_eq!(back, s),
            _ => panic!("a string reads back"),
        }
    }
}

#[test]
fn number_token_round_trip() {
    for n in [0, 7, -7, 1234567890, i64::MAX, i64::MIN] {
        assert_eq!(format_i64(n), n.to_string());
        assert!(matches!(read_atom(format_i64(n)), Ok(MalType::Number(m)) if m == n));
    }
}

#[test]
fn env_get_after_set() {
    let mut store = EnvStore::new();
    let e = Env::new(&mut store, None, vec![], vec![]).ok().expect("a frame");
    e.set(&mut store, "k".to_string(), MalType::Number(1));
    e.set(&mut store, "j".to_string(), MalType::Number(2));
    e.set(&mut store, "k".to_string(), MalType::Number(3));
    assert_eq!(show(e.get(&store, "k")), "3");
    assert_eq!(show(e.get(&store, "j")), "2");
}

#[test]
fn new_frame_scoping() {
    let mut store = EnvStore::new();
    let outer = Env::new(&mut store, None, vec![], vec![]).ok().expect("a frame");
    outer.set(&mut store, "o".to_string(), MalType::Number(1));
    let inner = Env::new(&mut store, Some(outer), vec![MalType::Symbol("p".to_string()), MalType::Symbol("q".to_string())], vec![MalType::Number(5), MalType::Number(6)])
        .ok()
        .expect("a frame");
    assert_eq!(show(inner.get(&store, "o")), "1");
    assert_eq!(show(inner.get(&store, "p")), "5");
    assert_eq!(show(inner.get(&store, "q")), "6");
    assert_eq!(show(outer.get(&store, "p")), "error");
}

#[test]
fn hash_map_read_after_write() {
    let mut rt = Runtime::with_prelude();
    assert_eq!(rep("(get (assoc {:a 1} :b 2) :b)", &mut rt), Some("2".to_string()));
    assert_eq!(rep("(contains? (assoc {} \"k\" nil) \"k\")", &mut rt), Some("true".to_string()));
    assert_eq!(rep("(contains? (dissoc {:a 1 :b 2} :a) :a)", &mut rt), Some("false".to_string()));
    assert_eq!(rep("(get (dissoc {:a 1} :a) :a)", &mut rt), Some("nil".to_string()));
    assert_eq!(rep("(count (keys (assoc {:a 1} :a 2 :a 3)))", &mut rt), Some("1".to_string()));
}

#[test]
fn first_and_rest_of_cons() {
    let mut rt = Runtime::with_prelude();
    assert_eq!(rep("(first (cons 1 (list 2 3)))", &mut rt), Some("1".to_string()));
    assert_eq!(rep("(rest (cons 1 [2 3]))", &mut rt), Some("(2 3)".to_string()));
}

#[test]
fn equality_is_reflexive_on_data_and_never_on_functions() {
    let mut rt = Runtime::with_prelude();
    assert_eq!(rep("(let* [x {:a [1 \"s\" nil]}] (= x x))", &mut rt), Some("true".to_string()));
    assert_eq!(rep("(= + +)", &mut rt), Some("false".to_string()));
    assert_eq!(rep("(let* [f (fn* [] 1)] (= f f))", &mut rt), Some("false".to_string()));
}

#[test]
fn sums_and_products() {
    assert_eq!(show(mal::builtins::add(vec![MalType::Number(i64::MAX), MalType::Number(-1), MalType::Number(1)])), "9223372036854775807");
    assert_eq!(show(mal::builtins::add(vec![MalType::Number(i64::MAX), MalType::Number(1), MalType::Number(-1)])), "error");
    assert_eq!(show(mal::builtins::mult(vec![MalType::Number(-2), MalType::Number(3), MalType::Number(5)])), "-30");
}

#[test]
fn evaluation_laws() {
    let mut rt = Runtime::with_prelude();
    assert_eq!(rep("7", &mut rt), Some("7".to_string()));
    assert_eq!(rep("\"s\"", &mut rt), Some("\"s\"".to_string()));
    assert_eq!(rep("(quote (a b))", &mut rt), Some("(a b)".to_string()));
    assert_eq!(rep("(def! k (+ 1 1))", &mut rt), Some("2".to_string()));
    assert_eq!(rep("k", &mut rt), Some("2".to_string()));
    assert_eq!(rep("(let* [y 5] ((fn* (x) (+ x y)) 1))", &mut rt), Some("6".to_string()));
}

#[test]
fn evaluation_only_adds_to_the_state() {
    let mut rt = Runtime::with_prelude();
    let frames = rt.envs.frames.len();
    let _ = rep("(def! a (atom 0))", &mut rt);
    let _ = rep("(let* [x 1] (do (prn x) (swap! a + x)))", &mut rt);
    assert!(rt.envs.frames.len() > frames);
    assert_eq!(rt.atoms.len(), 1);
    assert_eq!(rt.output, vec!["1".to_string()]);
    let _ = rep("(prn 2)", &mut rt);
    assert_eq!(rt.output, vec!["1".to_string(), "2".to_string()]);
}

#[test]
fn equality_is_symmetric() {
    let mut rt = Runtime::with_prelude();
    assert_eq!(rep("(= {:a 1 :b [2]} {:b (list 2) :a 1})", &mut rt), Some("true".to_string()));
    assert_eq!(rep("(= {:b (list 2) :a 1} {:a 1 :b [2]})", &mut rt), Some("true".to_string()));
    assert_eq!(rep("(= {:a 1} {:a 1 :b 2})", &mut rt), Some("false".to_string()));
    assert_eq!(rep("(= {:a 1 :b 2} {:a 1})", &mut rt), Some("false".to_string()));
    assert_eq!(rep("(= [1 2] [2 1])", &mut rt), Some("false".to_string()));
}

#[test]
fn nested_calls_within_the_depth_limit() {
    let mut rt = Runtime::with_prelude();
    assert_eq!(rep("(def! sum-to (fn* (n) (if (= n 0) 0 (+ n (sum-to (- n 1))))))", &mut rt).is_some(), true);
    assert_eq!(rep("(sum-to 100)", &mut rt), Some("5050".to_string()));
    assert_eq!(rep("(def! DEBUG-EVAL false)", &mut rt), Some("false".to_string()));
    let before = rt.output.len();
    assert_eq!(rep("(+ 1 1)", &mut rt), Some("2".to_string()));
    assert_eq!(rt.output.len(), before);
}

#[test]
fn quasiquote_round_trip() {
    let mut rt = Runtime::with_prelude();
    assert_eq!(rep("`(1 [2 a] {:k 1} \"s\" ())", &mut rt), Some("(1 [2 a] {:k 1} \"s\" ())".to_string()));
    assert_eq!(rep("(= `[x (y)] '[x (y)])", &mut rt), Some("true".to_string()));
}

#[test]
fn parameter_binding() {
    let mut rt = Runtime::with_prelude();
    assert_eq!(rep("((fn* (a a) a) 1 2)", &mut rt), Some("2".to_string()));
    assert_eq!(rep("((fn* (a) a) 1 2)", &mut rt), Some("1".to_string()));
    assert_eq!(rep("((fn* (a b) a) 1)", &mut rt), Some("mal: eval error: more args expected".to_string()));
}

#[test]
fn special_form_laws() {
    let mut rt = Runtime::with_prelude();
    assert_eq!(rep("(if 0 1 2)", &mut rt), Some("1".to_string()));
    assert_eq!(rep("(if \"\" 1 2)", &mut rt), Some("1".to_string()));
    assert_eq!(rep("(if false (nope) 2 3)", &mut rt), Some("2".to_string()));
    assert_eq!(rep("(do (nope) (def! never 1))", &mut rt), Some("mal: eval error: 'nope' not found".to_string()));
    assert_eq!(rep("never", &mut rt), Some("mal: eval error: 'never' not found".to_string()));
    assert_eq!(rep("(defmacro! m 5)", &mut rt), Some("mal: eval error: 'defmacro!' expects a function".to_string()));
    assert_eq!(rep("(defmacro! twice (fn* (x) (list 'do x x)))", &mut rt).is_some(), true);
    assert_eq!(rep("(let* [a (atom 0)] (do (twice (swap! a + 1)) @a))", &mut rt), Some("2".to_string()));
    assert_eq!(rep("(try* (nth [] 1) (catch* e (str \"caught \" e)))", &mut rt), Some("\"caught out of bounds\"".to_string()));
    assert_eq!(rep("(try* (throw 1) (catch* e e)) e", &mut rt), Some("1".to_string()));
    assert_eq!(rep("e", &mut rt), Some("mal: eval error: 'e' not found".to_string()));
    assert_eq!(rep("(map first [[1] 2 [3]])", &mut rt), Some("mal: eval error: 'first' expects list/vector/nil".to_string()));
    assert_eq!(rep("(def! b (atom 5))", &mut rt), Some("(atom 5)".to_string()));
    assert_eq!(rep("(swap! b (fn* (x) (throw x)))", &mut rt), Some("mal: uncaught exception: 5".to_string()));
    assert_eq!(rep("@b", &mut rt), Some("5".to_string()));
}
