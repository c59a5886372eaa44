use mal::repl::{rep, Outcome};
use mal::runtime::Runtime;
use mal::types::{HostReply, HostRequest};

fn run(rt: &mut Runtime, input: &str) -> Option<String> {
    rep(input, rt)
}

fn eval_to(rt: &mut Runtime, input: &str) -> String {
    run(rt, input).expect("a printed result")
}

#[test]
fn arithmetic_and_definitions() {
    let mut rt = Runtime::with_prelude();
    assert_eq!(eval_to(&mut rt, "(+ 1 2)"), "3");
    assert_eq!(eval_to(&mut rt, "(- 10 4)"), "6");
    assert_eq!(eval_to(&mut rt, "(* 6 7)"), "42");
    assert_eq!(eval_to(&mut rt, "(/ -7 2)"), "-3");
    assert_eq!(eval_to(&mut rt, "(def! x 10)"), "10");
    assert_eq!(eval_to(&mut rt, "x"), "10");
    assert_eq!(eval_to(&mut rt, "(let* (a 1 b (+ a 1)) b)"), "2");
    assert_eq!(eval_to(&mut rt, "(let* [a 5] a)"), "5");
    assert_eq!(eval_to(&mut rt, "x"), "10");
}

#[test]
fn special_forms() {
    let mut rt = Runtime::with_prelude();
    assert_eq!(eval_to(&mut rt, "(if nil 1 2)"), "2");
    assert_eq!(eval_to(&mut rt, "(if 0 1 2)"), "1");
    assert_eq!(eval_to(&mut rt, "(if false 1)"), "nil");
    assert_eq!(eval_to(&mut rt, "(do 1 2 3)"), "3");
    assert_eq!(eval_to(&mut rt, "(do)"), "nil");
    assert_eq!(eval_to(&mut rt, "((fn* (a b) (+ a b)) 2 3)"), "5");
    assert_eq!(eval_to(&mut rt, "((fn* (& xs) xs) 1 2 3)"), "(1 2 3)");
    assert_eq!(eval_to(&mut rt, "(quote (1 2 b))"), "(1 2 b)");
    assert_eq!(eval_to(&mut rt, "'sym"), "sym");
    assert_eq!(eval_to(&mut rt, "()"), "()");
    assert_eq!(eval_to(&mut rt, "[1 (+ 1 1)]"), "[1 2]");
    assert_eq!(eval_to(&mut rt, "{:a (+ 1 1)}"), "{:a 2}");
    assert_eq!(eval_to(&mut rt, "(not true)"), "false");
    assert_eq!(eval_to(&mut rt, "(not nil)"), "true");
    assert_eq!(eval_to(&mut rt, "(cond false 1 true 2)"), "2");
    assert_eq!(eval_to(&mut rt, "(cond)"), "nil");
}

#[test]
fn quasiquote_and_macros() {
    let mut rt = Runtime::with_prelude();
    assert_eq!(eval_to(&mut rt, "`(1 ~(+ 1 1) ~@(list 3 4))"), "(1 2 3 4)");
    assert_eq!(eval_to(&mut rt, "`[1 a]"), "[1 a]");
    assert_eq!(eval_to(&mut rt, "`x"), "x");
    assert_eq!(eval_to(&mut rt, "(defmacro! unless (fn* (p a b) `(if ~p ~b ~a)))").starts_with("(fn* "), true);
    assert_eq!(eval_to(&mut rt, "(unless false 7 8)"), "7");
    assert_eq!(eval_to(&mut rt, "(macro? unless)"), "true");
    assert_eq!(eval_to(&mut rt, "(fn? unless)"), "false");
    assert_eq!(eval_to(&mut rt, "(fn? not)"), "true");
}

#[test]
fn exceptions() {
    let mut rt = Runtime::with_prelude();
    assert_eq!(eval_to(&mut rt, "(try* (throw \"e\") (catch* x (str \"got \" x)))"), "\"got e\"");
    assert_eq!(eval_to(&mut rt, "(try* (nope) (catch* e e))"), "\"'nope' not found\"");
    assert_eq!(eval_to(&mut rt, "(try* 5 (catch* e 0))"), "5");
    assert_eq!(eval_to(&mut rt, "(throw {:a 1})"), "mal: uncaught exception: {:a 1}");
    assert_eq!(eval_to(&mut rt, "(undefined-sym)"), "mal: eval error: 'undefined-sym' not found");
    assert_eq!(eval_to(&mut rt, "("), "mal: parse error: unbalanced '('");
    assert_eq!(eval_to(&mut rt, "(1 2)"), "mal: eval error: not callable");
    assert_eq!(run(&mut rt, ""), None);
    assert_eq!(run(&mut rt, "; only a comment"), None);
}

#[test]
fn atoms_and_functions_of_functions() {
    let mut rt = Runtime::with_prelude();
    assert_eq!(eval_to(&mut rt, "(def! a (atom 1))"), "(atom 1)");
    assert_eq!(eval_to(&mut rt, "(swap! a + 2)"), "3");
    assert_eq!(eval_to(&mut rt, "@a"), "3");
    assert_eq!(eval_to(&mut rt, "(reset! a 9)"), "9");
    assert_eq!(eval_to(&mut rt, "(deref a)"), "9");
    assert_eq!(eval_to(&mut rt, "(atom? a)"), "true");
    assert_eq!(eval_to(&mut rt, "(map (fn* (x) (* x x)) [1 2 3])"), "(1 4 9)");
    assert_eq!(eval_to(&mut rt, "(map not [true false])"), "(false true)");
    assert_eq!(eval_to(&mut rt, "(apply + 1 [2 3])"), "3");
    assert_eq!(eval_to(&mut rt, "(apply list 1 [2 3])"), "(1 2 3)");
    assert_eq!(eval_to(&mut rt, "(eval (list + 1 2))"), "3");
    assert_eq!(eval_to(&mut rt, "(eval (read-string \"(* 2 21)\"))"), "42");
}

#[test]
fn collections() {
    let mut rt = Runtime::with_prelude();
    assert_eq!(eval_to(&mut rt, "(get {:a 1} :a)"), "1");
    assert_eq!(eval_to(&mut rt, "(get {:a 1} :b)"), "nil");
    assert_eq!(eval_to(&mut rt, "(keys {\"x\" 1})"), "(\"x\")");
    assert_eq!(eval_to(&mut rt, "(keys {:k 1})"), "(:k)");
    assert_eq!(eval_to(&mut rt, "(vals {:k 1 :j 2})"), "(1 2)");
    assert_eq!(eval_to(&mut rt, "(assoc {:a 1} :b 2 :a 3)"), "{:a 3 :b 2}");
    assert_eq!(eval_to(&mut rt, "(dissoc {:a 1 :b 2} :a)"), "{:b 2}");
    assert_eq!(eval_to(&mut rt, "(contains? {:a 1} :a)"), "true");
    assert_eq!(eval_to(&mut rt, "(hash-map :a 1)"), "{:a 1}");
    assert_eq!(eval_to(&mut rt, "(hash-map 1 2)"), "mal: eval error: hash-map key not hashable");
    assert_eq!(eval_to(&mut rt, "(cons 1 [2 3])"), "(1 2 3)");
    assert_eq!(eval_to(&mut rt, "(concat [1] (list 2) [])"), "(1 2)");
    assert_eq!(eval_to(&mut rt, "(vec (list 1 2))"), "[1 2]");
    assert_eq!(eval_to(&mut rt, "(nth [1 2 3] 2)"), "3");
    assert_eq!(eval_to(&mut rt, "(nth [1 2 3] 3)"), "mal: eval error: out of bounds");
    assert_eq!(eval_to(&mut rt, "(first [])"), "nil");
    assert_eq!(eval_to(&mut rt, "(rest [1 2])"), "(2)");
    assert_eq!(eval_to(&mut rt, "(count [1 2 3])"), "3");
    assert_eq!(eval_to(&mut rt, "(count nil)"), "0");
    assert_eq!(eval_to(&mut rt, "(empty? ())"), "true");
    assert_eq!(eval_to(&mut rt, "(conj (list 1) 2 3)"), "(3 2 1)");
    assert_eq!(eval_to(&mut rt, "(conj [1] 2 3)"), "[1 2 3]");
    assert_eq!(eval_to(&mut rt, "(seq \"ab\")"), "(\"a\" \"b\")");
    assert_eq!(eval_to(&mut rt, "(seq [])"), "nil");
    assert_eq!(eval_to(&mut rt, "(meta (with-meta [1] {:a 1}))"), "{:a 1}");
    assert_eq!(eval_to(&mut rt, "(meta [1])"), "nil");
    assert_eq!(eval_to(&mut rt, "(= [1 2] (list 1 2))"), "true");
    assert_eq!(eval_to(&mut rt, "(= {:a 1} {:a 2})"), "false");
    assert_eq!(eval_to(&mut rt, "(keyword \"k\")"), ":k");
    assert_eq!(eval_to(&mut rt, "(symbol \"s\")"), "s");
    assert_eq!(eval_to(&mut rt, "(pr-str \"a\" 1)"), "\"\\\"a\\\" 1\"");
    assert_eq!(eval_to(&mut rt, "(str \"a\" 1 :k)"), "\"a1:k\"");
    assert_eq!(eval_to(&mut rt, "*host-language*"), "\"rust\"");
}

#[test]
fn tail_calls_run_in_constant_depth() {
    let mut rt = Runtime::with_prelude();
    eval_to(&mut rt, "(def! sum (fn* (n acc) (if (= n 0) acc (sum (- n 1) (+ acc n)))))");
    assert_eq!(eval_to(&mut rt, "(sum 10000 0)"), "50005000");
}

#[test]
fn printing_goes_to_output() {
    let mut rt = Runtime::with_prelude();
    assert_eq!(eval_to(&mut rt, "(prn \"a\" 1)"), "nil");
    assert_eq!(eval_to(&mut rt, "(println \"a\" 1)"), "nil");
    assert_eq!(rt.output, vec!["\"a\" 1".to_string(), "a 1".to_string()]);
}

#[test]
fn debug_eval_traces_each_step() {
    let mut rt = Runtime::with_prelude();
    eval_to(&mut rt, "(def! DEBUG-EVAL true)");
    let before = rt.output.len();
    assert_eq!(eval_to(&mut rt, "(+ 1 2)"), "3");
    assert_eq!(rt.output[before], "EVAL: (+ 1 2)");
}

#[test]
fn host_requests_are_answered_by_replay() {
    let mut rt = Runtime::with_prelude();
    let input = "(do (println \"before\") (readline \"> \"))";
    match rt.rep_step(input) {
        Outcome::NeedHost(HostRequest::ReadLine(Some(p))) => assert_eq!(p, "> "),
        _ => panic!("expected a request to read a line"),
    }
    assert_eq!(rt.output, vec!["before".to_string()]);
    rt.answer(HostReply::Text("hi\n".to_string()));
    match rt.rep_step(input) {
        Outcome::Done(out) => assert_eq!(out, Some("\"hi\"".to_string())),
        _ => panic!("expected the input to be done"),
    }
    assert_eq!(rt.output, vec!["before".to_string()]);
    assert_eq!(rt.used, 0);
    assert!(rt.replies.is_empty());
}

#[test]
fn readline_at_end_of_input_gives_nil() {
    let mut rt = Runtime::with_prelude();
    assert!(matches!(rt.rep_step("(readline)"), Outcome::NeedHost(HostRequest::ReadLine(None))));
    rt.answer(HostReply::Text(String::new()));
    match rt.rep_step("(readline)") {
        Outcome::Done(out) => assert_eq!(out, Some("nil".to_string())),
        _ => panic!("expected the input to be done"),
    }
    assert_eq!(rt.output, vec![String::new()]);
}

#[test]
fn time_and_files_come_from_the_host() {
    let mut rt = Runtime::with_prelude();
    assert!(matches!(rt.rep_step("(time-ms)"), Outcome::NeedHost(HostRequest::Now)));
    rt.answer(HostReply::Millis(1234));
    assert!(matches!(rt.rep_step("(time-ms)"), Outcome::Done(Some(ref t)) if t == "1234"));

    let input = "(load-file \"f.mal\")";
    match rt.rep_step(input) {
        Outcome::NeedHost(HostRequest::ReadFile(f)) => assert_eq!(f, "f.mal"),
        _ => panic!("expected a request to read a file"),
    }
    rt.answer(HostReply::Text("(def! from-file 7)\n(def! other (+ from-file 1))".to_string()));
    assert!(matches!(rt.rep_step(input), Outcome::Done(Some(ref t)) if t == "nil"));
    assert_eq!(eval_to(&mut rt, "other"), "8");

    assert!(matches!(rt.rep_step("(slurp \"missing\")"), Outcome::NeedHost(HostRequest::ReadFile(_))));
    rt.answer(HostReply::Failed("No such file".to_string()));
    assert!(matches!(rt.rep_step("(slurp \"missing\")"), Outcome::Done(Some(ref t)) if t == "mal: IO error: No such file"));
}

#[test]
fn argv_and_script_form() {
    let mut rt = Runtime::with_prelude();
    rt.set_argv(vec!["a".to_string(), "b".to_string()]);
    assert_eq!(eval_to(&mut rt, "*ARGV*"), "(\"a\" \"b\")");
    assert_eq!(mal::repl::load_file_form("x \"y\".mal"), "(load-file \"x \\\"y\\\".mal\")");
}
