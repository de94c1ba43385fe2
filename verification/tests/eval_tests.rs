use std::rc::Rc;

use galaxy::eval::{eval, try_eval, EvalError};
use galaxy::number::Int;
use galaxy::parse::parse;
use galaxy::store::{Data, Defs};
use galaxy::term::E;

fn term(src: &str) -> E {
    let ss: Vec<&str> = src.split_whitespace().collect();
    let (e, n) = parse(&ss, 0);
    assert_eq!(n, ss.len());
    e
}

fn run_with(src: &str, tup: bool, defs: &Defs, data: &mut Data) -> Result<String, EvalError> {
    try_eval(&term(src), defs, tup, data, 10_000).map(|e| e.render())
}

fn run(src: &str) -> Result<String, EvalError> {
    run_with(src, true, &Defs::new(), &mut Data::new())
}

fn ok(s: &str) -> Result<String, EvalError> {
    Ok(s.to_string())
}

#[test]
fn add_of_two_numbers() {
    assert_eq!(run("ap ap add 1 2"), ok("3"));
    assert_eq!(run("ap ap add -7 2"), ok("-5"));
}

#[test]
fn big_numbers_do_not_overflow() {
    assert_eq!(
        run("ap ap mul 123456789012345678901234567890 1000000000000"),
        ok("123456789012345678901234567890000000000000")
    );
    assert_eq!(run("ap ap add 18446744073709551615 1"), ok("18446744073709551616"));
}

#[test]
fn mul_and_neg() {
    assert_eq!(run("ap ap mul 4 -3"), ok("-12"));
    assert_eq!(run("ap neg 5"), ok("-5"));
    assert_eq!(run("ap neg -5"), ok("5"));
    assert_eq!(run("ap neg 0"), ok("0"));
}

#[test]
fn div_rounds_toward_zero() {
    assert_eq!(run("ap ap div 4 2"), ok("2"));
    assert_eq!(run("ap ap div 4 3"), ok("1"));
    assert_eq!(run("ap ap div 5 -3"), ok("-1"));
    assert_eq!(run("ap ap div -5 3"), ok("-1"));
    assert_eq!(run("ap ap div -5 -3"), ok("1"));
}

#[test]
fn div_by_zero_is_an_error() {
    assert_eq!(run("ap ap div 1 0"), Err(EvalError::DivideByZero));
}

#[test]
fn inc_and_dec() {
    assert_eq!(run("ap inc 5"), ok("6"));
    assert_eq!(run("ap inc -1"), ok("0"));
    assert_eq!(run("ap dec 5"), ok("4"));
    assert_eq!(run("ap dec 0"), ok("-1"));
}

#[test]
fn eq_and_lt() {
    assert_eq!(run("ap ap eq 1 1"), ok("t"));
    assert_eq!(run("ap ap eq 1 2"), ok("f"));
    assert_eq!(run("ap ap lt 1 2"), ok("t"));
    assert_eq!(run("ap ap lt 2 1"), ok("f"));
    assert_eq!(run("ap ap lt 2 2"), ok("f"));
}

#[test]
fn true_false_and_identity() {
    assert_eq!(run("ap ap t 1 2"), ok("1"));
    assert_eq!(run("ap ap f 1 2"), ok("2"));
    assert_eq!(run("ap i 7"), ok("7"));
    assert_eq!(run("ap ap t ap inc 1 ap ap div 1 0"), ok("2"));
}

#[test]
fn b_c_and_s_combinators() {
    assert_eq!(run("ap ap ap b inc dec 5"), ok("5"));
    assert_eq!(run("ap ap ap b neg inc 5"), ok("-6"));
    assert_eq!(run("ap ap ap c add 1 2"), ok("3"));
    assert_eq!(run("ap ap ap c div 2 10"), ok("5"));
    assert_eq!(run("ap ap ap s add inc 1"), ok("3"));
    assert_eq!(run("ap ap ap s mul ap add 1 6"), ok("42"));
}

#[test]
fn s_fills_one_cache_slot() {
    let mut data = Data::new();
    let r = run_with("ap ap ap s add inc 1", true, &Defs::new(), &mut data);
    assert_eq!(r, ok("3"));
    assert_eq!(data.cache.len(), 1);
    match &data.cache[0] {
        Some(v) => assert_eq!(v.render(), "1"),
        None => panic!("the shared argument was not cached"),
    }
}

#[test]
fn cons_builds_pairs() {
    assert_eq!(run("ap ap cons 1 nil"), ok("[1]"));
    assert_eq!(run("ap ap cons 1 ap ap cons 2 nil"), ok("[1, 2]"));
    assert_eq!(run("ap ap cons 1 2"), ok("<1, 2>"));
    assert_eq!(run("ap ap cons ap inc 1 nil"), ok("[2]"));
}

#[test]
fn cons_without_tuple_evaluation_keeps_parts() {
    let r = run_with("ap ap cons ap inc 1 nil", false, &Defs::new(), &mut Data::new());
    assert_eq!(r, ok("[(inc 1)]"));
}

#[test]
fn pair_applied_to_a_function() {
    assert_eq!(run("ap ap ap cons 1 2 add"), ok("3"));
}

#[test]
fn car_and_cdr() {
    assert_eq!(run("ap car ap ap cons 1 2"), ok("1"));
    assert_eq!(run("ap cdr ap ap cons 1 2"), ok("2"));
    assert_eq!(run("ap car 5"), Err(EvalError::Stuck));
}

#[test]
fn isnil_and_nil() {
    assert_eq!(run("ap isnil nil"), ok("t"));
    assert_eq!(run("ap isnil x"), ok("f"));
    assert_eq!(run("ap isnil ap ap cons 1 2"), ok("f"));
    assert_eq!(run("ap isnil 5"), Err(EvalError::Stuck));
    assert_eq!(run("ap nil 5"), ok("t"));
}

#[test]
fn if0_chooses_a_branch() {
    assert_eq!(run("ap ap ap if0 0 1 2"), ok("1"));
    assert_eq!(run("ap ap ap if0 5 1 2"), ok("2"));
    assert_eq!(run("ap ap ap if0 x 1 2"), Err(EvalError::Stuck));
}

#[test]
fn arithmetic_on_a_name_is_stuck() {
    assert_eq!(run("ap ap add 1 nil"), Err(EvalError::Stuck));
    assert_eq!(run("ap inc x"), Err(EvalError::Stuck));
}

#[test]
fn unknown_application_stays() {
    assert_eq!(run("ap foo 1"), ok("(foo 1)"));
    assert_eq!(run("ap ap foo 1 2"), ok("((foo 1) 2)"));
    assert_eq!(run("x"), ok("x"));
    assert_eq!(run("nil"), ok("[]"));
}

#[test]
fn references_are_counted() {
    let mut defs = Defs::new();
    defs.insert(":1".to_string(), term("ap inc 5"));
    defs.insert(":2".to_string(), term("ap ap add :1 :1"));
    let mut data = Data::new();
    assert_eq!(run_with(":2", true, &defs, &mut data), ok("12"));
    assert_eq!(data.count.get(":2"), Some(1));
    assert_eq!(data.count.get(":1"), Some(2));
    assert_eq!(data.count.get(":3"), None);
}

#[test]
fn undefined_reference() {
    let mut data = Data::new();
    assert_eq!(run_with(":9", true, &Defs::new(), &mut data), Err(EvalError::Undefined));
    assert_eq!(data.count.get(":9"), Some(1));
}

#[test]
fn depth_bound() {
    let e = term("ap inc 5");
    let mut data = Data::new();
    assert_eq!(try_eval(&e, &Defs::new(), true, &mut data, 1).map(|e| e.render()), Err(EvalError::OutOfFuel));
    assert_eq!(try_eval(&e, &Defs::new(), true, &mut data, 2).map(|e| e.render()), ok("6"));
    assert_eq!(try_eval(&e, &Defs::new(), true, &mut data, 0).map(|e| e.render()), Err(EvalError::OutOfFuel));
}

#[test]
fn more_depth_gives_the_same_result() {
    let src = "ap ap ap s mul ap add 1 6";
    let mut d1 = Data::new();
    let mut d2 = Data::new();
    let r1 = try_eval(&term(src), &Defs::new(), true, &mut d1, 20).map(|e| e.render());
    let r2 = try_eval(&term(src), &Defs::new(), true, &mut d2, 1_000_000).map(|e| e.render());
    assert_eq!(r1, ok("42"));
    assert_eq!(r1, r2);
    assert_eq!(d1.cache.len(), d2.cache.len());
}

#[test]
fn recursion_without_end_runs_out_of_depth() {
    let mut defs = Defs::new();
    defs.insert(":loop".to_string(), term("ap inc :loop"));
    let mut data = Data::new();
    let r = try_eval(&term(":loop"), &defs, true, &mut data, 300);
    assert_eq!(r.map(|e| e.render()), Err(EvalError::OutOfFuel));
    assert!(data.count.get(":loop").unwrap() > 10);
}

#[test]
fn bad_cache_slot() {
    let shared = E::Cloned(Rc::new(term("5")), 3);
    let mut data = Data::new();
    assert_eq!(try_eval(&shared, &Defs::new(), true, &mut data, 10).map(|e| e.render()), Err(EvalError::BadCacheId));
}

#[test]
fn shared_subterm_is_evaluated_once() {
    let shared = E::Cloned(Rc::new(term("ap inc 5")), 0);
    let mut data = Data::new();
    data.cache.push(None);
    let first = try_eval(&shared, &Defs::new(), true, &mut data, 10).unwrap();
    assert_eq!(first.render(), "6");
    let mut defs = Defs::new();
    defs.insert(":x".to_string(), term("1"));
    let again = try_eval(&shared, &defs, true, &mut data, 1).unwrap();
    assert_eq!(again, first);
    data.cache[0] = Some(term("99"));
    assert_eq!(try_eval(&shared, &Defs::new(), true, &mut data, 1).unwrap().render(), "99");
}

#[test]
fn tuple_evaluation_of_pairs() {
    let p = E::Pair(Rc::new(term("ap inc 1")), Rc::new(term("nil")));
    let mut data = Data::new();
    assert_eq!(try_eval(&p, &Defs::new(), true, &mut data, 10).unwrap().render(), "[2]");
    assert_eq!(try_eval(&p, &Defs::new(), false, &mut data, 10).unwrap().render(), "[(inc 1)]");
}

#[test]
fn numbers_compare_by_value() {
    let a = E::Num(Int::parse("007").unwrap());
    let b = E::Num(Int::parse("7").unwrap());
    assert_eq!(a, b);
    assert!(a.same(&b));
    assert_ne!(a, E::Num(Int::parse("8").unwrap()));
}

#[test]
fn car_and_cdr_of_cons_without_tuple_evaluation() {
    let defs = Defs::new();
    assert_eq!(run_with("ap car ap ap cons 1 ap inc 2", false, &defs, &mut Data::new()), ok("1"));
    assert_eq!(run_with("ap cdr ap ap cons 1 ap inc 2", false, &defs, &mut Data::new()), ok("3"));
    assert_eq!(run_with("ap ap cons 1 ap inc 2", false, &defs, &mut Data::new()), ok("<1, (inc 2)>"));
}

#[test]
fn values_evaluate_to_themselves() {
    let mut data = Data::new();
    let p = E::Pair(Rc::new(term("ap inc 1")), Rc::new(term("2")));
    assert_eq!(try_eval(&p, &Defs::new(), false, &mut data, 1).unwrap(), p);
    assert_eq!(try_eval(&term("-3"), &Defs::new(), true, &mut data, 1).unwrap(), term("-3"));
    assert_eq!(try_eval(&term("x"), &Defs::new(), true, &mut data, 1).unwrap(), term("x"));
    assert!(data.cache.is_empty());
    assert_eq!(data.count.get("x"), None);
}

#[test]
fn b_c_and_pair_application_evaluate_as_their_rewrites() {
    assert_eq!(run("ap ap ap b inc dec 5"), run("ap inc ap dec 5"));
    assert_eq!(run("ap ap ap c div 2 10"), run("ap ap div 10 2"));
    let p = E::Pair(Rc::new(term("7")), Rc::new(term("5")));
    let applied = E::Ap(Rc::new(p), Rc::new(term("div")));
    let mut d1 = Data::new();
    let mut d2 = Data::new();
    let r1 = try_eval(&applied, &Defs::new(), false, &mut d1, 100).unwrap();
    let r2 = try_eval(&term("ap ap div 7 5"), &Defs::new(), false, &mut d2, 100).unwrap();
    assert_eq!(r1, r2);
    assert_eq!(r1.render(), "1");
}

#[test]
fn only_defined_references_change_counters() {
    let mut defs = Defs::new();
    defs.insert(":1".to_string(), term("ap inc 5"));
    let mut data = Data::new();
    assert!(data.count.bump("x"));
    assert!(data.count.bump(":2"));
    assert_eq!(run_with("ap ap add :1 1", true, &defs, &mut data), ok("7"));
    assert_eq!(data.count.get(":1"), Some(1));
    assert_eq!(data.count.get("x"), Some(1));
    assert_eq!(data.count.get(":2"), Some(1));
}

#[test]
fn results_without_pair_evaluation_are_fixed_points() {
    let mut defs = Defs::new();
    defs.insert(":k".to_string(), term("ap ap cons ap inc 1 nil"));
    for src in ["ap ap ap s add inc 1", "ap foo ap inc 1", ":k", "ap ap cons 1 ap inc 2", "ap ap b foo bar"] {
        let mut data = Data::new();
        let r = try_eval(&term(src), &defs, false, &mut data, 1000).unwrap();
        let mut other = Data::new();
        assert!(other.count.bump(":k"));
        let again = try_eval(&r, &Defs::new(), false, &mut other, 1000).unwrap();
        assert_eq!(again, r);
        assert_eq!(other.count.get(":k"), Some(1));
        assert!(other.cache.is_empty());
    }
}

#[test]
fn eval_gives_the_value_where_the_rules_allow_it() {
    let mut d1 = Data::new();
    let mut d2 = Data::new();
    let e = term("ap ap ap s add inc 4");
    let v = eval(&e, &Defs::new(), true, &mut d1, 100).unwrap();
    assert_eq!(v.render(), "9");
    assert_eq!(try_eval(&e, &Defs::new(), true, &mut d2, 100).unwrap(), v);
    assert_eq!(eval(&e, &Defs::new(), true, &mut Data::new(), 2).map(|e| e.render()), Err(EvalError::OutOfFuel));
}

#[test]
fn b_c_and_pair_application_agree_at_different_depths() {
    let defs = Defs::new();
    let big = try_eval(&term("ap ap ap b inc dec 5"), &defs, true, &mut Data::new(), 7).map(|e| e.render());
    let small = try_eval(&term("ap inc ap dec 5"), &defs, true, &mut Data::new(), 1_000).map(|e| e.render());
    assert_eq!(big, ok("5"));
    assert_eq!(big, small);
    let big = try_eval(&term("ap ap ap c div 2 10"), &defs, true, &mut Data::new(), 1_000).map(|e| e.render());
    let small = try_eval(&term("ap ap div 10 2"), &defs, true, &mut Data::new(), 4).map(|e| e.render());
    assert_eq!(big, ok("5"));
    assert_eq!(big, small);
    let p = E::Pair(Rc::new(term("9")), Rc::new(term("3")));
    let applied = E::Ap(Rc::new(p), Rc::new(term("div")));
    let big = try_eval(&applied, &defs, false, &mut Data::new(), 5).map(|e| e.render());
    let small = try_eval(&term("ap ap div 9 3"), &defs, false, &mut Data::new(), 900).map(|e| e.render());
    assert_eq!(big, ok("3"));
    assert_eq!(big, small);
}

#[test]
fn results_of_unshared_terms_are_fixed_points_from_any_state() {
    let mut defs = Defs::new();
    defs.insert(":k".to_string(), term("ap ap cons ap inc 1 nil"));
    for src in ["ap ap ap s add inc 1", "ap foo ap inc 1", ":k", "ap ap ap s cons inc 2"] {
        let mut data = Data::new();
        data.cache.push(Some(term("ap inc 1")));
        data.cache.push(None);
        let r = try_eval(&term(src), &defs, false, &mut data, 1000).unwrap();
        let mut other = Data::new();
        other.cache.push(Some(term("ap dec 1")));
        let again = try_eval(&r, &Defs::new(), false, &mut other, 1000).unwrap();
        assert_eq!(again, r);
        assert_eq!(other.cache.len(), 1);
        assert_eq!(other.cache[0], Some(term("ap dec 1")));
    }
}

#[test]
fn rewrites_on_the_left_spine_keep_the_value() {
    let defs = Defs::new();
    let cases = [
        ("ap ap ap i add 2 3", "ap ap add 2 3", "5"),
        ("ap ap ap ap b inc dec 5 x", "ap ap inc ap dec 5 x", "(5 x)"),
        ("ap ap ap ap c sub 1 2 9", "ap ap ap sub 2 1 9", "(((sub 2) 1) 9)"),
    ];
    for (t, u, expected) in cases {
        let r1 = try_eval(&term(t), &defs, true, &mut Data::new(), 50).map(|e| e.render());
        let r2 = try_eval(&term(u), &defs, true, &mut Data::new(), 500).map(|e| e.render());
        assert_eq!(r1, ok(expected));
        assert_eq!(r1, r2);
    }
}
