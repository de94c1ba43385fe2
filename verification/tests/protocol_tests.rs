use galaxy::eval::EvalError;
use galaxy::number::Int;
use galaxy::parse::parse;
use galaxy::protocol::{answer, interact, point, StepError};
use galaxy::store::{Data, Defs};
use galaxy::term::E;

fn term(src: &str) -> E {
    let ss: Vec<&str> = src.split_whitespace().collect();
    parse(&ss, 0).0
}

fn big(s: &str) -> Int {
    Int::parse(s).unwrap()
}

// `:e state event` is `[flag, event, state]`.
fn defs_with_flag(flag: &str) -> Defs {
    let mut defs = Defs::new();
    let src = format!("ap ap b ap b ap cons {} ap ap b ap c cons ap ap c cons nil", flag);
    defs.insert(":e".to_string(), term(&src));
    defs
}

#[test]
fn step_with_zero_flag() {
    let defs = defs_with_flag("0");
    let mut data = Data::new();
    let (flag, state, shown) = interact(&defs, ":e", &term("5"), &point(big("1"), big("2")), &mut data, 1000).unwrap();
    assert!(!flag);
    assert_eq!(state.render(), "<1, 2>");
    assert_eq!(shown.render(), "5");
    assert_eq!(data.count.get(":e"), Some(1));
}

#[test]
fn step_with_nonzero_flag() {
    let defs = defs_with_flag("1");
    let mut data = Data::new();
    let (flag, state, shown) = interact(&defs, ":e", &term("nil"), &term("ap inc 6"), &mut data, 1000).unwrap();
    assert!(flag);
    assert_eq!(state.render(), "7");
    assert_eq!(shown.render(), "[]");
}

#[test]
fn step_clears_the_cache_first() {
    let defs = defs_with_flag("0");
    let mut data = Data::new();
    data.cache.push(Some(term("1")));
    data.cache.push(None);
    interact(&defs, ":e", &term("5"), &term("6"), &mut data, 1000).unwrap();
    assert!(data.cache.is_empty());
}

#[test]
fn malformed_answer() {
    let mut defs = Defs::new();
    defs.insert(":e".to_string(), term("ap t ap t 5"));
    let r = interact(&defs, ":e", &term("5"), &term("6"), &mut Data::new(), 1000);
    assert_eq!(r.map(|_| ()), Err(StepError::Malformed));
}

#[test]
fn undefined_entry() {
    let r = interact(&Defs::new(), ":e", &term("5"), &term("6"), &mut Data::new(), 1000);
    assert_eq!(r.map(|_| ()), Err(StepError::Eval(EvalError::Undefined)));
}

#[test]
fn reading_an_answer() {
    let a = term("ap ap cons 0 ap ap cons x ap ap cons y nil");
    let mut data = Data::new();
    let v = galaxy::eval::eval(&a, &Defs::new(), true, &mut data, 100).unwrap();
    let (flag, state, shown) = answer(&v).unwrap();
    assert!(!flag);
    assert_eq!(state.render(), "x");
    assert_eq!(shown.render(), "y");
    assert!(answer(&term("5")).is_none());
}
