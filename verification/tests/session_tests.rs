use galaxy::number::Int;
use galaxy::parse::parse;
use galaxy::session::{classify, click, Command, Session};
use galaxy::term::E;

fn term(src: &str) -> E {
    let ss: Vec<&str> = src.split_whitespace().collect();
    parse(&ss, 0).0
}

#[test]
fn commands() {
    assert_eq!(classify(&["undo"]), Command::Undo);
    assert_eq!(classify(&["stat"]), Command::Stat);
    assert_eq!(classify(&["3", "-4"]), Command::Click(3, -4));
    assert_eq!(classify(&["+3", "0"]), Command::Click(3, 0));
    assert_eq!(classify(&["2147483647", "-2147483648"]), Command::Click(i32::MAX, i32::MIN));
    assert_eq!(classify(&["2147483648", "0"]), Command::Illegal);
    assert_eq!(classify(&["1_0", "0"]), Command::Illegal);
    assert_eq!(classify(&["x", "0"]), Command::Illegal);
    assert_eq!(classify(&["1"]), Command::Illegal);
    assert_eq!(classify(&["1", "2", "3"]), Command::Illegal);
    assert_eq!(classify(&[]), Command::Illegal);
    assert_eq!(classify(&["undo", "1"]), Command::Illegal);
}

#[test]
fn click_events() {
    assert_eq!(click(3, -4).render(), "<3, -4>");
    assert_eq!(Int::from_i32(-7).to_decimal(), "-7");
    assert_eq!(Int::from_i32(i32::MIN).to_decimal(), "-2147483648");
}

#[test]
fn keeping_answers_and_going_back() {
    let mut s = Session::new(term("nil"));
    assert_eq!(s.shown.render(), "0");
    assert!(s.accept(false, term("nil"), term("1"), true));
    assert_eq!(s.stack.len(), 1);
    assert_eq!(s.shown.render(), "1");
    assert!(!s.accept(false, term("nil"), term("2"), false));
    assert_eq!(s.shown.render(), "1");
    assert_eq!(s.stack.len(), 1);
    assert!(s.accept(false, term("5"), term("3"), false));
    assert_eq!(s.state.render(), "5");
    assert!(s.accept(true, term("5"), term("4"), false));
    assert_eq!(s.stack.len(), 3);
    s.follow(term("6"), term("7"));
    assert_eq!(s.state.render(), "6");
    assert_eq!(s.shown.render(), "7");
    assert_eq!(s.stack.len(), 3);
    s.undo();
    assert_eq!(s.state.render(), "5");
    assert_eq!(s.shown.render(), "3");
    s.set_state(term("9"));
    assert_eq!(s.state.render(), "9");
    assert_eq!(s.shown.render(), "3");
    assert_eq!(s.stack.len(), 3);
    s.undo();
    assert_eq!(s.state.render(), "5");
}
