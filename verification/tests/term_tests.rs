use std::rc::Rc;

use galaxy::gravity::gravity;
use galaxy::number::Int;
use galaxy::parse::parse;
use galaxy::simplify::simplify;
use galaxy::store::Defs;
use galaxy::term::{get_list, E};

fn term(src: &str) -> E {
    let ss: Vec<&str> = src.split_whitespace().collect();
    parse(&ss, 0).0
}

fn num(s: &str) -> Rc<E> {
    Rc::new(E::Num(Int::parse(s).unwrap()))
}

fn name(s: &str) -> Rc<E> {
    Rc::new(E::Etc(s.to_string()))
}

#[test]
fn render_forms() {
    assert_eq!(term("ap inc 5").render(), "(inc 5)");
    assert_eq!(E::Pair(num("1"), num("2")).render(), "<1, 2>");
    assert_eq!(E::Pair(num("1"), name("nil")).render(), "[1]");
    let list = E::Pair(num("1"), Rc::new(E::Pair(num("2"), Rc::new(E::Pair(num("3"), name("nil"))))));
    assert_eq!(list.render(), "[1, 2, 3]");
    let nested = E::Pair(Rc::new(E::Pair(num("1"), name("nil"))), Rc::new(E::Pair(num("2"), name("nil"))));
    assert_eq!(nested.render(), "[[1], 2]");
    assert_eq!(E::Cloned(num("-4"), 7).render(), "-4");
    assert_eq!(name("nil").render(), "[]");
    assert_eq!(name("galaxy").render(), "galaxy");
    let improper = E::Pair(num("1"), Rc::new(E::Pair(num("2"), num("3"))));
    assert_eq!(improper.render(), "<1, <2, 3>>");
}

#[test]
fn get_list_reads_lists() {
    let list = E::Pair(num("1"), Rc::new(E::Pair(num("2"), name("nil"))));
    let items = get_list(&list).unwrap();
    assert_eq!(items.len(), 2);
    assert_eq!(items[0].render(), "1");
    assert_eq!(items[1].render(), "2");
    assert_eq!(get_list(&E::Etc("nil".to_string())).unwrap().len(), 0);
    assert!(get_list(&E::Pair(num("1"), num("2"))).is_none());
    assert!(get_list(&E::Etc("x".to_string())).is_none());
    assert!(get_list(&term("ap inc 1")).is_none());
}

#[test]
fn simplify_rewrites() {
    assert_eq!(simplify(&term("ap i x")).render(), "x");
    assert_eq!(simplify(&term("ap ap ap b f g x")).render(), "(f (g x))");
    assert_eq!(simplify(&term("ap ap ap c f g x")).render(), "((f x) g)");
    assert_eq!(simplify(&term("ap ap ap s f g x")).render(), "((f x) (g x))");
    assert_eq!(simplify(&term("ap f ap i x")).render(), "(f x)");
    assert_eq!(simplify(&term("ap ap add 1 2")).render(), "((add 1) 2)");
    assert_eq!(simplify(&term("5")).render(), "5");
    let p = E::Pair(Rc::new(term("ap i x")), name("nil"));
    assert_eq!(simplify(&p).render(), "[(i x)]");
}

#[test]
fn simplify_works_bottom_up() {
    assert_eq!(simplify(&term("ap ap ap b ap i f g x")).render(), "(f (g x))");
    assert_eq!(simplify(&term("ap ap i ap i f x")).render(), "(f x)");
}

#[test]
fn term_equality() {
    assert_eq!(term("ap inc 5"), term("ap inc 5"));
    assert_ne!(term("ap inc 5"), term("ap inc 6"));
    assert_ne!(term("ap inc 5"), term("ap dec 5"));
    assert_eq!(E::Cloned(num("1"), 2), E::Cloned(num("1"), 2));
    assert_ne!(E::Cloned(num("1"), 2), E::Cloned(num("1"), 3));
    let t = term("ap ap cons 1 nil");
    assert_eq!(t.clone(), t);
    assert_eq!(t.copy(), t);
}

#[test]
fn definitions_replace_earlier_ones() {
    let mut defs = Defs::new();
    assert!(defs.get(":1").is_none());
    defs.insert(":1".to_string(), term("1"));
    defs.insert(":2".to_string(), term("2"));
    defs.insert(":1".to_string(), term("3"));
    assert_eq!(defs.get(":1").unwrap().render(), "3");
    assert_eq!(defs.get(":2").unwrap().render(), "2");
    assert!(defs.get(":3").is_none());
}

#[test]
fn counters() {
    let mut data = galaxy::store::Data::default();
    assert_eq!(data.count.get("a"), None);
    assert!(data.count.bump("a"));
    assert!(data.count.bump("a"));
    assert!(data.count.bump("b"));
    assert_eq!(data.count.get("a"), Some(2));
    assert_eq!(data.count.get("b"), Some(1));
    assert!(data.cache.is_empty());
}

#[test]
fn gravity_pulls_toward_the_centre() {
    assert_eq!(gravity(3, 1), (-1, 0));
    assert_eq!(gravity(-3, 1), (1, 0));
    assert_eq!(gravity(1, 3), (0, -1));
    assert_eq!(gravity(1, -3), (0, 1));
    assert_eq!(gravity(2, -2), (-1, 1));
    assert_eq!(gravity(-2, -2), (1, 1));
    assert_eq!(gravity(0, 0), (-1, -1));
    assert_eq!(gravity(i32::MAX, i32::MIN + 1), (-1, 1));
}
