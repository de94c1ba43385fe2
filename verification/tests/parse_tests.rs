use galaxy::number::Int;
use galaxy::parse::{parse, try_parse};
use galaxy::term::E;

fn render_at(ss: &[&str], i: usize) -> Option<(String, usize)> {
    try_parse(ss, i).map(|(e, j)| (e.render(), j))
}

#[test]
fn single_tokens() {
    assert_eq!(render_at(&["5"], 0), Some(("5".to_string(), 1)));
    assert_eq!(render_at(&["-12"], 0), Some(("-12".to_string(), 1)));
    assert_eq!(render_at(&["x"], 0), Some(("x".to_string(), 1)));
    assert_eq!(render_at(&["nil"], 0), Some(("[]".to_string(), 1)));
}

#[test]
fn number_forms() {
    assert!(matches!(try_parse(&["+5"], 0), Some((E::Num(_), 1))));
    assert_eq!(render_at(&["+5"], 0), Some(("5".to_string(), 1)));
    assert_eq!(render_at(&["-0"], 0), Some(("0".to_string(), 1)));
    assert_eq!(render_at(&["1_000"], 0), Some(("1000".to_string(), 1)));
    assert_eq!(render_at(&["0042"], 0), Some(("42".to_string(), 1)));
    assert!(matches!(try_parse(&["_1"], 0), Some((E::Etc(_), 1))));
    assert!(matches!(try_parse(&["--1"], 0), Some((E::Etc(_), 1))));
    assert!(matches!(try_parse(&["-+1"], 0), Some((E::Etc(_), 1))));
    assert!(matches!(try_parse(&["+"], 0), Some((E::Etc(_), 1))));
    assert!(matches!(try_parse(&["1a"], 0), Some((E::Etc(_), 1))));
}

#[test]
fn applications() {
    assert_eq!(render_at(&["ap", "inc", "1"], 0), Some(("(inc 1)".to_string(), 3)));
    assert_eq!(
        render_at(&["ap", "ap", "add", "1", "2"], 0),
        Some(("((add 1) 2)".to_string(), 5))
    );
    assert_eq!(
        render_at(&["ap", "f", "ap", "g", "x"], 0),
        Some(("(f (g x))".to_string(), 5))
    );
}

#[test]
fn parsing_from_an_offset_stops_after_the_term() {
    let ss = ["skip", "ap", "inc", "1", "rest"];
    assert_eq!(render_at(&ss, 1), Some(("(inc 1)".to_string(), 4)));
    assert_eq!(render_at(&ss, 4), Some(("rest".to_string(), 5)));
}

#[test]
fn running_out_of_tokens() {
    assert!(try_parse(&["ap"], 0).is_none());
    assert!(try_parse(&["ap", "inc"], 0).is_none());
    assert!(try_parse(&["x"], 1).is_none());
    assert!(try_parse(&[], 0).is_none());
}

#[test]
fn int_parse_and_print() {
    assert_eq!(Int::parse("123").unwrap().to_decimal(), "123");
    assert_eq!(Int::parse("-98765432109876543210").unwrap().to_decimal(), "-98765432109876543210");
    assert!(Int::parse("12x").is_none());
    assert!(Int::parse("").is_none());
    assert!(Int::parse("0").unwrap().is_zero());
    assert!(!Int::parse("3").unwrap().is_zero());
    assert!(Int::zero().is_zero());
    assert!(Int::parse("3").unwrap().equals(&Int::parse("+3").unwrap()));
    assert!(!Int::parse("3").unwrap().equals(&Int::parse("-3").unwrap()));
    assert_eq!(Int::parse("-5").unwrap().copy().to_decimal(), "-5");
}

#[test]
fn definition_lines() {
    let (name, e) = galaxy::parse::parse_definition(&[":1", "=", "ap", "inc", "1"]).unwrap();
    assert_eq!(name, ":1");
    assert_eq!(e.render(), "(inc 1)");
    let (name, e) = galaxy::parse::parse_definition(&["galaxy", "=", ":1338"]).unwrap();
    assert_eq!(name, "galaxy");
    assert_eq!(e.render(), ":1338");
    assert!(galaxy::parse::parse_definition(&[":1", "="]).is_none());
    assert!(galaxy::parse::parse_definition(&[":1"]).is_none());
    assert!(galaxy::parse::parse_definition(&[":1", "=", "ap", "inc"]).is_none());
    assert!(galaxy::parse::parse_definition(&[":1", "=", "1", "2"]).is_none());
}

#[test]
fn round_trip_of_tokens() {
    let toks = ["ap", "ap", "add", "-12", "x", "rest", "more"];
    let (e, j) = parse(&toks, 0);
    assert_eq!(j, 5);
    assert_eq!(e.render(), "((add -12) x)");
    let (e2, j2) = parse(&["ap", "f", "ap", "g", "99"], 0);
    assert_eq!(j2, 5);
    assert_eq!(e2.render(), "(f (g 99))");
}

#[test]
fn reading_depends_only_on_the_consumed_tokens() {
    let alone = ["ap", "inc", "1"];
    let embedded = ["p", "q", "ap", "inc", "1", "z"];
    let (a, ja) = try_parse(&alone, 0).unwrap();
    let (b, jb) = try_parse(&embedded, 2).unwrap();
    assert_eq!(a, b);
    assert_eq!(jb - 2, ja - 0);
}

#[test]
fn checked_and_unchecked_reading_agree() {
    let toks = ["ap", "inc", "ap", "dec", "7"];
    let (e, j) = parse(&toks, 0);
    assert_eq!(try_parse(&toks, 0), Some((e.clone(), j)));
    assert_eq!(e.render(), "(inc (dec 7))");
    assert_eq!(j, 5);
}
