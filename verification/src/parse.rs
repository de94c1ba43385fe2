//! Reading a term from its prefix notation: `ap f x` applies `f` to `x`, a
//! decimal token is a number, and any other token is a name.

use vstd::prelude::*;
use std::rc::Rc;
use crate::number::{Int, parse_decimal, decimal, digits_of, digit_char, digit_run, digit_run_value, is_digit, is_digit_run, digit_value};
use crate::term::{E, Term, same_str};
use crate::eval::ap;

verus! {

pub open spec fn tokens_of(ss: Seq<&str>) -> Seq<Seq<char>> {
    ss.map_values(|s: &str| s@)
}

/// The term that a single token other than `ap` stands for.
pub open spec fn token_term(tok: Seq<char>) -> Term {
    match parse_decimal(tok) {
        Some(n) => Term::Num(n),
        None => Term::Etc(tok),
    }
}

/// The term that starts at token `i`, and the index of the token after it;
/// `None` when the tokens end before the term does. At most `depth` nested
/// applications are read.
pub open spec fn parse_at(ss: Seq<Seq<char>>, i: int, depth: nat) -> Option<(Term, int)>
    decreases depth,
{
    if i < 0 || i >= ss.len() {
        None
    } else if ss[i] == "ap"@ {
        if depth == 0 {
            None
        } else {
            match parse_at(ss, i + 1, (depth - 1) as nat) {
                Some((a, j)) => match parse_at(ss, j, (depth - 1) as nat) {
                    Some((b, k)) => Some((ap(a, b), k)),
                    None => None,
                },
                None => None,
            }
        }
    } else {
        Some((token_term(ss[i]), i + 1))
    }
}

/// The term that starts at token `i`: a depth of one application per token
/// never cuts the reading short (see `lemma_parse_depth`).
pub open spec fn parse_tokens(ss: Seq<Seq<char>>, i: int) -> Option<(Term, int)> {
    parse_at(ss, i, ss.len())
}

/// Whether an exec result and a spec result agree.
pub open spec fn parsed_as(r: Option<(E, usize)>, s: Option<(Term, int)>) -> bool {
    match (r, s) {
        (Some((e, j)), Some((t, k))) => e@ == t && j as int == k,
        (None, None) => true,
        _ => false,
    }
}

fn parse_in(ss: &[&str], i: usize, depth: usize) -> (r: Option<(E, usize)>)
    ensures
        parsed_as(r, parse_at(tokens_of(ss@), i as int, depth as nat)),
        r matches Some((_, j)) ==> i < j <= ss@.len(),
    decreases depth,
{
    if i >= ss.len() {
        return None;
    }
    let tok: &str = ss[i];
    assert(tokens_of(ss@)[i as int] == tok@);
    if same_str(tok, "ap") {
        if depth == 0 {
            return None;
        }
        match parse_in(ss, i + 1, depth - 1) {
            Some((a, j)) => match parse_in(ss, j, depth - 1) {
                Some((b, k)) => Some((E::Ap(Rc::new(a), Rc::new(b)), k)),
                None => None,
            },
            None => None,
        }
    } else {
        match Int::parse(tok) {
            Some(n) => Some((E::Num(n), i + 1)),
            None => Some((E::Etc(tok.to_owned()), i + 1)),
        }
    }
}

/// Reads the term whose tokens start at `ss[i]` and gives it with the index
/// of the first token after it. The caller vouches that the tokens do not
/// end before the term does.
pub fn parse(ss: &[&str], i: usize) -> (r: (E, usize))
    requires
        parse_tokens(tokens_of(ss@), i as int) is Some,
    ensures
        parse_tokens(tokens_of(ss@), i as int) == Some((r.0@, r.1 as int)),
        i < r.1 <= ss@.len(),
{
    match try_parse(ss, i) {
        Some(p) => p,
        None => {
            proof {
                assert(false);
            }
            (E::Etc(String::new()), i + 1)
        },
    }
}

/// Reads the term whose tokens start at `ss[i]` as `parse` does, on any
/// input: `None` when the tokens end before the term.
pub fn try_parse(ss: &[&str], i: usize) -> (r: Option<(E, usize)>)
    ensures
        parsed_as(r, parse_tokens(tokens_of(ss@), i as int)),
        r matches Some((_, j)) ==> i < j <= ss@.len(),
{
    parse_in(ss, i, ss.len())
}

/// A definition line `name = term`: the name is the first token, the second
/// token is skipped, and the term must take up all the tokens after it.
pub open spec fn definition_of(ss: Seq<Seq<char>>) -> Option<(Seq<char>, Term)> {
    if ss.len() < 2 {
        None
    } else {
        match parse_tokens(ss, 2) {
            Some((t, k)) => if k == ss.len() {
                Some((ss[0], t))
            } else {
                None
            },
            None => None,
        }
    }
}

/// Reads a definition line `name = term` given as tokens.
pub fn parse_definition(ss: &[&str]) -> (r: Option<(String, E)>)
    ensures
        match (r, definition_of(tokens_of(ss@))) {
            (Some((n, e)), Some((m, t))) => n@ == m && e@ == t,
            (None, None) => true,
            _ => false,
        },
{
    if ss.len() < 2 {
        return None;
    }
    assert(tokens_of(ss@)[0] == ss@[0]@);
    match try_parse(ss, 2) {
        Some((e, k)) => {
            if k == ss.len() {
                Some((ss[0].to_owned(), e))
            } else {
                None
            }
        },
        None => None,
    }
}

/// A term read from token `i` ends after it and no later than the last token.
pub proof fn lemma_parse_range(ss: Seq<Seq<char>>, i: int, depth: nat)
    ensures
        parse_at(ss, i, depth) matches Some((_, j)) ==> i < j <= ss.len(),
    decreases depth,
{
    if 0 <= i < ss.len() && ss[i] == "ap"@ && depth > 0 {
        lemma_parse_range(ss, i + 1, (depth - 1) as nat);
        if let Some((_, j)) = parse_at(ss, i + 1, (depth - 1) as nat) {
            lemma_parse_range(ss, j, (depth - 1) as nat);
        }
    }
}

/// Reading with a depth of at least one application per remaining token gives
/// the same result whatever the depth: the bound never cuts a term short.
pub proof fn lemma_parse_depth(ss: Seq<Seq<char>>, i: int, d1: nat, d2: nat)
    requires
        0 <= i,
        d1 >= ss.len() - i,
        d2 >= ss.len() - i,
    ensures
        parse_at(ss, i, d1) == parse_at(ss, i, d2),
    decreases d1,
{
    if i < ss.len() && ss[i] == "ap"@ {
        let e1 = (d1 - 1) as nat;
        let e2 = (d2 - 1) as nat;
        lemma_parse_depth(ss, i + 1, e1, e2);
        lemma_parse_range(ss, i + 1, e1);
        if let Some((_, j)) = parse_at(ss, i + 1, e1) {
            lemma_parse_depth(ss, j, e1, e2);
        }
    }
}

/// The index after a term that was read.
pub open spec fn end_of(r: Option<(Term, int)>) -> int {
    match r {
        Some((_, j)) => j,
        None => 0,
    }
}

/// The term that was read.
pub open spec fn term_read(r: Option<(Term, int)>) -> Term {
    match r {
        Some((t, _)) => t,
        None => Term::Num(0),
    }
}

/// Reading with more depth gives the same term, once a term was read.
pub proof fn lemma_parse_mono(ss: Seq<Seq<char>>, i: int, d1: nat, d2: nat)
    requires
        d1 <= d2,
        parse_at(ss, i, d1) is Some,
    ensures
        parse_at(ss, i, d2) == parse_at(ss, i, d1),
    decreases d1,
{
    if 0 <= i < ss.len() && ss[i] == "ap"@ {
        let e1 = (d1 - 1) as nat;
        let e2 = (d2 - 1) as nat;
        lemma_parse_mono(ss, i + 1, e1, e2);
        if let Some((_, j)) = parse_at(ss, i + 1, e1) {
            lemma_parse_mono(ss, j, e1, e2);
        }
    }
}

/// Reading at a given depth depends on the tokens that the term takes up
/// alone: the same tokens anywhere else give the same term.
pub proof fn lemma_parse_at_local(ss: Seq<Seq<char>>, i: int, d: nat, ss2: Seq<Seq<char>>, i2: int)
    requires
        parse_at(ss, i, d) is Some,
        0 <= i2,
        i2 + (end_of(parse_at(ss, i, d)) - i) <= ss2.len(),
        ss2.subrange(i2, i2 + (end_of(parse_at(ss, i, d)) - i)) == ss.subrange(i, end_of(parse_at(ss, i, d))),
    ensures
        parse_at(ss2, i2, d) == Some((term_read(parse_at(ss, i, d)), i2 + (end_of(parse_at(ss, i, d)) - i))),
    decreases d,
{
    lemma_parse_range(ss, i, d);
    let j = end_of(parse_at(ss, i, d));
    let n = j - i;
    assert(ss2.subrange(i2, i2 + n)[0] == ss.subrange(i, j)[0]);
    assert(ss2[i2] == ss[i]);
    if ss[i] == "ap"@ {
        let e = (d - 1) as nat;
        lemma_parse_range(ss, i + 1, e);
        let j1 = end_of(parse_at(ss, i + 1, e));
        lemma_parse_range(ss, j1, e);
        let big2 = ss2.subrange(i2, i2 + n);
        let big1 = ss.subrange(i, j);
        let a2 = ss2.subrange(i2 + 1, i2 + 1 + (j1 - (i + 1)));
        let a1 = ss.subrange(i + 1, j1);
        assert forall|k: int| 0 <= k < a1.len() implies #[trigger] a2[k] == a1[k] by {
            assert(big2[k + 1] == big1[k + 1]);
        }
        assert(a2 =~= a1);
        lemma_parse_at_local(ss, i + 1, e, ss2, i2 + 1);
        let off = j1 - i;
        let b2 = ss2.subrange(i2 + off, i2 + off + (j - j1));
        let b1 = ss.subrange(j1, j);
        assert forall|k: int| 0 <= k < b1.len() implies #[trigger] b2[k] == b1[k] by {
            assert(big2[off + k] == big1[off + k]);
        }
        assert(b2 =~= b1);
        lemma_parse_at_local(ss, j1, e, ss2, i2 + off);
    }
}

/// The term read at `i` depends only on the tokens it takes up: the same
/// tokens, with anything before and after them, give the same term.
pub proof fn lemma_parse_local(ss: Seq<Seq<char>>, i: int, ss2: Seq<Seq<char>>, i2: int)
    requires
        parse_tokens(ss, i) is Some,
        0 <= i2,
        i2 + (end_of(parse_tokens(ss, i)) - i) <= ss2.len(),
        ss2.subrange(i2, i2 + (end_of(parse_tokens(ss, i)) - i)) == ss.subrange(i, end_of(parse_tokens(ss, i))),
    ensures
        parse_tokens(ss2, i2) == Some((term_read(parse_tokens(ss, i)), i2 + (end_of(parse_tokens(ss, i)) - i))),
{
    lemma_parse_at_local(ss, i, ss.len(), ss2, i2);
    if ss2.len() >= ss.len() {
        lemma_parse_mono(ss2, i2, ss.len(), ss2.len());
    } else {
        lemma_parse_depth(ss2, i2, ss.len(), ss2.len());
    }
}

/// The tokens of a term: `ap` before each application, numbers in decimal,
/// names as they are.
pub open spec fn tokens(t: Term) -> Seq<Seq<char>>
    decreases t,
{
    match t {
        Term::Ap(a, b) => seq!["ap"@] + tokens(*a) + tokens(*b),
        Term::Num(n) => seq![decimal(n)],
        Term::Etc(s) => seq![s],
        _ => Seq::empty(),
    }
}

/// A term that its tokens stand for: applications, numbers, and names other
/// than `ap` that do not read as numbers.
pub open spec fn printable(t: Term) -> bool
    decreases t,
{
    match t {
        Term::Ap(a, b) => printable(*a) && printable(*b),
        Term::Num(_) => true,
        Term::Etc(s) => s != "ap"@ && parse_decimal(s) is None,
        _ => false,
    }
}

proof fn lemma_digit_char(d: nat)
    requires
        d < 10,
    ensures
        is_digit(digit_char(d)),
        digit_value(digit_char(d)) == d,
{
}

proof fn lemma_digits(n: nat)
    ensures
        is_digit_run(digits_of(n)),
        digit_run_value(digits_of(n)) == n,
    decreases n,
{
    if n < 10 {
        lemma_digit_char(n);
        assert(digits_of(n) =~= seq![digit_char(n)]);
        assert(digits_of(n).drop_last() =~= Seq::<char>::empty());
        assert(digit_run_value(Seq::<char>::empty()) == 0);
        assert(digits_of(n).last() == digit_char(n));
        assert(digit_char(n) != '_');
    } else {
        lemma_digits(n / 10);
        lemma_digit_char(n % 10);
        let p = digits_of(n / 10);
        let s = digits_of(n);
        assert(s == p.push(digit_char(n % 10)));
        assert(s.drop_last() =~= p);
        assert(s.last() == digit_char(n % 10));
        assert(digit_char(n % 10) != '_');
        assert(digit_run_value(s) == 10 * digit_run_value(p) + digit_value(digit_char(n % 10)));
        assert(10 * (n / 10) + n % 10 == n);
        assert(s[0] == p[0]);
        assert forall|k: int| 0 <= k < s.len() implies is_digit(#[trigger] s[k]) || s[k] == '_' by {
            if k < p.len() {
                assert(s[k] == p[k]);
            }
        }
    }
}

/// A number's decimal form reads back as the number, and is not `ap`.
pub proof fn lemma_decimal_reads_back(v: int)
    ensures
        parse_decimal(decimal(v)) == Some(v),
        decimal(v) != "ap"@,
{
    reveal_strlit("ap");
    assert("ap"@[0] == 'a');
    if v < 0 {
        let m = (-v) as nat;
        lemma_digits(m);
        let s = decimal(v);
        assert(s.drop_first() =~= digits_of(m));
        assert(s[0] == '-');
    } else {
        lemma_digits(v as nat);
        assert(is_digit(decimal(v)[0]));
    }
}

proof fn lemma_tokens_nonempty(t: Term)
    requires
        printable(t),
    ensures
        tokens(t).len() >= 1,
    decreases t,
{
    if let Term::Ap(a, b) = t {
        lemma_tokens_nonempty(*a);
    }
}

proof fn lemma_parse_tokens_at(ss: Seq<Seq<char>>, i: int, t: Term, d: nat)
    requires
        printable(t),
        0 <= i,
        i + tokens(t).len() <= ss.len(),
        ss.subrange(i, i + tokens(t).len()) == tokens(t),
        d >= tokens(t).len(),
    ensures
        parse_at(ss, i, d) == Some((t, i + tokens(t).len())),
    decreases t,
{
    lemma_tokens_nonempty(t);
    assert(ss.subrange(i, i + tokens(t).len())[0] == tokens(t)[0]);
    match t {
        Term::Ap(a, b) => {
            let ta = tokens(*a);
            let tb = tokens(*b);
            assert(tokens(t) == seq!["ap"@] + ta + tb);
            lemma_tokens_nonempty(*a);
            lemma_tokens_nonempty(*b);
            let e = (d - 1) as nat;
            let whole = ss.subrange(i, i + tokens(t).len());
            let sa = ss.subrange(i + 1, i + 1 + ta.len());
            assert forall|k: int| 0 <= k < ta.len() implies #[trigger] sa[k] == ta[k] by {
                assert(whole[1 + k] == tokens(t)[1 + k]);
            }
            assert(sa =~= ta);
            lemma_parse_tokens_at(ss, i + 1, *a, e);
            let j = i + 1 + ta.len();
            let sb = ss.subrange(j, j + tb.len());
            assert forall|k: int| 0 <= k < tb.len() implies #[trigger] sb[k] == tb[k] by {
                assert(whole[1 + ta.len() + k] == tokens(t)[1 + ta.len() + k]);
            }
            assert(sb =~= tb);
            lemma_parse_tokens_at(ss, j, *b, e);
        },
        Term::Num(n) => {
            lemma_decimal_reads_back(n);
        },
        _ => {},
    }
}

/// Reading a term's own tokens, wherever they stand, gives the term back and
/// the index just after its tokens.
pub proof fn lemma_parse_round_trip(ss: Seq<Seq<char>>, i: int, t: Term)
    requires
        printable(t),
        0 <= i,
        i + tokens(t).len() <= ss.len(),
        ss.subrange(i, i + tokens(t).len()) == tokens(t),
    ensures
        parse_tokens(ss, i) == Some((t, i + tokens(t).len())),
{
    lemma_parse_tokens_at(ss, i, t, ss.len());
}

} // verus!
