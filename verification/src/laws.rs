//! Properties of evaluation that hold for every term and every state.

use vstd::prelude::*;
use crate::term::Term;
use crate::simplify::rewrite_head;
use crate::store::{Store, lookup, bump, lemma_lookup_bump, find_key, key_seq, lemma_find_key_found};
use crate::eval::{EvalError, eval_term, eval_two, eval_apply, eval_apply2, eval_apply3, is_ref, is_unop, is_binop, binop, ap};

verus! {

pub open spec fn out_of_fuel<T>(r: Result<T, EvalError>) -> bool {
    r == Err::<T, EvalError>(EvalError::OutOfFuel)
}

/// Evaluation with more depth gives the same result and the same state,
/// unless the smaller depth ran out.
pub proof fn lemma_eval_fuel(e: Term, d: Seq<(Seq<char>, Term)>, tup: bool, st: Store, f1: nat, f2: nat)
    requires
        f1 <= f2,
        !out_of_fuel(eval_term(e, d, tup, st, f1).0),
    ensures
        eval_term(e, d, tup, st, f2) == eval_term(e, d, tup, st, f1),
    decreases f1, 0nat,
{
    let g1 = (f1 - 1) as nat;
    let g2 = (f2 - 1) as nat;
    match e {
        Term::Cloned(a, id) => {
            if id < st.cache.len() && st.cache[id as int] is None {
                lemma_eval_fuel(*a, d, tup, st, g1, g2);
            }
        },
        Term::Ap(x1, y1) => {
            lemma_eval_fuel(*x1, d, tup, st, g1, g2);
            let (r, st1) = eval_term(*x1, d, tup, st, g1);
            if let Ok(x) = r {
                lemma_apply_fuel(x, *y1, d, tup, st1, g1, g2);
            }
        },
        Term::Etc(n) => {
            if is_ref(n) && lookup(st.count, n) != Some(usize::MAX as nat) {
                let st1 = Store { count: bump(st.count, n), cache: st.cache };
                if let Some(b) = lookup(d, n) {
                    lemma_eval_fuel(b, d, tup, st1, g1, g2);
                }
            }
        },
        Term::Pair(a, b) => {
            if tup {
                lemma_two_fuel(*a, *b, d, tup, st, g1, g2);
            }
        },
        Term::Num(_) => {},
    }
}

pub proof fn lemma_two_fuel(a: Term, b: Term, d: Seq<(Seq<char>, Term)>, tup: bool, st: Store, f1: nat, f2: nat)
    requires
        f1 <= f2,
        !out_of_fuel(eval_two(a, b, d, tup, st, f1).0),
    ensures
        eval_two(a, b, d, tup, st, f2) == eval_two(a, b, d, tup, st, f1),
    decreases f1, 1nat,
{
    lemma_eval_fuel(a, d, tup, st, f1, f2);
    let (ra, st1) = eval_term(a, d, tup, st, f1);
    if ra is Ok {
        lemma_eval_fuel(b, d, tup, st1, f1, f2);
    }
}

pub proof fn lemma_apply_fuel(x: Term, y1: Term, d: Seq<(Seq<char>, Term)>, tup: bool, st: Store, f1: nat, f2: nat)
    requires
        f1 <= f2,
        !out_of_fuel(eval_apply(x, y1, d, tup, st, f1).0),
    ensures
        eval_apply(x, y1, d, tup, st, f2) == eval_apply(x, y1, d, tup, st, f1),
    decreases f1, 4nat,
{
    match x {
        Term::Ap(x2, y2) => {
            lemma_apply2_fuel(*x2, *y2, x, y1, d, tup, st, f1, f2);
        },
        Term::Pair(a, b) => {
            lemma_eval_fuel(ap(ap(y1, *a), *b), d, tup, st, f1, f2);
        },
        Term::Etc(n) => {
            if is_unop(n) || n == "car"@ || n == "cdr"@ || n == "isnil"@ || n == "i"@ {
                lemma_eval_fuel(y1, d, tup, st, f1, f2);
                let (r, st1) = eval_term(y1, d, tup, st, f1);
                if let Ok(Term::Pair(a, b)) = r {
                    if is_unop(n) {
                    } else if n == "car"@ {
                        lemma_eval_fuel(*a, d, tup, st1, f1, f2);
                    } else if n == "cdr"@ {
                        lemma_eval_fuel(*b, d, tup, st1, f1, f2);
                    }
                }
            }
        },
        _ => {},
    }
}

pub proof fn lemma_apply2_fuel(x2: Term, y2: Term, x: Term, y1: Term, d: Seq<(Seq<char>, Term)>, tup: bool, st: Store, f1: nat, f2: nat)
    requires
        f1 <= f2,
        !out_of_fuel(eval_apply2(x2, y2, x, y1, d, tup, st, f1).0),
    ensures
        eval_apply2(x2, y2, x, y1, d, tup, st, f2) == eval_apply2(x2, y2, x, y1, d, tup, st, f1),
    decreases f1, 3nat,
{
    match x2 {
        Term::Etc(n) => {
            if n == "cons"@ {
                if tup {
                    lemma_two_fuel(y2, y1, d, tup, st, f1, f2);
                }
            } else if n == "t"@ {
                lemma_eval_fuel(y2, d, tup, st, f1, f2);
            } else if n == "f"@ {
                lemma_eval_fuel(y1, d, tup, st, f1, f2);
            } else if is_binop(n) {
                lemma_two_fuel(y1, y2, d, tup, st, f1, f2);
            }
        },
        Term::Ap(x3, y3) => {
            lemma_apply3_fuel(*x3, *y3, y2, x, y1, d, tup, st, f1, f2);
        },
        _ => {},
    }
}

pub proof fn lemma_apply3_fuel(x3: Term, y3: Term, y2: Term, x: Term, y1: Term, d: Seq<(Seq<char>, Term)>, tup: bool, st: Store, f1: nat, f2: nat)
    requires
        f1 <= f2,
        !out_of_fuel(eval_apply3(x3, y3, y2, x, y1, d, tup, st, f1).0),
    ensures
        eval_apply3(x3, y3, y2, x, y1, d, tup, st, f2) == eval_apply3(x3, y3, y2, x, y1, d, tup, st, f1),
    decreases f1, 2nat,
{
    match x3 {
        Term::Etc(n) => {
            if n == "b"@ {
                lemma_eval_fuel(ap(y3, ap(y2, y1)), d, tup, st, f1, f2);
            } else if n == "c"@ {
                lemma_eval_fuel(ap(ap(y3, y1), y2), d, tup, st, f1, f2);
            } else if n == "s"@ {
                let shared = Term::Cloned(Box::new(y1), st.cache.len());
                let st1 = Store { count: st.count, cache: st.cache.push(None) };
                lemma_eval_fuel(ap(ap(y3, shared), ap(y2, shared)), d, tup, st1, f1, f2);
            } else if n == "if0"@ {
                lemma_eval_fuel(y3, d, tup, st, f1, f2);
                let (r, st1) = eval_term(y3, d, tup, st, f1);
                if let Ok(Term::Num(v)) = r {
                    if v == 0 {
                        lemma_eval_fuel(y2, d, tup, st1, f1, f2);
                    } else {
                        lemma_eval_fuel(y1, d, tup, st1, f1, f2);
                    }
                }
            }
        },
        _ => {},
    }
}

/// `b` is a later state than `a`: the cache is at least as long, every slot
/// that `a` had filled holds the same value, and no counter went down.
pub open spec fn grows(a: Store, b: Store) -> bool {
    &&& a.cache.len() <= b.cache.len()
    &&& forall|i: int|
        0 <= i < a.cache.len() && (#[trigger] a.cache[i]) is Some ==> b.cache[i] == a.cache[i]
    &&& forall|k: Seq<char>|
        (#[trigger] lookup(a.count, k)) is Some ==> (lookup(b.count, k) is Some && lookup(a.count, k)->0
            <= lookup(b.count, k)->0)
}

pub proof fn lemma_grows_trans(a: Store, b: Store, c: Store)
    requires
        grows(a, b),
        grows(b, c),
    ensures
        grows(a, c),
{
    assert forall|i: int| 0 <= i < a.cache.len() && (#[trigger] a.cache[i]) is Some implies c.cache[i] == a.cache[i] by {
        assert(b.cache[i] == a.cache[i]);
    }
    assert forall|k: Seq<char>| (#[trigger] lookup(a.count, k)) is Some implies (lookup(c.count, k) is Some
        && lookup(a.count, k)->0 <= lookup(c.count, k)->0) by {
        assert(lookup(b.count, k) is Some);
    }
}

proof fn lemma_grows_bump(st: Store, n: Seq<char>)
    ensures
        grows(st, Store { count: bump(st.count, n), cache: st.cache }),
{
    assert forall|k: Seq<char>| (#[trigger] lookup(st.count, k)) is Some implies (lookup(bump(st.count, n), k) is Some
        && lookup(st.count, k)->0 <= lookup(bump(st.count, n), k)->0) by {
        lemma_lookup_bump(st.count, n, k);
    }
}

/// Evaluation only moves the state forward: the cache never shrinks, a slot
/// filled before never changes, and no call counter goes down.
pub proof fn lemma_eval_grows(e: Term, d: Seq<(Seq<char>, Term)>, tup: bool, st: Store, fuel: nat)
    ensures
        grows(st, eval_term(e, d, tup, st, fuel).1),
    decreases fuel, 0nat,
{
    if fuel == 0 {
        return;
    }
    let g = (fuel - 1) as nat;
    match e {
        Term::Cloned(a, id) => {
            if id < st.cache.len() && st.cache[id as int] is None {
                lemma_eval_grows(*a, d, tup, st, g);
                let (r, st1) = eval_term(*a, d, tup, st, g);
                if let Ok(b) = r {
                    let st2 = Store { count: st1.count, cache: st1.cache.update(id as int, Some(b)) };
                    assert forall|i: int| 0 <= i < st.cache.len() && (#[trigger] st.cache[i]) is Some implies st2.cache[i] == st.cache[i] by {
                        assert(i != id);
                        assert(st1.cache[i] == st.cache[i]);
                    }
                    assert forall|k: Seq<char>| (#[trigger] lookup(st.count, k)) is Some implies (lookup(st2.count, k) is Some
                        && lookup(st.count, k)->0 <= lookup(st2.count, k)->0) by {
                        assert(lookup(st1.count, k) is Some);
                    }
                }
            }
        },
        Term::Ap(x1, y1) => {
            lemma_eval_grows(*x1, d, tup, st, g);
            let (r, st1) = eval_term(*x1, d, tup, st, g);
            if let Ok(x) = r {
                lemma_apply_grows(x, *y1, d, tup, st1, g);
                lemma_grows_trans(st, st1, eval_apply(x, *y1, d, tup, st1, g).1);
            }
        },
        Term::Etc(n) => {
            if is_ref(n) && lookup(st.count, n) != Some(usize::MAX as nat) {
                let st1 = Store { count: bump(st.count, n), cache: st.cache };
                lemma_grows_bump(st, n);
                if let Some(b) = lookup(d, n) {
                    lemma_eval_grows(b, d, tup, st1, g);
                    lemma_grows_trans(st, st1, eval_term(b, d, tup, st1, g).1);
                }
            }
        },
        Term::Pair(a, b) => {
            if tup {
                lemma_two_grows(*a, *b, d, tup, st, g);
            }
        },
        Term::Num(_) => {},
    }
}

pub proof fn lemma_two_grows(a: Term, b: Term, d: Seq<(Seq<char>, Term)>, tup: bool, st: Store, f: nat)
    ensures
        grows(st, eval_two(a, b, d, tup, st, f).1),
    decreases f, 1nat,
{
    lemma_eval_grows(a, d, tup, st, f);
    let (ra, st1) = eval_term(a, d, tup, st, f);
    if ra is Ok {
        lemma_eval_grows(b, d, tup, st1, f);
        lemma_grows_trans(st, st1, eval_term(b, d, tup, st1, f).1);
    }
}

pub proof fn lemma_apply_grows(x: Term, y1: Term, d: Seq<(Seq<char>, Term)>, tup: bool, st: Store, f: nat)
    ensures
        grows(st, eval_apply(x, y1, d, tup, st, f).1),
    decreases f, 4nat,
{
    match x {
        Term::Ap(x2, y2) => {
            lemma_apply2_grows(*x2, *y2, x, y1, d, tup, st, f);
        },
        Term::Pair(a, b) => {
            lemma_eval_grows(ap(ap(y1, *a), *b), d, tup, st, f);
        },
        Term::Etc(n) => {
            if is_unop(n) || n == "car"@ || n == "cdr"@ || n == "isnil"@ || n == "i"@ {
                lemma_eval_grows(y1, d, tup, st, f);
                let (r, st1) = eval_term(y1, d, tup, st, f);
                if let Ok(Term::Pair(a, b)) = r {
                    if is_unop(n) {
                    } else if n == "car"@ {
                        lemma_eval_grows(*a, d, tup, st1, f);
                        lemma_grows_trans(st, st1, eval_term(*a, d, tup, st1, f).1);
                    } else if n == "cdr"@ {
                        lemma_eval_grows(*b, d, tup, st1, f);
                        lemma_grows_trans(st, st1, eval_term(*b, d, tup, st1, f).1);
                    }
                }
            }
        },
        _ => {},
    }
}

pub proof fn lemma_apply2_grows(x2: Term, y2: Term, x: Term, y1: Term, d: Seq<(Seq<char>, Term)>, tup: bool, st: Store, f: nat)
    ensures
        grows(st, eval_apply2(x2, y2, x, y1, d, tup, st, f).1),
    decreases f, 3nat,
{
    match x2 {
        Term::Etc(n) => {
            if n == "cons"@ {
                if tup {
                    lemma_two_grows(y2, y1, d, tup, st, f);
                }
            } else if n == "t"@ {
                lemma_eval_grows(y2, d, tup, st, f);
            } else if n == "f"@ {
                lemma_eval_grows(y1, d, tup, st, f);
            } else if is_binop(n) {
                lemma_two_grows(y1, y2, d, tup, st, f);
            }
        },
        Term::Ap(x3, y3) => {
            lemma_apply3_grows(*x3, *y3, y2, x, y1, d, tup, st, f);
        },
        _ => {},
    }
}

pub proof fn lemma_apply3_grows(x3: Term, y3: Term, y2: Term, x: Term, y1: Term, d: Seq<(Seq<char>, Term)>, tup: bool, st: Store, f: nat)
    ensures
        grows(st, eval_apply3(x3, y3, y2, x, y1, d, tup, st, f).1),
    decreases f, 2nat,
{
    match x3 {
        Term::Etc(n) => {
            if n == "b"@ {
                lemma_eval_grows(ap(y3, ap(y2, y1)), d, tup, st, f);
            } else if n == "c"@ {
                lemma_eval_grows(ap(ap(y3, y1), y2), d, tup, st, f);
            } else if n == "s"@ {
                let shared = Term::Cloned(Box::new(y1), st.cache.len());
                let st1 = Store { count: st.count, cache: st.cache.push(None) };
                assert(grows(st, st1)) by {
                    assert forall|i: int| 0 <= i < st.cache.len() && (#[trigger] st.cache[i]) is Some implies st1.cache[i] == st.cache[i] by {}
                }
                lemma_eval_grows(ap(ap(y3, shared), ap(y2, shared)), d, tup, st1, f);
                lemma_grows_trans(st, st1, eval_term(ap(ap(y3, shared), ap(y2, shared)), d, tup, st1, f).1);
            } else if n == "if0"@ {
                lemma_eval_grows(y3, d, tup, st, f);
                let (r, st1) = eval_term(y3, d, tup, st, f);
                if let Ok(Term::Num(v)) = r {
                    if v == 0 {
                        lemma_eval_grows(y2, d, tup, st1, f);
                        lemma_grows_trans(st, st1, eval_term(y2, d, tup, st1, f).1);
                    } else {
                        lemma_eval_grows(y1, d, tup, st1, f);
                        lemma_grows_trans(st, st1, eval_term(y1, d, tup, st1, f).1);
                    }
                }
            }
        },
        _ => {},
    }
}

/// The names of the primitives are distinct: they differ in length or in
/// one of their first two characters, and none starts with `:`.
proof fn lemma_names()
    ensures
        "i"@.len() == 1,
        "i"@[0] == 'i',
        "t"@.len() == 1,
        "t"@[0] == 't',
        "f"@.len() == 1,
        "f"@[0] == 'f',
        "b"@.len() == 1,
        "b"@[0] == 'b',
        "c"@.len() == 1,
        "c"@[0] == 'c',
        "s"@.len() == 1,
        "s"@[0] == 's',
        "nil"@.len() == 3,
        "nil"@[0] == 'n',
        "inc"@.len() == 3,
        "inc"@[0] == 'i',
        "dec"@.len() == 3,
        "dec"@[0] == 'd',
        "neg"@.len() == 3,
        "neg"@[0] == 'n',
        "car"@.len() == 3,
        "car"@[0] == 'c',
        "cdr"@.len() == 3,
        "cdr"@[0] == 'c',
        "add"@.len() == 3,
        "add"@[0] == 'a',
        "mul"@.len() == 3,
        "mul"@[0] == 'm',
        "div"@.len() == 3,
        "div"@[0] == 'd',
        "if0"@.len() == 3,
        "if0"@[0] == 'i',
        "eq"@.len() == 2,
        "eq"@[0] == 'e',
        "lt"@.len() == 2,
        "lt"@[0] == 'l',
        "cons"@.len() == 4,
        "cons"@[0] == 'c',
        "isnil"@.len() == 5,
        "isnil"@[0] == 'i',
        "nil"@[1] == 'i',
        "inc"@[1] == 'n',
        "dec"@[1] == 'e',
        "neg"@[1] == 'e',
        "car"@[1] == 'a',
        "cdr"@[1] == 'd',
        "add"@[1] == 'd',
        "mul"@[1] == 'u',
        "div"@[1] == 'i',
        "if0"@[1] == 'f',
{
    reveal_strlit("i");
    reveal_strlit("t");
    reveal_strlit("f");
    reveal_strlit("b");
    reveal_strlit("c");
    reveal_strlit("s");
    reveal_strlit("nil");
    reveal_strlit("inc");
    reveal_strlit("dec");
    reveal_strlit("neg");
    reveal_strlit("car");
    reveal_strlit("cdr");
    reveal_strlit("add");
    reveal_strlit("mul");
    reveal_strlit("div");
    reveal_strlit("if0");
    reveal_strlit("eq");
    reveal_strlit("lt");
    reveal_strlit("cons");
    reveal_strlit("isnil");
}

pub open spec fn name(s: Seq<char>) -> Term {
    Term::Etc(s)
}

/// `i x` evaluates as `x`.
pub proof fn lemma_eval_i(x: Term, d: Seq<(Seq<char>, Term)>, tup: bool, st: Store, fuel: nat)
    requires
        fuel >= 1,
    ensures
        eval_term(ap(name("i"@), x), d, tup, st, fuel + 1) == eval_term(x, d, tup, st, fuel),
{
    lemma_names();
    assert(!is_ref("i"@));
    assert(!is_unop("i"@));
    assert(eval_term(name("i"@), d, tup, st, fuel) == (Ok::<Term, EvalError>(name("i"@)), st));
    assert(eval_apply(name("i"@), x, d, tup, st, fuel) == eval_term(x, d, tup, st, fuel));
}

/// `t x y` evaluates as `x`.
pub proof fn lemma_eval_t(x: Term, y: Term, d: Seq<(Seq<char>, Term)>, tup: bool, st: Store, fuel: nat)
    requires
        fuel >= 2,
    ensures
        eval_term(ap(ap(name("t"@), x), y), d, tup, st, fuel + 1) == eval_term(x, d, tup, st, fuel),
{
    lemma_names();
    assert(!is_ref("t"@));
    assert(!is_unop("t"@));
    let g = (fuel - 1) as nat;
    assert(eval_term(name("t"@), d, tup, st, g) == (Ok::<Term, EvalError>(name("t"@)), st));
    assert(eval_apply(name("t"@), x, d, tup, st, g) == (Ok::<Term, EvalError>(ap(name("t"@), x)), st));
    assert(eval_term(ap(name("t"@), x), d, tup, st, fuel) == (Ok::<Term, EvalError>(ap(name("t"@), x)), st));
    assert(eval_apply2(name("t"@), x, ap(name("t"@), x), y, d, tup, st, fuel) == eval_term(x, d, tup, st, fuel));
    assert(eval_apply(ap(name("t"@), x), y, d, tup, st, fuel) == eval_term(x, d, tup, st, fuel));
}

/// `f x y` evaluates as `y`.
pub proof fn lemma_eval_f(x: Term, y: Term, d: Seq<(Seq<char>, Term)>, tup: bool, st: Store, fuel: nat)
    requires
        fuel >= 2,
    ensures
        eval_term(ap(ap(name("f"@), x), y), d, tup, st, fuel + 1) == eval_term(y, d, tup, st, fuel),
{
    lemma_names();
    assert(!is_ref("f"@));
    assert(!is_unop("f"@));
    let g = (fuel - 1) as nat;
    assert(eval_term(name("f"@), d, tup, st, g) == (Ok::<Term, EvalError>(name("f"@)), st));
    assert(eval_apply(name("f"@), x, d, tup, st, g) == (Ok::<Term, EvalError>(ap(name("f"@), x)), st));
    assert(eval_term(ap(name("f"@), x), d, tup, st, fuel) == (Ok::<Term, EvalError>(ap(name("f"@), x)), st));
    assert(eval_apply2(name("f"@), x, ap(name("f"@), x), y, d, tup, st, fuel) == eval_term(y, d, tup, st, fuel));
    assert(eval_apply(ap(name("f"@), x), y, d, tup, st, fuel) == eval_term(y, d, tup, st, fuel));
}

/// `car p`, where `p` evaluates to a pair, evaluates the first part of the pair.
pub proof fn lemma_eval_car(p: Term, d: Seq<(Seq<char>, Term)>, tup: bool, st: Store, fuel: nat)
    requires
        fuel >= 1,
        eval_term(p, d, tup, st, fuel).0 matches Ok(Term::Pair(_, _)),
    ensures
        ({
            let (r, st1) = eval_term(p, d, tup, st, fuel);
            eval_term(ap(name("car"@), p), d, tup, st, fuel + 1) == eval_term(*r->Ok_0->Pair_0, d, tup, st1, fuel)
        }),
{
    lemma_names();
    assert(!is_ref("car"@));
    assert(!is_unop("car"@));
    assert(eval_term(name("car"@), d, tup, st, fuel) == (Ok::<Term, EvalError>(name("car"@)), st));
    let (r, st1) = eval_term(p, d, tup, st, fuel);
    assert(eval_apply(name("car"@), p, d, tup, st, fuel) == eval_term(*r->Ok_0->Pair_0, d, tup, st1, fuel));
}

/// `cdr p`, where `p` evaluates to a pair, evaluates the second part of the pair.
pub proof fn lemma_eval_cdr(p: Term, d: Seq<(Seq<char>, Term)>, tup: bool, st: Store, fuel: nat)
    requires
        fuel >= 1,
        eval_term(p, d, tup, st, fuel).0 matches Ok(Term::Pair(_, _)),
    ensures
        ({
            let (r, st1) = eval_term(p, d, tup, st, fuel);
            eval_term(ap(name("cdr"@), p), d, tup, st, fuel + 1) == eval_term(*r->Ok_0->Pair_1, d, tup, st1, fuel)
        }),
{
    lemma_names();
    assert(!is_ref("cdr"@));
    assert(!is_unop("cdr"@));
    assert(eval_term(name("cdr"@), d, tup, st, fuel) == (Ok::<Term, EvalError>(name("cdr"@)), st));
    let (r, st1) = eval_term(p, d, tup, st, fuel);
    assert(eval_apply(name("cdr"@), p, d, tup, st, fuel) == eval_term(*r->Ok_0->Pair_1, d, tup, st1, fuel));
}

/// `add a b` on two numbers is their sum, and leaves the state as it was.
pub proof fn lemma_eval_add(a: int, b: int, d: Seq<(Seq<char>, Term)>, tup: bool, st: Store, fuel: nat)
    requires
        fuel >= 3,
    ensures
        eval_term(ap(ap(name("add"@), Term::Num(a)), Term::Num(b)), d, tup, st, fuel) == (Ok::<Term, EvalError>(Term::Num(a + b)), st),
{
    lemma_names();
    assert(!is_ref("add"@));
    assert(!is_unop("add"@));
    assert(is_binop("add"@));
    let g = (fuel - 1) as nat;
    let h = (g - 1) as nat;
    assert(eval_term(name("add"@), d, tup, st, h) == (Ok::<Term, EvalError>(name("add"@)), st));
    assert(eval_apply(name("add"@), Term::Num(a), d, tup, st, h) == (Ok::<Term, EvalError>(ap(name("add"@), Term::Num(a))), st));
    assert(eval_term(ap(name("add"@), Term::Num(a)), d, tup, st, g) == (Ok::<Term, EvalError>(ap(name("add"@), Term::Num(a))), st));
    assert(eval_term(Term::Num(b), d, tup, st, g) == (Ok::<Term, EvalError>(Term::Num(b)), st));
    assert(eval_term(Term::Num(a), d, tup, st, g) == (Ok::<Term, EvalError>(Term::Num(a)), st));
    assert(eval_two(Term::Num(b), Term::Num(a), d, tup, st, g) == (Ok::<(Term, Term), EvalError>((Term::Num(b), Term::Num(a))), st));
    let x = ap(name("add"@), Term::Num(a));
    assert(binop("add"@, Term::Num(b), Term::Num(a)) == Ok::<Term, EvalError>(Term::Num(a + b)));
    assert(eval_apply2(name("add"@), Term::Num(a), x, Term::Num(b), d, tup, st, g) == (Ok::<Term, EvalError>(Term::Num(a + b)), st));
    assert(eval_apply(x, Term::Num(b), d, tup, st, g) == (Ok::<Term, EvalError>(Term::Num(a + b)), st));
}

/// A shared subterm is evaluated once: evaluating it again gives the same
/// value and leaves the state as it is.
pub proof fn lemma_eval_shared_again(a: Term, id: nat, d: Seq<(Seq<char>, Term)>, tup: bool, st: Store, f1: nat, f2: nat)
    requires
        f2 >= 1,
        eval_term(Term::Cloned(Box::new(a), id), d, tup, st, f1).0 is Ok,
    ensures
        ({
            let (r, st1) = eval_term(Term::Cloned(Box::new(a), id), d, tup, st, f1);
            eval_term(Term::Cloned(Box::new(a), id), d, tup, st1, f2) == (r, st1)
        }),
{
    let g = (f1 - 1) as nat;
    if st.cache[id as int] is None {
        lemma_eval_grows(a, d, tup, st, g);
    }
}

/// A number, a name that is not a reference, and (when pairs are not
/// evaluated) a pair, evaluate to themselves and leave the state as it is.
pub proof fn lemma_eval_value(e: Term, d: Seq<(Seq<char>, Term)>, tup: bool, st: Store, fuel: nat)
    requires
        fuel >= 1,
        match e {
            Term::Num(_) => true,
            Term::Etc(n) => !is_ref(n),
            Term::Pair(_, _) => !tup,
            _ => false,
        },
    ensures
        eval_term(e, d, tup, st, fuel) == (Ok::<Term, EvalError>(e), st),
{
}

/// Without evaluation of pairs, `cons x y` is the pair of `x` and `y` as they are.
pub proof fn lemma_eval_cons(x: Term, y: Term, d: Seq<(Seq<char>, Term)>, st: Store, fuel: nat)
    requires
        fuel >= 3,
    ensures
        eval_term(ap(ap(name("cons"@), x), y), d, false, st, fuel) == (Ok::<Term, EvalError>(Term::Pair(Box::new(x), Box::new(y))), st),
{
    lemma_names();
    assert(!is_ref("cons"@));
    assert(!is_unop("cons"@));
    let g = (fuel - 1) as nat;
    let h = (g - 1) as nat;
    assert(eval_term(name("cons"@), d, false, st, h) == (Ok::<Term, EvalError>(name("cons"@)), st));
    assert(eval_apply(name("cons"@), x, d, false, st, h) == (Ok::<Term, EvalError>(ap(name("cons"@), x)), st));
    assert(eval_term(ap(name("cons"@), x), d, false, st, g) == (Ok::<Term, EvalError>(ap(name("cons"@), x)), st));
    assert(eval_apply(ap(name("cons"@), x), y, d, false, st, g) == (Ok::<Term, EvalError>(Term::Pair(Box::new(x), Box::new(y))), st));
}

/// Without evaluation of pairs, `car (cons x y)` evaluates as `x`.
pub proof fn lemma_eval_car_cons(x: Term, y: Term, d: Seq<(Seq<char>, Term)>, st: Store, fuel: nat)
    requires
        fuel >= 3,
    ensures
        eval_term(ap(name("car"@), ap(ap(name("cons"@), x), y)), d, false, st, fuel + 1) == eval_term(x, d, false, st, fuel),
{
    lemma_eval_cons(x, y, d, st, fuel);
    lemma_eval_car(ap(ap(name("cons"@), x), y), d, false, st, fuel);
}

/// Without evaluation of pairs, `cdr (cons x y)` evaluates as `y`.
pub proof fn lemma_eval_cdr_cons(x: Term, y: Term, d: Seq<(Seq<char>, Term)>, st: Store, fuel: nat)
    requires
        fuel >= 3,
    ensures
        eval_term(ap(name("cdr"@), ap(ap(name("cons"@), x), y)), d, false, st, fuel + 1) == eval_term(y, d, false, st, fuel),
{
    lemma_eval_cons(x, y, d, st, fuel);
    lemma_eval_cdr(ap(ap(name("cons"@), x), y), d, false, st, fuel);
}

/// `b x y z` evaluates as `x (y z)`.
pub proof fn lemma_eval_b(x: Term, y: Term, z: Term, d: Seq<(Seq<char>, Term)>, tup: bool, st: Store, fuel: nat)
    requires
        fuel >= 3,
    ensures
        eval_term(ap(ap(ap(name("b"@), x), y), z), d, tup, st, fuel + 1) == eval_term(ap(x, ap(y, z)), d, tup, st, fuel),
{
    lemma_names();
    assert(!is_ref("b"@));
    assert(!is_unop("b"@));
    assert(!is_binop("b"@));
    let g = (fuel - 1) as nat;
    let h = (g - 1) as nat;
    let k = name("b"@);
    assert(eval_term(k, d, tup, st, h) == (Ok::<Term, EvalError>(k), st));
    assert(eval_apply(k, x, d, tup, st, h) == (Ok::<Term, EvalError>(ap(k, x)), st));
    assert(eval_term(ap(k, x), d, tup, st, g) == (Ok::<Term, EvalError>(ap(k, x)), st));
    assert(eval_apply2(k, x, ap(k, x), y, d, tup, st, g) == (Ok::<Term, EvalError>(ap(ap(k, x), y)), st));
    assert(eval_apply(ap(k, x), y, d, tup, st, g) == (Ok::<Term, EvalError>(ap(ap(k, x), y)), st));
    assert(eval_term(ap(ap(k, x), y), d, tup, st, fuel) == (Ok::<Term, EvalError>(ap(ap(k, x), y)), st));
    assert(eval_apply3(k, x, y, ap(ap(k, x), y), z, d, tup, st, fuel) == eval_term(ap(x, ap(y, z)), d, tup, st, fuel));
    assert(eval_apply2(ap(k, x), y, ap(ap(k, x), y), z, d, tup, st, fuel) == eval_term(ap(x, ap(y, z)), d, tup, st, fuel));
    assert(eval_apply(ap(ap(k, x), y), z, d, tup, st, fuel) == eval_term(ap(x, ap(y, z)), d, tup, st, fuel));
}

/// `c x y z` evaluates as `x z y`.
pub proof fn lemma_eval_c(x: Term, y: Term, z: Term, d: Seq<(Seq<char>, Term)>, tup: bool, st: Store, fuel: nat)
    requires
        fuel >= 3,
    ensures
        eval_term(ap(ap(ap(name("c"@), x), y), z), d, tup, st, fuel + 1) == eval_term(ap(ap(x, z), y), d, tup, st, fuel),
{
    lemma_names();
    assert(!is_ref("c"@));
    assert(!is_unop("c"@));
    assert(!is_binop("c"@));
    let g = (fuel - 1) as nat;
    let h = (g - 1) as nat;
    let k = name("c"@);
    assert(eval_term(k, d, tup, st, h) == (Ok::<Term, EvalError>(k), st));
    assert(eval_apply(k, x, d, tup, st, h) == (Ok::<Term, EvalError>(ap(k, x)), st));
    assert(eval_term(ap(k, x), d, tup, st, g) == (Ok::<Term, EvalError>(ap(k, x)), st));
    assert(eval_apply2(k, x, ap(k, x), y, d, tup, st, g) == (Ok::<Term, EvalError>(ap(ap(k, x), y)), st));
    assert(eval_apply(ap(k, x), y, d, tup, st, g) == (Ok::<Term, EvalError>(ap(ap(k, x), y)), st));
    assert(eval_term(ap(ap(k, x), y), d, tup, st, fuel) == (Ok::<Term, EvalError>(ap(ap(k, x), y)), st));
    assert(eval_apply3(k, x, y, ap(ap(k, x), y), z, d, tup, st, fuel) == eval_term(ap(ap(x, z), y), d, tup, st, fuel));
    assert(eval_apply2(ap(k, x), y, ap(ap(k, x), y), z, d, tup, st, fuel) == eval_term(ap(ap(x, z), y), d, tup, st, fuel));
    assert(eval_apply(ap(ap(k, x), y), z, d, tup, st, fuel) == eval_term(ap(ap(x, z), y), d, tup, st, fuel));
}

/// `s x y z` evaluates as `x z (y z)`, with `z` shared: both of its uses
/// name one new cache slot, appended empty at the end of the cache.
pub proof fn lemma_eval_s(x: Term, y: Term, z: Term, d: Seq<(Seq<char>, Term)>, tup: bool, st: Store, fuel: nat)
    requires
        fuel >= 3,
    ensures
        ({
            let shared = Term::Cloned(Box::new(z), st.cache.len());
            let st1 = Store { count: st.count, cache: st.cache.push(None) };
            eval_term(ap(ap(ap(name("s"@), x), y), z), d, tup, st, fuel + 1) == eval_term(ap(ap(x, shared), ap(y, shared)), d, tup, st1, fuel)
        }),
{
    lemma_names();
    assert(!is_ref("s"@));
    assert(!is_unop("s"@));
    assert(!is_binop("s"@));
    let g = (fuel - 1) as nat;
    let h = (g - 1) as nat;
    let k = name("s"@);
    let shared = Term::Cloned(Box::new(z), st.cache.len());
    let st1 = Store { count: st.count, cache: st.cache.push(None) };
    assert(eval_term(k, d, tup, st, h) == (Ok::<Term, EvalError>(k), st));
    assert(eval_apply(k, x, d, tup, st, h) == (Ok::<Term, EvalError>(ap(k, x)), st));
    assert(eval_term(ap(k, x), d, tup, st, g) == (Ok::<Term, EvalError>(ap(k, x)), st));
    assert(eval_apply2(k, x, ap(k, x), y, d, tup, st, g) == (Ok::<Term, EvalError>(ap(ap(k, x), y)), st));
    assert(eval_apply(ap(k, x), y, d, tup, st, g) == (Ok::<Term, EvalError>(ap(ap(k, x), y)), st));
    assert(eval_term(ap(ap(k, x), y), d, tup, st, fuel) == (Ok::<Term, EvalError>(ap(ap(k, x), y)), st));
    assert(eval_apply3(k, x, y, ap(ap(k, x), y), z, d, tup, st, fuel) == eval_term(ap(ap(x, shared), ap(y, shared)), d, tup, st1, fuel));
    assert(eval_apply2(ap(k, x), y, ap(ap(k, x), y), z, d, tup, st, fuel) == eval_term(ap(ap(x, shared), ap(y, shared)), d, tup, st1, fuel));
    assert(eval_apply(ap(ap(k, x), y), z, d, tup, st, fuel) == eval_term(ap(ap(x, shared), ap(y, shared)), d, tup, st1, fuel));
}

/// `if0 n x y` on a number `n` evaluates as `x` when `n` is zero and as `y`
/// for every other number, negative ones included.
pub proof fn lemma_eval_if0(n: int, x: Term, y: Term, d: Seq<(Seq<char>, Term)>, tup: bool, st: Store, fuel: nat)
    requires
        fuel >= 3,
    ensures
        eval_term(ap(ap(ap(name("if0"@), Term::Num(n)), x), y), d, tup, st, fuel + 1) == (if n == 0 {
            eval_term(x, d, tup, st, fuel)
        } else {
            eval_term(y, d, tup, st, fuel)
        }),
        n != 0 ==> eval_term(ap(ap(ap(name("if0"@), Term::Num(n)), x), y), d, tup, st, fuel + 1) == eval_term(y, d, tup, st, fuel),
{
    lemma_names();
    assert(!is_ref("if0"@));
    assert(!is_unop("if0"@));
    assert(!is_binop("if0"@));
    assert("if0"@ != "b"@ && "if0"@ != "c"@ && "if0"@ != "s"@);
    assert("if0"@ != "cons"@ && "if0"@ != "t"@ && "if0"@ != "f"@);
    let g = (fuel - 1) as nat;
    let h = (g - 1) as nat;
    let k = name("if0"@);
    let c = Term::Num(n);
    assert(eval_term(k, d, tup, st, h) == (Ok::<Term, EvalError>(k), st));
    assert(eval_apply(k, c, d, tup, st, h) == (Ok::<Term, EvalError>(ap(k, c)), st));
    assert(eval_term(ap(k, c), d, tup, st, g) == (Ok::<Term, EvalError>(ap(k, c)), st));
    assert(eval_apply2(k, c, ap(k, c), x, d, tup, st, g) == (Ok::<Term, EvalError>(ap(ap(k, c), x)), st));
    assert(eval_apply(ap(k, c), x, d, tup, st, g) == (Ok::<Term, EvalError>(ap(ap(k, c), x)), st));
    assert(eval_term(ap(ap(k, c), x), d, tup, st, fuel) == (Ok::<Term, EvalError>(ap(ap(k, c), x)), st));
    assert(eval_term(c, d, tup, st, fuel) == (Ok::<Term, EvalError>(c), st));
    let target = if n == 0 { eval_term(x, d, tup, st, fuel) } else { eval_term(y, d, tup, st, fuel) };
    assert(eval_apply3(k, c, x, ap(ap(k, c), x), y, d, tup, st, fuel) == target);
    assert(eval_apply2(ap(k, c), x, ap(ap(k, c), x), y, d, tup, st, fuel) == target);
    assert(eval_apply(ap(ap(k, c), x), y, d, tup, st, fuel) == target);
}

/// `t` with every shared subterm replaced by the term it shares.
pub open spec fn erase(t: Term) -> Term
    decreases t,
{
    match t {
        Term::Cloned(a, _) => erase(*a),
        Term::Ap(x, y) => ap(erase(*x), erase(*y)),
        Term::Pair(a, b) => Term::Pair(Box::new(erase(*a)), Box::new(erase(*b))),
        _ => t,
    }
}

/// `simplify` rewrites `s x y z` as `x z (y z)`; and the term that
/// evaluation goes on with for `s x y z` (see `lemma_eval_s`) is that same
/// rewrite once its sharing is erased.
pub proof fn lemma_rewrite_s(x: Term, y: Term, z: Term, id: nat)
    ensures
        rewrite_head(ap(ap(name("s"@), x), y), z) == ap(ap(x, z), ap(y, z)),
        erase(ap(ap(x, Term::Cloned(Box::new(z), id)), ap(y, Term::Cloned(Box::new(z), id)))) == erase(rewrite_head(ap(ap(name("s"@), x), y), z)),
{
    lemma_names();
    assert("s"@ != "b"@ && "s"@ != "c"@ && "s"@ != "i"@);
    let c = Term::Cloned(Box::new(z), id);
    assert(erase(c) == erase(z));
    assert(erase(ap(x, c)) == ap(erase(x), erase(z)));
    assert(erase(ap(y, c)) == ap(erase(y), erase(z)));
    assert(erase(ap(x, z)) == ap(erase(x), erase(z)));
    assert(erase(ap(y, z)) == ap(erase(y), erase(z)));
    assert(erase(ap(ap(x, c), ap(y, c))) == ap(ap(erase(x), erase(z)), ap(erase(y), erase(z))));
    assert(erase(ap(ap(x, z), ap(y, z))) == ap(ap(erase(x), erase(z)), ap(erase(y), erase(z))));
}

/// Without evaluation of pairs, a pair `<a, b>` applied to `x` evaluates as `x a b`.
pub proof fn lemma_eval_pair_apply(a: Term, b: Term, x: Term, d: Seq<(Seq<char>, Term)>, st: Store, fuel: nat)
    requires
        fuel >= 1,
    ensures
        eval_term(ap(Term::Pair(Box::new(a), Box::new(b)), x), d, false, st, fuel + 1) == eval_term(ap(ap(x, a), b), d, false, st, fuel),
{
    let p = Term::Pair(Box::new(a), Box::new(b));
    assert(eval_term(p, d, false, st, fuel) == (Ok::<Term, EvalError>(p), st));
    assert(eval_apply(p, x, d, false, st, fuel) == eval_term(ap(ap(x, a), b), d, false, st, fuel));
}

/// Two depths at which an evaluation does not run out give the same result
/// and the same state.
pub proof fn lemma_eval_depths_agree(e: Term, d: Seq<(Seq<char>, Term)>, tup: bool, st: Store, f1: nat, f2: nat)
    requires
        !out_of_fuel(eval_term(e, d, tup, st, f1).0),
        !out_of_fuel(eval_term(e, d, tup, st, f2).0),
    ensures
        eval_term(e, d, tup, st, f1) == eval_term(e, d, tup, st, f2),
{
    if f1 <= f2 {
        lemma_eval_fuel(e, d, tup, st, f1, f2);
    } else {
        lemma_eval_fuel(e, d, tup, st, f2, f1);
    }
}

/// A depth no larger than the spine of a term runs out before anything
/// else happens, and leaves the state as it is.
pub proof fn lemma_short_depth(t: Term, d: Seq<(Seq<char>, Term)>, tup: bool, st: Store, fuel: nat)
    requires
        fuel <= spine(t),
    ensures
        eval_term(t, d, tup, st, fuel) == (Err::<Term, EvalError>(EvalError::OutOfFuel), st),
    decreases t,
{
    if fuel > 0 {
        if let Term::Ap(x, _) = t {
            lemma_short_depth(*x, d, tup, st, (fuel - 1) as nat);
        }
    }
}

/// `b x y z` and `x (y z)` evaluate alike, whatever the depths at which
/// neither runs out: the same result and the same state.
pub proof fn lemma_eval_b_at_any_depth(x: Term, y: Term, z: Term, d: Seq<(Seq<char>, Term)>, tup: bool, st: Store, f1: nat, f2: nat)
    requires
        !out_of_fuel(eval_term(ap(ap(ap(name("b"@), x), y), z), d, tup, st, f1).0),
        !out_of_fuel(eval_term(ap(x, ap(y, z)), d, tup, st, f2).0),
    ensures
        eval_term(ap(ap(ap(name("b"@), x), y), z), d, tup, st, f1) == eval_term(ap(x, ap(y, z)), d, tup, st, f2),
{
    let big = ap(ap(ap(name("b"@), x), y), z);
    reveal_with_fuel(spine, 4);
    assert(spine(big) == 3);
    if f1 <= 3 {
        lemma_short_depth(big, d, tup, st, f1);
    }
    let g = (f1 - 1) as nat;
    lemma_eval_b(x, y, z, d, tup, st, g);
    lemma_eval_depths_agree(ap(x, ap(y, z)), d, tup, st, g, f2);
}

/// `c x y z` and `x z y` evaluate alike, whatever the depths at which
/// neither runs out: the same result and the same state.
pub proof fn lemma_eval_c_at_any_depth(x: Term, y: Term, z: Term, d: Seq<(Seq<char>, Term)>, tup: bool, st: Store, f1: nat, f2: nat)
    requires
        !out_of_fuel(eval_term(ap(ap(ap(name("c"@), x), y), z), d, tup, st, f1).0),
        !out_of_fuel(eval_term(ap(ap(x, z), y), d, tup, st, f2).0),
    ensures
        eval_term(ap(ap(ap(name("c"@), x), y), z), d, tup, st, f1) == eval_term(ap(ap(x, z), y), d, tup, st, f2),
{
    let big = ap(ap(ap(name("c"@), x), y), z);
    reveal_with_fuel(spine, 4);
    assert(spine(big) == 3);
    if f1 <= 3 {
        lemma_short_depth(big, d, tup, st, f1);
    }
    let g = (f1 - 1) as nat;
    lemma_eval_c(x, y, z, d, tup, st, g);
    lemma_eval_depths_agree(ap(ap(x, z), y), d, tup, st, g, f2);
}

/// Without evaluation of pairs, `<a, b> x` and `x a b` evaluate alike,
/// whatever the depths at which neither runs out: the same result and the
/// same state.
pub proof fn lemma_eval_pair_apply_at_any_depth(a: Term, b: Term, x: Term, d: Seq<(Seq<char>, Term)>, st: Store, f1: nat, f2: nat)
    requires
        !out_of_fuel(eval_term(ap(Term::Pair(Box::new(a), Box::new(b)), x), d, false, st, f1).0),
        !out_of_fuel(eval_term(ap(ap(x, a), b), d, false, st, f2).0),
    ensures
        eval_term(ap(Term::Pair(Box::new(a), Box::new(b)), x), d, false, st, f1) == eval_term(ap(ap(x, a), b), d, false, st, f2),
{
    let big = ap(Term::Pair(Box::new(a), Box::new(b)), x);
    reveal_with_fuel(spine, 2);
    assert(spine(big) == 1);
    if f1 <= 1 {
        lemma_short_depth(big, d, false, st, f1);
    }
    let g = (f1 - 1) as nat;
    lemma_eval_pair_apply(a, b, x, d, st, g);
    lemma_eval_depths_agree(ap(ap(x, a), b), d, false, st, g, f2);
}

/// From `a` to `b`, the only counters that changed are those of `:` names
/// that have a definition in `d`.
pub open spec fn counts_only_defined(d: Seq<(Seq<char>, Term)>, a: Store, b: Store) -> bool {
    forall|k: Seq<char>|
        #[trigger] lookup(b.count, k) != lookup(a.count, k) ==> is_ref(k) && lookup(d, k) is Some
}

proof fn lemma_counts_trans(d: Seq<(Seq<char>, Term)>, a: Store, b: Store, c: Store)
    requires
        counts_only_defined(d, a, b),
        counts_only_defined(d, b, c),
    ensures
        counts_only_defined(d, a, c),
{
    assert forall|k: Seq<char>| #[trigger] lookup(c.count, k) != lookup(a.count, k) implies is_ref(k) && lookup(d, k) is Some by {
        if lookup(b.count, k) == lookup(a.count, k) {
            assert(lookup(c.count, k) != lookup(b.count, k));
        }
    }
}

/// An evaluation that ends with a value changed no counter but those of
/// `:` names that have a definition; every other counter, and every name
/// that has none, kept its value.
pub proof fn lemma_eval_counts(e: Term, d: Seq<(Seq<char>, Term)>, tup: bool, st: Store, fuel: nat)
    ensures
        eval_term(e, d, tup, st, fuel).0 is Ok ==> counts_only_defined(d, st, eval_term(e, d, tup, st, fuel).1),
    decreases fuel, 0nat,
{
    if fuel == 0 {
        return;
    }
    let g = (fuel - 1) as nat;
    match e {
        Term::Cloned(a, id) => {
            if id < st.cache.len() && st.cache[id as int] is None {
                lemma_eval_counts(*a, d, tup, st, g);
            }
        },
        Term::Ap(x1, y1) => {
            lemma_eval_counts(*x1, d, tup, st, g);
            let (r, st1) = eval_term(*x1, d, tup, st, g);
            if let Ok(x) = r {
                lemma_apply_counts(x, *y1, d, tup, st1, g);
                let r2 = eval_apply(x, *y1, d, tup, st1, g);
                if r2.0 is Ok {
                    lemma_counts_trans(d, st, st1, r2.1);
                }
            }
        },
        Term::Etc(n) => {
            if is_ref(n) && lookup(st.count, n) != Some(usize::MAX as nat) {
                let st1 = Store { count: bump(st.count, n), cache: st.cache };
                if let Some(b) = lookup(d, n) {
                    assert(counts_only_defined(d, st, st1)) by {
                        assert forall|k: Seq<char>| #[trigger] lookup(st1.count, k) != lookup(st.count, k) implies is_ref(k) && lookup(d, k) is Some by {
                            lemma_lookup_bump(st.count, n, k);
                        }
                    }
                    lemma_eval_counts(b, d, tup, st1, g);
                    let r2 = eval_term(b, d, tup, st1, g);
                    if r2.0 is Ok {
                        lemma_counts_trans(d, st, st1, r2.1);
                    }
                }
            }
        },
        Term::Pair(a, b) => {
            if tup {
                lemma_two_counts(*a, *b, d, tup, st, g);
            }
        },
        Term::Num(_) => {},
    }
}

pub proof fn lemma_two_counts(a: Term, b: Term, d: Seq<(Seq<char>, Term)>, tup: bool, st: Store, f: nat)
    ensures
        eval_two(a, b, d, tup, st, f).0 is Ok ==> counts_only_defined(d, st, eval_two(a, b, d, tup, st, f).1),
    decreases f, 1nat,
{
    lemma_eval_counts(a, d, tup, st, f);
    let (ra, st1) = eval_term(a, d, tup, st, f);
    if ra is Ok {
        lemma_eval_counts(b, d, tup, st1, f);
        let r2 = eval_term(b, d, tup, st1, f);
        if r2.0 is Ok {
            lemma_counts_trans(d, st, st1, r2.1);
        }
    }
}

pub proof fn lemma_apply_counts(x: Term, y1: Term, d: Seq<(Seq<char>, Term)>, tup: bool, st: Store, f: nat)
    ensures
        eval_apply(x, y1, d, tup, st, f).0 is Ok ==> counts_only_defined(d, st, eval_apply(x, y1, d, tup, st, f).1),
    decreases f, 4nat,
{
    match x {
        Term::Ap(x2, y2) => {
            lemma_apply2_counts(*x2, *y2, x, y1, d, tup, st, f);
        },
        Term::Pair(a, b) => {
            lemma_eval_counts(ap(ap(y1, *a), *b), d, tup, st, f);
        },
        Term::Etc(n) => {
            if is_unop(n) || n == "car"@ || n == "cdr"@ || n == "isnil"@ || n == "i"@ {
                lemma_eval_counts(y1, d, tup, st, f);
                let (r, st1) = eval_term(y1, d, tup, st, f);
                if let Ok(Term::Pair(a, b)) = r {
                    if is_unop(n) {
                    } else if n == "car"@ {
                        lemma_eval_counts(*a, d, tup, st1, f);
                        let r2 = eval_term(*a, d, tup, st1, f);
                        if r2.0 is Ok {
                            lemma_counts_trans(d, st, st1, r2.1);
                        }
                    } else if n == "cdr"@ {
                        lemma_eval_counts(*b, d, tup, st1, f);
                        let r2 = eval_term(*b, d, tup, st1, f);
                        if r2.0 is Ok {
                            lemma_counts_trans(d, st, st1, r2.1);
                        }
                    }
                }
            }
        },
        _ => {},
    }
}

pub proof fn lemma_apply2_counts(x2: Term, y2: Term, x: Term, y1: Term, d: Seq<(Seq<char>, Term)>, tup: bool, st: Store, f: nat)
    ensures
        eval_apply2(x2, y2, x, y1, d, tup, st, f).0 is Ok ==> counts_only_defined(d, st, eval_apply2(x2, y2, x, y1, d, tup, st, f).1),
    decreases f, 3nat,
{
    match x2 {
        Term::Etc(n) => {
            if n == "cons"@ {
                if tup {
                    lemma_two_counts(y2, y1, d, tup, st, f);
                }
            } else if n == "t"@ {
                lemma_eval_counts(y2, d, tup, st, f);
            } else if n == "f"@ {
                lemma_eval_counts(y1, d, tup, st, f);
            } else if is_binop(n) {
                lemma_two_counts(y1, y2, d, tup, st, f);
            }
        },
        Term::Ap(x3, y3) => {
            lemma_apply3_counts(*x3, *y3, y2, x, y1, d, tup, st, f);
        },
        _ => {},
    }
}

pub proof fn lemma_apply3_counts(x3: Term, y3: Term, y2: Term, x: Term, y1: Term, d: Seq<(Seq<char>, Term)>, tup: bool, st: Store, f: nat)
    ensures
        eval_apply3(x3, y3, y2, x, y1, d, tup, st, f).0 is Ok ==> counts_only_defined(d, st, eval_apply3(x3, y3, y2, x, y1, d, tup, st, f).1),
    decreases f, 2nat,
{
    match x3 {
        Term::Etc(n) => {
            if n == "b"@ {
                lemma_eval_counts(ap(y3, ap(y2, y1)), d, tup, st, f);
            } else if n == "c"@ {
                lemma_eval_counts(ap(ap(y3, y1), y2), d, tup, st, f);
            } else if n == "s"@ {
                let shared = Term::Cloned(Box::new(y1), st.cache.len());
                let st1 = Store { count: st.count, cache: st.cache.push(None) };
                lemma_eval_counts(ap(ap(y3, shared), ap(y2, shared)), d, tup, st1, f);
            } else if n == "if0"@ {
                lemma_eval_counts(y3, d, tup, st, f);
                let (r, st1) = eval_term(y3, d, tup, st, f);
                if let Ok(Term::Num(v)) = r {
                    if v == 0 {
                        lemma_eval_counts(y2, d, tup, st1, f);
                        let r2 = eval_term(y2, d, tup, st1, f);
                        if r2.0 is Ok {
                            lemma_counts_trans(d, st, st1, r2.1);
                        }
                    } else {
                        lemma_eval_counts(y1, d, tup, st1, f);
                        let r2 = eval_term(y1, d, tup, st1, f);
                        if r2.0 is Ok {
                            lemma_counts_trans(d, st, st1, r2.1);
                        }
                    }
                }
            }
        },
        _ => {},
    }
}

/// Applying `x` to any argument gives back the application itself.
pub open spec fn apply_keeps(x: Term) -> bool {
    match x {
        Term::Ap(x2, _) => match *x2 {
            Term::Etc(n) => !(n == "cons"@ || n == "t"@ || n == "f"@ || is_binop(n)),
            Term::Ap(x3, _) => match *x3 {
                Term::Etc(n) => !(n == "b"@ || n == "c"@ || n == "s"@ || n == "if0"@),
                _ => true,
            },
            _ => true,
        },
        Term::Pair(_, _) => false,
        Term::Etc(n) => !(is_unop(n) || n == "car"@ || n == "cdr"@ || n == "isnil"@ || n == "i"@ || n == "nil"@),
        _ => true,
    }
}

/// A value of evaluation without pair evaluation: a number, a name that is
/// not a reference, a pair, or an application that stays as it is.
pub open spec fn is_value(t: Term) -> bool
    decreases t,
{
    match t {
        Term::Num(_) => true,
        Term::Etc(n) => !is_ref(n),
        Term::Pair(_, _) => true,
        Term::Ap(x, _) => is_value(*x) && apply_keeps(*x),
        Term::Cloned(_, _) => false,
    }
}

/// Nesting of the applications on the left spine of a term.
pub open spec fn spine(t: Term) -> nat
    decreases t,
{
    match t {
        Term::Ap(x, _) => 1 + spine(*x),
        _ => 0,
    }
}

/// Every filled cache slot holds a value.
pub open spec fn cache_values(st: Store) -> bool {
    forall|i: int| 0 <= i < st.cache.len() && (#[trigger] st.cache[i]) is Some ==> is_value(st.cache[i]->0)
}

pub proof fn lemma_keep(x: Term, y: Term, d: Seq<(Seq<char>, Term)>, tup: bool, st: Store, f: nat)
    requires
        apply_keeps(x),
    ensures
        eval_apply(x, y, d, tup, st, f) == (Ok::<Term, EvalError>(ap(x, y)), st),
{
    match x {
        Term::Ap(x2, y2) => {
            match *x2 {
                Term::Ap(x3, y3) => {
                    assert(eval_apply3(*x3, *y3, *y2, x, y, d, tup, st, f) == (Ok::<Term, EvalError>(ap(x, y)), st));
                },
                _ => {},
            }
        },
        _ => {},
    }
}

/// A value evaluates to itself, without pair evaluation, given a depth
/// larger than its spine, and leaves the state as it is.
pub proof fn lemma_value_fixed(r: Term, d: Seq<(Seq<char>, Term)>, st: Store, fuel: nat)
    requires
        is_value(r),
        fuel > spine(r),
    ensures
        eval_term(r, d, false, st, fuel) == (Ok::<Term, EvalError>(r), st),
    decreases r,
{
    if let Term::Ap(x, y) = r {
        let g = (fuel - 1) as nat;
        lemma_value_fixed(*x, d, st, g);
        lemma_keep(*x, *y, d, false, st, g);
    }
}

/// Every shared subterm of `t` names a cache slot at `l` or later.
pub open spec fn fresh(t: Term, l: nat) -> bool
    decreases t,
{
    match t {
        Term::Cloned(a, id) => id >= l && fresh(*a, l),
        Term::Ap(x, y) => fresh(*x, l) && fresh(*y, l),
        Term::Pair(a, b) => fresh(*a, l) && fresh(*b, l),
        _ => true,
    }
}

/// `t` has no shared subterm anywhere.
pub open spec fn unshared(t: Term) -> bool
    decreases t,
{
    match t {
        Term::Cloned(_, _) => false,
        Term::Ap(x, y) => unshared(*x) && unshared(*y),
        Term::Pair(a, b) => unshared(*a) && unshared(*b),
        _ => true,
    }
}

/// No definition in `d` has a shared subterm.
pub open spec fn defs_unshared(d: Seq<(Seq<char>, Term)>) -> bool {
    forall|i: int| 0 <= i < d.len() ==> unshared(#[trigger] d[i].1)
}

spec fn defs_fresh(d: Seq<(Seq<char>, Term)>, l: nat) -> bool {
    forall|i: int| 0 <= i < d.len() ==> fresh(#[trigger] d[i].1, l)
}

/// From slot `l` on, every filled cache slot holds a value whose shared
/// subterms name slots from `l` on.
spec fn cache_from(st: Store, l: nat) -> bool {
    &&& l <= st.cache.len()
    &&& forall|i: int| l <= i < st.cache.len() && (#[trigger] st.cache[i]) is Some ==> is_value(st.cache[i]->0) && fresh(st.cache[i]->0, l)
}

proof fn lemma_fresh_from_zero(t: Term)
    ensures
        fresh(t, 0),
    decreases t,
{
    match t {
        Term::Cloned(a, _) => lemma_fresh_from_zero(*a),
        Term::Ap(x, y) => {
            lemma_fresh_from_zero(*x);
            lemma_fresh_from_zero(*y);
        },
        Term::Pair(a, b) => {
            lemma_fresh_from_zero(*a);
            lemma_fresh_from_zero(*b);
        },
        _ => {},
    }
}

proof fn lemma_unshared_fresh(t: Term, l: nat)
    requires
        unshared(t),
    ensures
        fresh(t, l),
    decreases t,
{
    match t {
        Term::Ap(x, y) => {
            lemma_unshared_fresh(*x, l);
            lemma_unshared_fresh(*y, l);
        },
        Term::Pair(a, b) => {
            lemma_unshared_fresh(*a, l);
            lemma_unshared_fresh(*b, l);
        },
        _ => {},
    }
}

proof fn lemma_lookup_fresh(d: Seq<(Seq<char>, Term)>, n: Seq<char>, l: nat)
    requires
        defs_fresh(d, l),
        lookup(d, n) is Some,
    ensures
        fresh(lookup(d, n)->0, l),
{
    lemma_find_key_found(key_seq(d), n);
    let i = find_key(key_seq(d), n)->0;
    assert(key_seq(d).len() == d.len());
    assert(fresh(d[i].1, l));
}

/// Without pair evaluation, evaluation ends in a value and keeps only
/// values in the cache from slot `l` on, where everything it starts from
/// shares only slots from `l` on.
proof fn lemma_eval_gives_value(e: Term, d: Seq<(Seq<char>, Term)>, st: Store, fuel: nat, l: nat)
    requires
        cache_from(st, l),
        fresh(e, l),
        defs_fresh(d, l),
    ensures
        cache_from(eval_term(e, d, false, st, fuel).1, l),
        eval_term(e, d, false, st, fuel).0 matches Ok(r) ==> is_value(r) && fresh(r, l),
    decreases fuel, 0nat,
{
    if fuel == 0 {
        return;
    }
    let g = (fuel - 1) as nat;
    match e {
        Term::Cloned(a, id) => {
            if id < st.cache.len() && st.cache[id as int] is None {
                lemma_eval_gives_value(*a, d, st, g, l);
                lemma_eval_grows(*a, d, false, st, g);
                let (r, st1) = eval_term(*a, d, false, st, g);
                if let Ok(b) = r {
                    let st2 = Store { count: st1.count, cache: st1.cache.update(id as int, Some(b)) };
                    assert forall|i: int| l <= i < st2.cache.len() && (#[trigger] st2.cache[i]) is Some implies is_value(st2.cache[i]->0) && fresh(st2.cache[i]->0, l) by {
                        if i != id {
                            assert(st2.cache[i] == st1.cache[i]);
                        }
                    }
                }
            } else if id < st.cache.len() {
                assert(st.cache[id as int] is Some);
            }
        },
        Term::Ap(x1, y1) => {
            lemma_eval_gives_value(*x1, d, st, g, l);
            let (r, st1) = eval_term(*x1, d, false, st, g);
            if let Ok(x) = r {
                lemma_apply_gives_value(x, *y1, d, st1, g, l);
            }
        },
        Term::Etc(n) => {
            if is_ref(n) && lookup(st.count, n) != Some(usize::MAX as nat) {
                let st1 = Store { count: bump(st.count, n), cache: st.cache };
                if let Some(b) = lookup(d, n) {
                    lemma_lookup_fresh(d, n, l);
                    lemma_eval_gives_value(b, d, st1, g, l);
                }
            }
        },
        _ => {},
    }
}

proof fn lemma_two_gives_value(a: Term, b: Term, d: Seq<(Seq<char>, Term)>, st: Store, f: nat, l: nat)
    requires
        cache_from(st, l),
        fresh(a, l),
        fresh(b, l),
        defs_fresh(d, l),
    ensures
        cache_from(eval_two(a, b, d, false, st, f).1, l),
    decreases f, 1nat,
{
    lemma_eval_gives_value(a, d, st, f, l);
    let (ra, st1) = eval_term(a, d, false, st, f);
    if ra is Ok {
        lemma_eval_gives_value(b, d, st1, f, l);
    }
}

proof fn lemma_apply_gives_value(x: Term, y1: Term, d: Seq<(Seq<char>, Term)>, st: Store, f: nat, l: nat)
    requires
        cache_from(st, l),
        is_value(x),
        fresh(x, l),
        fresh(y1, l),
        defs_fresh(d, l),
    ensures
        cache_from(eval_apply(x, y1, d, false, st, f).1, l),
        eval_apply(x, y1, d, false, st, f).0 matches Ok(r) ==> is_value(r) && fresh(r, l),
    decreases f, 4nat,
{
    lemma_names();
    match x {
        Term::Ap(x2, y2) => {
            lemma_apply2_gives_value(*x2, *y2, x, y1, d, st, f, l);
        },
        Term::Pair(a, b) => {
            assert(fresh(ap(y1, *a), l));
            lemma_eval_gives_value(ap(ap(y1, *a), *b), d, st, f, l);
        },
        Term::Etc(n) => {
            if is_unop(n) || n == "car"@ || n == "cdr"@ || n == "isnil"@ || n == "i"@ {
                lemma_eval_gives_value(y1, d, st, f, l);
                let (r, st1) = eval_term(y1, d, false, st, f);
                if let Ok(Term::Pair(a, b)) = r {
                    if is_unop(n) {
                    } else if n == "car"@ {
                        lemma_eval_gives_value(*a, d, st1, f, l);
                    } else if n == "cdr"@ {
                        lemma_eval_gives_value(*b, d, st1, f, l);
                    }
                }
            }
        },
        _ => {},
    }
}

proof fn lemma_apply2_gives_value(x2: Term, y2: Term, x: Term, y1: Term, d: Seq<(Seq<char>, Term)>, st: Store, f: nat, l: nat)
    requires
        cache_from(st, l),
        is_value(x),
        x == ap(x2, y2),
        fresh(x, l),
        fresh(y1, l),
        defs_fresh(d, l),
    ensures
        cache_from(eval_apply2(x2, y2, x, y1, d, false, st, f).1, l),
        eval_apply2(x2, y2, x, y1, d, false, st, f).0 matches Ok(r) ==> is_value(r) && fresh(r, l),
    decreases f, 3nat,
{
    lemma_names();
    match x2 {
        Term::Etc(n) => {
            if n == "cons"@ {
            } else if n == "t"@ {
                lemma_eval_gives_value(y2, d, st, f, l);
            } else if n == "f"@ {
                lemma_eval_gives_value(y1, d, st, f, l);
            } else if is_binop(n) {
                lemma_two_gives_value(y1, y2, d, st, f, l);
            }
        },
        Term::Ap(x3, y3) => {
            lemma_apply3_gives_value(*x3, *y3, y2, x, y1, d, st, f, l);
        },
        _ => {},
    }
}

proof fn lemma_apply3_gives_value(x3: Term, y3: Term, y2: Term, x: Term, y1: Term, d: Seq<(Seq<char>, Term)>, st: Store, f: nat, l: nat)
    requires
        cache_from(st, l),
        is_value(x),
        x == ap(ap(x3, y3), y2),
        fresh(x, l),
        fresh(y1, l),
        defs_fresh(d, l),
    ensures
        cache_from(eval_apply3(x3, y3, y2, x, y1, d, false, st, f).1, l),
        eval_apply3(x3, y3, y2, x, y1, d, false, st, f).0 matches Ok(r) ==> is_value(r) && fresh(r, l),
    decreases f, 2nat,
{
    assert(fresh(ap(x3, y3), l) && fresh(y2, l));
    assert(fresh(y3, l));
    match x3 {
        Term::Etc(n) => {
            if n == "b"@ {
                assert(fresh(ap(y2, y1), l));
                lemma_eval_gives_value(ap(y3, ap(y2, y1)), d, st, f, l);
            } else if n == "c"@ {
                assert(fresh(ap(y3, y1), l));
                lemma_eval_gives_value(ap(ap(y3, y1), y2), d, st, f, l);
            } else if n == "s"@ {
                let shared = Term::Cloned(Box::new(y1), st.cache.len());
                let st1 = Store { count: st.count, cache: st.cache.push(None) };
                assert(cache_from(st1, l)) by {
                    assert forall|i: int| l <= i < st1.cache.len() && (#[trigger] st1.cache[i]) is Some implies is_value(st1.cache[i]->0) && fresh(st1.cache[i]->0, l) by {
                        assert(i < st.cache.len());
                        assert(st1.cache[i] == st.cache[i]);
                    }
                }
                assert(fresh(shared, l));
                assert(fresh(ap(y3, shared), l));
                assert(fresh(ap(y2, shared), l));
                lemma_eval_gives_value(ap(ap(y3, shared), ap(y2, shared)), d, st1, f, l);
            } else if n == "if0"@ {
                lemma_eval_gives_value(y3, d, st, f, l);
                let (r, st1) = eval_term(y3, d, false, st, f);
                if let Ok(Term::Num(v)) = r {
                    if v == 0 {
                        lemma_eval_gives_value(y2, d, st1, f, l);
                    } else {
                        lemma_eval_gives_value(y1, d, st1, f, l);
                    }
                }
            }
        },
        _ => {},
    }
}

/// Evaluating a value again, without pair evaluation, against any
/// definitions and from any state, gives it back and changes nothing where
/// the depth is larger than its spine; a smaller depth runs out at once.
pub open spec fn gives_back(r: Term, d2: Seq<(Seq<char>, Term)>, st2: Store, fuel2: nat) -> bool {
    eval_term(r, d2, false, st2, fuel2) == if fuel2 > spine(r) {
        (Ok::<Term, EvalError>(r), st2)
    } else {
        (Err::<Term, EvalError>(EvalError::OutOfFuel), st2)
    }
}

proof fn lemma_value_gives_back(r: Term, d2: Seq<(Seq<char>, Term)>, st2: Store, fuel2: nat)
    requires
        is_value(r),
    ensures
        gives_back(r, d2, st2, fuel2),
{
    if fuel2 > spine(r) {
        lemma_value_fixed(r, d2, st2, fuel2);
    } else {
        lemma_short_depth(r, d2, false, st2, fuel2);
    }
}

/// A result of evaluation without pair evaluation, of a term and
/// definitions without shared subterms, from any state, is a fixed point:
/// evaluating it again, against any definitions and from any state, gives
/// it back and changes nothing, at every depth larger than its spine.
pub proof fn lemma_eval_fixed_point_unshared(e: Term, d: Seq<(Seq<char>, Term)>, st: Store, fuel: nat, d2: Seq<(Seq<char>, Term)>, st2: Store, fuel2: nat)
    requires
        unshared(e),
        defs_unshared(d),
        eval_term(e, d, false, st, fuel).0 is Ok,
    ensures
        gives_back(eval_term(e, d, false, st, fuel).0->Ok_0, d2, st2, fuel2),
{
    let l = st.cache.len();
    lemma_unshared_fresh(e, l);
    assert forall|i: int| 0 <= i < d.len() implies fresh(#[trigger] d[i].1, l) by {
        lemma_unshared_fresh(d[i].1, l);
    }
    lemma_eval_gives_value(e, d, st, fuel, l);
    lemma_value_gives_back(eval_term(e, d, false, st, fuel).0->Ok_0, d2, st2, fuel2);
}

/// A result of evaluation without pair evaluation, from a state whose cache
/// holds only values (an empty cache, for one), is a fixed point: evaluating
/// it again, against any definitions and from any state, gives it back and
/// changes nothing, at every depth larger than its spine.
pub proof fn lemma_eval_fixed_point(e: Term, d: Seq<(Seq<char>, Term)>, st: Store, fuel: nat, d2: Seq<(Seq<char>, Term)>, st2: Store, fuel2: nat)
    requires
        cache_values(st),
        eval_term(e, d, false, st, fuel).0 is Ok,
    ensures
        gives_back(eval_term(e, d, false, st, fuel).0->Ok_0, d2, st2, fuel2),
{
    lemma_fresh_from_zero(e);
    assert forall|i: int| 0 <= i < d.len() implies fresh(#[trigger] d[i].1, 0) by {
        lemma_fresh_from_zero(d[i].1);
    }
    assert forall|i: int| 0 <= i < st.cache.len() && (#[trigger] st.cache[i]) is Some implies is_value(st.cache[i]->0) && fresh(st.cache[i]->0, 0) by {
        lemma_fresh_from_zero(st.cache[i]->0);
    }
    lemma_eval_gives_value(e, d, st, fuel, 0);
    lemma_value_gives_back(eval_term(e, d, false, st, fuel).0->Ok_0, d2, st2, fuel2);
}

/// An application of `i`, or of `b` or `c` to two arguments: a head that
/// `rewrite_head` rewrites without sharing.
pub open spec fn root_redex(x: Term) -> bool {
    x == name("i"@) || (x matches Term::Ap(x2, _) && *x2 matches Term::Ap(x3, _) && (*x3 == name("b"@) || *x3 == name("c"@)))
}

/// `u` is `t` with one `i`, `b` or `c` rewrite made at a node of the left
/// spine of `t`: at its root, at the head of its root, at the head of that,
/// and so on.
pub open spec fn spine_step(t: Term, u: Term) -> bool
    decreases t,
{
    match t {
        Term::Ap(x, y) => (root_redex(*x) && u == rewrite_head(*x, *y)) || (u matches Term::Ap(x2, y2) && *y2 == *y && spine_step(*x, *x2)),
        _ => false,
    }
}

proof fn lemma_apply_depths_agree(x: Term, y1: Term, d: Seq<(Seq<char>, Term)>, tup: bool, st: Store, f1: nat, f2: nat)
    requires
        !out_of_fuel(eval_apply(x, y1, d, tup, st, f1).0),
        !out_of_fuel(eval_apply(x, y1, d, tup, st, f2).0),
    ensures
        eval_apply(x, y1, d, tup, st, f1) == eval_apply(x, y1, d, tup, st, f2),
{
    if f1 <= f2 {
        lemma_apply_fuel(x, y1, d, tup, st, f1, f2);
    } else {
        lemma_apply_fuel(x, y1, d, tup, st, f2, f1);
    }
}

/// At the root, the `i`, `b` and `c` rewrites that `simplify` makes do not
/// change what a term evaluates to, whatever the depths at which neither
/// runs out: the same result and the same state.
pub proof fn lemma_rewrite_root_at_any_depth(x: Term, y: Term, d: Seq<(Seq<char>, Term)>, tup: bool, st: Store, f1: nat, f2: nat)
    requires
        root_redex(x),
        !out_of_fuel(eval_term(ap(x, y), d, tup, st, f1).0),
        !out_of_fuel(eval_term(rewrite_head(x, y), d, tup, st, f2).0),
    ensures
        eval_term(ap(x, y), d, tup, st, f1) == eval_term(rewrite_head(x, y), d, tup, st, f2),
{
    lemma_names();
    if x == name("i"@) {
        reveal_with_fuel(spine, 2);
        if f1 <= 1 {
            lemma_short_depth(ap(x, y), d, tup, st, f1);
        }
        let g = (f1 - 1) as nat;
        lemma_eval_i(y, d, tup, st, g);
        lemma_eval_depths_agree(y, d, tup, st, g, f2);
    } else {
        let x2 = *x->Ap_0;
        let y2 = *x->Ap_1;
        let x3 = *x2->Ap_0;
        let y3 = *x2->Ap_1;
        assert(x == ap(ap(x3, y3), y2));
        if x3 == name("b"@) {
            lemma_eval_b_at_any_depth(y3, y2, y, d, tup, st, f1, f2);
        } else {
            lemma_eval_c_at_any_depth(y3, y2, y, d, tup, st, f1, f2);
        }
    }
}

/// An `i`, `b` or `c` rewrite that `simplify` makes on the left spine of a
/// term (at its root, or at the head of an application on that spine) does
/// not change what the term evaluates to, whatever the depths at which
/// neither runs out: the same result and the same state.
pub proof fn lemma_spine_rewrite(t: Term, u: Term, d: Seq<(Seq<char>, Term)>, tup: bool, st: Store, f1: nat, f2: nat)
    requires
        spine_step(t, u),
        !out_of_fuel(eval_term(t, d, tup, st, f1).0),
        !out_of_fuel(eval_term(u, d, tup, st, f2).0),
    ensures
        eval_term(t, d, tup, st, f1) == eval_term(u, d, tup, st, f2),
    decreases t,
{
    let x = *t->Ap_0;
    let y = *t->Ap_1;
    if root_redex(x) && u == rewrite_head(x, y) {
        lemma_rewrite_root_at_any_depth(x, y, d, tup, st, f1, f2);
    } else {
        let x2 = *u->Ap_0;
        let g1 = (f1 - 1) as nat;
        let g2 = (f2 - 1) as nat;
        assert(!out_of_fuel(eval_term(x, d, tup, st, g1).0));
        assert(!out_of_fuel(eval_term(x2, d, tup, st, g2).0));
        lemma_spine_rewrite(x, x2, d, tup, st, g1, g2);
        let (r, st1) = eval_term(x, d, tup, st, g1);
        if let Ok(v) = r {
            lemma_apply_depths_agree(v, y, d, tup, st1, g1, g2);
        }
    }
}

/// At the root, the `i`, `b` and `c` rewrites that `simplify` makes do not
/// change what a term evaluates to: the application evaluates, one step
/// deeper, as its rewrite.
pub proof fn lemma_rewrite_root(x: Term, y: Term, d: Seq<(Seq<char>, Term)>, tup: bool, st: Store, fuel: nat)
    requires
        fuel >= 3,
        x == name("i"@) || (x matches Term::Ap(x2, _) && *x2 matches Term::Ap(x3, _) && (*x3 == name("b"@) || *x3 == name("c"@))),
    ensures
        eval_term(ap(x, y), d, tup, st, fuel + 1) == eval_term(rewrite_head(x, y), d, tup, st, fuel),
{
    lemma_names();
    if x == name("i"@) {
        lemma_eval_i(y, d, tup, st, fuel);
    } else {
        let x2 = *x->Ap_0;
        let y2 = *x->Ap_1;
        let x3 = *x2->Ap_0;
        let y3 = *x2->Ap_1;
        assert(x == ap(ap(x3, y3), y2));
        if x3 == name("b"@) {
            lemma_eval_b(y3, y2, y, d, tup, st, fuel);
        } else {
            lemma_eval_c(y3, y2, y, d, tup, st, fuel);
        }
    }
}

} // verus!
