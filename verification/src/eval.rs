//! Evaluation of terms: the reduction rules of the combinators and primitives.
//!
//! Evaluation is bounded by a depth: every nested evaluation step spends one
//! unit, and a step that finds none left ends with `EvalError::OutOfFuel`.
//! Where the rules get stuck (a primitive applied to the wrong kind of value,
//! an undefined name, a cache slot that does not exist, a division by zero or
//! a call counter at its maximum), evaluation ends with the matching error.

use vstd::prelude::*;
use vstd::string::*;
use std::rc::Rc;
use crate::number::{trunc_div, big_add, big_mul, big_div, big_neg, big_add_i32, big_sub_i32, big_eq, big_lt, big_is_zero};
use crate::term::{E, Term, term_of, same_str};
use crate::store::{Data, Defs, Store, lookup, bump};

verus! {

/// Why an evaluation ended without a value.
#[derive(Debug, Clone, Copy, PartialEq, Eq, Structural)]
pub enum EvalError {
    /// The depth bound was reached.
    OutOfFuel,
    /// A primitive was applied to a value of the wrong kind.
    Stuck,
    /// A referenced name has no definition.
    Undefined,
    /// A shared subterm names a cache slot that does not exist.
    BadCacheId,
    /// A division by zero.
    DivideByZero,
    /// A call counter is already at its maximum.
    CountOverflow,
}

pub type Outcome = (Result<Term, EvalError>, Store);

pub open spec fn ap(a: Term, b: Term) -> Term {
    Term::Ap(Box::new(a), Box::new(b))
}

/// The names `t` and `f` that stand for true and false.
pub open spec fn truth(b: bool) -> Term {
    if b {
        Term::Etc("t"@)
    } else {
        Term::Etc("f"@)
    }
}

/// A name that refers to a definition: it starts with `:`.
pub open spec fn is_ref(n: Seq<char>) -> bool {
    n.len() > 0 && n[0] == ':'
}

pub open spec fn is_binop(n: Seq<char>) -> bool {
    n == "eq"@ || n == "add"@ || n == "mul"@ || n == "div"@ || n == "lt"@
}

/// A binary primitive applied to the values of its arguments, `v1` being
/// the value of the argument given last.
pub open spec fn binop(n: Seq<char>, v1: Term, v2: Term) -> Result<Term, EvalError> {
    match (v1, v2) {
        (Term::Num(a), Term::Num(b)) => if n == "eq"@ {
            Ok(truth(a == b))
        } else if n == "add"@ {
            Ok(Term::Num(a + b))
        } else if n == "mul"@ {
            Ok(Term::Num(a * b))
        } else if n == "div"@ {
            if a == 0 {
                Err(EvalError::DivideByZero)
            } else {
                Ok(Term::Num(trunc_div(b, a)))
            }
        } else {
            Ok(truth(b < a))
        },
        _ => Err(EvalError::Stuck),
    }
}

pub open spec fn is_unop(n: Seq<char>) -> bool {
    n == "inc"@ || n == "dec"@ || n == "neg"@
}

pub open spec fn unop(n: Seq<char>, v: Term) -> Result<Term, EvalError> {
    match v {
        Term::Num(a) => if n == "inc"@ {
            Ok(Term::Num(a + 1))
        } else if n == "dec"@ {
            Ok(Term::Num(a - 1))
        } else {
            Ok(Term::Num(-a))
        },
        _ => Err(EvalError::Stuck),
    }
}

/// Evaluates `e` against the definitions `d`, threading the store `st`.
/// With `tup`, the parts of pairs are evaluated too.
pub open spec fn eval_term(e: Term, d: Seq<(Seq<char>, Term)>, tup: bool, st: Store, fuel: nat) -> Outcome
    decreases fuel, 0nat,
{
    if fuel == 0 {
        (Err(EvalError::OutOfFuel), st)
    } else {
        let f = (fuel - 1) as nat;
        match e {
            Term::Cloned(a, id) => if id < st.cache.len() {
                match st.cache[id as int] {
                    Some(b) => (Ok(b), st),
                    None => {
                        let (r, st1) = eval_term(*a, d, tup, st, f);
                        match r {
                            Ok(b) => (Ok(b), Store { count: st1.count, cache: st1.cache.update(id as int, Some(b)) }),
                            Err(x) => (Err(x), st1),
                        }
                    },
                }
            } else {
                (Err(EvalError::BadCacheId), st)
            },
            Term::Ap(x1, y1) => {
                let (r, st1) = eval_term(*x1, d, tup, st, f);
                match r {
                    Ok(x) => eval_apply(x, *y1, d, tup, st1, f),
                    Err(x) => (Err(x), st1),
                }
            },
            Term::Etc(n) => if is_ref(n) {
                if lookup(st.count, n) == Some(usize::MAX as nat) {
                    (Err(EvalError::CountOverflow), st)
                } else {
                    let st1 = Store { count: bump(st.count, n), cache: st.cache };
                    match lookup(d, n) {
                        Some(b) => eval_term(b, d, tup, st1, f),
                        None => (Err(EvalError::Undefined), st1),
                    }
                }
            } else {
                (Ok(e), st)
            },
            Term::Pair(a, b) => if tup {
                let (r, st1) = eval_two(*a, *b, d, tup, st, f);
                match r {
                    Ok((va, vb)) => (Ok(Term::Pair(Box::new(va), Box::new(vb))), st1),
                    Err(x) => (Err(x), st1),
                }
            } else {
                (Ok(e), st)
            },
            Term::Num(_) => (Ok(e), st),
        }
    }
}

/// Evaluates `a`, then `b`.
pub open spec fn eval_two(a: Term, b: Term, d: Seq<(Seq<char>, Term)>, tup: bool, st: Store, f: nat) -> (Result<(Term, Term), EvalError>, Store)
    decreases f, 1nat,
{
    let (ra, st1) = eval_term(a, d, tup, st, f);
    match ra {
        Err(x) => (Err(x), st1),
        Ok(va) => {
            let (rb, st2) = eval_term(b, d, tup, st1, f);
            match rb {
                Err(x) => (Err(x), st2),
                Ok(vb) => (Ok((va, vb)), st2),
            }
        },
    }
}

/// Applies the value `x` to the unevaluated argument `y1`.
pub open spec fn eval_apply(x: Term, y1: Term, d: Seq<(Seq<char>, Term)>, tup: bool, st: Store, f: nat) -> Outcome
    decreases f, 4nat,
{
    match x {
        Term::Ap(x2, y2) => eval_apply2(*x2, *y2, x, y1, d, tup, st, f),
        Term::Pair(a, b) => eval_term(ap(ap(y1, *a), *b), d, tup, st, f),
        Term::Etc(n) => if is_unop(n) {
            let (r, st1) = eval_term(y1, d, tup, st, f);
            match r {
                Ok(v) => (unop(n, v), st1),
                Err(e) => (Err(e), st1),
            }
        } else if n == "car"@ || n == "cdr"@ {
            let (r, st1) = eval_term(y1, d, tup, st, f);
            match r {
                Ok(Term::Pair(a, b)) => if n == "car"@ {
                    eval_term(*a, d, tup, st1, f)
                } else {
                    eval_term(*b, d, tup, st1, f)
                },
                Ok(_) => (Err(EvalError::Stuck), st1),
                Err(e) => (Err(e), st1),
            }
        } else if n == "isnil"@ {
            let (r, st1) = eval_term(y1, d, tup, st, f);
            match r {
                Ok(Term::Etc(m)) => (Ok(truth(m == "nil"@)), st1),
                Ok(Term::Pair(_, _)) => (Ok(truth(false)), st1),
                Ok(_) => (Err(EvalError::Stuck), st1),
                Err(e) => (Err(e), st1),
            }
        } else if n == "i"@ {
            eval_term(y1, d, tup, st, f)
        } else if n == "nil"@ {
            (Ok(truth(true)), st)
        } else {
            (Ok(ap(x, y1)), st)
        },
        _ => (Ok(ap(x, y1)), st),
    }
}

/// Applies `x`, the value `x2` applied to `y2`, to the unevaluated argument `y1`.
pub open spec fn eval_apply2(x2: Term, y2: Term, x: Term, y1: Term, d: Seq<(Seq<char>, Term)>, tup: bool, st: Store, f: nat) -> Outcome
    decreases f, 3nat,
{
    match x2 {
        Term::Etc(n) => if n == "cons"@ {
            if tup {
                let (r, st1) = eval_two(y2, y1, d, tup, st, f);
                match r {
                    Ok((a, b)) => (Ok(Term::Pair(Box::new(a), Box::new(b))), st1),
                    Err(e) => (Err(e), st1),
                }
            } else {
                (Ok(Term::Pair(Box::new(y2), Box::new(y1))), st)
            }
        } else if n == "t"@ {
            eval_term(y2, d, tup, st, f)
        } else if n == "f"@ {
            eval_term(y1, d, tup, st, f)
        } else if is_binop(n) {
            let (r, st1) = eval_two(y1, y2, d, tup, st, f);
            match r {
                Ok((v1, v2)) => (binop(n, v1, v2), st1),
                Err(e) => (Err(e), st1),
            }
        } else {
            (Ok(ap(x, y1)), st)
        },
        Term::Ap(x3, y3) => eval_apply3(*x3, *y3, y2, x, y1, d, tup, st, f),
        _ => (Ok(ap(x, y1)), st),
    }
}

/// Applies `x`, the value `x3` applied to `y3` and then to `y2`, to the
/// unevaluated argument `y1`.
pub open spec fn eval_apply3(x3: Term, y3: Term, y2: Term, x: Term, y1: Term, d: Seq<(Seq<char>, Term)>, tup: bool, st: Store, f: nat) -> Outcome
    decreases f, 2nat,
{
    match x3 {
        Term::Etc(n) => if n == "b"@ {
            eval_term(ap(y3, ap(y2, y1)), d, tup, st, f)
        } else if n == "c"@ {
            eval_term(ap(ap(y3, y1), y2), d, tup, st, f)
        } else if n == "s"@ {
            let shared = Term::Cloned(Box::new(y1), st.cache.len());
            let st1 = Store { count: st.count, cache: st.cache.push(None) };
            eval_term(ap(ap(y3, shared), ap(y2, shared)), d, tup, st1, f)
        } else if n == "if0"@ {
            let (r, st1) = eval_term(y3, d, tup, st, f);
            match r {
                Ok(Term::Num(a)) => if a == 0 {
                    eval_term(y2, d, tup, st1, f)
                } else {
                    eval_term(y1, d, tup, st1, f)
                },
                Ok(_) => (Err(EvalError::Stuck), st1),
                Err(e) => (Err(e), st1),
            }
        } else {
            (Ok(ap(x, y1)), st)
        },
        _ => (Ok(ap(x, y1)), st),
    }
}

pub open spec fn res_term(r: Result<E, EvalError>) -> Result<Term, EvalError> {
    match r {
        Ok(e) => Ok(term_of(&e)),
        Err(x) => Err(x),
    }
}

fn is_ref_name(s: &String) -> (r: bool)
    ensures
        r == is_ref(s@),
{
    let t: &str = s.as_str();
    if t.is_empty() {
        false
    } else {
        t.get_char(0) == ':'
    }
}

fn truth_term(b: bool) -> (r: E)
    ensures
        r@ == truth(b),
{
    if b {
        E::Etc("t".to_owned())
    } else {
        E::Etc("f".to_owned())
    }
}

fn keep(x: &E, y1: &Rc<E>) -> (r: E)
    ensures
        r@ == ap(x@, (**y1)@),
{
    E::Ap(Rc::new(x.copy()), y1.clone())
}

/// Whether an outcome is an evaluation that the rules themselves refuse:
/// every error but the depth bound.
pub open spec fn refused(r: Result<Term, EvalError>) -> bool {
    r matches Err(x) && x != EvalError::OutOfFuel
}

/// Evaluates `e` with the definitions in `map`; with `eval_tuple`, the parts
/// of pairs are evaluated too. At most `depth` evaluation steps are nested.
/// The caller vouches that the rules do not refuse `e` within that depth
/// (no primitive applied to the wrong kind of value, no undefined name, no
/// missing cache slot, no division by zero, no counter at its maximum), so
/// the result is the value, or `OutOfFuel` where the depth runs out first.
/// The result and the new state of `data` are those that `eval_term` gives.
pub fn eval(e: &E, map: &Defs, eval_tuple: bool, data: &mut Data, depth: u64) -> (r: Result<E, EvalError>)
    requires
        !refused(eval_term(e@, map@, eval_tuple, old(data)@, depth as nat).0),
    ensures
        (res_term(r), final(data)@) == eval_term(e@, map@, eval_tuple, old(data)@, depth as nat),
        r matches Err(x) ==> x == EvalError::OutOfFuel,
{
    try_eval(e, map, eval_tuple, data, depth)
}

/// Evaluates `e` as `eval` does, on any input: where the rules refuse it,
/// the result is the error that says why.
/// The result and the new state of `data` are those that `eval_term` gives.
pub fn try_eval(e: &E, map: &Defs, eval_tuple: bool, data: &mut Data, depth: u64) -> (r: Result<E, EvalError>)
    ensures
        (res_term(r), final(data)@) == eval_term(e@, map@, eval_tuple, old(data)@, depth as nat),
        final(data).cache.len() >= old(data).cache.len(),
    decreases depth, 0nat,
{
    if depth == 0 {
        return Err(EvalError::OutOfFuel);
    }
    let f = depth - 1;
    match e {
        E::Cloned(a, id) => {
            let id = *id;
            if id >= data.cache.len() {
                return Err(EvalError::BadCacheId);
            }
            match &data.cache[id] {
                Some(b) => {
                    return Ok(b.copy());
                },
                None => {},
            }
            let r = try_eval(&**a, map, eval_tuple, data, f);
            match r {
                Ok(b) => {
                    let ghost before = data@;
                    data.cache.set(id, Some(b.copy()));
                    assert(data@.cache =~= before.cache.update(id as int, Some(b@)));
                    Ok(b)
                },
                Err(x) => Err(x),
            }
        },
        E::Ap(x1, y1) => {
            let r = try_eval(&**x1, map, eval_tuple, data, f);
            match r {
                Ok(x) => eval_apply_in(x, y1, map, eval_tuple, data, f),
                Err(x) => Err(x),
            }
        },
        E::Etc(name) => {
            if is_ref_name(name) {
                let ghost before = data@;
                if !data.count.bump(name.as_str()) {
                    return Err(EvalError::CountOverflow);
                }
                assert(data@ == Store { count: bump(before.count, name@), cache: before.cache });
                match map.get(name.as_str()) {
                    Some(b) => try_eval(b, map, eval_tuple, data, f),
                    None => Err(EvalError::Undefined),
                }
            } else {
                Ok(e.copy())
            }
        },
        E::Pair(a, b) => {
            if eval_tuple {
                match eval_two_in(&**a, &**b, map, eval_tuple, data, f) {
                    Ok((va, vb)) => Ok(E::Pair(Rc::new(va), Rc::new(vb))),
                    Err(x) => Err(x),
                }
            } else {
                Ok(e.copy())
            }
        },
        E::Num(_) => Ok(e.copy()),
    }
}

fn eval_two_in(a: &E, b: &E, map: &Defs, tup: bool, data: &mut Data, f: u64) -> (r: Result<(E, E), EvalError>)
    ensures
        ({
            let (rr, st) = eval_two(a@, b@, map@, tup, old(data)@, f as nat);
            &&& st == final(data)@
            &&& match (r, rr) {
                (Ok((va, vb)), Ok((ta, tb))) => va@ == ta && vb@ == tb,
                (Err(x), Err(y)) => x == y,
                _ => false,
            }
        }),
        final(data).cache.len() >= old(data).cache.len(),
    decreases f, 1nat,
{
    match try_eval(a, map, tup, data, f) {
        Err(x) => Err(x),
        Ok(va) => match try_eval(b, map, tup, data, f) {
            Err(x) => Err(x),
            Ok(vb) => Ok((va, vb)),
        },
    }
}

fn eval_apply_in(x: E, y1: &Rc<E>, map: &Defs, tup: bool, data: &mut Data, f: u64) -> (r: Result<E, EvalError>)
    ensures
        (res_term(r), final(data)@) == eval_apply(x@, (**y1)@, map@, tup, old(data)@, f as nat),
        final(data).cache.len() >= old(data).cache.len(),
    decreases f, 4nat,
{
    proof {
        reveal_with_fuel(term_of, 3);
    }
    match &x {
        E::Ap(x2, y2) => eval_apply2_in(&**x2, y2, &x, y1, map, tup, data, f),
        E::Pair(a, b) => {
            let t = E::Ap(Rc::new(E::Ap(y1.clone(), a.clone())), b.clone());
            try_eval(&t, map, tup, data, f)
        },
        E::Etc(n) => {
            let s: &str = n.as_str();
            if same_str(s, "inc") || same_str(s, "dec") || same_str(s, "neg") {
                match try_eval(&**y1, map, tup, data, f) {
                    Ok(E::Num(a)) => {
                        if same_str(s, "inc") {
                            Ok(E::Num(big_add_i32(&a, 1)))
                        } else if same_str(s, "dec") {
                            Ok(E::Num(big_sub_i32(&a, 1)))
                        } else {
                            Ok(E::Num(big_neg(&a)))
                        }
                    },
                    Ok(_) => Err(EvalError::Stuck),
                    Err(e) => Err(e),
                }
            } else if same_str(s, "car") || same_str(s, "cdr") {
                match try_eval(&**y1, map, tup, data, f) {
                    Ok(E::Pair(a, b)) => {
                        if same_str(s, "car") {
                            try_eval(&*a, map, tup, data, f)
                        } else {
                            try_eval(&*b, map, tup, data, f)
                        }
                    },
                    Ok(_) => Err(EvalError::Stuck),
                    Err(e) => Err(e),
                }
            } else if same_str(s, "isnil") {
                match try_eval(&**y1, map, tup, data, f) {
                    Ok(E::Etc(m)) => Ok(truth_term(same_str(m.as_str(), "nil"))),
                    Ok(E::Pair(_, _)) => Ok(truth_term(false)),
                    Ok(_) => Err(EvalError::Stuck),
                    Err(e) => Err(e),
                }
            } else if same_str(s, "i") {
                try_eval(&**y1, map, tup, data, f)
            } else if same_str(s, "nil") {
                Ok(truth_term(true))
            } else {
                Ok(keep(&x, y1))
            }
        },
        _ => Ok(keep(&x, y1)),
    }
}

fn eval_apply2_in(x2: &E, y2: &Rc<E>, x: &E, y1: &Rc<E>, map: &Defs, tup: bool, data: &mut Data, f: u64) -> (r: Result<E, EvalError>)
    requires
        x@ == ap(x2@, (**y2)@),
    ensures
        (res_term(r), final(data)@) == eval_apply2(x2@, (**y2)@, x@, (**y1)@, map@, tup, old(data)@, f as nat),
        final(data).cache.len() >= old(data).cache.len(),
    decreases f, 3nat,
{
    match x2 {
        E::Etc(n) => {
            let s: &str = n.as_str();
            if same_str(s, "cons") {
                if tup {
                    match eval_two_in(&**y2, &**y1, map, tup, data, f) {
                        Ok((a, b)) => Ok(E::Pair(Rc::new(a), Rc::new(b))),
                        Err(e) => Err(e),
                    }
                } else {
                    Ok(E::Pair(y2.clone(), y1.clone()))
                }
            } else if same_str(s, "t") {
                try_eval(&**y2, map, tup, data, f)
            } else if same_str(s, "f") {
                try_eval(&**y1, map, tup, data, f)
            } else if same_str(s, "eq") || same_str(s, "add") || same_str(s, "mul") || same_str(s, "div") || same_str(s, "lt") {
                match eval_two_in(&**y1, &**y2, map, tup, data, f) {
                    Ok((v1, v2)) => apply_binop(s, &v1, &v2),
                    Err(e) => Err(e),
                }
            } else {
                Ok(keep(x, y1))
            }
        },
        E::Ap(x3, y3) => eval_apply3_in(&**x3, y3, y2, x, y1, map, tup, data, f),
        _ => Ok(keep(x, y1)),
    }
}

fn apply_binop(s: &str, v1: &E, v2: &E) -> (r: Result<E, EvalError>)
    requires
        is_binop(s@),
    ensures
        res_term(r) == binop(s@, v1@, v2@),
{
    match (v1, v2) {
        (E::Num(a), E::Num(b)) => {
            if same_str(s, "eq") {
                Ok(truth_term(big_eq(a, b)))
            } else if same_str(s, "add") {
                Ok(E::Num(big_add(a, b)))
            } else if same_str(s, "mul") {
                Ok(E::Num(big_mul(a, b)))
            } else if same_str(s, "div") {
                if big_is_zero(a) {
                    Err(EvalError::DivideByZero)
                } else {
                    Ok(E::Num(big_div(b, a)))
                }
            } else {
                Ok(truth_term(big_lt(b, a)))
            }
        },
        _ => Err(EvalError::Stuck),
    }
}

fn eval_apply3_in(x3: &E, y3: &Rc<E>, y2: &Rc<E>, x: &E, y1: &Rc<E>, map: &Defs, tup: bool, data: &mut Data, f: u64) -> (r: Result<E, EvalError>)
    ensures
        (res_term(r), final(data)@) == eval_apply3(x3@, (**y3)@, (**y2)@, x@, (**y1)@, map@, tup, old(data)@, f as nat),
        final(data).cache.len() >= old(data).cache.len(),
    decreases f, 2nat,
{
    proof {
        reveal_with_fuel(term_of, 3);
    }
    match x3 {
        E::Etc(n) => {
            let s: &str = n.as_str();
            if same_str(s, "b") {
                let t = E::Ap(y3.clone(), Rc::new(E::Ap(y2.clone(), y1.clone())));
                try_eval(&t, map, tup, data, f)
            } else if same_str(s, "c") {
                let t = E::Ap(Rc::new(E::Ap(y3.clone(), y1.clone())), y2.clone());
                try_eval(&t, map, tup, data, f)
            } else if same_str(s, "s") {
                let id = data.cache.len();
                let ghost before = data@;
                data.cache.push(None);
                assert(data@.cache =~= before.cache.push(None));
                let shared = Rc::new(E::Cloned(y1.clone(), id));
                let t = E::Ap(
                    Rc::new(E::Ap(y3.clone(), shared.clone())),
                    Rc::new(E::Ap(y2.clone(), shared)),
                );
                try_eval(&t, map, tup, data, f)
            } else if same_str(s, "if0") {
                match try_eval(&**y3, map, tup, data, f) {
                    Ok(E::Num(a)) => {
                        if big_is_zero(&a) {
                            try_eval(&**y2, map, tup, data, f)
                        } else {
                            try_eval(&**y1, map, tup, data, f)
                        }
                    },
                    Ok(_) => Err(EvalError::Stuck),
                    Err(e) => Err(e),
                }
            } else {
                Ok(keep(x, y1))
            }
        },
        _ => Ok(keep(x, y1)),
    }
}

} // verus!
