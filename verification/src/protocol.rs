//! One step of the interaction protocol: the entry definition is applied to
//! the current state and an event, the result is evaluated with its pairs,
//! and it is read as a flag, the next state and the data to show or send.

use vstd::prelude::*;
use std::rc::Rc;
use crate::number::Int;
use crate::term::{E, Term, term_of};
use crate::store::{Data, Defs, Store};
use crate::eval::{EvalError, try_eval, eval_term, ap};

verus! {

/// Why a protocol step gave no answer.
#[derive(Debug, Clone, Copy, PartialEq, Eq, Structural)]
pub enum StepError {
    /// Evaluation ended with this error.
    Eval(EvalError),
    /// The value is not of the form `[flag, state, data, ...]`.
    Malformed,
}

/// The parts of an answer `<flag, <state, <data, _>>>`: whether the flag is
/// other than the number zero, the state and the data.
pub open spec fn answer_parts(t: Term) -> Option<(bool, Term, Term)> {
    match t {
        Term::Pair(flag, rest) => match *rest {
            Term::Pair(state, rest2) => match *rest2 {
                Term::Pair(data, _) => Some((*flag != Term::Num(0), *state, *data)),
                _ => None,
            },
            _ => None,
        },
        _ => None,
    }
}

pub open spec fn parts_view(r: Option<(bool, E, E)>) -> Option<(bool, Term, Term)> {
    match r {
        Some((b, s, d)) => Some((b, term_of(&s), term_of(&d))),
        None => None,
    }
}

/// Reads an evaluated answer as its flag, next state and data.
pub fn answer(f: &E) -> (r: Option<(bool, E, E)>)
    ensures
        parts_view(r) == answer_parts(f@),
{
    proof {
        reveal_with_fuel(term_of, 4);
    }
    if let E::Pair(flag, rest) = f {
        if let E::Pair(state, rest2) = &**rest {
            if let E::Pair(data, _) = &**rest2 {
                let zero = E::Num(Int::zero());
                let is_zero = (&**flag).same(&zero);
                return Some((!is_zero, (&**state).copy(), (&**data).copy()));
            }
        }
    }
    None
}

/// The event of a click at `(x, y)`.
pub fn point(x: Int, y: Int) -> (r: E)
    ensures
        r@ == Term::Pair(Box::new(Term::Num(x@)), Box::new(Term::Num(y@))),
{
    proof {
        reveal_with_fuel(term_of, 2);
    }
    E::Pair(Rc::new(E::Num(x)), Rc::new(E::Num(y)))
}

pub open spec fn step_result(r: Result<(bool, E, E), StepError>) -> Result<(bool, Term, Term), StepError> {
    match r {
        Ok((b, s, d)) => Ok((b, term_of(&s), term_of(&d))),
        Err(e) => Err(e),
    }
}

/// A step: with the cache emptied, `entry state event` is evaluated without
/// evaluating pairs, then its value with pairs evaluated, and the result is
/// read by `answer_parts`.
pub open spec fn step(d: Seq<(Seq<char>, Term)>, entry: Seq<char>, state: Term, event: Term, st: Store, depth: nat) -> (Result<(bool, Term, Term), StepError>, Store) {
    let st0 = Store { count: st.count, cache: Seq::empty() };
    let (r1, st1) = eval_term(ap(ap(Term::Etc(entry), state), event), d, false, st0, depth);
    match r1 {
        Err(e) => (Err(StepError::Eval(e)), st1),
        Ok(f) => {
            let (r2, st2) = eval_term(f, d, true, st1, depth);
            match r2 {
                Err(e) => (Err(StepError::Eval(e)), st2),
                Ok(g) => match answer_parts(g) {
                    Some(p) => (Ok(p), st2),
                    None => (Err(StepError::Malformed), st2),
                },
            }
        },
    }
}

/// The cache is emptied once, before the first evaluation: a step does not
/// depend on the cache it starts from, and its second evaluation goes on
/// from the state the first one ended in, shared slots included. Where the
/// first evaluation gives `f` and the second, from that state, gives `g`,
/// the step gives the parts of `g`, or `Malformed` when it has none.
pub proof fn lemma_step_state(d: Seq<(Seq<char>, Term)>, entry: Seq<char>, state: Term, event: Term, st: Store, depth: nat, other_cache: Seq<Option<Term>>)
    ensures
        step(d, entry, state, event, st, depth) == step(d, entry, state, event, Store { count: st.count, cache: other_cache }, depth),
        ({
            let st0 = Store { count: st.count, cache: Seq::empty() };
            let (r1, st1) = eval_term(ap(ap(Term::Etc(entry), state), event), d, false, st0, depth);
            r1 matches Ok(f) ==> ({
                let (r2, st2) = eval_term(f, d, true, st1, depth);
                r2 matches Ok(g) ==> step(d, entry, state, event, st, depth) == (match answer_parts(g) {
                    Some(p) => Ok(p),
                    None => Err(StepError::Malformed),
                }, st2)
            })
        }),
{
}

/// Runs one protocol step of the definition `entry` on `state` and `event`.
pub fn interact(defs: &Defs, entry: &str, state: &E, event: &E, data: &mut Data, depth: u64) -> (r: Result<(bool, E, E), StepError>)
    ensures
        (step_result(r), final(data)@) == step(defs@, entry@, state@, event@, old(data)@, depth as nat),
{
    proof {
        reveal_with_fuel(term_of, 3);
    }
    data.cache = Vec::new();
    assert(data@.cache =~= Seq::<Option<Term>>::empty());
    let call = E::Ap(
        Rc::new(E::Ap(Rc::new(E::Etc(entry.to_owned())), Rc::new(state.copy()))),
        Rc::new(event.copy()),
    );
    assert(call@ == ap(ap(Term::Etc(entry@), state@), event@));
    let f = match try_eval(&call, defs, false, data, depth) {
        Ok(f) => f,
        Err(e) => {
            return Err(StepError::Eval(e));
        },
    };
    let g = match try_eval(&f, defs, true, data, depth) {
        Ok(g) => g,
        Err(e) => {
            return Err(StepError::Eval(e));
        },
    };
    match answer(&g) {
        Some(p) => Ok(p),
        None => Err(StepError::Malformed),
    }
}

} // verus!
