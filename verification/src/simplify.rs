//! One bottom-up pass of the `i`, `b`, `c` and `s` rewrites, without evaluation.

use vstd::prelude::*;
use std::rc::Rc;
use crate::term::{E, Term, term_of, same_str};

verus! {

/// The rewrite applied at an application node whose two sides are already simplified.
pub open spec fn rewrite_head(x: Term, y: Term) -> Term {
    let keep = Term::Ap(Box::new(x), Box::new(y));
    match x {
        Term::Etc(n) => if n == "i"@ {
            y
        } else {
            keep
        },
        Term::Ap(x2, y2) => match *x2 {
            Term::Ap(x3, y3) => match *x3 {
                Term::Etc(n) => if n == "b"@ {
                    Term::Ap(y3, Box::new(Term::Ap(y2, Box::new(y))))
                } else if n == "c"@ {
                    Term::Ap(Box::new(Term::Ap(y3, Box::new(y))), y2)
                } else if n == "s"@ {
                    Term::Ap(
                        Box::new(Term::Ap(y3, Box::new(y))),
                        Box::new(Term::Ap(y2, Box::new(y))),
                    )
                } else {
                    keep
                },
                _ => keep,
            },
            _ => keep,
        },
        _ => keep,
    }
}

/// Simplifies both sides of every application, then rewrites the node itself;
/// anything that is not an application stays as it is.
pub open spec fn simplified(t: Term) -> Term
    decreases t,
{
    match t {
        Term::Ap(x, y) => rewrite_head(simplified(*x), simplified(*y)),
        _ => t,
    }
}

fn rewrite(x: E, y: E) -> (r: E)
    ensures
        r@ == rewrite_head(x@, y@),
{
    proof {
        reveal_with_fuel(term_of, 3);
    }
    match &x {
        E::Etc(n) => {
            if same_str(n.as_str(), "i") {
                return y;
            }
        },
        E::Ap(x2, y2) => {
            if let E::Ap(x3, y3) = &**x2 {
                if let E::Etc(n) = &**x3 {
                    if same_str(n.as_str(), "b") {
                        return E::Ap(y3.clone(), Rc::new(E::Ap(y2.clone(), Rc::new(y))));
                    } else if same_str(n.as_str(), "c") {
                        return E::Ap(Rc::new(E::Ap(y3.clone(), Rc::new(y))), y2.clone());
                    } else if same_str(n.as_str(), "s") {
                        let y_shared = Rc::new(y);
                        return E::Ap(
                            Rc::new(E::Ap(y3.clone(), y_shared.clone())),
                            Rc::new(E::Ap(y2.clone(), y_shared)),
                        );
                    }
                }
            }
        },
        _ => {},
    }
    E::Ap(Rc::new(x.copy()), Rc::new(y))
}

/// Applies the `i`, `b`, `c` and `s` rewrites once, bottom-up, to the
/// applications of a term.
pub fn simplify(e: &E) -> (r: E)
    ensures
        r@ == simplified(e@),
    decreases e,
{
    match e {
        E::Ap(x1, y1) => {
            let x = simplify(&**x1);
            let y = simplify(&**y1);
            rewrite(x, y)
        },
        _ => e.copy(),
    }
}

} // verus!
