//! Terms of the combinator language, their mathematical model, lists and printing.

use vstd::prelude::*;
use vstd::string::*;
use std::rc::Rc;
use crate::number::{Int, decimal};

verus! {

/// The mathematical model of a term.
pub enum Term {
    Ap(Box<Term>, Box<Term>),
    Num(int),
    Pair(Box<Term>, Box<Term>),
    Etc(Seq<char>),
    Cloned(Box<Term>, nat),
}

/// A term: an application, a number, an evaluated pair, a name, or a shared
/// subterm whose value is kept in slot `id` of the evaluation cache.
#[derive(Debug)]
pub enum E {
    Ap(Rc<E>, Rc<E>),
    Num(Int),
    Pair(Rc<E>, Rc<E>),
    Etc(String),
    Cloned(Rc<E>, usize),
}

pub open spec fn term_of(e: &E) -> Term
    decreases e,
{
    match e {
        E::Ap(a, b) => Term::Ap(Box::new(term_of(&**a)), Box::new(term_of(&**b))),
        E::Num(n) => Term::Num(n@),
        E::Pair(a, b) => Term::Pair(Box::new(term_of(&**a)), Box::new(term_of(&**b))),
        E::Etc(s) => Term::Etc(s@),
        E::Cloned(a, id) => Term::Cloned(Box::new(term_of(&**a)), *id as nat),
    }
}

impl View for E {
    type V = Term;

    open spec fn view(&self) -> Term {
        term_of(self)
    }
}

/// Whether two strings hold the same characters.
pub(crate) fn same_str(a: &str, b: &str) -> (r: bool)
    ensures
        r == (a@ == b@),
{
    let x: String = a.to_owned();
    let y: String = b.to_owned();
    x == y
}

/// The items of a list built from pairs and ended by `nil`, if the term is one.
pub open spec fn list_of(t: Term) -> Option<Seq<Term>>
    decreases t,
{
    match t {
        Term::Pair(a, b) => match list_of(*b) {
            Some(l) => Some(seq![*a] + l),
            None => None,
        },
        Term::Etc(s) => if s == "nil"@ {
            Some(Seq::empty())
        } else {
            None
        },
        _ => None,
    }
}

/// Number of nodes of a term.
pub open spec fn size(t: Term) -> nat
    decreases t,
{
    match t {
        Term::Ap(a, b) => 1 + size(*a) + size(*b),
        Term::Pair(a, b) => 1 + size(*a) + size(*b),
        Term::Cloned(a, _) => 1 + size(*a),
        _ => 1,
    }
}

pub open spec fn views_of(v: Seq<Rc<E>>) -> Seq<Term> {
    v.map_values(|x: Rc<E>| term_of(&*x))
}

/// Reads a term as a list: `Some` of its items when it is a chain of pairs
/// that ends in `nil`, `None` otherwise.
pub fn get_list(e: &E) -> (r: Option<Vec<Rc<E>>>)
    ensures
        r matches Some(v) ==> list_of(e@) == Some(views_of(v@)),
        r is None ==> list_of(e@) is None,
{
    let mut list: Vec<Rc<E>> = Vec::new();
    let mut cur: &E = e;
    loop
        invariant
            list_of(e@) == match list_of(cur@) {
                Some(l) => Some(views_of(list@) + l),
                None => None::<Seq<Term>>,
            },
        decreases size(cur@),
    {
        match cur {
            E::Pair(a, b) => {
                let ghost old_list = list@;
                list.push(a.clone());
                assert(views_of(list@) == views_of(old_list) + seq![term_of(&**a)]);
                proof {
                    match list_of(term_of(&**b)) {
                        Some(l) => {
                            assert(views_of(old_list) + (seq![term_of(&**a)] + l) == views_of(list@) + l);
                        },
                        None => {},
                    }
                }
                cur = &**b;
            },
            E::Etc(name) => {
                if same_str(name.as_str(), "nil") {
                    proof {
                        assert(list_of(cur@) == Some(Seq::<Term>::empty()));
                        assert(views_of(list@) + Seq::<Term>::empty() =~= views_of(list@));
                    }
                    return Some(list);
                } else {
                    proof {
                        assert(list_of(cur@) is None);
                    }
                    return None;
                }
            },
            _ => {
                return None;
            },
        }
    }
}

/// How a term is printed: applications in parentheses, lists in brackets,
/// other pairs in angle brackets, `nil` as `[]`, shared subterms as their term.
pub open spec fn show(t: Term) -> Seq<char>
    decreases t, 1nat,
{
    match t {
        Term::Ap(a, b) => "("@ + show(*a) + " "@ + show(*b) + ")"@,
        Term::Cloned(a, _) => show(*a),
        Term::Num(n) => decimal(n),
        Term::Pair(a, b) => if list_of(t) is Some {
            "["@ + show_items(t, true) + "]"@
        } else {
            "<"@ + show(*a) + ", "@ + show(*b) + ">"@
        },
        Term::Etc(n) => if n == "nil"@ {
            "[]"@
        } else {
            n
        },
    }
}

/// The items of a chain of pairs, separated by commas.
pub open spec fn show_items(t: Term, first: bool) -> Seq<char>
    decreases t, 0nat,
{
    match t {
        Term::Pair(a, b) => (if first {
            Seq::empty()
        } else {
            ", "@
        }) + show(*a) + show_items(*b, false),
        _ => Seq::empty(),
    }
}

/// How lists print: a list of one item is that item, printed as any term
/// is, in brackets; a longer list is its first item, printed as any term
/// is, then a comma and the rest of the items as the rest of the list
/// prints them. An item that is a pair but no list prints in angle brackets.
pub proof fn lemma_show_list(a: Term, b: Term)
    requires
        list_of(b) is Some,
    ensures
        b == Term::Etc("nil"@) ==> show(Term::Pair(Box::new(a), Box::new(b))) == "["@ + show(a) + "]"@,
        b is Pair ==> show(Term::Pair(Box::new(a), Box::new(b))) == "["@ + show(a) + ", "@ + show(b).subrange(1, show(b).len() as int),
{
    reveal_strlit("[");
    reveal_strlit("]");
    let t = Term::Pair(Box::new(a), Box::new(b));
    assert(list_of(t) is Some);
    assert(show(t) == "["@ + show_items(t, true) + "]"@);
    assert(show_items(t, true) == Seq::<char>::empty() + show(a) + show_items(b, false));
    if b == Term::Etc("nil"@) {
        assert(show_items(b, false) == Seq::<char>::empty());
        assert(show(t) =~= "["@ + show(a) + "]"@);
    }
    if let Term::Pair(c, r) = b {
        assert(show(b) == "["@ + show_items(b, true) + "]"@);
        assert(show_items(b, true) == Seq::<char>::empty() + show(*c) + show_items(*r, false));
        assert(show_items(b, false) == ", "@ + show(*c) + show_items(*r, false));
        assert(show(b).subrange(1, show(b).len() as int) =~= show_items(b, true) + "]"@);
        assert(show(t) =~= "["@ + show(a) + ", "@ + show(b).subrange(1, show(b).len() as int));
    }
}

fn render_items(e: &E, first: bool) -> (r: String)
    ensures
        r@ == show_items(e@, first),
    decreases e, 0nat,
{
    match e {
        E::Pair(a, b) => {
            let mut out = String::new();
            if !first {
                out.append(", ");
            }
            let head = (&**a).render();
            out.append(head.as_str());
            let rest = render_items(&**b, false);
            out.append(rest.as_str());
            proof {
                if first {
                    assert(out@ =~= Seq::<char>::empty() + show(term_of(&**a)) + show_items(term_of(&**b), false));
                } else {
                    assert(out@ =~= ", "@ + show(term_of(&**a)) + show_items(term_of(&**b), false));
                }
            }
            out
        },
        _ => String::new(),
    }
}

impl E {
    /// The printed form of the term.
    pub fn render(&self) -> (r: String)
        ensures
            r@ == show(self@),
        decreases self, 1nat,
    {
        match self {
            E::Ap(a, b) => {
                let mut out = String::new();
                out.append("(");
                out.append((&**a).render().as_str());
                out.append(" ");
                out.append((&**b).render().as_str());
                out.append(")");
                assert(out@ =~= "("@ + show(term_of(&**a)) + " "@ + show(term_of(&**b)) + ")"@);
                out
            },
            E::Cloned(a, _) => (&**a).render(),
            E::Num(n) => n.to_decimal(),
            E::Pair(a, b) => {
                let mut out = String::new();
                if get_list(self).is_some() {
                    out.append("[");
                    out.append(render_items(self, true).as_str());
                    out.append("]");
                    assert(out@ =~= "["@ + show_items(self@, true) + "]"@);
                } else {
                    out.append("<");
                    out.append((&**a).render().as_str());
                    out.append(", ");
                    out.append((&**b).render().as_str());
                    out.append(">");
                    assert(out@ =~= "<"@ + show(term_of(&**a)) + ", "@ + show(term_of(&**b)) + ">"@);
                }
                out
            },
            E::Etc(n) => {
                if same_str(n.as_str(), "nil") {
                    "[]".to_owned()
                } else {
                    n.clone()
                }
            },
        }
    }

    /// A copy of the term (subterms are shared).
    pub fn copy(&self) -> (r: E)
        ensures
            r@ == self@,
    {
        match self {
            E::Ap(a, b) => E::Ap(a.clone(), b.clone()),
            E::Num(n) => E::Num(n.copy()),
            E::Pair(a, b) => E::Pair(a.clone(), b.clone()),
            E::Etc(s) => E::Etc(s.clone()),
            E::Cloned(a, id) => E::Cloned(a.clone(), *id),
        }
    }

    /// Whether two terms are equal: same shape, equal numbers, equal names.
    pub fn same(&self, other: &E) -> (r: bool)
        ensures
            r == (self@ == other@),
        decreases self,
    {
        match (self, other) {
            (E::Ap(a, b), E::Ap(c, d)) => (&**a).same(&**c) && (&**b).same(&**d),
            (E::Num(n), E::Num(m)) => n.equals(m),
            (E::Pair(a, b), E::Pair(c, d)) => (&**a).same(&**c) && (&**b).same(&**d),
            (E::Etc(s), E::Etc(t)) => *s == *t,
            (E::Cloned(a, i), E::Cloned(c, j)) => *i == *j && (&**a).same(&**c),
            _ => false,
        }
    }
}

impl Clone for E {
    fn clone(&self) -> (r: E)
        ensures
            r@ == self@,
    {
        self.copy()
    }
}

impl PartialEq for E {
    fn eq(&self, other: &E) -> (r: bool) {
        self.same(other)
    }
}

impl Eq for E {
}

impl vstd::std_specs::cmp::PartialEqSpecImpl for E {
    open spec fn obeys_eq_spec() -> bool {
        true
    }

    open spec fn eq_spec(&self, other: &E) -> bool {
        self@ == other@
    }
}

} // verus!
