//! The decisions of an interactive session: what a command line asks for,
//! when an answer is kept as a new state, and how to go back.

use vstd::prelude::*;
use crate::number::{Int, is_digit, digit_value};
use crate::term::{E, Term, term_of, same_str};

verus! {

/// What a command line asks for.
#[derive(Debug, Clone, Copy, PartialEq, Eq, Structural)]
pub enum Command {
    /// Go back to the state before the last one kept.
    Undo,
    /// Show the call counters.
    Stat,
    /// A click at the given position.
    Click(i32, i32),
    /// Anything else.
    Illegal,
}

/// Only decimal digits, at least one.
pub open spec fn all_digits(s: Seq<char>) -> bool {
    s.len() > 0 && forall|i: int| 0 <= i < s.len() ==> is_digit(#[trigger] s[i])
}

pub open spec fn digits_value(s: Seq<char>) -> int
    decreases s.len(),
{
    if s.len() == 0 {
        0
    } else {
        10 * digits_value(s.drop_last()) + digit_value(s.last())
    }
}

/// The value of a machine-integer token as `str::parse` reads it: an
/// optional `+` or `-`, then decimal digits only.
pub open spec fn std_int(s: Seq<char>) -> Option<int> {
    if s.len() > 0 && (s[0] == '-' || s[0] == '+') {
        let body = s.drop_first();
        if all_digits(body) {
            Some(if s[0] == '-' { -digits_value(body) } else { digits_value(body) })
        } else {
            None
        }
    } else if all_digits(s) {
        Some(digits_value(s))
    } else {
        None
    }
}

/// The `i32` that a token stands for, if it is one and fits.
pub open spec fn std_i32(s: Seq<char>) -> Option<i32> {
    match std_int(s) {
        Some(v) => if i32::MIN <= v <= i32::MAX {
            Some(v as i32)
        } else {
            None
        },
        None => None,
    }
}

/// `str::parse::<i32>`: the value where the token is an optional sign and
/// digits whose value fits in an `i32`, `None` otherwise.
#[verifier::external_body]
fn std_parse_i32(s: &str) -> (r: Option<i32>)
    ensures
        r == std_i32(s@),
{
    s.parse::<i32>().ok()
}

/// The command that a line's tokens stand for.
pub open spec fn command_of(ss: Seq<Seq<char>>) -> Command {
    if ss.len() == 1 && ss[0] == "undo"@ {
        Command::Undo
    } else if ss.len() == 1 && ss[0] == "stat"@ {
        Command::Stat
    } else if ss.len() != 2 {
        Command::Illegal
    } else {
        match (std_i32(ss[0]), std_i32(ss[1])) {
            (Some(x), Some(y)) => Command::Click(x, y),
            _ => Command::Illegal,
        }
    }
}

/// Reads a command line given as tokens.
pub fn classify(ss: &[&str]) -> (r: Command)
    ensures
        r == command_of(ss@.map_values(|s: &str| s@)),
{
    let ghost toks = ss@.map_values(|s: &str| s@);
    if ss.len() == 1 && same_str(ss[0], "undo") {
        return Command::Undo;
    }
    if ss.len() == 1 && same_str(ss[0], "stat") {
        return Command::Stat;
    }
    if ss.len() != 2 {
        return Command::Illegal;
    }
    assert(toks[0] == ss@[0]@ && toks[1] == ss@[1]@);
    match (std_parse_i32(ss[0]), std_parse_i32(ss[1])) {
        (Some(x), Some(y)) => Command::Click(x, y),
        _ => Command::Illegal,
    }
}

/// The event of a click: the pair of its coordinates.
pub fn click(x: i32, y: i32) -> (r: E)
    ensures
        r@ == Term::Pair(Box::new(Term::Num(x as int)), Box::new(Term::Num(y as int))),
{
    crate::protocol::point(Int::from_i32(x), Int::from_i32(y))
}

/// A session: the current protocol state, the data shown, and the states
/// (with their data) to go back to, the latest last.
pub struct Session {
    pub stack: Vec<(E, E)>,
    pub state: E,
    pub shown: E,
}

/// The model of a session.
pub struct SessionView {
    pub stack: Seq<(Term, Term)>,
    pub state: Term,
    pub shown: Term,
}

impl View for Session {
    type V = SessionView;

    open spec fn view(&self) -> SessionView {
        SessionView {
            stack: self.stack@.map_values(|p: (E, E)| (term_of(&p.0), term_of(&p.1))),
            state: term_of(&self.state),
            shown: term_of(&self.shown),
        }
    }
}

/// An answer is kept when its flag is set, its state differs from the
/// current one, or it is the first answer.
pub open spec fn keeps(flag: bool, new_state: Term, state: Term, first: bool) -> bool {
    flag || new_state != state || first
}

/// An answer is kept exactly when its flag is set, its state differs from
/// the current one, or it is the first: a set flag keeps it whatever the
/// state, and so does a changed state whatever the flag.
pub proof fn lemma_keeps(flag: bool, new_state: Term, state: Term, first: bool)
    ensures
        flag ==> keeps(flag, new_state, state, first),
        new_state != state ==> keeps(flag, new_state, state, first),
        first ==> keeps(flag, new_state, state, first),
        (!flag && new_state == state && !first) ==> !keeps(flag, new_state, state, first),
{
}

impl Session {
    /// A session in `state`, showing the number zero, with nothing to go back to.
    pub fn new(state: E) -> (r: Session)
        ensures
            r@.stack == Seq::<(Term, Term)>::empty(),
            r@.state == state@,
            r@.shown == Term::Num(0),
    {
        let r = Session { stack: Vec::new(), state, shown: E::Num(Int::zero()) };
        assert(r@.stack =~= Seq::<(Term, Term)>::empty());
        r
    }

    /// Takes an answer `(flag, state, data)` to an event. When `keeps`
    /// holds, the current state and data are saved to go back to and the
    /// answer's state and data become current; otherwise nothing changes.
    pub fn accept(&mut self, flag: bool, new_state: E, data: E, first: bool) -> (kept: bool)
        ensures
            kept == keeps(flag, new_state@, old(self)@.state, first),
            flag ==> kept,
            new_state@ != old(self)@.state ==> kept,
            first ==> kept,
            (!flag && new_state@ == old(self)@.state && !first) ==> !kept,
            kept ==> final(self)@ == (SessionView {
                stack: old(self)@.stack.push((old(self)@.state, old(self)@.shown)),
                state: new_state@,
                shown: data@,
            }),
            !kept ==> final(self)@ == old(self)@,
    {
        let kept = flag || !new_state.same(&self.state) || first;
        if kept {
            let ghost before = self@;
            let old_state = self.state.copy();
            let old_shown = self.shown.copy();
            self.state = new_state;
            self.shown = data;
            self.stack.push((old_state, old_shown));
            assert(self@.stack =~= before.stack.push((before.state, before.shown)));
        }
        kept
    }

    /// Takes the answer to a reply that was sent: its state and data become
    /// current, and nothing is saved.
    pub fn follow(&mut self, new_state: E, data: E)
        ensures
            final(self)@ == (SessionView { stack: old(self)@.stack, state: new_state@, shown: data@ }),
    {
        self.state = new_state;
        self.shown = data;
    }

    /// Makes `state` current after saving the current state and data; the
    /// data shown stays.
    pub fn set_state(&mut self, state: E)
        ensures
            final(self)@ == (SessionView {
                stack: old(self)@.stack.push((old(self)@.state, old(self)@.shown)),
                state: state@,
                shown: old(self)@.shown,
            }),
    {
        let ghost before = self@;
        let old_state = self.state.copy();
        let shown = self.shown.copy();
        self.state = state;
        self.stack.push((old_state, shown));
        assert(self@.stack =~= before.stack.push((before.state, before.shown)));
    }

    /// Goes back to the last saved state and data. Going back needs a saved
    /// state; `requires` asks for one.
    pub fn undo(&mut self)
        requires
            old(self)@.stack.len() > 0,
        ensures
            final(self)@ == (SessionView {
                stack: old(self)@.stack.drop_last(),
                state: old(self)@.stack.last().0,
                shown: old(self)@.stack.last().1,
            }),
    {
        let ghost before = self@;
        match self.stack.pop() {
            Some((s, d)) => {
                self.state = s;
                self.shown = d;
                assert(self@.stack =~= before.stack.drop_last());
            },
            None => {},
        }
    }
}

/// Undoing right after an answer was kept gives back the session as it was.
pub proof fn lemma_undo_after_accept(before: SessionView, new_state: Term, data: Term)
    ensures
        ({
            let after = SessionView {
                stack: before.stack.push((before.state, before.shown)),
                state: new_state,
                shown: data,
            };
            SessionView {
                stack: after.stack.drop_last(),
                state: after.stack.last().0,
                shown: after.stack.last().1,
            } == before
        }),
{
    assert(before.stack.push((before.state, before.shown)).drop_last() =~= before.stack);
}

} // verus!
