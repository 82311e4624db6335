use vstd::prelude::*;

use super::types::{machine_view, rules_view, Action, Goto, MachineTable, Production, Symbol};

verus! {

/// A step of the pushdown automaton that an LR table drives: the token at
/// an index shifted, or a production reduced while the token at an index is
/// the next one.
#[derive(Clone, Copy, PartialEq, Eq, Structural, Debug)]
pub enum PdaEvent {
    Shift(usize),
    Reduce(usize, usize),
}

/// How a run ends: the text holds no token; the start rule is reduced with
/// the token at an index next; the token at an index is not expected; or
/// the token at an index could not be read.
#[derive(Clone, Copy, PartialEq, Eq, Structural, Debug)]
pub enum PdaEnd {
    Empty,
    Accept(usize),
    Unexpected(usize),
    Short(usize),
}

/// What running the automaton for some steps gives: the steps and the end;
/// a table or rule that it refers to is missing, or a reduction pops more
/// than the stack holds; or more steps are needed.
pub enum PdaRun {
    Halt(Seq<PdaEvent>, PdaEnd),
    Panic,
    Fuel,
}

/// The kind of the token at `k`: the tokens given, then the end of the text
/// (kind 0) forever where `complete`; else none could be read there.
pub open spec fn tok_id(toks: Seq<usize>, complete: bool, k: int) -> Option<usize> {
    if 0 <= k < toks.len() {
        Some(toks[k])
    } else if complete {
        Some(0usize)
    } else {
        None
    }
}

/// The action of state `q` on the token kind `id`; none past the row.
pub open spec fn action_of(table: Seq<(Seq<Option<Action>>, Seq<Goto>)>, q: usize, id: usize) -> Option<Action> {
    if id < table[q as int].0.len() {
        table[q as int].0[id as int]
    } else {
        None
    }
}

/// The run from a stack of states and the token at `k`, for `fuel` steps
/// at most.
pub open spec fn pda_run(
    rules: Seq<(usize, Seq<Symbol>)>,
    table: Seq<(Seq<Option<Action>>, Seq<Goto>)>,
    toks: Seq<usize>,
    complete: bool,
    stack: Seq<usize>,
    k: nat,
    ev: Seq<PdaEvent>,
    fuel: nat,
) -> PdaRun
    decreases fuel,
{
    if fuel == 0 {
        PdaRun::Fuel
    } else if stack.len() == 0 || stack.last() >= table.len() {
        PdaRun::Panic
    } else {
        let q = stack.last();
        match tok_id(toks, complete, k as int) {
            None => PdaRun::Halt(ev, PdaEnd::Short(k as usize)),
            Some(id) => match action_of(table, q, id) {
                Some(Action::Shift(q2)) => pda_run(
                    rules,
                    table,
                    toks,
                    complete,
                    stack.push(q2),
                    k + 1,
                    ev.push(PdaEvent::Shift(k as usize)),
                    (fuel - 1) as nat,
                ),
                Some(Action::Reduce(r)) => if r >= rules.len() || rules[r as int].1.len() >= stack.len() {
                    PdaRun::Panic
                } else {
                    let st2 = stack.take(stack.len() - rules[r as int].1.len());
                    let top = st2.last();
                    let sym = rules[r as int].0;
                    let ev2 = ev.push(PdaEvent::Reduce(r, k as usize));
                    if top >= table.len() || sym >= table[top as int].1.len() {
                        PdaRun::Panic
                    } else {
                        match table[top as int].1[sym as int] {
                            Goto::Target(q2) => pda_run(rules, table, toks, complete, st2.push(q2), k, ev2, (fuel - 1) as nat),
                            _ => PdaRun::Halt(
                                ev2,
                                if top == 0 {
                                    PdaEnd::Accept(k as usize)
                                } else {
                                    PdaEnd::Unexpected(k as usize)
                                },
                            ),
                        }
                    }
                },
                None => PdaRun::Halt(ev, PdaEnd::Unexpected(k as usize)),
            },
        }
    }
}

/// The run on a text: an empty text stops at once; else the automaton
/// starts in state 0 on the first token.
pub open spec fn pda_outcome(
    rules: Seq<(usize, Seq<Symbol>)>,
    table: Seq<(Seq<Option<Action>>, Seq<Goto>)>,
    toks: Seq<usize>,
    complete: bool,
    fuel: nat,
) -> PdaRun {
    match tok_id(toks, complete, 0) {
        None => PdaRun::Halt(Seq::empty(), PdaEnd::Short(0)),
        Some(id) => if id == 0 {
            PdaRun::Halt(Seq::empty(), PdaEnd::Empty)
        } else {
            pda_run(rules, table, toks, complete, seq![0usize], 0, Seq::empty(), fuel)
        },
    }
}

/// The automaton stops on the text, within a number of steps that a
/// machine word counts, and without missing a table entry.
pub open spec fn pda_halts(
    rules: Seq<(usize, Seq<Symbol>)>,
    table: Seq<(Seq<Option<Action>>, Seq<Goto>)>,
    toks: Seq<usize>,
    complete: bool,
) -> bool {
    exists|f: nat| f < usize::MAX && #[trigger] pda_outcome(rules, table, toks, complete, f) is Halt
}

/// A run that stops gives the same result with more steps allowed.
pub proof fn lemma_run_determined(
    rules: Seq<(usize, Seq<Symbol>)>,
    table: Seq<(Seq<Option<Action>>, Seq<Goto>)>,
    toks: Seq<usize>,
    complete: bool,
    stack: Seq<usize>,
    k: nat,
    ev: Seq<PdaEvent>,
    f1: nat,
    f2: nat,
)
    requires
        pda_run(rules, table, toks, complete, stack, k, ev, f1) is Halt,
        pda_run(rules, table, toks, complete, stack, k, ev, f2) is Halt,
    ensures
        pda_run(rules, table, toks, complete, stack, k, ev, f1) == pda_run(rules, table, toks, complete, stack, k, ev, f2),
    decreases f1,
{
    if f1 > 0 && f2 > 0 && stack.len() > 0 && stack.last() < table.len() {
        let q = stack.last();
        match tok_id(toks, complete, k as int) {
            None => {},
            Some(id) => match action_of(table, q, id) {
                Some(Action::Shift(q2)) => {
                    lemma_run_determined(
                        rules,
                        table,
                        toks,
                        complete,
                        stack.push(q2),
                        k + 1,
                        ev.push(PdaEvent::Shift(k as usize)),
                        (f1 - 1) as nat,
                        (f2 - 1) as nat,
                    );
                },
                Some(Action::Reduce(r)) => {
                    if r < rules.len() && rules[r as int].1.len() < stack.len() {
                        let st2 = stack.take(stack.len() - rules[r as int].1.len());
                        let top = st2.last();
                        let sym = rules[r as int].0;
                        let ev2 = ev.push(PdaEvent::Reduce(r, k as usize));
                        if top < table.len() && sym < table[top as int].1.len() {
                            if let Goto::Target(q2) = table[top as int].1[sym as int] {
                                lemma_run_determined(rules, table, toks, complete, st2.push(q2), k, ev2, (f1 - 1) as nat, (f2 - 1) as nat);
                            }
                        }
                    }
                },
                None => {},
            },
        }
    }
}

/// Runs the pushdown automaton of an LR table on the kinds of the tokens
/// of a text (0 for its end): the steps it takes, shifts and reductions in
/// order, and how it stops. Where `complete`, the end of the text follows
/// the tokens given, else the token after them could not be read.
pub fn pda_parse(rules: &Vec<Production>, table: &MachineTable, toks: &Vec<usize>, complete: bool) -> (r: (
    Vec<PdaEvent>,
    PdaEnd,
))
    requires
        pda_halts(rules_view(rules@), machine_view(table@), toks@, complete),
    ensures
        forall|f: nat|
            #[trigger] pda_outcome(rules_view(rules@), machine_view(table@), toks@, complete, f) is Halt ==> pda_outcome(
                rules_view(rules@),
                machine_view(table@),
                toks@,
                complete,
                f,
            ) == PdaRun::Halt(r.0@, r.1),
{
    let ghost rv = rules_view(rules@);
    let ghost tv = machine_view(table@);
    let ghost f0: nat = choose|f: nat| f < usize::MAX && #[trigger] pda_outcome(rv, tv, toks@, complete, f) is Halt;
    if toks.len() == 0 && !complete {
        return (Vec::new(), PdaEnd::Short(0));
    }
    let first: usize = if toks.len() > 0 {
        toks[0]
    } else {
        0
    };
    if first == 0 {
        return (Vec::new(), PdaEnd::Empty);
    }
    proof {
        assert forall|f: nat| #[trigger] pda_outcome(rv, tv, toks@, complete, f) is Halt implies pda_outcome(
            rv,
            tv,
            toks@,
            complete,
            f,
        ) == pda_outcome(rv, tv, toks@, complete, f0) by {
            lemma_run_determined(rv, tv, toks@, complete, seq![0usize], 0, Seq::empty(), f, f0);
        }
    }
    let ghost target = pda_outcome(rv, tv, toks@, complete, f0);
    let mut stack: Vec<usize> = Vec::new();
    stack.push(0);
    let mut events: Vec<PdaEvent> = Vec::new();
    let mut k: usize = 0;
    let ghost mut fuel: nat = f0;
    assert(stack@ =~= seq![0usize]);
    loop
        invariant
            rv == rules_view(rules@),
            tv == machine_view(table@),
            fuel <= f0,
            f0 < usize::MAX,
            k + fuel <= f0,
            events@.len() + fuel <= f0,
            target is Halt,
            pda_run(rv, tv, toks@, complete, stack@, k as nat, events@, fuel) == target,
            forall|f: nat| #[trigger] pda_outcome(rv, tv, toks@, complete, f) is Halt ==> pda_outcome(rv, tv, toks@, complete, f) == target,
        decreases fuel,
    {
        let ghost s0 = stack@;
        let ghost e0 = events@;
        assert(fuel > 0);
        let q = stack[stack.len() - 1];
        let id: Option<usize> = if k < toks.len() {
            Some(toks[k])
        } else if complete {
            Some(0)
        } else {
            None
        };
        let id = match id {
            None => {
                return (events, PdaEnd::Short(k));
            },
            Some(id) => id,
        };
        let act: Option<Action> = if id < table[q].0.len() {
            table[q].0[id]
        } else {
            None
        };
        assert(act == action_of(tv, q, id));
        match act {
            Some(Action::Shift(q2)) => {
                stack.push(q2);
                events.push(PdaEvent::Shift(k));
                k = k + 1;
                proof {
                    fuel = (fuel - 1) as nat;
                }
            },
            Some(Action::Reduce(r)) => {
                let l = rules[r].expand.len();
                let sym = rules[r].symbol;
                assert(rv[r as int].1.len() == l && rv[r as int].0 == sym);
                stack.truncate(stack.len() - l);
                events.push(PdaEvent::Reduce(r, k));
                let top = stack[stack.len() - 1];
                match table[top].1[sym] {
                    Goto::Target(q2) => {
                        stack.push(q2);
                        proof {
                            fuel = (fuel - 1) as nat;
                        }
                    },
                    _ => {
                        if top == 0 {
                            return (events, PdaEnd::Accept(k));
                        } else {
                            return (events, PdaEnd::Unexpected(k));
                        }
                    },
                }
            },
            None => {
                return (events, PdaEnd::Unexpected(k));
            },
        }
    }
}

} // verus!
