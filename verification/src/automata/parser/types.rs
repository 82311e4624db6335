use vstd::prelude::*;

verus! {

/// A symbol of a grammar: terminal `T(k)` or non-terminal `N(k)`.
#[derive(Clone, Copy, PartialEq, Eq, Structural, Debug)]
pub enum Symbol {
    T(usize),
    N(usize),
}

/// A production: non-terminal `symbol` expands to `expand`.
pub struct Production {
    pub symbol: usize,
    pub expand: Vec<Symbol>,
}

/// The view of a production.
pub open spec fn prod_view(p: Production) -> (usize, Seq<Symbol>) {
    (p.symbol, p.expand@)
}

/// The view of a list of productions.
pub open spec fn rules_view(rules: Seq<Production>) -> Seq<(usize, Seq<Symbol>)> {
    rules.map_values(|p: Production| prod_view(p))
}

/// What a parser does on a terminal.
#[derive(Clone, Copy, PartialEq, Eq, Structural, Debug)]
pub enum Action {
    Shift(usize),
    Reduce(usize),
}

/// Where a parser goes after reducing to a non-terminal.
#[derive(Clone, Copy, PartialEq, Eq, Structural, Debug)]
pub enum Goto {
    Accept,
    /// The state reached.
    Target(usize),
    /// No state: the non-terminal is unexpected there.
    NoTarget,
}

/// For each state, the action on each terminal and the state reached
/// after each non-terminal.
pub type MachineTable = Vec<(Vec<Option<Action>>, Vec<Goto>)>;

/// The view of a parsing table.
pub open spec fn machine_view(t: Seq<(Vec<Option<Action>>, Vec<Goto>)>) -> Seq<(Seq<Option<Action>>, Seq<Goto>)> {
    t.map_values(|r: (Vec<Option<Action>>, Vec<Goto>)| (r.0@, r.1@))
}

} // verus!
