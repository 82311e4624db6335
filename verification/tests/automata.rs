use projets2020::automata::lexer::dfa::build_automaton;
use projets2020::automata::lexer::sets::{first, follow, last, null};
use projets2020::automata::lexer::types::{is_behaved, Character, IChar, IRegexp, Regexp};
use projets2020::automata::line_counter::{IndexedString, LineIter, Span};
use projets2020::automata::parser::api::build_pda_data;
use projets2020::automata::parser::builder::Builder;
use projets2020::automata::parser::pda::{pda_parse, PdaEnd, PdaEvent};
use projets2020::automata::parser::items::first as first_terms;
use projets2020::automata::parser::types::{Action, Goto, Production, Symbol};
use projets2020::automata::TokenOrEof;

fn ch(c: char) -> Regexp {
    Regexp::Character(Character::Char(c))
}

fn cat(a: Regexp, b: Regexp) -> Regexp {
    Regexp::Concat(Box::new(a), Box::new(b))
}

fn star(a: Regexp) -> Regexp {
    Regexp::Star(Box::new(a))
}

fn ich(c: char, i: usize) -> IRegexp {
    IRegexp::Character(IChar::Char(Character::Char(c), i))
}

#[test]
fn behaved_characters() {
    assert!(is_behaved('a'));
    assert!(!is_behaved('"'));
    assert!(!is_behaved('\\'));
    assert!(!is_behaved('\n'));
}

#[test]
fn nullable_first_last_follow() {
    // (a0 b1)* c2
    let e = IRegexp::Concat(
        Box::new(IRegexp::Star(Box::new(IRegexp::Concat(Box::new(ich('a', 0)), Box::new(ich('b', 1)))))),
        Box::new(ich('c', 2)),
    );
    assert!(!null(&e));
    assert!(null(&IRegexp::Star(Box::new(ich('a', 0)))));
    assert!(null(&IRegexp::Epsilon));
    let f = first(&e);
    assert_eq!(f.len(), 2);
    assert!(f.contains(&IChar::Char(Character::Char('a'), 0)));
    assert!(f.contains(&IChar::Char(Character::Char('c'), 2)));
    let l = last(&e);
    assert_eq!(l, vec![IChar::Char(Character::Char('c'), 2)]);
    let fb = follow(&IChar::Char(Character::Char('b'), 1), &e);
    assert_eq!(fb.len(), 2);
    assert!(fb.contains(&IChar::Char(Character::Char('a'), 0)));
    assert!(fb.contains(&IChar::Char(Character::Char('c'), 2)));
    let fc = follow(&IChar::Char(Character::Char('c'), 2), &e);
    assert!(fc.is_empty());
}

#[test]
fn positions_and_spans() {
    let mut it = LineIter::new("ab\nc");
    assert_eq!(it.remaining(), 4);
    assert_eq!(it.next(), Some(('a', (0, 1, 1))));
    assert_eq!(it.next(), Some(('b', (1, 1, 2))));
    assert_eq!(it.next(), Some(('\n', (2, 1, 3))));
    assert_eq!(it.peek(), Some(('c', (3, 2, 1))));
    assert_eq!(it.next(), Some(('c', (3, 2, 1))));
    assert_eq!(it.next(), None);
    let input = IndexedString::new("f.txt", "ab\nc");
    // both ends of a span are included
    let sp = input.span(&(0, 1, 1), &(1, 1, 2));
    assert_eq!(input.slice(&sp), "ab");
    assert_eq!(sp.to_string(), "File f.txt, line 1, characters 1-2:");
    let one = Span { file: "g", start: (0, 3, 4), end: (0, 3, 4) };
    assert_eq!(one.to_string(), "File g, line 3, character 4:");
    let multi = Span { file: "g", start: (0, 1, 2), end: (9, 2, 5) };
    assert_eq!(multi.to_string(), "File g, line 1, character 2 to line 2, character 5:");
}

#[test]
fn longest_match_and_first_rule_win() {
    // token 0: a a*, token 1: ' ', token 2: a b
    let exps = vec![cat(ch('a'), star(ch('a'))), ch(' '), cat(ch('a'), ch('b'))];
    let text = "aa ab";
    let input = IndexedString::new("in", text);
    let mut dfa = build_automaton(&exps, LineIter::new(text), &input);
    let mut ids = vec![];
    loop {
        match dfa.next().unwrap() {
            (_, TokenOrEof::Token(id)) => ids.push(id),
            (_, TokenOrEof::Eof) => break,
        }
    }
    assert_eq!(ids, vec![0, 1, 2]);
}

#[test]
fn unknown_characters_are_errors() {
    let exps = vec![ch('a')];
    let text = "ab";
    let input = IndexedString::new("in", text);
    let mut dfa = build_automaton(&exps, LineIter::new(text), &input);
    assert!(matches!(dfa.next(), Ok((_, TokenOrEof::Token(0)))));
    assert!(dfa.next().is_err());
}

#[test]
fn first_terminals_of_a_symbol() {
    // S -> A b ; A -> a ; A -> (nothing): only the first symbol of each
    // non-empty production is looked at
    let rules = vec![
        Production { symbol: 0, expand: vec![Symbol::N(1), Symbol::T(1)] },
        Production { symbol: 1, expand: vec![Symbol::T(0)] },
        Production { symbol: 1, expand: vec![] },
    ];
    let mut f = first_terms(&rules, &Symbol::N(0));
    f.sort();
    assert_eq!(f, vec![0]);
    assert_eq!(first_terms(&rules, &Symbol::T(1)), vec![1]);
}

#[test]
fn tables_of_a_small_grammar() {
    let (rules, table) = build_pda_data(&["a"], &["S"], &[("S", vec!["a"])], "S");
    assert_eq!(rules.len(), 2);
    assert_eq!(rules[0].symbol, 0);
    assert_eq!(rules[0].expand, vec![Symbol::N(1), Symbol::T(0)]);
    assert_eq!(rules[1].symbol, 1);
    assert_eq!(rules[1].expand, vec![Symbol::T(1)]);
    // in the first state, `a` is shifted
    assert!(table[0].0.iter().any(|a| matches!(a, Some(Action::Shift(_)))));
    assert!(table.iter().any(|row| row.1.iter().any(|g| *g == Goto::Accept) || row.0.iter().any(|a| matches!(a, Some(Action::Reduce(0))))));
}

#[test]
fn builder_on_a_list_grammar() {
    // S -> L $ ; L -> L a | a
    let rules = vec![
        Production { symbol: 0, expand: vec![Symbol::N(1), Symbol::T(0)] },
        Production { symbol: 1, expand: vec![Symbol::N(1), Symbol::T(1)] },
        Production { symbol: 1, expand: vec![Symbol::T(1)] },
    ];
    let mut b: Builder<(usize, usize, usize)> = Builder::new(&rules, 2, 2);
    let table = b.build();
    assert!(table.len() >= 3);
    for row in &table {
        assert_eq!(row.0.len(), 2);
        assert_eq!(row.1.len(), 2);
    }
}

#[test]
fn the_automaton_of_a_small_grammar_accepts_its_word() {
    let (rules, table) = build_pda_data(&["a"], &["S"], &[("S", vec!["a"])], "S");
    let (events, end) = pda_parse(&rules, &table, &vec![1], true);
    assert_eq!(
        events,
        vec![PdaEvent::Shift(0), PdaEvent::Reduce(1, 1), PdaEvent::Shift(1), PdaEvent::Reduce(0, 2)]
    );
    assert_eq!(end, PdaEnd::Accept(2));
    let (events, end) = pda_parse(&rules, &table, &vec![1, 1], true);
    assert_eq!(events, vec![PdaEvent::Shift(0)]);
    assert_eq!(end, PdaEnd::Unexpected(1));
    let (_, end) = pda_parse(&rules, &table, &vec![1], false);
    assert_eq!(end, PdaEnd::Short(1));
    let (events, end) = pda_parse(&rules, &table, &vec![], true);
    assert!(events.is_empty());
    assert_eq!(end, PdaEnd::Empty);
}

#[test]
fn states_are_numbered_depth_first() {
    // S -> a S | b: the state after `a` is explored before the state after `S`.
    let (_, table) = build_pda_data(&["a", "b"], &["S"], &[("S", vec!["a", "S"]), ("S", vec!["b"])], "S");
    assert_eq!(table.len(), 6);
    assert!(matches!(table[0].0[1], Some(Action::Shift(1))));
    assert!(matches!(table[0].0[2], Some(Action::Shift(2))));
    assert!(table[0].1[1] == Goto::Target(4));
    assert!(matches!(table[1].0[1], Some(Action::Shift(1))));
    assert!(matches!(table[1].0[2], Some(Action::Shift(2))));
    assert!(table[1].1[1] == Goto::Target(3));
    assert!(matches!(table[2].0[0], Some(Action::Reduce(2))));
    assert!(matches!(table[3].0[0], Some(Action::Reduce(1))));
    assert!(matches!(table[4].0[0], Some(Action::Shift(5))));
}

#[test]
fn single_rule_table_is_numbered_in_discovery_order() {
    let (rules, table) = build_pda_data(&["a"], &["S"], &[("S", vec!["a"])], "S");
    assert_eq!(rules.len(), 2);
    assert_eq!(table.len(), 4);
    assert!(table[0].0[0].is_none());
    assert!(matches!(table[0].0[1], Some(Action::Shift(1))));
    assert!(table[0].1[1] == Goto::Target(2));
    assert!(matches!(table[1].0[0], Some(Action::Reduce(1))));
    assert!(table[1].0[1].is_none());
    assert!(matches!(table[2].0[0], Some(Action::Shift(3))));
    assert!(matches!(table[3].0[0], Some(Action::Reduce(0))));
    assert!(table[3].1[1] == Goto::NoTarget);
}
