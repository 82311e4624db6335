use vstd::prelude::*;

use crate::automata::lexer::types::{ascii_digit, behaved, is_ascii_alpha, is_ascii_digit, is_behaved};
use crate::automata::line_counter::{located, LineIter, Loc, Span};
use crate::automata::read_error::ReadError;
use crate::sim::parsing::{
    agrees, dec_value, is_ws, lemma_dec_grows, lemma_runs, run_behaved, run_digits, run_word, run_ws, text_of, word_start,
    NOut, Parsed,
};
use crate::text::{from_chars, str_eq};
use super::lir::{BinOp, Block, Function, Instruction, InstV, Label, Source, Statement, StmtV, UnaryOp, Val, ValV};

verus! {

// ---------------------------------------------------------------------------
// Tokens.

/// A token of the low-level language, as a value.
pub enum LTok {
    Globals,
    Fn,
    Vars,
    Jump,
    Jumpif,
    Call,
    Native,
    Return,
    LBracket,
    RBracket,
    LPar,
    RPar,
    LSquare,
    RSquare,
    Comma,
    Colon,
    Semicolon,
    Arrow,
    Equ,
    Neq,
    Lt,
    Leq,
    Gt,
    Geq,
    And,
    Or,
    Add,
    Sub,
    Mul,
    Mod,
    Not,
    Ident(Seq<char>),
    Num(u64),
    Str(Seq<char>),
    Eof,
}

/// A token of the low-level language.
pub enum LLexeme {
    Globals,
    Fn,
    Vars,
    Jump,
    Jumpif,
    Call,
    Native,
    Return,
    LBracket,
    RBracket,
    LPar,
    RPar,
    LSquare,
    RSquare,
    Comma,
    Colon,
    Semicolon,
    Arrow,
    Equ,
    Neq,
    Lt,
    Leq,
    Gt,
    Geq,
    And,
    Or,
    Add,
    Sub,
    Mul,
    Mod,
    Not,
    Ident(String),
    Num(u64),
    Str(String),
    Eof,
}

impl View for LLexeme {
    type V = LTok;

    open spec fn view(&self) -> LTok {
        match self {
            LLexeme::Globals => LTok::Globals,
            LLexeme::Fn => LTok::Fn,
            LLexeme::Vars => LTok::Vars,
            LLexeme::Jump => LTok::Jump,
            LLexeme::Jumpif => LTok::Jumpif,
            LLexeme::Call => LTok::Call,
            LLexeme::Native => LTok::Native,
            LLexeme::Return => LTok::Return,
            LLexeme::LBracket => LTok::LBracket,
            LLexeme::RBracket => LTok::RBracket,
            LLexeme::LPar => LTok::LPar,
            LLexeme::RPar => LTok::RPar,
            LLexeme::LSquare => LTok::LSquare,
            LLexeme::RSquare => LTok::RSquare,
            LLexeme::Comma => LTok::Comma,
            LLexeme::Colon => LTok::Colon,
            LLexeme::Semicolon => LTok::Semicolon,
            LLexeme::Arrow => LTok::Arrow,
            LLexeme::Equ => LTok::Equ,
            LLexeme::Neq => LTok::Neq,
            LLexeme::Lt => LTok::Lt,
            LLexeme::Leq => LTok::Leq,
            LLexeme::Gt => LTok::Gt,
            LLexeme::Geq => LTok::Geq,
            LLexeme::And => LTok::And,
            LLexeme::Or => LTok::Or,
            LLexeme::Add => LTok::Add,
            LLexeme::Sub => LTok::Sub,
            LLexeme::Mul => LTok::Mul,
            LLexeme::Mod => LTok::Mod,
            LLexeme::Not => LTok::Not,
            LLexeme::Ident(s) => LTok::Ident(s@),
            LLexeme::Num(n) => LTok::Num(*n),
            LLexeme::Str(s) => LTok::Str(s@),
            LLexeme::Eof => LTok::Eof,
        }
    }
}

/// The token a word stands for: a keyword, or else a name.
pub open spec fn lir_keyword(w: Seq<char>) -> LTok {
    if w == "globals"@ {
        LTok::Globals
    } else if w == "fn"@ {
        LTok::Fn
    } else if w == "vars"@ {
        LTok::Vars
    } else if w == "jump"@ {
        LTok::Jump
    } else if w == "jumpif"@ {
        LTok::Jumpif
    } else if w == "call"@ {
        LTok::Call
    } else if w == "native"@ {
        LTok::Native
    } else if w == "return"@ {
        LTok::Return
    } else {
        LTok::Ident(w)
    }
}

/// The rest of a string literal from `j` on: the index after its closing
/// quote and the characters it stands for, escapes `\\`, `\"`, `\n` and
/// `\t` decoded; `None` where the literal is cut short or holds another
/// character that may not stand in it.
pub open spec fn str_scan(cs: Seq<(char, Loc)>, j: int, acc: Seq<char>) -> Option<(int, Seq<char>)>
    decreases cs.len() - j,
{
    if j < 0 || j >= cs.len() {
        None
    } else {
        let c = cs[j].0;
        if c == '"' {
            Some((j + 1, acc))
        } else if c == '\\' {
            if j + 1 < cs.len() {
                let d = cs[j + 1].0;
                if d == '\\' || d == '"' {
                    str_scan(cs, j + 2, acc.push(d))
                } else if d == 'n' {
                    str_scan(cs, j + 2, acc.push('\n'))
                } else if d == 't' {
                    str_scan(cs, j + 2, acc.push('\t'))
                } else {
                    None
                }
            } else {
                None
            }
        } else if behaved(c) {
            str_scan(cs, j + 1, acc.push(c))
        } else {
            None
        }
    }
}

/// What is read at an index: blanks or a comment to skip, up to an index; a
/// token, up to an index; or what the reader does not take.
pub enum LLexed {
    Skip(int),
    Word(LTok, int),
    Bad,
}

/// The character at `i`, if there is one.
pub open spec fn char_at(cs: Seq<(char, Loc)>, i: int) -> Option<char> {
    if 0 <= i < cs.len() {
        Some(cs[i].0)
    } else {
        None
    }
}

/// What is read at index `i`: the longest token that starts there, read
/// without going back.
pub open spec fn lir_lexeme(cs: Seq<(char, Loc)>, i: int, wide: bool) -> LLexed {
    let c = cs[i].0;
    let next = char_at(cs, i + 1);
    if is_ws(c) {
        LLexed::Skip(run_ws(cs, i + 1))
    } else if c == '#' {
        let j = run_behaved(cs, i + 1);
        if j < cs.len() && cs[j].0 == '\n' {
            LLexed::Skip(j + 1)
        } else {
            LLexed::Bad
        }
    } else if word_start(c) {
        let j = run_word(cs, i + 1);
        LLexed::Word(lir_keyword(text_of(cs, i, j)), j)
    } else if ascii_digit(c) {
        let j = run_digits(cs, i + 1);
        let v = dec_value(text_of(cs, i, j));
        if v <= num_limit(wide) {
            LLexed::Word(LTok::Num(v as u64), j)
        } else {
            LLexed::Bad
        }
    } else if c == '"' {
        match str_scan(cs, i + 1, Seq::empty()) {
            Some((j, s)) => LLexed::Word(LTok::Str(s), j),
            None => LLexed::Bad,
        }
    } else if c == '<' {
        if next == Some('-') {
            LLexed::Word(LTok::Arrow, i + 2)
        } else if next == Some('=') {
            LLexed::Word(LTok::Leq, i + 2)
        } else {
            LLexed::Word(LTok::Lt, i + 1)
        }
    } else if c == '>' {
        if next == Some('=') {
            LLexed::Word(LTok::Geq, i + 2)
        } else {
            LLexed::Word(LTok::Gt, i + 1)
        }
    } else if c == '!' {
        if next == Some('=') {
            LLexed::Word(LTok::Neq, i + 2)
        } else {
            LLexed::Word(LTok::Not, i + 1)
        }
    } else if c == '=' {
        if next == Some('=') {
            LLexed::Word(LTok::Equ, i + 2)
        } else {
            LLexed::Bad
        }
    } else if c == '&' {
        if next == Some('&') {
            LLexed::Word(LTok::And, i + 2)
        } else {
            LLexed::Bad
        }
    } else if c == '|' {
        if next == Some('|') {
            LLexed::Word(LTok::Or, i + 2)
        } else {
            LLexed::Bad
        }
    } else if c == '{' {
        LLexed::Word(LTok::LBracket, i + 1)
    } else if c == '}' {
        LLexed::Word(LTok::RBracket, i + 1)
    } else if c == '(' {
        LLexed::Word(LTok::LPar, i + 1)
    } else if c == ')' {
        LLexed::Word(LTok::RPar, i + 1)
    } else if c == '[' {
        LLexed::Word(LTok::LSquare, i + 1)
    } else if c == ']' {
        LLexed::Word(LTok::RSquare, i + 1)
    } else if c == ',' {
        LLexed::Word(LTok::Comma, i + 1)
    } else if c == ':' {
        LLexed::Word(LTok::Colon, i + 1)
    } else if c == ';' {
        LLexed::Word(LTok::Semicolon, i + 1)
    } else if c == '+' {
        LLexed::Word(LTok::Add, i + 1)
    } else if c == '-' {
        LLexed::Word(LTok::Sub, i + 1)
    } else if c == '*' {
        LLexed::Word(LTok::Mul, i + 1)
    } else if c == '%' {
        LLexed::Word(LTok::Mod, i + 1)
    } else {
        LLexed::Bad
    }
}

pub proof fn lemma_str_scan(cs: Seq<(char, Loc)>, j: int, acc: Seq<char>)
    requires
        0 <= j,
    ensures
        str_scan(cs, j, acc) matches Some((e, _)) ==> j < e <= cs.len(),
    decreases cs.len() - j,
{
    if 0 <= j < cs.len() {
        let c = cs[j].0;
        if c == '\\' && j + 1 < cs.len() {
            let d = cs[j + 1].0;
            if d == '\\' || d == '"' {
                lemma_str_scan(cs, j + 2, acc.push(d));
            } else if d == 'n' {
                lemma_str_scan(cs, j + 2, acc.push('\n'));
            } else if d == 't' {
                lemma_str_scan(cs, j + 2, acc.push('\t'));
            }
        } else if c != '"' && behaved(c) {
            lemma_str_scan(cs, j + 1, acc.push(c));
        }
    }
}

pub proof fn lemma_lir_lexeme(cs: Seq<(char, Loc)>, i: int, wide: bool)
    requires
        0 <= i < cs.len(),
    ensures
        lir_lexeme(cs, i, wide) matches LLexed::Skip(j) ==> i < j <= cs.len(),
        lir_lexeme(cs, i, wide) matches LLexed::Word(_, j) ==> i < j <= cs.len(),
{
    lemma_runs(cs, i + 1);
    lemma_str_scan(cs, i + 1, Seq::empty());
}

/// The tokens read from index `i` on, each with its region, up to the end
/// of the text (a last `Eof` token whose region is that of the last thing
/// read) or up to what the reader does not take (then the flag is set).
pub open spec fn lir_lex_from(cs: Seq<(char, Loc)>, i: int, last: (Loc, Loc), wide: bool) -> (Seq<(LTok, (Loc, Loc))>, bool)
    decreases cs.len() - i,
{
    if i < 0 || i >= cs.len() {
        (seq![(LTok::Eof, last)], false)
    } else {
        proof {
            lemma_lir_lexeme(cs, i, wide);
        }
        match lir_lexeme(cs, i, wide) {
            LLexed::Skip(j) => lir_lex_from(cs, j, (cs[i].1, cs[j - 1].1), wide),
            LLexed::Word(t, j) => {
                let rest = lir_lex_from(cs, j, (cs[i].1, cs[j - 1].1), wide);
                (seq![(t, (cs[i].1, cs[j - 1].1))] + rest.0, rest.1)
            },
            LLexed::Bad => (Seq::empty(), true),
        }
    }
}

/// The largest number a token may stand for: the largest signed 64-bit
/// number, or with `wide` the largest unsigned one.
pub open spec fn num_limit(wide: bool) -> nat {
    if wide {
        0xffff_ffff_ffff_ffff
    } else {
        0x7fff_ffff_ffff_ffff
    }
}

/// The tokens of a text, numbers bounded by `num_limit(wide)`.
pub open spec fn tokens_of(s: Seq<char>, wide: bool) -> (Seq<(LTok, (Loc, Loc))>, bool) {
    lir_lex_from(located(s), 0, ((0usize, 1usize, 1usize), (0usize, 1usize, 1usize)), wide)
}

/// The tokens of a text of the low-level language.
pub open spec fn lir_tokens_of(s: Seq<char>) -> (Seq<(LTok, (Loc, Loc))>, bool) {
    tokens_of(s, false)
}

/// The message for a text the reader does not take.
pub open spec fn unrecognized_text() -> Seq<char> {
    "Unrecognized token at {}."@
}

/// The message for a number above the largest one a token may stand for.
pub open spec fn too_big_text() -> Seq<char> {
    "This number does not fit in 64 bits."@
}

/// Where reading a string literal from `j` on stops when the literal is
/// refused: the index after the last character taken.
pub open spec fn str_stop(cs: Seq<(char, Loc)>, j: int) -> int
    decreases cs.len() - j,
{
    if j < 0 || j >= cs.len() {
        cs.len() as int
    } else {
        let c = cs[j].0;
        if c == '"' {
            j + 1
        } else if c == '\\' {
            if j + 1 < cs.len() {
                let d = cs[j + 1].0;
                if d == '\\' || d == '"' || d == 'n' || d == 't' {
                    str_stop(cs, j + 2)
                } else {
                    j + 1
                }
            } else {
                j + 1
            }
        } else if behaved(c) {
            str_stop(cs, j + 1)
        } else {
            j
        }
    }
}

/// What the reader does not take at `i`: the index after the last
/// character it read there, and the message.
pub open spec fn lir_bad_at(cs: Seq<(char, Loc)>, i: int) -> (int, Seq<char>) {
    let c = cs[i].0;
    if c == '#' {
        (run_behaved(cs, i + 1), unrecognized_text())
    } else if ascii_digit(c) {
        (run_digits(cs, i + 1), too_big_text())
    } else if c == '"' {
        (str_stop(cs, i + 1), unrecognized_text())
    } else if c == '=' || c == '&' || c == '|' {
        (i + 1, unrecognized_text())
    } else {
        (i, unrecognized_text())
    }
}

/// The index, from `i` on, where the reader meets what it does not take;
/// -1 where it reads up to the end.
pub open spec fn lir_bad_index(cs: Seq<(char, Loc)>, i: int, wide: bool) -> int
    decreases cs.len() - i,
{
    if i < 0 || i >= cs.len() {
        -1
    } else {
        proof {
            lemma_lir_lexeme(cs, i, wide);
        }
        match lir_lexeme(cs, i, wide) {
            LLexed::Skip(j) => lir_bad_index(cs, j, wide),
            LLexed::Word(_, j) => lir_bad_index(cs, j, wide),
            LLexed::Bad => i,
        }
    }
}

/// The region and message of the error where the reader meets what it does
/// not take: from the first character of the refused text to the last
/// character read.
pub open spec fn lex_error_of(s: Seq<char>, wide: bool) -> ((Loc, Loc), Seq<char>) {
    let cs = located(s);
    let i = lir_bad_index(cs, 0, wide);
    let e = lir_bad_at(cs, i).0;
    ((cs[i].1, cs[if e > i { e - 1 } else { i }].1), lir_bad_at(cs, i).1)
}

/// The error for a text of the low-level language the reader does not take.
pub open spec fn lir_lex_error(s: Seq<char>) -> ((Loc, Loc), Seq<char>) {
    lex_error_of(s, false)
}

/// The tokens end with the end of the text, and only there.
pub open spec fn ends_with_eof(ts: Seq<(LTok, (Loc, Loc))>) -> bool {
    &&& ts.len() >= 1
    &&& ts[ts.len() - 1].0 == LTok::Eof
    &&& forall|p: int| 0 <= p < ts.len() - 1 ==> (#[trigger] ts[p]).0 != LTok::Eof
}

pub(crate) proof fn lemma_lir_lex_eof(cs: Seq<(char, Loc)>, i: int, last: (Loc, Loc), wide: bool)
    requires
        0 <= i,
    ensures
        !lir_lex_from(cs, i, last, wide).1 ==> ends_with_eof(lir_lex_from(cs, i, last, wide).0),
        lir_lex_from(cs, i, last, wide).1 ==> 0 <= lir_bad_index(cs, i, wide) < cs.len() && lir_lexeme(cs, lir_bad_index(cs, i, wide), wide)
            is Bad,
    decreases cs.len() - i,
{
    if i < cs.len() {
        lemma_lir_lexeme(cs, i, wide);
        match lir_lexeme(cs, i, wide) {
            LLexed::Skip(j) => {
                lemma_lir_lex_eof(cs, j, (cs[i].1, cs[j - 1].1), wide);
            },
            LLexed::Word(t, j) => {
                let rest = lir_lex_from(cs, j, (cs[i].1, cs[j - 1].1), wide);
                lemma_lir_lex_eof(cs, j, (cs[i].1, cs[j - 1].1), wide);
                let all = seq![(t, (cs[i].1, cs[j - 1].1))] + rest.0;
                assert(t != LTok::Eof);
                if !rest.1 {
                    assert forall|p: int| 0 <= p < all.len() - 1 implies (#[trigger] all[p]).0 != LTok::Eof by {
                        if p > 0 {
                            assert(all[p] == rest.0[p - 1]);
                        }
                    }
                }
            },
            LLexed::Bad => {},
        }
    }
}

// ---------------------------------------------------------------------------
// The grammar.

/// A function, as a value: its name, arguments, variables and statements.
pub type FnV = (Seq<char>, Seq<Seq<char>>, Seq<Seq<char>>, Seq<StmtV>);

/// A program, as a value: its globals and functions.
pub type SourceV = (Seq<Seq<char>>, Seq<FnV>);

pub open spec fn names_v(v: Seq<String>) -> Seq<Seq<char>> {
    v.map_values(|s: String| s@)
}

pub open spec fn fn_v(f: Function) -> FnV {
    (f.name@, names_v(f.args@), names_v(f.vars@), super::lir::stmts_view(f.body.stmts@))
}

pub open spec fn source_v(s: Source) -> SourceV {
    (names_v(s.globals@), s.functions@.map_values(|f: Function| fn_v(f)))
}

/// The token at `k`, where it has been read.
pub open spec fn ltok(ts: Seq<(LTok, (Loc, Loc))>, k: int) -> Option<LTok> {
    if 0 <= k < ts.len() {
        Some(ts[k].0)
    } else {
        None
    }
}

/// An unexpected token at `k`; where it has not been read, the reader gives
/// up.
pub open spec fn lunexpected<T>(ts: Seq<(LTok, (Loc, Loc))>, k: int) -> NOut<T> {
    if 0 <= k < ts.len() {
        NOut::Fail(ts[k].1, "Unexpected token."@)
    } else {
        NOut::Stuck
    }
}

/// The value a token stands for, if it is one.
pub open spec fn val_of(t: Option<LTok>) -> Option<ValV> {
    match t {
        Some(LTok::Ident(s)) => Some(ValV::Var(s)),
        Some(LTok::Num(n)) => Some(ValV::Const(n)),
        Some(LTok::Str(s)) => Some(ValV::Str(s)),
        _ => None,
    }
}

/// The operator a token stands for between two values.
pub open spec fn bin_of(t: Option<LTok>) -> Option<BinOp> {
    match t {
        Some(LTok::Equ) => Some(BinOp::Equ),
        Some(LTok::Neq) => Some(BinOp::Neq),
        Some(LTok::Lt) => Some(BinOp::Lt),
        Some(LTok::Leq) => Some(BinOp::Leq),
        Some(LTok::Gt) => Some(BinOp::Gt),
        Some(LTok::Geq) => Some(BinOp::Geq),
        Some(LTok::And) => Some(BinOp::And),
        Some(LTok::Or) => Some(BinOp::Or),
        Some(LTok::Add) => Some(BinOp::Add),
        Some(LTok::Sub) => Some(BinOp::Sub),
        Some(LTok::Mul) => Some(BinOp::Mul),
        Some(LTok::Mod) => Some(BinOp::Div),
        _ => None,
    }
}

/// The operator a token stands for before a value.
pub open spec fn un_of(t: Option<LTok>) -> Option<UnaryOp> {
    match t {
        Some(LTok::Sub) => Some(UnaryOp::Neg),
        Some(LTok::Not) => Some(UnaryOp::Not),
        _ => None,
    }
}

/// Names separated by commas, ended by `end`.
pub open spec fn lidents_at(ts: Seq<(LTok, (Loc, Loc))>, k: int, end: LTok, acc: Seq<Seq<char>>) -> NOut<Seq<Seq<char>>>
    decreases ts.len() - k,
{
    match ltok(ts, k) {
        Some(LTok::Ident(n)) => match ltok(ts, k + 1) {
            None => NOut::Stuck,
            Some(t) => if t == end {
                NOut::Done(acc.push(n), k + 1)
            } else if t == LTok::Comma {
                lidents_at(ts, k + 2, end, acc.push(n))
            } else {
                lunexpected(ts, k + 1)
            },
        },
        _ => lunexpected(ts, k),
    }
}

/// Values separated by commas, ended by `)`.
pub open spec fn lvals_at(ts: Seq<(LTok, (Loc, Loc))>, k: int, acc: Seq<ValV>) -> NOut<Seq<ValV>>
    decreases ts.len() - k,
{
    match val_of(ltok(ts, k)) {
        Some(v) => match ltok(ts, k + 1) {
            None => NOut::Stuck,
            Some(LTok::RPar) => NOut::Done(acc.push(v), k + 1),
            Some(LTok::Comma) => lvals_at(ts, k + 2, acc.push(v)),
            _ => lunexpected(ts, k + 1),
        },
        None => lunexpected(ts, k),
    }
}

/// A call from its `call` keyword at `k`, storing into `dest`.
pub open spec fn lcall_at(ts: Seq<(LTok, (Loc, Loc))>, k: int, dest: Option<(Seq<char>, Seq<char>)>) -> NOut<StmtV> {
    let native = ltok(ts, k + 1) == Some(LTok::Native);
    let f = if native {
        k + 2
    } else {
        k + 1
    };
    match ltok(ts, f) {
        Some(LTok::Ident(name)) => if ltok(ts, f + 1) != Some(LTok::LPar) {
            lunexpected(ts, f + 1)
        } else {
            let args = if ltok(ts, f + 2) == Some(LTok::RPar) {
                NOut::Done(Seq::empty(), f + 2)
            } else {
                lvals_at(ts, f + 2, Seq::empty())
            };
            match args {
                NOut::Done(vs, r) => if ltok(ts, r + 1) != Some(LTok::Semicolon) {
                    lunexpected(ts, r + 1)
                } else {
                    NOut::Done(StmtV::Inst(InstV::Call(dest, native, name, vs)), r + 2)
                },
                NOut::Fail(s, m) => NOut::Fail(s, m),
                NOut::Stuck => NOut::Stuck,
            }
        },
        _ => lunexpected(ts, f),
    }
}

/// The store of a value at an offset of `v`, from `v` at `k`.
pub open spec fn lstore_at(ts: Seq<(LTok, (Loc, Loc))>, k: int, v: ValV) -> NOut<StmtV> {
    if ltok(ts, k + 1) != Some(LTok::LSquare) {
        lunexpected(ts, k + 1)
    } else {
        match ltok(ts, k + 2) {
            Some(LTok::Num(i)) => if ltok(ts, k + 3) != Some(LTok::RSquare) {
                lunexpected(ts, k + 3)
            } else if ltok(ts, k + 4) != Some(LTok::Arrow) {
                lunexpected(ts, k + 4)
            } else {
                match val_of(ltok(ts, k + 5)) {
                    Some(w) => if ltok(ts, k + 6) != Some(LTok::Semicolon) {
                        lunexpected(ts, k + 6)
                    } else {
                        NOut::Done(StmtV::Inst(InstV::AssignArray(v, i, w)), k + 7)
                    },
                    None => lunexpected(ts, k + 5),
                }
            },
            _ => lunexpected(ts, k + 2),
        }
    }
}

/// An assignment to `x`, from `x` at `k` (an arrow follows it).
pub open spec fn lassign_at(ts: Seq<(LTok, (Loc, Loc))>, k: int, x: Seq<char>) -> NOut<StmtV> {
    match un_of(ltok(ts, k + 2)) {
        Some(op) => match val_of(ltok(ts, k + 3)) {
            Some(a) => if ltok(ts, k + 4) != Some(LTok::Semicolon) {
                lunexpected(ts, k + 4)
            } else {
                NOut::Done(StmtV::Inst(InstV::Unary(x, op, a)), k + 5)
            },
            None => lunexpected(ts, k + 3),
        },
        None => match val_of(ltok(ts, k + 2)) {
            Some(a) => match bin_of(ltok(ts, k + 3)) {
                Some(op) => match val_of(ltok(ts, k + 4)) {
                    Some(b) => if ltok(ts, k + 5) != Some(LTok::Semicolon) {
                        lunexpected(ts, k + 5)
                    } else {
                        NOut::Done(StmtV::Inst(InstV::Bin(x, op, a, b)), k + 6)
                    },
                    None => lunexpected(ts, k + 4),
                },
                None => match ltok(ts, k + 3) {
                    Some(LTok::Semicolon) => NOut::Done(StmtV::Inst(InstV::Mov(x, a)), k + 4),
                    Some(LTok::LSquare) => match ltok(ts, k + 4) {
                        Some(LTok::Num(i)) => if ltok(ts, k + 5) != Some(LTok::RSquare) {
                            lunexpected(ts, k + 5)
                        } else if ltok(ts, k + 6) != Some(LTok::Semicolon) {
                            lunexpected(ts, k + 6)
                        } else {
                            NOut::Done(StmtV::Inst(InstV::Access(x, a, i)), k + 7)
                        },
                        _ => lunexpected(ts, k + 4),
                    },
                    _ => lunexpected(ts, k + 3),
                },
            },
            None => lunexpected(ts, k + 2),
        },
    }
}

/// A statement at `k`.
pub open spec fn lstmt_at(ts: Seq<(LTok, (Loc, Loc))>, k: int) -> NOut<StmtV> {
    match ltok(ts, k) {
        Some(LTok::Ident(x)) => match ltok(ts, k + 1) {
            Some(LTok::Colon) => NOut::Done(StmtV::Label(x), k + 2),
            Some(LTok::Arrow) => lassign_at(ts, k, x),
            Some(LTok::LSquare) => lstore_at(ts, k, ValV::Var(x)),
            _ => lunexpected(ts, k + 1),
        },
        Some(LTok::Num(n)) => lstore_at(ts, k, ValV::Const(n)),
        Some(LTok::Str(s)) => lstore_at(ts, k, ValV::Str(s)),
        Some(LTok::Jump) => match ltok(ts, k + 1) {
            Some(LTok::Ident(l)) => if ltok(ts, k + 2) != Some(LTok::Semicolon) {
                lunexpected(ts, k + 2)
            } else {
                NOut::Done(StmtV::Inst(InstV::Jump(l)), k + 3)
            },
            _ => lunexpected(ts, k + 1),
        },
        Some(LTok::Jumpif) => {
            let neg = ltok(ts, k + 1) == Some(LTok::Not);
            let v = if neg {
                k + 2
            } else {
                k + 1
            };
            match val_of(ltok(ts, v)) {
                Some(c) => match ltok(ts, v + 1) {
                    Some(LTok::Ident(l)) => if ltok(ts, v + 2) != Some(LTok::Semicolon) {
                        lunexpected(ts, v + 2)
                    } else if neg {
                        NOut::Done(StmtV::Inst(InstV::JumpifNot(c, l)), v + 3)
                    } else {
                        NOut::Done(StmtV::Inst(InstV::Jumpif(c, l)), v + 3)
                    },
                    _ => lunexpected(ts, v + 1),
                },
                None => lunexpected(ts, v),
            }
        },
        Some(LTok::Call) => lcall_at(ts, k, None),
        Some(LTok::LPar) => match (ltok(ts, k + 1), ltok(ts, k + 3)) {
            (Some(LTok::Ident(d1)), Some(LTok::Ident(d2))) => if ltok(ts, k + 2) != Some(LTok::Comma) {
                lunexpected(ts, k + 2)
            } else if ltok(ts, k + 4) != Some(LTok::RPar) {
                lunexpected(ts, k + 4)
            } else if ltok(ts, k + 5) != Some(LTok::Arrow) {
                lunexpected(ts, k + 5)
            } else if ltok(ts, k + 6) != Some(LTok::Call) {
                lunexpected(ts, k + 6)
            } else {
                lcall_at(ts, k + 6, Some((d1, d2)))
            },
            (Some(LTok::Ident(_)), _) => if ltok(ts, k + 2) != Some(LTok::Comma) {
                lunexpected(ts, k + 2)
            } else {
                lunexpected(ts, k + 3)
            },
            _ => lunexpected(ts, k + 1),
        },
        Some(LTok::Return) => match val_of(ltok(ts, k + 1)) {
            Some(a) => if ltok(ts, k + 2) != Some(LTok::Comma) {
                lunexpected(ts, k + 2)
            } else {
                match val_of(ltok(ts, k + 3)) {
                    Some(b) => if ltok(ts, k + 4) != Some(LTok::Semicolon) {
                        lunexpected(ts, k + 4)
                    } else {
                        NOut::Done(StmtV::Inst(InstV::Return(a, b)), k + 5)
                    },
                    None => lunexpected(ts, k + 3),
                }
            },
            None => lunexpected(ts, k + 1),
        },
        _ => lunexpected(ts, k),
    }
}

/// Statements from `k` on, up to `}`.
pub open spec fn lstmts_at(ts: Seq<(LTok, (Loc, Loc))>, k: int, acc: Seq<StmtV>) -> NOut<Seq<StmtV>>
    decreases ts.len() - k,
{
    if k < 0 || k >= ts.len() {
        NOut::Stuck
    } else if ts[k].0 == LTok::RBracket {
        NOut::Done(acc, k)
    } else {
        match lstmt_at(ts, k) {
            NOut::Done(st, k2) => if k < k2 && k2 <= ts.len() {
                lstmts_at(ts, k2, acc.push(st))
            } else {
                NOut::Stuck
            },
            NOut::Fail(s, m) => NOut::Fail(s, m),
            NOut::Stuck => NOut::Stuck,
        }
    }
}

/// A list of names between the token at `k` and `end`: empty when `end`
/// comes at once.
pub open spec fn lnames_until(ts: Seq<(LTok, (Loc, Loc))>, k: int, end: LTok) -> NOut<Seq<Seq<char>>> {
    if ltok(ts, k) == Some(end) {
        NOut::Done(Seq::empty(), k)
    } else {
        lidents_at(ts, k, end, Seq::empty())
    }
}

/// A function from its `fn` keyword at `k`.
pub open spec fn lfunction_at(ts: Seq<(LTok, (Loc, Loc))>, k: int) -> NOut<FnV> {
    match ltok(ts, k + 1) {
        Some(LTok::Ident(name)) => if ltok(ts, k + 2) != Some(LTok::LPar) {
            lunexpected(ts, k + 2)
        } else {
            match lnames_until(ts, k + 3, LTok::RPar) {
                NOut::Done(args, p) => if ltok(ts, p + 1) != Some(LTok::Vars) {
                    lunexpected(ts, p + 1)
                } else if ltok(ts, p + 2) != Some(LTok::Colon) {
                    lunexpected(ts, p + 2)
                } else {
                    match lnames_until(ts, p + 3, LTok::Semicolon) {
                        NOut::Done(vars, q) => if ltok(ts, q + 1) != Some(LTok::LBracket) {
                            lunexpected(ts, q + 1)
                        } else {
                            match lstmts_at(ts, q + 2, Seq::empty()) {
                                NOut::Done(body, e) => NOut::Done((name, args, vars, body), e + 1),
                                NOut::Fail(s, m) => NOut::Fail(s, m),
                                NOut::Stuck => NOut::Stuck,
                            }
                        },
                        NOut::Fail(s, m) => NOut::Fail(s, m),
                        NOut::Stuck => NOut::Stuck,
                    }
                },
                NOut::Fail(s, m) => NOut::Fail(s, m),
                NOut::Stuck => NOut::Stuck,
            }
        },
        _ => lunexpected(ts, k + 1),
    }
}

/// Functions from `k` on, up to the end.
pub open spec fn lfunctions_at(ts: Seq<(LTok, (Loc, Loc))>, k: int, acc: Seq<FnV>) -> NOut<Seq<FnV>>
    decreases ts.len() - k,
{
    match ltok(ts, k) {
        None => NOut::Stuck,
        Some(LTok::Eof) => NOut::Done(acc, k),
        Some(LTok::Fn) => match lfunction_at(ts, k) {
            NOut::Done(f, k2) => if k < k2 && k2 <= ts.len() {
                lfunctions_at(ts, k2, acc.push(f))
            } else {
                NOut::Stuck
            },
            NOut::Fail(s, m) => NOut::Fail(s, m),
            NOut::Stuck => NOut::Stuck,
        },
        _ => lunexpected(ts, k),
    }
}

/// What reading the tokens of a program gives: an empty text is refused
/// with its own message.
pub open spec fn lir_source_of(ts: Seq<(LTok, (Loc, Loc))>) -> NOut<SourceV> {
    match ltok(ts, 0) {
        None => NOut::Stuck,
        Some(LTok::Eof) => NOut::Fail(ts[0].1, "Expected a program"@),
        Some(LTok::Globals) => if ltok(ts, 1) != Some(LTok::Colon) {
            lunexpected(ts, 1)
        } else {
            match lnames_until(ts, 2, LTok::Semicolon) {
                NOut::Done(g, p) => match lfunctions_at(ts, p + 1, Seq::empty()) {
                    NOut::Done(fs, e) => NOut::Done((g, fs), e),
                    NOut::Fail(s, m) => NOut::Fail(s, m),
                    NOut::Stuck => NOut::Stuck,
                },
                NOut::Fail(s, m) => NOut::Fail(s, m),
                NOut::Stuck => NOut::Stuck,
            }
        },
        _ => lunexpected(ts, 0),
    }
}

proof fn lemma_lidents_eof(ts: Seq<(LTok, (Loc, Loc))>, k: int, end: LTok, acc: Seq<Seq<char>>)
    requires
        ends_with_eof(ts),
        0 <= k < ts.len(),
        end != LTok::Eof,
    ensures
        !(lidents_at(ts, k, end, acc) is Stuck),
        lidents_at(ts, k, end, acc) matches NOut::Done(_, j) ==> k < j < ts.len() - 1 && ts[j].0 == end,
    decreases ts.len() - k,
{
    if k < ts.len() - 1 {
        assert(ts[k].0 != LTok::Eof);
        if ts[k].0 is Ident {
            if k + 1 < ts.len() - 1 {
                assert(ts[k + 1].0 != LTok::Eof);
                if ts[k + 1].0 == LTok::Comma && ts[k + 1].0 != end {
                    lemma_lidents_eof(ts, k + 2, end, acc.push(ts[k].0->Ident_0));
                }
            }
        }
    }
}

proof fn lemma_lvals_eof(ts: Seq<(LTok, (Loc, Loc))>, k: int, acc: Seq<ValV>)
    requires
        ends_with_eof(ts),
        0 <= k < ts.len(),
    ensures
        !(lvals_at(ts, k, acc) is Stuck),
        lvals_at(ts, k, acc) matches NOut::Done(_, j) ==> k < j < ts.len() - 1 && ts[j].0 == LTok::RPar,
    decreases ts.len() - k,
{
    if k < ts.len() - 1 {
        assert(ts[k].0 != LTok::Eof);
        if val_of(ltok(ts, k)) is Some {
            if k + 1 < ts.len() - 1 {
                assert(ts[k + 1].0 != LTok::Eof);
                if ts[k + 1].0 == LTok::Comma {
                    lemma_lvals_eof(ts, k + 2, acc.push(val_of(ltok(ts, k))->0));
                }
            }
        }
    }
}

/// A read that ends at `j` does not go past the end of the text.
pub open spec fn ends_before_eof<T>(ts: Seq<(LTok, (Loc, Loc))>, k: int, o: NOut<T>) -> bool {
    &&& !(o is Stuck)
    &&& o matches NOut::Done(_, j) ==> k < j <= ts.len() - 1
}

proof fn lemma_lcall_eof(ts: Seq<(LTok, (Loc, Loc))>, k: int, dest: Option<(Seq<char>, Seq<char>)>)
    requires
        ends_with_eof(ts),
        0 <= k < ts.len() - 1,
    ensures
        ends_before_eof(ts, k, lcall_at(ts, k, dest)),
{
    let native = ltok(ts, k + 1) == Some(LTok::Native);
    let f = if native { k + 2 } else { k + 1 };
    if native {
        assert(ts[k + 1].0 != LTok::Eof);
    }
    if f < ts.len() - 1 {
        assert(ts[f].0 != LTok::Eof);
        if f + 1 < ts.len() - 1 {
            assert(ts[f + 1].0 != LTok::Eof);
            if ltok(ts, f + 2) != Some(LTok::RPar) {
                lemma_lvals_eof(ts, f + 2, Seq::empty());
            } else {
                assert(ts[f + 2].0 != LTok::Eof);
            }
        }
    }
    assert(forall|p: int| 0 <= p < ts.len() - 1 ==> (#[trigger] ts[p]).0 != LTok::Eof);
}

proof fn lemma_lstmt_eof(ts: Seq<(LTok, (Loc, Loc))>, k: int)
    requires
        ends_with_eof(ts),
        0 <= k < ts.len(),
    ensures
        ends_before_eof(ts, k, lstmt_at(ts, k)),
{
    assert(forall|p: int| 0 <= p < ts.len() - 1 ==> (#[trigger] ts[p]).0 != LTok::Eof);
    if k < ts.len() - 1 {
        if ts[k].0 == LTok::Call {
            lemma_lcall_eof(ts, k, None);
        }
        if ts[k].0 == LTok::LPar && k + 6 < ts.len() {
            if ltok(ts, k + 6) == Some(LTok::Call) && k + 6 < ts.len() - 1 {
                lemma_lcall_eof(ts, k + 6, Some((ts[k + 1].0->Ident_0, ts[k + 3].0->Ident_0)));
            }
        }
    }
}

proof fn lemma_lstmts_eof(ts: Seq<(LTok, (Loc, Loc))>, k: int, acc: Seq<StmtV>)
    requires
        ends_with_eof(ts),
        0 <= k < ts.len(),
    ensures
        !(lstmts_at(ts, k, acc) is Stuck),
        lstmts_at(ts, k, acc) matches NOut::Done(_, j) ==> k <= j < ts.len() - 1 && ts[j].0 == LTok::RBracket,
    decreases ts.len() - k,
{
    if ts[k].0 != LTok::RBracket {
        lemma_lstmt_eof(ts, k);
        if let NOut::Done(st, k2) = lstmt_at(ts, k) {
            lemma_lstmts_eof(ts, k2, acc.push(st));
        }
    } else {
        assert(k != ts.len() - 1);
    }
}

proof fn lemma_lnames_eof(ts: Seq<(LTok, (Loc, Loc))>, k: int, end: LTok)
    requires
        ends_with_eof(ts),
        0 <= k < ts.len(),
        end != LTok::Eof,
    ensures
        !(lnames_until(ts, k, end) is Stuck),
        lnames_until(ts, k, end) matches NOut::Done(_, j) ==> k <= j < ts.len() - 1,
{
    if ltok(ts, k) == Some(end) {
        assert(k != ts.len() - 1);
    } else {
        lemma_lidents_eof(ts, k, end, Seq::empty());
    }
}

proof fn lemma_lfunction_eof(ts: Seq<(LTok, (Loc, Loc))>, k: int)
    requires
        ends_with_eof(ts),
        0 <= k < ts.len() - 1,
    ensures
        ends_before_eof(ts, k, lfunction_at(ts, k)),
{
    assert(forall|p: int| 0 <= p < ts.len() - 1 ==> (#[trigger] ts[p]).0 != LTok::Eof);
    if k + 2 < ts.len() - 1 && ts[k + 1].0 is Ident && ts[k + 2].0 == LTok::LPar {
        lemma_lnames_eof(ts, k + 3, LTok::RPar);
        if let NOut::Done(args, p) = lnames_until(ts, k + 3, LTok::RPar) {
            if p + 2 < ts.len() - 1 && ts[p + 1].0 == LTok::Vars && ts[p + 2].0 == LTok::Colon {
                lemma_lnames_eof(ts, p + 3, LTok::Semicolon);
                if let NOut::Done(vars, q) = lnames_until(ts, p + 3, LTok::Semicolon) {
                    if q + 1 < ts.len() - 1 && ts[q + 1].0 == LTok::LBracket {
                        lemma_lstmts_eof(ts, q + 2, Seq::empty());
                    }
                }
            }
        }
    }
}

proof fn lemma_lfunctions_eof(ts: Seq<(LTok, (Loc, Loc))>, k: int, acc: Seq<FnV>)
    requires
        ends_with_eof(ts),
        0 <= k < ts.len(),
    ensures
        !(lfunctions_at(ts, k, acc) is Stuck),
    decreases ts.len() - k,
{
    assert(forall|p: int| 0 <= p < ts.len() - 1 ==> (#[trigger] ts[p]).0 != LTok::Eof);
    if ts[k].0 == LTok::Fn {
        lemma_lfunction_eof(ts, k);
        if let NOut::Done(f, k2) = lfunction_at(ts, k) {
            lemma_lfunctions_eof(ts, k2, acc.push(f));
        }
    }
}

/// A text the reader reads up to its end never leaves the grammar short of
/// tokens.
proof fn lemma_lir_source_eof(ts: Seq<(LTok, (Loc, Loc))>)
    requires
        ends_with_eof(ts),
    ensures
        !(lir_source_of(ts) is Stuck),
{
    assert(forall|p: int| 0 <= p < ts.len() - 1 ==> (#[trigger] ts[p]).0 != LTok::Eof);
    if ts[0].0 == LTok::Globals && 1 < ts.len() - 1 && ts[1].0 == LTok::Colon {
        lemma_lnames_eof(ts, 2, LTok::Semicolon);
        if let NOut::Done(g, p) = lnames_until(ts, 2, LTok::Semicolon) {
            lemma_lfunctions_eof(ts, p + 1, Seq::empty());
        }
    }
}

/// What reading a program text gives.
pub open spec fn lir_text_of(s: Seq<char>) -> NOut<SourceV> {
    lir_source_of(lir_tokens_of(s).0)
}

// ---------------------------------------------------------------------------
// Reading the tokens.

/// The tokens, as values.
pub open spec fn ltoks_v(ts: Seq<(LLexeme, Loc, Loc)>) -> Seq<(LTok, (Loc, Loc))> {
    ts.map_values(|t: (LLexeme, Loc, Loc)| (t.0@, (t.1, t.2)))
}

fn lir_word_token(w: String) -> (r: LLexeme)
    ensures
        r@ == lir_keyword(w@),
{
    proof {
        reveal_strlit("globals");
        reveal_strlit("fn");
        reveal_strlit("vars");
        reveal_strlit("jump");
        reveal_strlit("jumpif");
        reveal_strlit("call");
        reveal_strlit("native");
        reveal_strlit("return");
    }
    let t = w.as_str();
    if str_eq(t, "globals") {
        LLexeme::Globals
    } else if str_eq(t, "fn") {
        LLexeme::Fn
    } else if str_eq(t, "vars") {
        LLexeme::Vars
    } else if str_eq(t, "jump") {
        LLexeme::Jump
    } else if str_eq(t, "jumpif") {
        LLexeme::Jumpif
    } else if str_eq(t, "call") {
        LLexeme::Call
    } else if str_eq(t, "native") {
        LLexeme::Native
    } else if str_eq(t, "return") {
        LLexeme::Return
    } else {
        LLexeme::Ident(w)
    }
}

fn text_between(cs: &Vec<(char, Loc)>, i: usize, j: usize) -> (r: Vec<char>)
    requires
        i <= j <= cs@.len(),
    ensures
        r@ == text_of(cs@, i as int, j as int),
{
    let mut v: Vec<char> = Vec::new();
    let mut k = i;
    while k < j
        invariant
            i <= k <= j <= cs@.len(),
            v@ == text_of(cs@, i as int, k as int),
        decreases j - k,
    {
        v.push(cs[k].0);
        assert(text_of(cs@, i as int, k + 1) =~= text_of(cs@, i as int, k as int).push(cs@[k as int].0));
        k = k + 1;
    }
    v
}

fn scan_string(cs: &Vec<(char, Loc)>, start: usize) -> (r: Result<(usize, String), usize>)
    requires
        start <= cs@.len(),
    ensures
        match str_scan(cs@, start as int, Seq::empty()) {
            Some((j, s)) => r matches Ok((a, b)) && a == j && b@ == s,
            None => r matches Err(e) && e == str_stop(cs@, start as int),
        },
        r matches Err(e) ==> e <= cs@.len(),
{
    let n = cs.len();
    let mut acc: Vec<char> = Vec::new();
    let mut j = start;
    while j < n
        invariant
            start <= j <= n,
            n == cs@.len(),
            str_scan(cs@, start as int, Seq::empty()) == str_scan(cs@, j as int, acc@),
            str_stop(cs@, start as int) == str_stop(cs@, j as int),
        decreases n - j,
    {
        let c = cs[j].0;
        if c == '"' {
            return Ok((j + 1, from_chars(&acc)));
        } else if c == '\\' {
            if j + 1 < n {
                let d = cs[j + 1].0;
                if d == '\\' || d == '"' {
                    acc.push(d);
                } else if d == 'n' {
                    acc.push('\n');
                } else if d == 't' {
                    acc.push('\t');
                } else {
                    return Err(j + 1);
                }
                j = j + 2;
            } else {
                return Err(j + 1);
            }
        } else if is_behaved(c) {
            acc.push(c);
            j = j + 1;
        } else {
            return Err(j);
        }
    }
    Err(n)
}

fn num_value(cs: &Vec<(char, Loc)>, i: usize, j: usize, wide: bool) -> (r: Option<u64>)
    requires
        i <= j <= cs@.len(),
        forall|m: int| i <= m < j ==> ascii_digit(#[trigger] cs@[m].0),
    ensures
        match r {
            Some(v) => v == dec_value(text_of(cs@, i as int, j as int)) && v <= num_limit(wide),
            None => dec_value(text_of(cs@, i as int, j as int)) > num_limit(wide),
        },
{
    let v = text_between(cs, i, j);
    let ghost s = text_of(cs@, i as int, j as int);
    assert forall|m: int| 0 <= m < s.len() implies ascii_digit(#[trigger] s[m]) by {
        assert(s[m] == cs@[i + m].0);
    }
    let limit: u64 = if wide {
        0xffff_ffff_ffff_ffff
    } else {
        0x7fff_ffff_ffff_ffff
    };
    let mut acc: u64 = 0;
    let mut k: usize = 0;
    while k < v.len()
        invariant
            k <= v@.len(),
            v@ == s,
            s == text_of(cs@, i as int, j as int),
            forall|m: int| 0 <= m < s.len() ==> ascii_digit(#[trigger] s[m]),
            acc == dec_value(s.take(k as int)),
            acc <= limit,
            limit == num_limit(wide),
        decreases v.len() - k,
    {
        assert(s.take(k + 1).drop_last() =~= s.take(k as int));
        assert(ascii_digit(s[k as int]));
        let d = (v[k] as u32 - '0' as u32) as u64;
        if acc > (limit - d) / 10 {
            assert(dec_value(s.take(k + 1)) > limit);
            proof {
                lemma_dec_grows(s, k + 1);
            }
            return None;
        }
        acc = acc * 10 + d;
        if acc > limit {
            proof {
                lemma_dec_grows(s, k + 1);
            }
            return None;
        }
        k = k + 1;
    }
    assert(s.take(v@.len() as int) =~= s);
    Some(acc)
}

/// One step of reading: what stands at `i`.
fn lir_lex_one(cs: &Vec<(char, Loc)>, i: usize, wide: bool) -> (r: (Option<LLexeme>, usize, bool))
    requires
        i < cs@.len(),
    ensures
        match lir_lexeme(cs@, i as int, wide) {
            LLexed::Skip(j) => r.0 is None && !r.2 && r.1 == j,
            LLexed::Word(t, j) => r.0 matches Some(x) && x@ == t && !r.2 && r.1 == j,
            LLexed::Bad => r.2 && r.1 == lir_bad_at(cs@, i as int).0,
        },
        r.2 ==> r.1 <= cs@.len(),
{
    let n = cs.len();
    let c = cs[i].0;
    proof {
        lemma_runs(cs@, i + 1);
    }
    let next = if i + 1 < n {
        Some(cs[i + 1].0)
    } else {
        None
    };
    if c == ' ' || c == '\t' || c == '\n' {
        let mut j = i + 1;
        while j < n && (cs[j].0 == ' ' || cs[j].0 == '\t' || cs[j].0 == '\n')
            invariant
                i + 1 <= j <= n,
                n == cs@.len(),
                run_ws(cs@, j as int) == run_ws(cs@, i + 1),
            decreases n - j,
        {
            j = j + 1;
        }
        (None, j, false)
    } else if c == '#' {
        let mut j = i + 1;
        while j < n && is_behaved(cs[j].0)
            invariant
                i + 1 <= j <= n,
                n == cs@.len(),
                run_behaved(cs@, j as int) == run_behaved(cs@, i + 1),
            decreases n - j,
        {
            j = j + 1;
        }
        if j < n && cs[j].0 == '\n' {
            (None, j + 1, false)
        } else {
            (None, j, true)
        }
    } else if is_ascii_alpha(c) || c == '_' {
        let mut j = i + 1;
        while j < n && (is_ascii_alpha(cs[j].0) || cs[j].0 == '_' || is_ascii_digit(cs[j].0))
            invariant
                i + 1 <= j <= n,
                n == cs@.len(),
                run_word(cs@, j as int) == run_word(cs@, i + 1),
            decreases n - j,
        {
            j = j + 1;
        }
        let w = from_chars(&text_between(cs, i, j));
        (Some(lir_word_token(w)), j, false)
    } else if is_ascii_digit(c) {
        let mut j = i + 1;
        while j < n && is_ascii_digit(cs[j].0)
            invariant
                i + 1 <= j <= n,
                n == cs@.len(),
                run_digits(cs@, j as int) == run_digits(cs@, i + 1),
                forall|m: int| i <= m < j ==> ascii_digit(#[trigger] cs@[m].0),
            decreases n - j,
        {
            j = j + 1;
        }
        match num_value(cs, i, j, wide) {
            Some(v) => (Some(LLexeme::Num(v)), j, false),
            None => (None, j, true),
        }
    } else if c == '"' {
        match scan_string(cs, i + 1) {
            Ok((j, s)) => (Some(LLexeme::Str(s)), j, false),
            Err(e) => (None, e, true),
        }
    } else if c == '<' {
        if next == Some('-') {
            (Some(LLexeme::Arrow), i + 2, false)
        } else if next == Some('=') {
            (Some(LLexeme::Leq), i + 2, false)
        } else {
            (Some(LLexeme::Lt), i + 1, false)
        }
    } else if c == '>' {
        if next == Some('=') {
            (Some(LLexeme::Geq), i + 2, false)
        } else {
            (Some(LLexeme::Gt), i + 1, false)
        }
    } else if c == '!' {
        if next == Some('=') {
            (Some(LLexeme::Neq), i + 2, false)
        } else {
            (Some(LLexeme::Not), i + 1, false)
        }
    } else if c == '=' {
        if next == Some('=') {
            (Some(LLexeme::Equ), i + 2, false)
        } else {
            (None, i + 1, true)
        }
    } else if c == '&' {
        if next == Some('&') {
            (Some(LLexeme::And), i + 2, false)
        } else {
            (None, i + 1, true)
        }
    } else if c == '|' {
        if next == Some('|') {
            (Some(LLexeme::Or), i + 2, false)
        } else {
            (None, i + 1, true)
        }
    } else if c == '{' {
        (Some(LLexeme::LBracket), i + 1, false)
    } else if c == '}' {
        (Some(LLexeme::RBracket), i + 1, false)
    } else if c == '(' {
        (Some(LLexeme::LPar), i + 1, false)
    } else if c == ')' {
        (Some(LLexeme::RPar), i + 1, false)
    } else if c == '[' {
        (Some(LLexeme::LSquare), i + 1, false)
    } else if c == ']' {
        (Some(LLexeme::RSquare), i + 1, false)
    } else if c == ',' {
        (Some(LLexeme::Comma), i + 1, false)
    } else if c == ':' {
        (Some(LLexeme::Colon), i + 1, false)
    } else if c == ';' {
        (Some(LLexeme::Semicolon), i + 1, false)
    } else if c == '+' {
        (Some(LLexeme::Add), i + 1, false)
    } else if c == '-' {
        (Some(LLexeme::Sub), i + 1, false)
    } else if c == '*' {
        (Some(LLexeme::Mul), i + 1, false)
    } else if c == '%' {
        (Some(LLexeme::Mod), i + 1, false)
    } else {
        (None, i, true)
    }
}

/// The tokens of a program text, up to its end or to what the reader does
/// not take (then the flag is set).
pub fn lex_lir(contents: &str) -> (r: (Vec<(LLexeme, Loc, Loc)>, Option<(Loc, Loc, String)>))
    requires
        contents@.len() < usize::MAX,
    ensures
        ltoks_v(r.0@) == lir_tokens_of(contents@).0,
        r.1 is Some == lir_tokens_of(contents@).1,
        r.1 matches Some((a, b, m)) ==> ((a, b), m@) == lir_lex_error(contents@),
{
    lex_text(contents, false)
}

/// The tokens of a text, numbers bounded by `num_limit(wide)`, up to its
/// end or to what the reader does not take (then the flag is set).
pub fn lex_text(contents: &str, wide: bool) -> (r: (Vec<(LLexeme, Loc, Loc)>, Option<(Loc, Loc, String)>))
    requires
        contents@.len() < usize::MAX,
    ensures
        ltoks_v(r.0@) == tokens_of(contents@, wide).0,
        r.1 is Some == tokens_of(contents@, wide).1,
        r.1 matches Some((a, b, m)) ==> ((a, b), m@) == lex_error_of(contents@, wide),
{
    let mut it = LineIter::new(contents);
    let mut cs: Vec<(char, Loc)> = Vec::new();
    let ghost all = located(contents@);
    let n = it.remaining();
    let mut k: usize = 0;
    while k < n
        invariant
            k <= n,
            n == all.len(),
            it.rest() == all.skip(k as int),
            cs@ == all.take(k as int),
        decreases n - k,
    {
        let x = it.next();
        match x {
            Some(p) => {
                cs.push(p);
            },
            None => {},
        }
        assert(cs@ =~= all.take(k + 1));
        k = k + 1;
    }
    assert(cs@ =~= all);
    let ghost first = ((0usize, 1usize, 1usize), (0usize, 1usize, 1usize));
    let mut out: Vec<(LLexeme, Loc, Loc)> = Vec::new();
    let mut last: (Loc, Loc) = ((0, 1, 1), (0, 1, 1));
    let mut i: usize = 0;
    while i < n
        invariant
            i <= n,
            n == cs@.len(),
            cs@ == all,
            all == located(contents@),
            first == ((0usize, 1usize, 1usize), (0usize, 1usize, 1usize)),
            ltoks_v(out@) + lir_lex_from(cs@, i as int, last, wide).0 == lir_lex_from(cs@, 0, first, wide).0,
            lir_lex_from(cs@, i as int, last, wide).1 == lir_lex_from(cs@, 0, first, wide).1,
            lir_bad_index(cs@, i as int, wide) == lir_bad_index(cs@, 0, wide),
        decreases n - i,
    {
        proof {
            lemma_lir_lexeme(cs@, i as int, wide);
        }
        let (t, j, bad) = lir_lex_one(&cs, i, wide);
        if bad {
            assert(lir_lex_from(cs@, i as int, last, wide) == (Seq::<(LTok, (Loc, Loc))>::empty(), true));
            assert(ltoks_v(out@) =~= ltoks_v(out@) + Seq::<(LTok, (Loc, Loc))>::empty());
            assert(lir_bad_index(cs@, i as int, wide) == i);
            let msg = if is_ascii_digit(cs[i].0) {
                proof {
                    reveal_strlit("This number does not fit in 64 bits.");
                }
                String::from_str("This number does not fit in 64 bits.")
            } else {
                proof {
                    reveal_strlit("Unrecognized token at {}.");
                }
                String::from_str("Unrecognized token at {}.")
            };
            let end = if j > i {
                cs[j - 1].1
            } else {
                cs[i].1
            };
            return (out, Some((cs[i].1, end, msg)));
        }
        let sp = (cs[i].1, cs[j - 1].1);
        match t {
            None => {},
            Some(tok) => {
                let ghost before = ltoks_v(out@);
                out.push((tok, sp.0, sp.1));
                assert(ltoks_v(out@) =~= before.push((out@[out@.len() - 1].0@, sp)));
                assert(lir_lex_from(cs@, i as int, last, wide).0 =~= seq![(out@[out@.len() - 1].0@, sp)] + lir_lex_from(
                    cs@,
                    j as int,
                    sp,
                    wide,
                ).0);
                assert(ltoks_v(out@) + lir_lex_from(cs@, j as int, sp, wide).0 =~= before + lir_lex_from(cs@, i as int, last, wide).0);
            },
        }
        last = sp;
        i = j;
    }
    let ghost before = ltoks_v(out@);
    out.push((LLexeme::Eof, last.0, last.1));
    assert(ltoks_v(out@) =~= before + lir_lex_from(cs@, i as int, last, wide).0);
    (out, None)
}

// ---------------------------------------------------------------------------
// Reading the grammar.

/// A number for each kind of token.
pub open spec fn lcode_spec(t: LTok) -> int {
    match t {
        LTok::Globals => 0,
        LTok::Fn => 1,
        LTok::Vars => 2,
        LTok::Jump => 3,
        LTok::Jumpif => 4,
        LTok::Call => 5,
        LTok::Native => 6,
        LTok::Return => 7,
        LTok::LBracket => 8,
        LTok::RBracket => 9,
        LTok::LPar => 10,
        LTok::RPar => 11,
        LTok::LSquare => 12,
        LTok::RSquare => 13,
        LTok::Comma => 14,
        LTok::Colon => 15,
        LTok::Semicolon => 16,
        LTok::Arrow => 17,
        LTok::Equ => 18,
        LTok::Neq => 19,
        LTok::Lt => 20,
        LTok::Leq => 21,
        LTok::Gt => 22,
        LTok::Geq => 23,
        LTok::And => 24,
        LTok::Or => 25,
        LTok::Add => 26,
        LTok::Sub => 27,
        LTok::Mul => 28,
        LTok::Mod => 29,
        LTok::Not => 30,
        LTok::Ident(_) => 31,
        LTok::Num(_) => 32,
        LTok::Str(_) => 33,
        LTok::Eof => 34,
    }
}

/// The token carries nothing but its kind.
pub open spec fn payload_free(t: LTok) -> bool {
    !(t is Ident || t is Num || t is Str)
}

pub(crate) fn lcode(t: &LLexeme) -> (r: u8)
    ensures
        r == lcode_spec(t@),
{
    match t {
        LLexeme::Globals => 0,
        LLexeme::Fn => 1,
        LLexeme::Vars => 2,
        LLexeme::Jump => 3,
        LLexeme::Jumpif => 4,
        LLexeme::Call => 5,
        LLexeme::Native => 6,
        LLexeme::Return => 7,
        LLexeme::LBracket => 8,
        LLexeme::RBracket => 9,
        LLexeme::LPar => 10,
        LLexeme::RPar => 11,
        LLexeme::LSquare => 12,
        LLexeme::RSquare => 13,
        LLexeme::Comma => 14,
        LLexeme::Colon => 15,
        LLexeme::Semicolon => 16,
        LLexeme::Arrow => 17,
        LLexeme::Equ => 18,
        LLexeme::Neq => 19,
        LLexeme::Lt => 20,
        LLexeme::Leq => 21,
        LLexeme::Gt => 22,
        LLexeme::Geq => 23,
        LLexeme::And => 24,
        LLexeme::Or => 25,
        LLexeme::Add => 26,
        LLexeme::Sub => 27,
        LLexeme::Mul => 28,
        LLexeme::Mod => 29,
        LLexeme::Not => 30,
        LLexeme::Ident(_) => 31,
        LLexeme::Num(_) => 32,
        LLexeme::Str(_) => 33,
        LLexeme::Eof => 34,
    }
}

pub(crate) proof fn lemma_lcode(a: LTok, b: LTok)
    requires
        payload_free(b),
    ensures
        (lcode_spec(a) == lcode_spec(b)) == (a == b),
{
}

/// Whether the token at `k` is `want`, a token that carries nothing but its
/// kind.
pub(crate) fn lis(ts: &Vec<(LLexeme, Loc, Loc)>, k: usize, want: LLexeme) -> (r: bool)
    requires
        payload_free(want@),
    ensures
        r == (ltok(ltoks_v(ts@), k as int) == Some(want@)),
{
    if k < ts.len() {
        proof {
            lemma_lcode(ts@[k as int].0@, want@);
        }
        lcode(&ts[k].0) == lcode(&want)
    } else {
        false
    }
}

pub(crate) fn lunexpected_at<T>(ts: &Vec<(LLexeme, Loc, Loc)>, k: usize) -> (r: Parsed<T>)
    ensures
        agrees(r, lunexpected::<T>(ltoks_v(ts@), k as int), |x: T| x),
{
    proof {
        reveal_strlit("Unexpected token.");
    }
    if k < ts.len() {
        Parsed::Fail(ts[k].1, ts[k].2, String::from_str("Unexpected token."))
    } else {
        Parsed::Stuck
    }
}

fn lval_at(ts: &Vec<(LLexeme, Loc, Loc)>, k: usize) -> (r: Option<Val>)
    ensures
        match val_of(ltok(ltoks_v(ts@), k as int)) {
            Some(v) => r matches Some(x) && x@ == v,
            None => r is None,
        },
{
    if k >= ts.len() {
        return None;
    }
    match &ts[k].0 {
        LLexeme::Ident(s) => Some(Val::Var(s.clone())),
        LLexeme::Num(n) => Some(Val::Const(*n)),
        LLexeme::Str(s) => Some(Val::Str(s.clone())),
        _ => None,
    }
}

fn lident_at(ts: &Vec<(LLexeme, Loc, Loc)>, k: usize) -> (r: Option<String>)
    ensures
        match ltok(ltoks_v(ts@), k as int) {
            Some(LTok::Ident(s)) => r matches Some(x) && x@ == s,
            _ => r is None,
        },
{
    if k >= ts.len() {
        return None;
    }
    match &ts[k].0 {
        LLexeme::Ident(s) => Some(s.clone()),
        _ => None,
    }
}

pub(crate) fn lnum_at(ts: &Vec<(LLexeme, Loc, Loc)>, k: usize) -> (r: Option<u64>)
    ensures
        match ltok(ltoks_v(ts@), k as int) {
            Some(LTok::Num(n)) => r == Some(n),
            _ => r is None,
        },
{
    if k >= ts.len() {
        return None;
    }
    match &ts[k].0 {
        LLexeme::Num(n) => Some(*n),
        _ => None,
    }
}

fn lbin_at(ts: &Vec<(LLexeme, Loc, Loc)>, k: usize) -> (r: Option<BinOp>)
    ensures
        r == bin_of(ltok(ltoks_v(ts@), k as int)),
{
    if k >= ts.len() {
        return None;
    }
    match &ts[k].0 {
        LLexeme::Equ => Some(BinOp::Equ),
        LLexeme::Neq => Some(BinOp::Neq),
        LLexeme::Lt => Some(BinOp::Lt),
        LLexeme::Leq => Some(BinOp::Leq),
        LLexeme::Gt => Some(BinOp::Gt),
        LLexeme::Geq => Some(BinOp::Geq),
        LLexeme::And => Some(BinOp::And),
        LLexeme::Or => Some(BinOp::Or),
        LLexeme::Add => Some(BinOp::Add),
        LLexeme::Sub => Some(BinOp::Sub),
        LLexeme::Mul => Some(BinOp::Mul),
        LLexeme::Mod => Some(BinOp::Div),
        _ => None,
    }
}

fn lun_at(ts: &Vec<(LLexeme, Loc, Loc)>, k: usize) -> (r: Option<UnaryOp>)
    ensures
        r == un_of(ltok(ltoks_v(ts@), k as int)),
{
    if k >= ts.len() {
        return None;
    }
    match &ts[k].0 {
        LLexeme::Sub => Some(UnaryOp::Neg),
        LLexeme::Not => Some(UnaryOp::Not),
        _ => None,
    }
}

fn lidents_exec(ts: &Vec<(LLexeme, Loc, Loc)>, k: usize, end: LLexeme) -> (r: Parsed<Vec<String>>)
    requires
        payload_free(end@),
        ts@.len() < usize::MAX - 64,
    ensures
        agrees(r, lidents_at(ltoks_v(ts@), k as int, end@, Seq::empty()), |v: Vec<String>| names_v(v@)),
        r matches Parsed::Done(_, k2) ==> k < k2 < ts@.len(),
{
    let ghost tv = ltoks_v(ts@);
    let mut out: Vec<String> = Vec::new();
    let mut cur = k;
    assert(names_v(out@) =~= Seq::<Seq<char>>::empty());
    while cur < ts.len()
        invariant
            tv == ltoks_v(ts@),
            ts@.len() < usize::MAX - 64,
            payload_free(end@),
            k <= cur,
            lidents_at(tv, k as int, end@, Seq::empty()) == lidents_at(tv, cur as int, end@, names_v(out@)),
        decreases ts@.len() - cur,
    {
        match lident_at(ts, cur) {
            Some(n) => {
                let ghost before = names_v(out@);
                let ghost nv = n@;
                out.push(n);
                assert(names_v(out@) =~= before.push(nv));
                if cur + 1 >= ts.len() {
                    return Parsed::Stuck;
                }
                if lcode(&ts[cur + 1].0) == lcode(&end) {
                    proof {
                        lemma_lcode(ts@[cur + 1].0@, end@);
                    }
                    return Parsed::Done(out, cur + 1);
                }
                proof {
                    lemma_lcode(ts@[cur + 1].0@, end@);
                }
                if !lis(ts, cur + 1, LLexeme::Comma) {
                    return lunexpected_at(ts, cur + 1);
                }
                cur = cur + 2;
            },
            None => {
                return lunexpected_at(ts, cur);
            },
        }
    }
    lunexpected_at(ts, cur)
}

fn lnames_until_exec(ts: &Vec<(LLexeme, Loc, Loc)>, k: usize, end: LLexeme) -> (r: Parsed<Vec<String>>)
    requires
        payload_free(end@),
        ts@.len() < usize::MAX - 64,
    ensures
        agrees(r, lnames_until(ltoks_v(ts@), k as int, end@), |v: Vec<String>| names_v(v@)),
        r matches Parsed::Done(_, k2) ==> k <= k2 < ts@.len(),
{
    if k < ts.len() && lcode(&ts[k].0) == lcode(&end) {
        proof {
            lemma_lcode(ts@[k as int].0@, end@);
        }
        let out: Vec<String> = Vec::new();
        assert(names_v(out@) =~= Seq::<Seq<char>>::empty());
        return Parsed::Done(out, k);
    }
    proof {
        if k < ts@.len() {
            lemma_lcode(ts@[k as int].0@, end@);
        }
    }
    lidents_exec(ts, k, end)
}

fn lvals_exec(ts: &Vec<(LLexeme, Loc, Loc)>, k: usize) -> (r: Parsed<Vec<Val>>)
    requires
        ts@.len() < usize::MAX - 64,
    ensures
        agrees(r, lvals_at(ltoks_v(ts@), k as int, Seq::empty()), |v: Vec<Val>| super::lir::vals_view(v@)),
        r matches Parsed::Done(_, k2) ==> k < k2 < ts@.len(),
{
    let ghost tv = ltoks_v(ts@);
    let mut out: Vec<Val> = Vec::new();
    let mut cur = k;
    assert(super::lir::vals_view(out@) =~= Seq::<ValV>::empty());
    while cur < ts.len()
        invariant
            tv == ltoks_v(ts@),
            ts@.len() < usize::MAX - 64,
            k <= cur,
            lvals_at(tv, k as int, Seq::empty()) == lvals_at(tv, cur as int, super::lir::vals_view(out@)),
        decreases ts@.len() - cur,
    {
        match lval_at(ts, cur) {
            Some(v) => {
                let ghost before = super::lir::vals_view(out@);
                let ghost vv = v@;
                out.push(v);
                assert(super::lir::vals_view(out@) =~= before.push(vv));
                if cur + 1 >= ts.len() {
                    return Parsed::Stuck;
                }
                if lis(ts, cur + 1, LLexeme::RPar) {
                    return Parsed::Done(out, cur + 1);
                }
                if !lis(ts, cur + 1, LLexeme::Comma) {
                    return lunexpected_at(ts, cur + 1);
                }
                cur = cur + 2;
            },
            None => {
                return lunexpected_at(ts, cur);
            },
        }
    }
    lunexpected_at(ts, cur)
}

/// The destinations of a call, as values.
pub open spec fn dest_v(d: Option<(String, String)>) -> Option<(Seq<char>, Seq<char>)> {
    match d {
        Some((a, b)) => Some((a@, b@)),
        None => None,
    }
}

fn lcall_exec(ts: &Vec<(LLexeme, Loc, Loc)>, k: usize, dest: Option<(String, String)>) -> (r: Parsed<Statement>)
    requires
        k < ts@.len(),
        ts@.len() < usize::MAX - 64,
    ensures
        agrees(r, lcall_at(ltoks_v(ts@), k as int, dest_v(dest)), |s: Statement| s@),
        r matches Parsed::Done(_, k2) ==> k < k2 <= ts@.len(),
{
    let native = lis(ts, k + 1, LLexeme::Native);
    let f = if native {
        k + 2
    } else {
        k + 1
    };
    let name = match lident_at(ts, f) {
        Some(n) => n,
        None => {
            return lunexpected_at(ts, f);
        },
    };
    if !lis(ts, f + 1, LLexeme::LPar) {
        return lunexpected_at(ts, f + 1);
    }
    let (vals, r) = if lis(ts, f + 2, LLexeme::RPar) {
        let v: Vec<Val> = Vec::new();
        assert(super::lir::vals_view(v@) =~= Seq::<ValV>::empty());
        (v, f + 2)
    } else {
        match lvals_exec(ts, f + 2) {
            Parsed::Done(v, r) => (v, r),
            Parsed::Fail(a, b, m) => {
                return Parsed::Fail(a, b, m);
            },
            Parsed::Stuck => {
                return Parsed::Stuck;
            },
        }
    };
    if !lis(ts, r + 1, LLexeme::Semicolon) {
        return lunexpected_at(ts, r + 1);
    }
    Parsed::Done(Statement::Inst(Instruction::Call(dest, native, name, vals)), r + 2)
}

fn lstore_exec(ts: &Vec<(LLexeme, Loc, Loc)>, k: usize, v: Val) -> (r: Parsed<Statement>)
    requires
        k < ts@.len(),
        ts@.len() < usize::MAX - 64,
    ensures
        agrees(r, lstore_at(ltoks_v(ts@), k as int, v@), |s: Statement| s@),
        r matches Parsed::Done(_, k2) ==> k < k2 <= ts@.len(),
{
    if !lis(ts, k + 1, LLexeme::LSquare) {
        return lunexpected_at(ts, k + 1);
    }
    let i = match lnum_at(ts, k + 2) {
        Some(i) => i,
        None => {
            return lunexpected_at(ts, k + 2);
        },
    };
    if !lis(ts, k + 3, LLexeme::RSquare) {
        return lunexpected_at(ts, k + 3);
    }
    if !lis(ts, k + 4, LLexeme::Arrow) {
        return lunexpected_at(ts, k + 4);
    }
    let w = match lval_at(ts, k + 5) {
        Some(w) => w,
        None => {
            return lunexpected_at(ts, k + 5);
        },
    };
    if !lis(ts, k + 6, LLexeme::Semicolon) {
        return lunexpected_at(ts, k + 6);
    }
    Parsed::Done(Statement::Inst(Instruction::AssignArray(v, i, w)), k + 7)
}

fn lassign_exec(ts: &Vec<(LLexeme, Loc, Loc)>, k: usize, x: String) -> (r: Parsed<Statement>)
    requires
        k < ts@.len(),
        ts@.len() < usize::MAX - 64,
    ensures
        agrees(r, lassign_at(ltoks_v(ts@), k as int, x@), |s: Statement| s@),
        r matches Parsed::Done(_, k2) ==> k < k2 <= ts@.len(),
{
    match lun_at(ts, k + 2) {
        Some(op) => {
            let a = match lval_at(ts, k + 3) {
                Some(a) => a,
                None => {
                    return lunexpected_at(ts, k + 3);
                },
            };
            if !lis(ts, k + 4, LLexeme::Semicolon) {
                return lunexpected_at(ts, k + 4);
            }
            Parsed::Done(Statement::Inst(Instruction::Unary(x, op, a)), k + 5)
        },
        None => {
            let a = match lval_at(ts, k + 2) {
                Some(a) => a,
                None => {
                    return lunexpected_at(ts, k + 2);
                },
            };
            match lbin_at(ts, k + 3) {
                Some(op) => {
                    let b = match lval_at(ts, k + 4) {
                        Some(b) => b,
                        None => {
                            return lunexpected_at(ts, k + 4);
                        },
                    };
                    if !lis(ts, k + 5, LLexeme::Semicolon) {
                        return lunexpected_at(ts, k + 5);
                    }
                    Parsed::Done(Statement::Inst(Instruction::Bin(x, op, a, b)), k + 6)
                },
                None => {
                    if lis(ts, k + 3, LLexeme::Semicolon) {
                        return Parsed::Done(Statement::Inst(Instruction::Mov(x, a)), k + 4);
                    }
                    if !lis(ts, k + 3, LLexeme::LSquare) {
                        return lunexpected_at(ts, k + 3);
                    }
                    let i = match lnum_at(ts, k + 4) {
                        Some(i) => i,
                        None => {
                            return lunexpected_at(ts, k + 4);
                        },
                    };
                    if !lis(ts, k + 5, LLexeme::RSquare) {
                        return lunexpected_at(ts, k + 5);
                    }
                    if !lis(ts, k + 6, LLexeme::Semicolon) {
                        return lunexpected_at(ts, k + 6);
                    }
                    Parsed::Done(Statement::Inst(Instruction::Access(x, a, i)), k + 7)
                },
            }
        },
    }
}

#[verifier::spinoff_prover]
#[verifier::rlimit(40)]
fn lstmt_exec(ts: &Vec<(LLexeme, Loc, Loc)>, k: usize) -> (r: Parsed<Statement>)
    requires
        k < ts@.len(),
        ts@.len() < usize::MAX - 64,
    ensures
        agrees(r, lstmt_at(ltoks_v(ts@), k as int), |s: Statement| s@),
        r matches Parsed::Done(_, k2) ==> k < k2 <= ts@.len(),
{
    match &ts[k].0 {
        LLexeme::Ident(x) => {
            if lis(ts, k + 1, LLexeme::Colon) {
                return Parsed::Done(Statement::Label(Label::new(x.clone())), k + 2);
            }
            if lis(ts, k + 1, LLexeme::Arrow) {
                return lassign_exec(ts, k, x.clone());
            }
            if lis(ts, k + 1, LLexeme::LSquare) {
                return lstore_exec(ts, k, Val::Var(x.clone()));
            }
            lunexpected_at(ts, k + 1)
        },
        LLexeme::Num(n) => lstore_exec(ts, k, Val::Const(*n)),
        LLexeme::Str(s) => lstore_exec(ts, k, Val::Str(s.clone())),
        LLexeme::Jump => {
            let l = match lident_at(ts, k + 1) {
                Some(l) => l,
                None => {
                    return lunexpected_at(ts, k + 1);
                },
            };
            if !lis(ts, k + 2, LLexeme::Semicolon) {
                return lunexpected_at(ts, k + 2);
            }
            Parsed::Done(Statement::Inst(Instruction::Jump(Label::new(l))), k + 3)
        },
        LLexeme::Jumpif => {
            let neg = lis(ts, k + 1, LLexeme::Not);
            let v = if neg {
                k + 2
            } else {
                k + 1
            };
            let c = match lval_at(ts, v) {
                Some(c) => c,
                None => {
                    return lunexpected_at(ts, v);
                },
            };
            let l = match lident_at(ts, v + 1) {
                Some(l) => l,
                None => {
                    return lunexpected_at(ts, v + 1);
                },
            };
            if !lis(ts, v + 2, LLexeme::Semicolon) {
                return lunexpected_at(ts, v + 2);
            }
            if neg {
                Parsed::Done(Statement::Inst(Instruction::JumpifNot(c, Label::new(l))), v + 3)
            } else {
                Parsed::Done(Statement::Inst(Instruction::Jumpif(c, Label::new(l))), v + 3)
            }
        },
        LLexeme::Call => lcall_exec(ts, k, None),
        LLexeme::LPar => {
            let d1 = match lident_at(ts, k + 1) {
                Some(d) => d,
                None => {
                    return lunexpected_at(ts, k + 1);
                },
            };
            if !lis(ts, k + 2, LLexeme::Comma) {
                return lunexpected_at(ts, k + 2);
            }
            let d2 = match lident_at(ts, k + 3) {
                Some(d) => d,
                None => {
                    return lunexpected_at(ts, k + 3);
                },
            };
            if !lis(ts, k + 4, LLexeme::RPar) {
                return lunexpected_at(ts, k + 4);
            }
            if !lis(ts, k + 5, LLexeme::Arrow) {
                return lunexpected_at(ts, k + 5);
            }
            if !lis(ts, k + 6, LLexeme::Call) {
                return lunexpected_at(ts, k + 6);
            }
            lcall_exec(ts, k + 6, Some((d1, d2)))
        },
        LLexeme::Return => {
            let a = match lval_at(ts, k + 1) {
                Some(a) => a,
                None => {
                    return lunexpected_at(ts, k + 1);
                },
            };
            if !lis(ts, k + 2, LLexeme::Comma) {
                return lunexpected_at(ts, k + 2);
            }
            let b = match lval_at(ts, k + 3) {
                Some(b) => b,
                None => {
                    return lunexpected_at(ts, k + 3);
                },
            };
            if !lis(ts, k + 4, LLexeme::Semicolon) {
                return lunexpected_at(ts, k + 4);
            }
            Parsed::Done(Statement::Inst(Instruction::Return(a, b)), k + 5)
        },
        _ => lunexpected_at(ts, k),
    }
}

fn lstmts_exec(ts: &Vec<(LLexeme, Loc, Loc)>, k: usize) -> (r: Parsed<Vec<Statement>>)
    requires
        ts@.len() < usize::MAX - 64,
    ensures
        agrees(r, lstmts_at(ltoks_v(ts@), k as int, Seq::empty()), |v: Vec<Statement>| super::lir::stmts_view(v@)),
        r matches Parsed::Done(_, k2) ==> k <= k2 < ts@.len(),
{
    let ghost tv = ltoks_v(ts@);
    let mut out: Vec<Statement> = Vec::new();
    let mut cur = k;
    assert(super::lir::stmts_view(out@) =~= Seq::<StmtV>::empty());
    while cur < ts.len()
        invariant
            tv == ltoks_v(ts@),
            ts@.len() < usize::MAX - 64,
            k <= cur,
            lstmts_at(tv, k as int, Seq::empty()) == lstmts_at(tv, cur as int, super::lir::stmts_view(out@)),
        decreases ts@.len() - cur,
    {
        if lis(ts, cur, LLexeme::RBracket) {
            return Parsed::Done(out, cur);
        }
        match lstmt_exec(ts, cur) {
            Parsed::Done(st, k2) => {
                let ghost before = super::lir::stmts_view(out@);
                let ghost sv = st@;
                out.push(st);
                assert(super::lir::stmts_view(out@) =~= before.push(sv));
                cur = k2;
            },
            Parsed::Fail(a, b, m) => {
                return Parsed::Fail(a, b, m);
            },
            Parsed::Stuck => {
                return Parsed::Stuck;
            },
        }
    }
    Parsed::Stuck
}

fn lfunction_exec(ts: &Vec<(LLexeme, Loc, Loc)>, k: usize) -> (r: Parsed<Function>)
    requires
        k < ts@.len(),
        ts@.len() < usize::MAX - 64,
    ensures
        agrees(r, lfunction_at(ltoks_v(ts@), k as int), |f: Function| fn_v(f)),
        r matches Parsed::Done(_, k2) ==> k < k2 <= ts@.len(),
{
    let name = match lident_at(ts, k + 1) {
        Some(n) => n,
        None => {
            return lunexpected_at(ts, k + 1);
        },
    };
    if !lis(ts, k + 2, LLexeme::LPar) {
        return lunexpected_at(ts, k + 2);
    }
    let (args, p) = match lnames_until_exec(ts, k + 3, LLexeme::RPar) {
        Parsed::Done(a, p) => (a, p),
        Parsed::Fail(a, b, m) => {
            return Parsed::Fail(a, b, m);
        },
        Parsed::Stuck => {
            return Parsed::Stuck;
        },
    };
    if !lis(ts, p + 1, LLexeme::Vars) {
        return lunexpected_at(ts, p + 1);
    }
    if !lis(ts, p + 2, LLexeme::Colon) {
        return lunexpected_at(ts, p + 2);
    }
    let (vars, q) = match lnames_until_exec(ts, p + 3, LLexeme::Semicolon) {
        Parsed::Done(a, q) => (a, q),
        Parsed::Fail(a, b, m) => {
            return Parsed::Fail(a, b, m);
        },
        Parsed::Stuck => {
            return Parsed::Stuck;
        },
    };
    if !lis(ts, q + 1, LLexeme::LBracket) {
        return lunexpected_at(ts, q + 1);
    }
    match lstmts_exec(ts, q + 2) {
        Parsed::Done(body, e) => Parsed::Done(Function::new(name, args, vars, Block::new(body)), e + 1),
        Parsed::Fail(a, b, m) => Parsed::Fail(a, b, m),
        Parsed::Stuck => Parsed::Stuck,
    }
}

fn lfunctions_exec(ts: &Vec<(LLexeme, Loc, Loc)>, k: usize) -> (r: Parsed<Vec<Function>>)
    requires
        ts@.len() < usize::MAX - 64,
    ensures
        agrees(
            r,
            lfunctions_at(ltoks_v(ts@), k as int, Seq::empty()),
            |v: Vec<Function>| v@.map_values(|f: Function| fn_v(f)),
        ),
{
    let ghost tv = ltoks_v(ts@);
    let mut out: Vec<Function> = Vec::new();
    let mut cur = k;
    assert(out@.map_values(|f: Function| fn_v(f)) =~= Seq::<FnV>::empty());
    while cur < ts.len()
        invariant
            tv == ltoks_v(ts@),
            ts@.len() < usize::MAX - 64,
            lfunctions_at(tv, k as int, Seq::empty()) == lfunctions_at(tv, cur as int, out@.map_values(|f: Function| fn_v(f))),
        decreases ts@.len() - cur,
    {
        if lis(ts, cur, LLexeme::Eof) {
            return Parsed::Done(out, cur);
        }
        if !lis(ts, cur, LLexeme::Fn) {
            return lunexpected_at(ts, cur);
        }
        match lfunction_exec(ts, cur) {
            Parsed::Done(f, k2) => {
                let ghost before = out@.map_values(|f: Function| fn_v(f));
                let ghost fv = fn_v(f);
                out.push(f);
                assert(out@.map_values(|f: Function| fn_v(f)) =~= before.push(fv));
                cur = k2;
            },
            Parsed::Fail(a, b, m) => {
                return Parsed::Fail(a, b, m);
            },
            Parsed::Stuck => {
                return Parsed::Stuck;
            },
        }
    }
    Parsed::Stuck
}

fn lsource_exec(ts: &Vec<(LLexeme, Loc, Loc)>) -> (r: Parsed<Source>)
    requires
        ts@.len() < usize::MAX - 64,
    ensures
        agrees(r, lir_source_of(ltoks_v(ts@)), |s: Source| source_v(s)),
{
    proof {
        reveal_strlit("Expected a program");
    }
    if ts.len() == 0 {
        return Parsed::Stuck;
    }
    if lis(ts, 0, LLexeme::Eof) {
        return Parsed::Fail(ts[0].1, ts[0].2, String::from_str("Expected a program"));
    }
    if !lis(ts, 0, LLexeme::Globals) {
        return lunexpected_at(ts, 0);
    }
    if !lis(ts, 1, LLexeme::Colon) {
        return lunexpected_at(ts, 1);
    }
    let (globals, p) = match lnames_until_exec(ts, 2, LLexeme::Semicolon) {
        Parsed::Done(g, p) => (g, p),
        Parsed::Fail(a, b, m) => {
            return Parsed::Fail(a, b, m);
        },
        Parsed::Stuck => {
            return Parsed::Stuck;
        },
    };
    match lfunctions_exec(ts, p + 1) {
        Parsed::Done(fs, e) => Parsed::Done(Source::new(globals, fs), e),
        Parsed::Fail(a, b, m) => Parsed::Fail(a, b, m),
        Parsed::Stuck => Parsed::Stuck,
    }
}

pub(crate) proof fn lemma_lir_lex_len(cs: Seq<(char, Loc)>, i: int, last: (Loc, Loc), wide: bool)
    requires
        0 <= i <= cs.len(),
    ensures
        lir_lex_from(cs, i, last, wide).0.len() <= cs.len() - i + 1,
    decreases cs.len() - i,
{
    if i < cs.len() {
        lemma_lir_lexeme(cs, i, wide);
        match lir_lexeme(cs, i, wide) {
            LLexed::Skip(j) => {
                lemma_lir_lex_len(cs, j, (cs[i].1, cs[j - 1].1), wide);
            },
            LLexed::Word(t, j) => {
                lemma_lir_lex_len(cs, j, (cs[i].1, cs[j - 1].1), wide);
            },
            LLexed::Bad => {},
        }
    }
}

/// What reading a program text gives: the program, or the first error
/// with its region, which is that of the text the reader does not take
/// where the grammar reaches it.
pub open spec fn lir_read_outcome<'a>(file_name: &'a str, s: Seq<char>, r: Result<Source, ReadError<'a>>) -> bool {
    match lir_text_of(s) {
        NOut::Done(v, _) => r matches Ok(x) && source_v(x) == v,
        NOut::Fail(sp, m) => r matches Err(e) && e.spec_span() == (Span { file: file_name, start: sp.0, end: sp.1 })
            && e.spec_message() == m,
        NOut::Stuck => r matches Err(e) && e.spec_span() == (Span {
            file: file_name,
            start: lir_lex_error(s).0.0,
            end: lir_lex_error(s).0.1,
        }) && e.spec_message() == lir_lex_error(s).1,
    }
}

/// Reads a program of the low-level language: the program, or the first
/// error with its region.
pub fn parse_lir<'a>(file_name: &'a str, contents: &'a str) -> (r: Result<Source, ReadError<'a>>)
    requires
        contents@.len() < usize::MAX - 128,
    ensures
        lir_read_outcome(file_name, contents@, r),
{
    let (ts, bad) = lex_lir(contents);
    proof {
        lemma_lir_lex_len(located(contents@), 0, ((0usize, 1usize, 1usize), (0usize, 1usize, 1usize)), false);
    }
    match lsource_exec(&ts) {
        Parsed::Done(s, _) => Ok(s),
        Parsed::Fail(a, b, m) => Err(ReadError::from((Span { file: file_name, start: a, end: b }, m))),
        Parsed::Stuck => {
            proof {
                lemma_lir_lex_eof(located(contents@), 0, ((0usize, 1usize, 1usize), (0usize, 1usize, 1usize)), false);
                if bad is None {
                    lemma_lir_source_eof(lir_tokens_of(contents@).0);
                }
            }
            match bad {
                Some((a, b, m)) => Err(ReadError::from((Span { file: file_name, start: a, end: b }, m))),
                None => {
                    proof {
                        assert(false);
                    }
                    Err(ReadError::from((Span { file: file_name, start: (0, 1, 1), end: (0, 1, 1) }, String::new())))
                },
            }
        },
    }
}

} // verus!
