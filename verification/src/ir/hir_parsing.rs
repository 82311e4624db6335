use vstd::prelude::*;

use crate::automata::line_counter::{located, Loc, Span};
use crate::automata::read_error::ReadError;
use crate::sim::parsing::{agrees, NOut, Parsed};
use crate::text::{owned, str_eq};
use super::hir::{type_v, BinOp, Type, TypeV};
use super::lir_parsing::{
    ends_before_eof, ends_with_eof, lemma_lir_lex_eof, lemma_lir_lex_len, lex_error_of, lex_text, lis, lnum_at,
    ltok, ltoks_v, lunexpected, lunexpected_at, tokens_of, LLexeme, LTok,
};

verus! {

// ---------------------------------------------------------------------------
// The tree that a text of the high-level language denotes.

/// A value: a variable, a constant given by its type number and its value,
/// or a string.
pub enum HirVal {
    Var(String),
    Const(u64, u64),
    Str(String),
}

/// What a statement computes: an operation on two values, a value, a value
/// cast to a type, or the word at an index of a value.
pub enum HirCallable {
    Bin(BinOp, HirVal, HirVal),
    Assign(HirVal),
    Cast(HirVal, Type),
    Access(HirVal, u64),
}

/// A statement: a computation stored into a variable, a return, a test or a
/// loop.
pub enum HirStatement {
    Call(String, HirCallable),
    Return(HirVal),
    If(HirVal, Vec<HirStatement>, Vec<HirStatement>),
    While(HirVal, Vec<HirStatement>),
}

/// A function: its name, its arguments and its body.
pub struct HirFunction {
    pub name: String,
    pub args: Vec<String>,
    pub body: Vec<HirStatement>,
}

/// A value, as a value.
pub enum HValV {
    Var(Seq<char>),
    Const(u64, u64),
    Str(Seq<char>),
}

/// What a statement computes, as a value.
pub enum HCallV {
    Bin(BinOp, HValV, HValV),
    Assign(HValV),
    Cast(HValV, TypeV),
    Access(HValV, u64),
}

/// A statement, as a value.
pub enum HStmtV {
    Call(Seq<char>, HCallV),
    Return(HValV),
    If(HValV, Seq<HStmtV>, Seq<HStmtV>),
    While(HValV, Seq<HStmtV>),
}

/// A function, as a value: its name, arguments and statements.
pub type HFnV = (Seq<char>, Seq<Seq<char>>, Seq<HStmtV>);

pub open spec fn hval_v(v: HirVal) -> HValV {
    match v {
        HirVal::Var(s) => HValV::Var(s@),
        HirVal::Const(t, c) => HValV::Const(t, c),
        HirVal::Str(s) => HValV::Str(s@),
    }
}

pub open spec fn hcall_v(c: HirCallable) -> HCallV {
    match c {
        HirCallable::Bin(op, a, b) => HCallV::Bin(op, hval_v(a), hval_v(b)),
        HirCallable::Assign(a) => HCallV::Assign(hval_v(a)),
        HirCallable::Cast(a, t) => HCallV::Cast(hval_v(a), type_v(t)),
        HirCallable::Access(a, i) => HCallV::Access(hval_v(a), i),
    }
}

pub open spec fn hstmt_v(s: HirStatement) -> HStmtV
    decreases s, 1int,
{
    match s {
        HirStatement::Call(x, c) => HStmtV::Call(x@, hcall_v(c)),
        HirStatement::Return(v) => HStmtV::Return(hval_v(v)),
        HirStatement::If(v, b1, b2) => {
            proof {
                assert(decreases_to!(s => b1@));
                assert(decreases_to!(s => b2@));
            }
            HStmtV::If(hval_v(v), hstmts_v(b1@, b1@.len() as int), hstmts_v(b2@, b2@.len() as int))
        },
        HirStatement::While(v, b) => {
            proof {
                assert(decreases_to!(s => b@));
            }
            HStmtV::While(hval_v(v), hstmts_v(b@, b@.len() as int))
        },
    }
}

/// The first `k` statements, as values.
pub open spec fn hstmts_v(s: Seq<HirStatement>, k: int) -> Seq<HStmtV>
    decreases s, k,
{
    if k <= 0 || k > s.len() {
        Seq::empty()
    } else {
        hstmts_v(s, k - 1).push(hstmt_v(s[k - 1]))
    }
}

pub open spec fn hnames_v(v: Seq<String>) -> Seq<Seq<char>> {
    v.map_values(|s: String| s@)
}

pub open spec fn hfn_v(f: HirFunction) -> HFnV {
    (f.name@, hnames_v(f.args@), hstmts_v(f.body@, f.body@.len() as int))
}

pub open spec fn hfns_v(fs: Seq<HirFunction>) -> Seq<HFnV> {
    fs.map_values(|f: HirFunction| hfn_v(f))
}

// ---------------------------------------------------------------------------
// The grammar, over the tokens of the text (numbers up to the largest
// unsigned 64-bit number).

/// A word that the high-level language keeps for itself beyond those the
/// tokens already tell apart.
pub open spec fn hir_keyword(w: Seq<char>) -> bool {
    ||| w == "if"@
    ||| w == "else"@
    ||| w == "while"@
    ||| w == "Int64"@
    ||| w == "Bool"@
    ||| w == "Str"@
    ||| w == "struct"@
}

/// The name a token stands for: a word that is not a keyword of the
/// high-level language.
pub open spec fn hname(t: Option<LTok>) -> Option<Seq<char>> {
    match t {
        Some(LTok::Ident(w)) => if hir_keyword(w) {
            None
        } else {
            Some(w)
        },
        Some(LTok::Globals) => Some("globals"@),
        Some(LTok::Vars) => Some("vars"@),
        Some(LTok::Native) => Some("native"@),
        _ => None,
    }
}

/// The token is the keyword `w`.
pub open spec fn hword(t: Option<LTok>, w: Seq<char>) -> bool {
    t == Some(LTok::Ident(w))
}

/// The operator a token stands for between two values.
pub open spec fn hbin_of(t: Option<LTok>) -> Option<BinOp> {
    match t {
        Some(LTok::Equ) => Some(BinOp::Equ),
        Some(LTok::Neq) => Some(BinOp::Neq),
        Some(LTok::Lt) => Some(BinOp::Lt),
        Some(LTok::Leq) => Some(BinOp::Leq),
        Some(LTok::Gt) => Some(BinOp::Gt),
        Some(LTok::Geq) => Some(BinOp::Geq),
        Some(LTok::And) => Some(BinOp::And),
        Some(LTok::Or) => Some(BinOp::Or),
        Some(LTok::Add) => Some(BinOp::Add),
        Some(LTok::Sub) => Some(BinOp::Sub),
        Some(LTok::Mul) => Some(BinOp::Mul),
        Some(LTok::Mod) => Some(BinOp::Div),
        _ => None,
    }
}

/// A value at `k`: a name, a string, or `(type, value)`.
pub open spec fn hval_at(ts: Seq<(LTok, (Loc, Loc))>, k: int) -> NOut<HValV> {
    match hname(ltok(ts, k)) {
        Some(n) => NOut::Done(HValV::Var(n), k + 1),
        None => match ltok(ts, k) {
            Some(LTok::Str(s)) => NOut::Done(HValV::Str(s), k + 1),
            Some(LTok::LPar) => match ltok(ts, k + 1) {
                Some(LTok::Num(u)) => if ltok(ts, k + 2) != Some(LTok::Comma) {
                    lunexpected(ts, k + 2)
                } else {
                    match ltok(ts, k + 3) {
                        Some(LTok::Num(v)) => if ltok(ts, k + 4) != Some(LTok::RPar) {
                            lunexpected(ts, k + 4)
                        } else {
                            NOut::Done(HValV::Const(u, v), k + 5)
                        },
                        _ => lunexpected(ts, k + 3),
                    }
                },
                _ => lunexpected(ts, k + 1),
            },
            _ => lunexpected(ts, k),
        },
    }
}

/// The token starts a type.
pub open spec fn starts_type(t: Option<LTok>) -> bool {
    hword(t, "Int64"@) || hword(t, "Bool"@) || hword(t, "Str"@) || hword(t, "struct"@)
}

/// A type at `k`.
pub open spec fn hty_at(ts: Seq<(LTok, (Loc, Loc))>, k: int) -> NOut<TypeV> {
    if hword(ltok(ts, k), "Int64"@) {
        NOut::Done(TypeV::Int64, k + 1)
    } else if hword(ltok(ts, k), "Bool"@) {
        NOut::Done(TypeV::Bool, k + 1)
    } else if hword(ltok(ts, k), "Str"@) {
        NOut::Done(TypeV::Str, k + 1)
    } else if hword(ltok(ts, k), "struct"@) {
        match hname(ltok(ts, k + 1)) {
            Some(n) => NOut::Done(TypeV::Struct(n), k + 2),
            None => lunexpected(ts, k + 1),
        }
    } else {
        lunexpected(ts, k)
    }
}

/// What is computed from `k` on: `(type) value`, `a op b`, `a[i]` or a
/// value.
pub open spec fn hcall_at(ts: Seq<(LTok, (Loc, Loc))>, k: int) -> NOut<HCallV> {
    if ltok(ts, k) == Some(LTok::LPar) && starts_type(ltok(ts, k + 1)) {
        match hty_at(ts, k + 1) {
            NOut::Done(t, p) => if ltok(ts, p) != Some(LTok::RPar) {
                lunexpected(ts, p)
            } else {
                match hval_at(ts, p + 1) {
                    NOut::Done(v, q) => NOut::Done(HCallV::Cast(v, t), q),
                    NOut::Fail(s, m) => NOut::Fail(s, m),
                    NOut::Stuck => NOut::Stuck,
                }
            },
            NOut::Fail(s, m) => NOut::Fail(s, m),
            NOut::Stuck => NOut::Stuck,
        }
    } else {
        match hval_at(ts, k) {
            NOut::Done(a, p) => match hbin_of(ltok(ts, p)) {
                Some(op) => match hval_at(ts, p + 1) {
                    NOut::Done(b, q) => NOut::Done(HCallV::Bin(op, a, b), q),
                    NOut::Fail(s, m) => NOut::Fail(s, m),
                    NOut::Stuck => NOut::Stuck,
                },
                None => if ltok(ts, p) == Some(LTok::LSquare) {
                    match ltok(ts, p + 1) {
                        Some(LTok::Num(i)) => if ltok(ts, p + 2) != Some(LTok::RSquare) {
                            lunexpected(ts, p + 2)
                        } else {
                            NOut::Done(HCallV::Access(a, i), p + 3)
                        },
                        _ => lunexpected(ts, p + 1),
                    }
                } else {
                    NOut::Done(HCallV::Assign(a), p)
                },
            },
            NOut::Fail(s, m) => NOut::Fail(s, m),
            NOut::Stuck => NOut::Stuck,
        }
    }
}

/// A statement at `k`.
pub open spec fn hstmt_at(ts: Seq<(LTok, (Loc, Loc))>, k: int) -> NOut<HStmtV>
    decreases ts.len() - k, 0int,
{
    match hname(ltok(ts, k)) {
        Some(x) => if ltok(ts, k + 1) != Some(LTok::Arrow) {
            lunexpected(ts, k + 1)
        } else {
            match hcall_at(ts, k + 2) {
                NOut::Done(c, p) => if ltok(ts, p) != Some(LTok::Semicolon) {
                    lunexpected(ts, p)
                } else {
                    NOut::Done(HStmtV::Call(x, c), p + 1)
                },
                NOut::Fail(s, m) => NOut::Fail(s, m),
                NOut::Stuck => NOut::Stuck,
            }
        },
        None => if ltok(ts, k) == Some(LTok::Return) {
            match hval_at(ts, k + 1) {
                NOut::Done(v, p) => NOut::Done(HStmtV::Return(v), p),
                NOut::Fail(s, m) => NOut::Fail(s, m),
                NOut::Stuck => NOut::Stuck,
            }
        } else if hword(ltok(ts, k), "if"@) || hword(ltok(ts, k), "while"@) {
            match hval_at(ts, k + 1) {
                NOut::Done(v, p) => if !(k < p <= ts.len()) {
                    NOut::Stuck
                } else {
                    match hblock_at(ts, p) {
                        NOut::Done(b1, q) => if hword(ltok(ts, k), "while"@) {
                            NOut::Done(HStmtV::While(v, b1), q)
                        } else if !hword(ltok(ts, q), "else"@) {
                            lunexpected(ts, q)
                        } else if !(k < q + 1 <= ts.len()) {
                            NOut::Stuck
                        } else {
                            match hblock_at(ts, q + 1) {
                                NOut::Done(b2, r) => NOut::Done(HStmtV::If(v, b1, b2), r),
                                NOut::Fail(s, m) => NOut::Fail(s, m),
                                NOut::Stuck => NOut::Stuck,
                            }
                        },
                        NOut::Fail(s, m) => NOut::Fail(s, m),
                        NOut::Stuck => NOut::Stuck,
                    }
                },
                NOut::Fail(s, m) => NOut::Fail(s, m),
                NOut::Stuck => NOut::Stuck,
            }
        } else {
            lunexpected(ts, k)
        },
    }
}

/// Statements from `k` on, up to `}`: the statements and the index of the
/// `}`.
pub open spec fn hstmts_at(ts: Seq<(LTok, (Loc, Loc))>, k: int, acc: Seq<HStmtV>) -> NOut<Seq<HStmtV>>
    decreases ts.len() - k, 1int,
{
    if k < 0 || k >= ts.len() {
        NOut::Stuck
    } else if ts[k].0 == LTok::RBracket {
        NOut::Done(acc, k)
    } else {
        match hstmt_at(ts, k) {
            NOut::Done(st, k2) => if k < k2 && k2 <= ts.len() {
                hstmts_at(ts, k2, acc.push(st))
            } else {
                NOut::Stuck
            },
            NOut::Fail(s, m) => NOut::Fail(s, m),
            NOut::Stuck => NOut::Stuck,
        }
    }
}

/// A block at `k`: `{`, statements, `}`; the index after it.
pub open spec fn hblock_at(ts: Seq<(LTok, (Loc, Loc))>, k: int) -> NOut<Seq<HStmtV>>
    decreases ts.len() - k, 2int,
{
    if ltok(ts, k) != Some(LTok::LBracket) {
        lunexpected(ts, k)
    } else {
        match hstmts_at(ts, k + 1, Seq::empty()) {
            NOut::Done(ss, e) => NOut::Done(ss, e + 1),
            NOut::Fail(s, m) => NOut::Fail(s, m),
            NOut::Stuck => NOut::Stuck,
        }
    }
}

/// Names separated by commas, ended by `)`: the names and the index of the
/// `)`.
pub open spec fn hnames_at(ts: Seq<(LTok, (Loc, Loc))>, k: int, acc: Seq<Seq<char>>) -> NOut<Seq<Seq<char>>>
    decreases ts.len() - k,
{
    match hname(ltok(ts, k)) {
        Some(n) => match ltok(ts, k + 1) {
            None => NOut::Stuck,
            Some(LTok::RPar) => NOut::Done(acc.push(n), k + 1),
            Some(LTok::Comma) => hnames_at(ts, k + 2, acc.push(n)),
            _ => lunexpected(ts, k + 1),
        },
        None => lunexpected(ts, k),
    }
}

/// A function from its `fn` keyword at `k`.
pub open spec fn hfunction_at(ts: Seq<(LTok, (Loc, Loc))>, k: int) -> NOut<HFnV> {
    match hname(ltok(ts, k + 1)) {
        Some(name) => if ltok(ts, k + 2) != Some(LTok::LPar) {
            lunexpected(ts, k + 2)
        } else {
            let args = if ltok(ts, k + 3) == Some(LTok::RPar) {
                NOut::Done(Seq::empty(), k + 3)
            } else {
                hnames_at(ts, k + 3, Seq::empty())
            };
            match args {
                NOut::Done(a, p) => match hblock_at(ts, p + 1) {
                    NOut::Done(body, e) => NOut::Done((name, a, body), e),
                    NOut::Fail(s, m) => NOut::Fail(s, m),
                    NOut::Stuck => NOut::Stuck,
                },
                NOut::Fail(s, m) => NOut::Fail(s, m),
                NOut::Stuck => NOut::Stuck,
            }
        },
        None => lunexpected(ts, k + 1),
    }
}

/// Functions from `k` on, up to the end.
pub open spec fn hfunctions_at(ts: Seq<(LTok, (Loc, Loc))>, k: int, acc: Seq<HFnV>) -> NOut<Seq<HFnV>>
    decreases ts.len() - k,
{
    match ltok(ts, k) {
        None => NOut::Stuck,
        Some(LTok::Eof) => NOut::Done(acc, k),
        Some(LTok::Fn) => match hfunction_at(ts, k) {
            NOut::Done(f, k2) => if k < k2 && k2 <= ts.len() {
                hfunctions_at(ts, k2, acc.push(f))
            } else {
                NOut::Stuck
            },
            NOut::Fail(s, m) => NOut::Fail(s, m),
            NOut::Stuck => NOut::Stuck,
        },
        _ => lunexpected(ts, k),
    }
}

/// What reading the tokens of a program gives: one function or more; an
/// empty text is refused with its own message.
pub open spec fn hir_functions_of(ts: Seq<(LTok, (Loc, Loc))>) -> NOut<Seq<HFnV>> {
    match ltok(ts, 0) {
        None => NOut::Stuck,
        Some(LTok::Eof) => NOut::Fail(ts[0].1, "Expected a program"@),
        Some(LTok::Fn) => hfunctions_at(ts, 0, Seq::empty()),
        _ => lunexpected(ts, 0),
    }
}

/// What reading a text of the high-level language gives.
pub open spec fn hir_text_of(s: Seq<char>) -> NOut<Seq<HFnV>> {
    hir_functions_of(tokens_of(s, true).0)
}

/// What reading a program text gives: its functions, or the first error
/// with its region, which is that of the text the reader does not take
/// where the grammar reaches it.
pub open spec fn hir_read_outcome<'a>(file_name: &'a str, s: Seq<char>, r: Result<Vec<HirFunction>, ReadError<'a>>) -> bool {
    match hir_text_of(s) {
        NOut::Done(v, _) => r matches Ok(x) && hfns_v(x@) == v,
        NOut::Fail(sp, m) => r matches Err(e) && e.spec_span() == (Span { file: file_name, start: sp.0, end: sp.1 })
            && e.spec_message() == m,
        NOut::Stuck => r matches Err(e) && e.spec_span() == (Span {
            file: file_name,
            start: lex_error_of(s, true).0.0,
            end: lex_error_of(s, true).0.1,
        }) && e.spec_message() == lex_error_of(s, true).1,
    }
}

// ---------------------------------------------------------------------------
// Tokens that end with the end of the text never leave the grammar short.

proof fn lemma_hval_eof(ts: Seq<(LTok, (Loc, Loc))>, k: int)
    requires
        ends_with_eof(ts),
        0 <= k < ts.len(),
    ensures
        ends_before_eof(ts, k, hval_at(ts, k)),
{
    assert(forall|p: int| 0 <= p < ts.len() - 1 ==> (#[trigger] ts[p]).0 != LTok::Eof);
}

proof fn lemma_hty_eof(ts: Seq<(LTok, (Loc, Loc))>, k: int)
    requires
        ends_with_eof(ts),
        0 <= k < ts.len(),
    ensures
        ends_before_eof(ts, k, hty_at(ts, k)),
{
    assert(forall|p: int| 0 <= p < ts.len() - 1 ==> (#[trigger] ts[p]).0 != LTok::Eof);
}

proof fn lemma_hcall_eof(ts: Seq<(LTok, (Loc, Loc))>, k: int)
    requires
        ends_with_eof(ts),
        0 <= k < ts.len(),
    ensures
        ends_before_eof(ts, k, hcall_at(ts, k)),
{
    assert(forall|p: int| 0 <= p < ts.len() - 1 ==> (#[trigger] ts[p]).0 != LTok::Eof);
    if ltok(ts, k) == Some(LTok::LPar) && starts_type(ltok(ts, k + 1)) {
        lemma_hty_eof(ts, k + 1);
        if let NOut::Done(t, p) = hty_at(ts, k + 1) {
            if ltok(ts, p) == Some(LTok::RPar) {
                lemma_hval_eof(ts, p + 1);
            }
        }
    } else {
        lemma_hval_eof(ts, k);
        if let NOut::Done(a, p) = hval_at(ts, k) {
            if hbin_of(ltok(ts, p)) is Some {
                lemma_hval_eof(ts, p + 1);
            }
        }
    }
}

proof fn lemma_hstmt_eof(ts: Seq<(LTok, (Loc, Loc))>, k: int)
    requires
        ends_with_eof(ts),
        0 <= k < ts.len(),
    ensures
        ends_before_eof(ts, k, hstmt_at(ts, k)),
    decreases ts.len() - k, 0int,
{
    assert(forall|p: int| 0 <= p < ts.len() - 1 ==> (#[trigger] ts[p]).0 != LTok::Eof);
    if hname(ltok(ts, k)) is Some {
        if ltok(ts, k + 1) == Some(LTok::Arrow) {
            lemma_hcall_eof(ts, k + 2);
        }
    } else if ltok(ts, k) == Some(LTok::Return) {
        lemma_hval_eof(ts, k + 1);
    } else if hword(ltok(ts, k), "if"@) || hword(ltok(ts, k), "while"@) {
        lemma_hval_eof(ts, k + 1);
        if let NOut::Done(v, p) = hval_at(ts, k + 1) {
            lemma_hblock_eof(ts, p);
            if let NOut::Done(b1, q) = hblock_at(ts, p) {
                if !hword(ltok(ts, k), "while"@) && hword(ltok(ts, q), "else"@) {
                    lemma_hblock_eof(ts, q + 1);
                }
            }
        }
    }
}

proof fn lemma_hstmts_eof(ts: Seq<(LTok, (Loc, Loc))>, k: int, acc: Seq<HStmtV>)
    requires
        ends_with_eof(ts),
        0 <= k < ts.len(),
    ensures
        !(hstmts_at(ts, k, acc) is Stuck),
        hstmts_at(ts, k, acc) matches NOut::Done(_, j) ==> k <= j < ts.len() - 1 && ts[j].0 == LTok::RBracket,
    decreases ts.len() - k, 1int,
{
    if ts[k].0 != LTok::RBracket {
        lemma_hstmt_eof(ts, k);
        if let NOut::Done(st, k2) = hstmt_at(ts, k) {
            lemma_hstmts_eof(ts, k2, acc.push(st));
        }
    } else {
        assert(k != ts.len() - 1);
    }
}

proof fn lemma_hblock_eof(ts: Seq<(LTok, (Loc, Loc))>, k: int)
    requires
        ends_with_eof(ts),
        0 <= k < ts.len(),
    ensures
        ends_before_eof(ts, k, hblock_at(ts, k)),
    decreases ts.len() - k, 2int,
{
    assert(forall|p: int| 0 <= p < ts.len() - 1 ==> (#[trigger] ts[p]).0 != LTok::Eof);
    if ltok(ts, k) == Some(LTok::LBracket) {
        lemma_hstmts_eof(ts, k + 1, Seq::empty());
    }
}

proof fn lemma_hnames_eof(ts: Seq<(LTok, (Loc, Loc))>, k: int, acc: Seq<Seq<char>>)
    requires
        ends_with_eof(ts),
        0 <= k < ts.len(),
    ensures
        !(hnames_at(ts, k, acc) is Stuck),
        hnames_at(ts, k, acc) matches NOut::Done(_, j) ==> k < j < ts.len() - 1 && ts[j].0 == LTok::RPar,
    decreases ts.len() - k,
{
    assert(forall|p: int| 0 <= p < ts.len() - 1 ==> (#[trigger] ts[p]).0 != LTok::Eof);
    if k < ts.len() - 1 && hname(ltok(ts, k)) is Some {
        if k + 1 < ts.len() - 1 && ts[k + 1].0 == LTok::Comma {
            lemma_hnames_eof(ts, k + 2, acc.push(hname(ltok(ts, k))->0));
        }
    }
}

proof fn lemma_hfunction_eof(ts: Seq<(LTok, (Loc, Loc))>, k: int)
    requires
        ends_with_eof(ts),
        0 <= k < ts.len() - 1,
    ensures
        ends_before_eof(ts, k, hfunction_at(ts, k)),
{
    assert(forall|p: int| 0 <= p < ts.len() - 1 ==> (#[trigger] ts[p]).0 != LTok::Eof);
    if hname(ltok(ts, k + 1)) is Some && ltok(ts, k + 2) == Some(LTok::LPar) {
        if ltok(ts, k + 3) == Some(LTok::RPar) {
            lemma_hblock_eof(ts, k + 4);
        } else {
            lemma_hnames_eof(ts, k + 3, Seq::empty());
            if let NOut::Done(a, p) = hnames_at(ts, k + 3, Seq::empty()) {
                lemma_hblock_eof(ts, p + 1);
            }
        }
    }
}

proof fn lemma_hfunctions_eof(ts: Seq<(LTok, (Loc, Loc))>, k: int, acc: Seq<HFnV>)
    requires
        ends_with_eof(ts),
        0 <= k < ts.len(),
    ensures
        !(hfunctions_at(ts, k, acc) is Stuck),
    decreases ts.len() - k,
{
    assert(forall|p: int| 0 <= p < ts.len() - 1 ==> (#[trigger] ts[p]).0 != LTok::Eof);
    if ts[k].0 == LTok::Fn {
        lemma_hfunction_eof(ts, k);
        if let NOut::Done(f, k2) = hfunction_at(ts, k) {
            lemma_hfunctions_eof(ts, k2, acc.push(f));
        }
    }
}

/// A text the reader reads up to its end never leaves the grammar short of
/// tokens.
proof fn lemma_hir_functions_eof(ts: Seq<(LTok, (Loc, Loc))>)
    requires
        ends_with_eof(ts),
    ensures
        !(hir_functions_of(ts) is Stuck),
{
    if ts[0].0 == LTok::Fn {
        lemma_hfunctions_eof(ts, 0, Seq::empty());
    }
}

// ---------------------------------------------------------------------------
// Reading the tokens.

/// Whether a word is one that the high-level language keeps for itself.
fn is_hir_keyword(w: &str) -> (r: bool)
    ensures
        r == hir_keyword(w@),
{
    str_eq(w, "if") || str_eq(w, "else") || str_eq(w, "while") || str_eq(w, "Int64") || str_eq(w, "Bool") || str_eq(
        w,
        "Str",
    ) || str_eq(w, "struct")
}

fn hname_exec(ts: &Vec<(LLexeme, Loc, Loc)>, k: usize) -> (r: Option<String>)
    ensures
        match hname(ltok(ltoks_v(ts@), k as int)) {
            Some(n) => r matches Some(x) && x@ == n,
            None => r is None,
        },
{
    if k >= ts.len() {
        return None;
    }
    match &ts[k].0 {
        LLexeme::Ident(w) => if is_hir_keyword(w.as_str()) {
            None
        } else {
            Some(w.clone())
        },
        LLexeme::Globals => Some(owned("globals")),
        LLexeme::Vars => Some(owned("vars")),
        LLexeme::Native => Some(owned("native")),
        _ => None,
    }
}

fn hword_exec(ts: &Vec<(LLexeme, Loc, Loc)>, k: usize, w: &str) -> (r: bool)
    ensures
        r == hword(ltok(ltoks_v(ts@), k as int), w@),
{
    if k >= ts.len() {
        return false;
    }
    match &ts[k].0 {
        LLexeme::Ident(x) => str_eq(x.as_str(), w),
        _ => false,
    }
}

fn hbin_exec(ts: &Vec<(LLexeme, Loc, Loc)>, k: usize) -> (r: Option<BinOp>)
    ensures
        r == hbin_of(ltok(ltoks_v(ts@), k as int)),
{
    if k >= ts.len() {
        return None;
    }
    match &ts[k].0 {
        LLexeme::Equ => Some(BinOp::Equ),
        LLexeme::Neq => Some(BinOp::Neq),
        LLexeme::Lt => Some(BinOp::Lt),
        LLexeme::Leq => Some(BinOp::Leq),
        LLexeme::Gt => Some(BinOp::Gt),
        LLexeme::Geq => Some(BinOp::Geq),
        LLexeme::And => Some(BinOp::And),
        LLexeme::Or => Some(BinOp::Or),
        LLexeme::Add => Some(BinOp::Add),
        LLexeme::Sub => Some(BinOp::Sub),
        LLexeme::Mul => Some(BinOp::Mul),
        LLexeme::Mod => Some(BinOp::Div),
        _ => None,
    }
}

fn hval_exec(ts: &Vec<(LLexeme, Loc, Loc)>, k: usize) -> (r: Parsed<HirVal>)
    requires
        ts@.len() < usize::MAX - 64,
    ensures
        agrees(r, hval_at(ltoks_v(ts@), k as int), |v: HirVal| hval_v(v)),
        r matches Parsed::Done(_, k2) ==> k < k2 <= ts@.len(),
{
    if let Some(n) = hname_exec(ts, k) {
        return Parsed::Done(HirVal::Var(n), k + 1);
    }
    if k >= ts.len() {
        return Parsed::Stuck;
    }
    match &ts[k].0 {
        LLexeme::Str(x) => Parsed::Done(HirVal::Str(x.clone()), k + 1),
        LLexeme::LPar => {
            let u = match lnum_at(ts, k + 1) {
                Some(u) => u,
                None => {
                    return lunexpected_at(ts, k + 1);
                },
            };
            if !lis(ts, k + 2, LLexeme::Comma) {
                return lunexpected_at(ts, k + 2);
            }
            let v = match lnum_at(ts, k + 3) {
                Some(v) => v,
                None => {
                    return lunexpected_at(ts, k + 3);
                },
            };
            if !lis(ts, k + 4, LLexeme::RPar) {
                return lunexpected_at(ts, k + 4);
            }
            Parsed::Done(HirVal::Const(u, v), k + 5)
        },
        _ => lunexpected_at(ts, k),
    }
}

fn hty_exec(ts: &Vec<(LLexeme, Loc, Loc)>, k: usize) -> (r: Parsed<Type>)
    requires
        ts@.len() < usize::MAX - 64,
    ensures
        agrees(r, hty_at(ltoks_v(ts@), k as int), |t: Type| type_v(t)),
        r matches Parsed::Done(_, k2) ==> k < k2 <= ts@.len(),
{
    if hword_exec(ts, k, "Int64") {
        Parsed::Done(Type::Int64, k + 1)
    } else if hword_exec(ts, k, "Bool") {
        Parsed::Done(Type::Bool, k + 1)
    } else if hword_exec(ts, k, "Str") {
        Parsed::Done(Type::Str, k + 1)
    } else if hword_exec(ts, k, "struct") {
        match hname_exec(ts, k + 1) {
            Some(n) => Parsed::Done(Type::Struct(n), k + 2),
            None => lunexpected_at(ts, k + 1),
        }
    } else {
        lunexpected_at(ts, k)
    }
}

fn hcall_exec(ts: &Vec<(LLexeme, Loc, Loc)>, k: usize) -> (r: Parsed<HirCallable>)
    requires
        ts@.len() < usize::MAX - 64,
    ensures
        agrees(r, hcall_at(ltoks_v(ts@), k as int), |c: HirCallable| hcall_v(c)),
        r matches Parsed::Done(_, k2) ==> k < k2 <= ts@.len(),
{
    let cast = lis(ts, k, LLexeme::LPar) && (hword_exec(ts, k + 1, "Int64") || hword_exec(ts, k + 1, "Bool") || hword_exec(
        ts,
        k + 1,
        "Str",
    ) || hword_exec(ts, k + 1, "struct"));
    if cast {
        let (t, p) = match hty_exec(ts, k + 1) {
            Parsed::Done(t, p) => (t, p),
            Parsed::Fail(a, b, m) => {
                return Parsed::Fail(a, b, m);
            },
            Parsed::Stuck => {
                return Parsed::Stuck;
            },
        };
        if !lis(ts, p, LLexeme::RPar) {
            return lunexpected_at(ts, p);
        }
        return match hval_exec(ts, p + 1) {
            Parsed::Done(v, q) => Parsed::Done(HirCallable::Cast(v, t), q),
            Parsed::Fail(a, b, m) => Parsed::Fail(a, b, m),
            Parsed::Stuck => Parsed::Stuck,
        };
    }
    let (a, p) = match hval_exec(ts, k) {
        Parsed::Done(a, p) => (a, p),
        Parsed::Fail(x, y, m) => {
            return Parsed::Fail(x, y, m);
        },
        Parsed::Stuck => {
            return Parsed::Stuck;
        },
    };
    match hbin_exec(ts, p) {
        Some(op) => match hval_exec(ts, p + 1) {
            Parsed::Done(b, q) => Parsed::Done(HirCallable::Bin(op, a, b), q),
            Parsed::Fail(x, y, m) => Parsed::Fail(x, y, m),
            Parsed::Stuck => Parsed::Stuck,
        },
        None => if lis(ts, p, LLexeme::LSquare) {
            match lnum_at(ts, p + 1) {
                Some(i) => if !lis(ts, p + 2, LLexeme::RSquare) {
                    lunexpected_at(ts, p + 2)
                } else {
                    Parsed::Done(HirCallable::Access(a, i), p + 3)
                },
                None => lunexpected_at(ts, p + 1),
            }
        } else {
            Parsed::Done(HirCallable::Assign(a), p)
        },
    }
}

/// A statement pushed on a list adds its value at the end.
proof fn lemma_hstmts_v_push(s: Seq<HirStatement>, x: HirStatement)
    ensures
        hstmts_v(s.push(x), s.len() + 1int) == hstmts_v(s, s.len() as int).push(hstmt_v(x)),
{
    lemma_hstmts_v_prefix(s, s.push(x), s.len() as int);
}

proof fn lemma_hstmts_v_prefix(a: Seq<HirStatement>, b: Seq<HirStatement>, k: int)
    requires
        0 <= k <= a.len(),
        k <= b.len(),
        forall|i: int| 0 <= i < k ==> a[i] == b[i],
    ensures
        hstmts_v(a, k) == hstmts_v(b, k),
    decreases k,
{
    if k > 0 {
        lemma_hstmts_v_prefix(a, b, k - 1);
    }
}

fn hstmt_exec(ts: &Vec<(LLexeme, Loc, Loc)>, k: usize) -> (r: Parsed<HirStatement>)
    requires
        ts@.len() < usize::MAX - 64,
    ensures
        agrees(r, hstmt_at(ltoks_v(ts@), k as int), |x: HirStatement| hstmt_v(x)),
        r matches Parsed::Done(_, k2) ==> k < k2 <= ts@.len(),
    decreases ts@.len() - k, 0int,
{
    let ghost tv = ltoks_v(ts@);
    if let Some(x) = hname_exec(ts, k) {
        if !lis(ts, k + 1, LLexeme::Arrow) {
            return lunexpected_at(ts, k + 1);
        }
        let (c, p) = match hcall_exec(ts, k + 2) {
            Parsed::Done(c, p) => (c, p),
            Parsed::Fail(a, b, m) => {
                return Parsed::Fail(a, b, m);
            },
            Parsed::Stuck => {
                return Parsed::Stuck;
            },
        };
        if !lis(ts, p, LLexeme::Semicolon) {
            return lunexpected_at(ts, p);
        }
        return Parsed::Done(HirStatement::Call(x, c), p + 1);
    }
    if lis(ts, k, LLexeme::Return) {
        return match hval_exec(ts, k + 1) {
            Parsed::Done(v, p) => Parsed::Done(HirStatement::Return(v), p),
            Parsed::Fail(a, b, m) => Parsed::Fail(a, b, m),
            Parsed::Stuck => Parsed::Stuck,
        };
    }
    let is_while = hword_exec(ts, k, "while");
    if !(hword_exec(ts, k, "if") || is_while) {
        return lunexpected_at(ts, k);
    }
    let (v, p) = match hval_exec(ts, k + 1) {
        Parsed::Done(v, p) => (v, p),
        Parsed::Fail(a, b, m) => {
            return Parsed::Fail(a, b, m);
        },
        Parsed::Stuck => {
            return Parsed::Stuck;
        },
    };
    let (b1, q) = match hblock_exec(ts, p) {
        Parsed::Done(b1, q) => (b1, q),
        Parsed::Fail(a, b, m) => {
            return Parsed::Fail(a, b, m);
        },
        Parsed::Stuck => {
            return Parsed::Stuck;
        },
    };
    if is_while {
        return Parsed::Done(HirStatement::While(v, b1), q);
    }
    if !hword_exec(ts, q, "else") {
        return lunexpected_at(ts, q);
    }
    match hblock_exec(ts, q + 1) {
        Parsed::Done(b2, r) => Parsed::Done(HirStatement::If(v, b1, b2), r),
        Parsed::Fail(a, b, m) => Parsed::Fail(a, b, m),
        Parsed::Stuck => Parsed::Stuck,
    }
}

fn hstmts_exec(ts: &Vec<(LLexeme, Loc, Loc)>, k: usize) -> (r: Parsed<Vec<HirStatement>>)
    requires
        ts@.len() < usize::MAX - 64,
    ensures
        agrees(r, hstmts_at(ltoks_v(ts@), k as int, Seq::empty()), |v: Vec<HirStatement>| hstmts_v(v@, v@.len() as int)),
        r matches Parsed::Done(_, k2) ==> k <= k2 < ts@.len(),
    decreases ts@.len() - k, 1int,
{
    let ghost tv = ltoks_v(ts@);
    let mut out: Vec<HirStatement> = Vec::new();
    let mut cur = k;
    assert(hstmts_v(out@, 0) =~= Seq::<HStmtV>::empty());
    while cur < ts.len()
        invariant
            tv == ltoks_v(ts@),
            ts@.len() < usize::MAX - 64,
            k <= cur,
            hstmts_at(tv, k as int, Seq::empty()) == hstmts_at(tv, cur as int, hstmts_v(out@, out@.len() as int)),
        decreases ts@.len() - cur,
    {
        if lis(ts, cur, LLexeme::RBracket) {
            return Parsed::Done(out, cur);
        }
        match hstmt_exec(ts, cur) {
            Parsed::Done(st, k2) => {
                proof {
                    lemma_hstmts_v_push(out@, st);
                }
                out.push(st);
                cur = k2;
            },
            Parsed::Fail(a, b, m) => {
                return Parsed::Fail(a, b, m);
            },
            Parsed::Stuck => {
                return Parsed::Stuck;
            },
        }
    }
    Parsed::Stuck
}

fn hblock_exec(ts: &Vec<(LLexeme, Loc, Loc)>, k: usize) -> (r: Parsed<Vec<HirStatement>>)
    requires
        ts@.len() < usize::MAX - 64,
    ensures
        agrees(r, hblock_at(ltoks_v(ts@), k as int), |v: Vec<HirStatement>| hstmts_v(v@, v@.len() as int)),
        r matches Parsed::Done(_, k2) ==> k < k2 <= ts@.len(),
    decreases ts@.len() - k, 2int,
{
    if !lis(ts, k, LLexeme::LBracket) {
        return lunexpected_at(ts, k);
    }
    match hstmts_exec(ts, k + 1) {
        Parsed::Done(ss, e) => Parsed::Done(ss, e + 1),
        Parsed::Fail(a, b, m) => Parsed::Fail(a, b, m),
        Parsed::Stuck => Parsed::Stuck,
    }
}

fn hnames_exec(ts: &Vec<(LLexeme, Loc, Loc)>, k: usize) -> (r: Parsed<Vec<String>>)
    requires
        ts@.len() < usize::MAX - 64,
    ensures
        agrees(r, hnames_at(ltoks_v(ts@), k as int, Seq::empty()), |v: Vec<String>| hnames_v(v@)),
        r matches Parsed::Done(_, k2) ==> k < k2 < ts@.len(),
{
    let ghost tv = ltoks_v(ts@);
    let mut out: Vec<String> = Vec::new();
    let mut cur = k;
    assert(hnames_v(out@) =~= Seq::<Seq<char>>::empty());
    while cur < ts.len()
        invariant
            tv == ltoks_v(ts@),
            ts@.len() < usize::MAX - 64,
            k <= cur,
            hnames_at(tv, k as int, Seq::empty()) == hnames_at(tv, cur as int, hnames_v(out@)),
        decreases ts@.len() - cur,
    {
        match hname_exec(ts, cur) {
            Some(n) => {
                let ghost before = hnames_v(out@);
                let ghost nv = n@;
                out.push(n);
                assert(hnames_v(out@) =~= before.push(nv));
                if cur + 1 >= ts.len() {
                    return Parsed::Stuck;
                }
                if lis(ts, cur + 1, LLexeme::RPar) {
                    return Parsed::Done(out, cur + 1);
                }
                if !lis(ts, cur + 1, LLexeme::Comma) {
                    return lunexpected_at(ts, cur + 1);
                }
                cur = cur + 2;
            },
            None => {
                return lunexpected_at(ts, cur);
            },
        }
    }
    lunexpected_at(ts, cur)
}

fn hfunction_exec(ts: &Vec<(LLexeme, Loc, Loc)>, k: usize) -> (r: Parsed<HirFunction>)
    requires
        k < ts@.len(),
        ts@.len() < usize::MAX - 64,
    ensures
        agrees(r, hfunction_at(ltoks_v(ts@), k as int), |f: HirFunction| hfn_v(f)),
        r matches Parsed::Done(_, k2) ==> k < k2 <= ts@.len(),
{
    let name = match hname_exec(ts, k + 1) {
        Some(n) => n,
        None => {
            return lunexpected_at(ts, k + 1);
        },
    };
    if !lis(ts, k + 2, LLexeme::LPar) {
        return lunexpected_at(ts, k + 2);
    }
    let (args, p) = if lis(ts, k + 3, LLexeme::RPar) {
        let a: Vec<String> = Vec::new();
        assert(hnames_v(a@) =~= Seq::<Seq<char>>::empty());
        (a, k + 3)
    } else {
        match hnames_exec(ts, k + 3) {
            Parsed::Done(a, p) => (a, p),
            Parsed::Fail(x, y, m) => {
                return Parsed::Fail(x, y, m);
            },
            Parsed::Stuck => {
                return Parsed::Stuck;
            },
        }
    };
    match hblock_exec(ts, p + 1) {
        Parsed::Done(body, e) => Parsed::Done(HirFunction { name, args, body }, e),
        Parsed::Fail(x, y, m) => Parsed::Fail(x, y, m),
        Parsed::Stuck => Parsed::Stuck,
    }
}

fn hfunctions_exec(ts: &Vec<(LLexeme, Loc, Loc)>, k: usize) -> (r: Parsed<Vec<HirFunction>>)
    requires
        ts@.len() < usize::MAX - 64,
    ensures
        agrees(r, hfunctions_at(ltoks_v(ts@), k as int, Seq::empty()), |v: Vec<HirFunction>| hfns_v(v@)),
{
    let ghost tv = ltoks_v(ts@);
    let mut out: Vec<HirFunction> = Vec::new();
    let mut cur = k;
    assert(hfns_v(out@) =~= Seq::<HFnV>::empty());
    while cur < ts.len()
        invariant
            tv == ltoks_v(ts@),
            ts@.len() < usize::MAX - 64,
            hfunctions_at(tv, k as int, Seq::empty()) == hfunctions_at(tv, cur as int, hfns_v(out@)),
        decreases ts@.len() - cur,
    {
        if lis(ts, cur, LLexeme::Eof) {
            return Parsed::Done(out, cur);
        }
        if !lis(ts, cur, LLexeme::Fn) {
            return lunexpected_at(ts, cur);
        }
        match hfunction_exec(ts, cur) {
            Parsed::Done(f, k2) => {
                let ghost before = hfns_v(out@);
                let ghost fv = hfn_v(f);
                out.push(f);
                assert(hfns_v(out@) =~= before.push(fv));
                cur = k2;
            },
            Parsed::Fail(a, b, m) => {
                return Parsed::Fail(a, b, m);
            },
            Parsed::Stuck => {
                return Parsed::Stuck;
            },
        }
    }
    Parsed::Stuck
}

fn hprogram_exec(ts: &Vec<(LLexeme, Loc, Loc)>) -> (r: Parsed<Vec<HirFunction>>)
    requires
        ts@.len() < usize::MAX - 64,
    ensures
        agrees(r, hir_functions_of(ltoks_v(ts@)), |v: Vec<HirFunction>| hfns_v(v@)),
{
    proof {
        reveal_strlit("Expected a program");
    }
    if ts.len() == 0 {
        return Parsed::Stuck;
    }
    if lis(ts, 0, LLexeme::Eof) {
        return Parsed::Fail(ts[0].1, ts[0].2, owned("Expected a program"));
    }
    if !lis(ts, 0, LLexeme::Fn) {
        return lunexpected_at(ts, 0);
    }
    hfunctions_exec(ts, 0)
}

/// Reads a program of the high-level language: its functions, or the first
/// error with its region.
pub fn parse_hir<'a>(file_name: &'a str, contents: &'a str) -> (r: Result<Vec<HirFunction>, ReadError<'a>>)
    requires
        contents@.len() < usize::MAX - 128,
    ensures
        hir_read_outcome(file_name, contents@, r),
{
    let (ts, bad) = lex_text(contents, true);
    let ghost first = ((0usize, 1usize, 1usize), (0usize, 1usize, 1usize));
    proof {
        lemma_lir_lex_len(located(contents@), 0, first, true);
    }
    match hprogram_exec(&ts) {
        Parsed::Done(fs, _) => Ok(fs),
        Parsed::Fail(a, b, m) => Err(ReadError::from((Span { file: file_name, start: a, end: b }, m))),
        Parsed::Stuck => {
            proof {
                lemma_lir_lex_eof(located(contents@), 0, first, true);
                if bad is None {
                    lemma_hir_functions_eof(tokens_of(contents@, true).0);
                }
            }
            match bad {
                Some((a, b, m)) => Err(ReadError::from((Span { file: file_name, start: a, end: b }, m))),
                None => {
                    proof {
                        assert(false);
                    }
                    Err(ReadError::from((Span { file: file_name, start: (0, 1, 1), end: (0, 1, 1) }, String::new())))
                },
            }
        },
    }
}

} // verus!
