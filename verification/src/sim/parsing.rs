use vstd::prelude::*;

use crate::automata::lexer::types::{ascii_alpha, ascii_digit, behaved, is_ascii_alpha, is_ascii_digit, is_behaved};
use crate::automata::line_counter::{located, LineIter, Loc, Span};
use crate::automata::read_error::ReadError;
use crate::text::{from_chars, str_eq};
use super::netlist::{Arg, BinOpType, Def, Netlist, RamData, RomData, Value, ValueType};

verus! {

// ---------------------------------------------------------------------------
// Tokens.

/// A token of a netlist, as a value.
pub enum TokV {
    Input,
    Output,
    Var,
    In,
    Not,
    Or,
    Xor,
    And,
    Nand,
    Mux,
    Reg,
    Ram,
    Rom,
    Select,
    Slice,
    Concat,
    Comma,
    Colon,
    Equals,
    Ident(Seq<char>),
    Uint(Seq<char>),
    Eof,
}

/// A token of a netlist.
pub enum Lexeme {
    Input,
    Output,
    Var,
    In,
    Not,
    Or,
    Xor,
    And,
    Nand,
    Mux,
    Reg,
    Ram,
    Rom,
    Select,
    Slice,
    Concat,
    Comma,
    Colon,
    Equals,
    Ident(String),
    Uint(String),
    Eof,
}

impl View for Lexeme {
    type V = TokV;

    open spec fn view(&self) -> TokV {
        match self {
            Lexeme::Input => TokV::Input,
            Lexeme::Output => TokV::Output,
            Lexeme::Var => TokV::Var,
            Lexeme::In => TokV::In,
            Lexeme::Not => TokV::Not,
            Lexeme::Or => TokV::Or,
            Lexeme::Xor => TokV::Xor,
            Lexeme::And => TokV::And,
            Lexeme::Nand => TokV::Nand,
            Lexeme::Mux => TokV::Mux,
            Lexeme::Reg => TokV::Reg,
            Lexeme::Ram => TokV::Ram,
            Lexeme::Rom => TokV::Rom,
            Lexeme::Select => TokV::Select,
            Lexeme::Slice => TokV::Slice,
            Lexeme::Concat => TokV::Concat,
            Lexeme::Comma => TokV::Comma,
            Lexeme::Colon => TokV::Colon,
            Lexeme::Equals => TokV::Equals,
            Lexeme::Ident(s) => TokV::Ident(s@),
            Lexeme::Uint(s) => TokV::Uint(s@),
            Lexeme::Eof => TokV::Eof,
        }
    }
}

/// The token a word stands for: a keyword, or else a name.
pub open spec fn keyword(w: Seq<char>) -> TokV {
    if w == "INPUT"@ {
        TokV::Input
    } else if w == "OUTPUT"@ {
        TokV::Output
    } else if w == "VAR"@ {
        TokV::Var
    } else if w == "IN"@ {
        TokV::In
    } else if w == "NOT"@ {
        TokV::Not
    } else if w == "OR"@ {
        TokV::Or
    } else if w == "XOR"@ {
        TokV::Xor
    } else if w == "AND"@ {
        TokV::And
    } else if w == "NAND"@ {
        TokV::Nand
    } else if w == "MUX"@ {
        TokV::Mux
    } else if w == "REG"@ {
        TokV::Reg
    } else if w == "RAM"@ {
        TokV::Ram
    } else if w == "ROM"@ {
        TokV::Rom
    } else if w == "SELECT"@ {
        TokV::Select
    } else if w == "SLICE"@ {
        TokV::Slice
    } else if w == "CONCAT"@ {
        TokV::Concat
    } else {
        TokV::Ident(w)
    }
}

pub open spec fn is_ws(c: char) -> bool {
    c == ' ' || c == '\t' || c == '\n'
}

pub open spec fn word_start(c: char) -> bool {
    ascii_alpha(c) || c == '_'
}

pub open spec fn word_char(c: char) -> bool {
    word_start(c) || ascii_digit(c)
}

/// The first index from `j` on whose character is not blank.
pub open spec fn run_ws(cs: Seq<(char, Loc)>, j: int) -> int
    decreases cs.len() - j,
{
    if 0 <= j < cs.len() && is_ws(cs[j].0) {
        run_ws(cs, j + 1)
    } else {
        j
    }
}

/// The first index from `j` on whose character cannot go on a word.
pub open spec fn run_word(cs: Seq<(char, Loc)>, j: int) -> int
    decreases cs.len() - j,
{
    if 0 <= j < cs.len() && word_char(cs[j].0) {
        run_word(cs, j + 1)
    } else {
        j
    }
}

/// The first index from `j` on whose character is not a digit.
pub open spec fn run_digits(cs: Seq<(char, Loc)>, j: int) -> int
    decreases cs.len() - j,
{
    if 0 <= j < cs.len() && ascii_digit(cs[j].0) {
        run_digits(cs, j + 1)
    } else {
        j
    }
}

/// The first index from `j` on whose character may not stand in a comment.
pub open spec fn run_behaved(cs: Seq<(char, Loc)>, j: int) -> int
    decreases cs.len() - j,
{
    if 0 <= j < cs.len() && behaved(cs[j].0) {
        run_behaved(cs, j + 1)
    } else {
        j
    }
}

/// The characters between two indexes.
pub open spec fn text_of(cs: Seq<(char, Loc)>, i: int, j: int) -> Seq<char> {
    cs.subrange(i, j).map_values(|x: (char, Loc)| x.0)
}

/// What is read at an index: blanks or a comment to skip, up to an index; a
/// token, up to an index; or what the reader does not take (an unknown
/// character, a comment cut short, a string, `+`, `*` or a parenthesis).
pub enum Lexed {
    Skip(int),
    Word(TokV, int),
    Bad,
}

/// What is read at index `i` of the located characters.
pub open spec fn lexeme(cs: Seq<(char, Loc)>, i: int) -> Lexed {
    let c = cs[i].0;
    if is_ws(c) {
        Lexed::Skip(run_ws(cs, i + 1))
    } else if c == '#' {
        let j = run_behaved(cs, i + 1);
        if j < cs.len() && cs[j].0 == '\n' {
            Lexed::Skip(j + 1)
        } else {
            Lexed::Bad
        }
    } else if word_start(c) {
        let j = run_word(cs, i + 1);
        Lexed::Word(keyword(text_of(cs, i, j)), j)
    } else if ascii_digit(c) {
        let j = run_digits(cs, i + 1);
        Lexed::Word(TokV::Uint(text_of(cs, i, j)), j)
    } else if c == ',' {
        Lexed::Word(TokV::Comma, i + 1)
    } else if c == ':' {
        Lexed::Word(TokV::Colon, i + 1)
    } else if c == '=' {
        Lexed::Word(TokV::Equals, i + 1)
    } else {
        Lexed::Bad
    }
}

pub proof fn lemma_runs(cs: Seq<(char, Loc)>, j: int)
    requires
        0 <= j <= cs.len(),
    ensures
        j <= run_ws(cs, j) <= cs.len(),
        j <= run_word(cs, j) <= cs.len(),
        j <= run_digits(cs, j) <= cs.len(),
        j <= run_behaved(cs, j) <= cs.len(),
    decreases cs.len() - j,
{
    if j < cs.len() {
        lemma_runs(cs, j + 1);
    }
}

/// The tokens read from index `i` on, each with its region, up to the end
/// of the text (a last `Eof` token whose region is that of the last thing
/// read) or up to what the reader does not take (then the flag is set).
pub open spec fn lex_from(cs: Seq<(char, Loc)>, i: int, last: (Loc, Loc)) -> (Seq<(TokV, (Loc, Loc))>, bool)
    decreases cs.len() - i,
{
    if i < 0 || i >= cs.len() {
        (seq![(TokV::Eof, last)], false)
    } else {
        proof {
            lemma_runs(cs, i + 1);
        }
        match lexeme(cs, i) {
            Lexed::Skip(j) => lex_from(cs, j, (cs[i].1, cs[j - 1].1)),
            Lexed::Word(t, j) => {
                let rest = lex_from(cs, j, (cs[i].1, cs[j - 1].1));
                (seq![(t, (cs[i].1, cs[j - 1].1))] + rest.0, rest.1)
            },
            Lexed::Bad => (Seq::empty(), true),
        }
    }
}

/// The tokens of a text.
pub open spec fn tokens_of(s: Seq<char>) -> (Seq<(TokV, (Loc, Loc))>, bool) {
    lex_from(located(s), 0, ((0usize, 1usize, 1usize), (0usize, 1usize, 1usize)))
}

// ---------------------------------------------------------------------------
// The grammar.

/// A netlist, as a value.
pub struct NetlistV {
    pub inputs: Seq<Seq<char>>,
    pub outputs: Seq<Seq<char>>,
    pub vars: Seq<(Seq<char>, ValueType)>,
    pub defs: Seq<(Seq<char>, DefV)>,
}

/// An operand, as a value.
pub enum ArgV {
    Bit(bool),
    Bits(Seq<bool>),
    Var(Seq<char>),
}

/// An equation's right-hand side, as a value.
pub enum DefV {
    Fwd(ArgV),
    Not(ArgV),
    Bin(BinOpType, ArgV, ArgV),
    Mux(ArgV, ArgV, ArgV),
    Reg(Seq<char>),
    Ram(u32, u32, ArgV, ArgV, ArgV, ArgV),
    Rom(u32, u32, ArgV),
    Select(u32, ArgV),
    Slice(u32, u32, ArgV),
    Concat(ArgV, ArgV),
}

pub open spec fn arg_v(a: Arg) -> ArgV {
    match a {
        Arg::Const(Value::Bit(b)) => ArgV::Bit(b),
        Arg::Const(Value::BitArray(v)) => ArgV::Bits(v@),
        Arg::Var(s) => ArgV::Var(s@),
    }
}

pub open spec fn def_v(d: Def) -> DefV {
    match d {
        Def::Fwd(a) => DefV::Fwd(arg_v(a)),
        Def::Not(a) => DefV::Not(arg_v(a)),
        Def::Bin(t, a, b) => DefV::Bin(t, arg_v(a), arg_v(b)),
        Def::Mux(s, a, b) => DefV::Mux(arg_v(s), arg_v(a), arg_v(b)),
        Def::Reg(s) => DefV::Reg(s@),
        Def::Ram(r) => DefV::Ram(
            r.address_size,
            r.word_size,
            arg_v(r.read_address),
            arg_v(r.write_enable),
            arg_v(r.write_address),
            arg_v(r.data),
        ),
        Def::Rom(r) => DefV::Rom(r.address_size, r.word_size, arg_v(r.read_address)),
        Def::Select(i, a) => DefV::Select(i, arg_v(a)),
        Def::Slice(i, j, a) => DefV::Slice(i, j, arg_v(a)),
        Def::Concat(a, b) => DefV::Concat(arg_v(a), arg_v(b)),
    }
}

pub open spec fn netlist_v(n: Netlist) -> NetlistV {
    NetlistV {
        inputs: n.inputs@.map_values(|s: String| s@),
        outputs: n.outputs@.map_values(|s: String| s@),
        vars: n.vars@.map_values(|v: (String, ValueType)| (v.0@, v.1)),
        defs: n.defs@.map_values(|d: (String, Def)| (d.0@, def_v(d.1))),
    }
}

/// What reading a part of a netlist gives: its value and the index of the
/// token after it; or the error met first; or `Stuck` where the reader
/// gives up without an error (a token it does not take, or a number that
/// does not fit where it is taken as one).
pub enum NOut<T> {
    Done(T, int),
    Fail((Loc, Loc), Seq<char>),
    Stuck,
}

/// The value of a string of decimal digits.
pub open spec fn dec_value(s: Seq<char>) -> nat
    decreases s.len(),
{
    if s.len() == 0 {
        0
    } else {
        dec_value(s.drop_last()) * 10 + ((s.last() as nat) - ('0' as nat)) as nat
    }
}

/// The string is made of `0`s and `1`s.
pub open spec fn binary(s: Seq<char>) -> bool {
    forall|i: int| 0 <= i < s.len() ==> s[i] == '0' || s[i] == '1'
}

/// The constant that a string of `0`s and `1`s stands for.
pub open spec fn bits_of(s: Seq<char>) -> ArgV {
    if s.len() == 1 {
        ArgV::Bit(s[0] == '1')
    } else {
        ArgV::Bits(s.map_values(|c: char| c == '1'))
    }
}

pub open spec fn unexpected<T>(ts: Seq<(TokV, (Loc, Loc))>, k: int) -> NOut<T> {
    if 0 <= k < ts.len() {
        NOut::Fail(ts[k].1, "Unexpected token."@)
    } else {
        NOut::Stuck
    }
}

/// The token at `k`, where it has been read.
pub open spec fn tok_at(ts: Seq<(TokV, (Loc, Loc))>, k: int) -> Option<TokV> {
    if 0 <= k < ts.len() {
        Some(ts[k].0)
    } else {
        None
    }
}

pub open spec fn is_ident(t: Option<TokV>) -> bool {
    t matches Some(TokV::Ident(_))
}

pub open spec fn is_uint(t: Option<TokV>) -> bool {
    t matches Some(TokV::Uint(_))
}

/// An operand at `k`, taken once the token after it, which must be one of
/// those that may follow it there, has been read (`last`: the operand ends
/// an equation).
pub open spec fn arg_at(ts: Seq<(TokV, (Loc, Loc))>, k: int, last: bool) -> NOut<ArgV> {
    let la = tok_at(ts, k + 1);
    match tok_at(ts, k) {
        Some(TokV::Ident(n)) | Some(TokV::Uint(n)) => if la is None {
            NOut::Stuck
        } else if !(if last {
            is_ident(la) || la == Some(TokV::Eof)
        } else {
            is_ident(la) || is_uint(la)
        }) {
            unexpected(ts, k + 1)
        } else if is_ident(tok_at(ts, k)) {
            NOut::Done(ArgV::Var(n), k + 1)
        } else if !binary(n) {
            NOut::Fail(ts[k + 1].1, "Expected a list of '1's and '0's"@)
        } else {
            NOut::Done(bits_of(n), k + 1)
        },
        None => NOut::Stuck,
        _ => unexpected(ts, k),
    }
}

/// The number of tokens of the right-hand side that starts with `t`.
pub open spec fn op_len(t: TokV) -> int {
    match t {
        TokV::Not | TokV::Reg => 2,
        TokV::Or | TokV::Xor | TokV::And | TokV::Nand | TokV::Select | TokV::Concat => 3,
        TokV::Mux | TokV::Rom | TokV::Slice => 4,
        TokV::Ram => 7,
        _ => 1,
    }
}

/// The number a `uint` token at `k` stands for.
pub open spec fn uint_at(ts: Seq<(TokV, (Loc, Loc))>, k: int) -> nat {
    match ts[k].0 {
        TokV::Uint(s) => dec_value(s),
        _ => 0,
    }
}

/// The tokens at `k`, `k + 1`, ... are `uint`s, as many as `n`.
pub open spec fn uints_at(ts: Seq<(TokV, (Loc, Loc))>, k: int, n: int) -> Option<int>
    decreases n,
{
    if n <= 0 {
        None
    } else if !is_uint(tok_at(ts, k)) {
        Some(k)
    } else {
        uints_at(ts, k + 1, n - 1)
    }
}

/// Chains readings of operands: the operands of a right-hand side start at
/// `k`, and all but the last one are followed by another operand.
pub open spec fn args_at(ts: Seq<(TokV, (Loc, Loc))>, k: int, n: nat) -> NOut<Seq<ArgV>>
    decreases n,
{
    if n == 0 {
        NOut::Done(Seq::empty(), k)
    } else {
        match arg_at(ts, k, n == 1) {
            NOut::Done(a, k2) => match args_at(ts, k2, (n - 1) as nat) {
                NOut::Done(rest, k3) => NOut::Done(seq![a] + rest, k3),
                o => o,
            },
            NOut::Fail(s, m) => NOut::Fail(s, m),
            NOut::Stuck => NOut::Stuck,
        }
    }
}

/// The right-hand side at `k`: keyword, `uint` parameters, then operands.
pub open spec fn op_at(ts: Seq<(TokV, (Loc, Loc))>, k: int) -> NOut<DefV> {
    match tok_at(ts, k) {
        None => NOut::Stuck,
        Some(t) => {
            let (nu, na) = match t {
                TokV::Not => (0int, 1nat),
                TokV::Or | TokV::Xor | TokV::And | TokV::Nand | TokV::Concat => (0int, 2nat),
                TokV::Mux => (0int, 3nat),
                TokV::Ram => (2int, 4nat),
                TokV::Rom => (2int, 1nat),
                TokV::Select => (1int, 1nat),
                TokV::Slice => (2int, 1nat),
                _ => (0int, 0nat),
            };
            if t is Ident || t is Uint {
                match arg_at(ts, k, true) {
                    NOut::Done(a, k2) => NOut::Done(DefV::Fwd(a), k2),
                    NOut::Fail(s, m) => NOut::Fail(s, m),
                    NOut::Stuck => NOut::Stuck,
                }
            } else if t is Reg {
                match tok_at(ts, k + 1) {
                    None => NOut::Stuck,
                    Some(TokV::Ident(r)) => {
                        let la = tok_at(ts, k + 2);
                        if la is None {
                            NOut::Stuck
                        } else if is_ident(la) || la == Some(TokV::Eof) {
                            NOut::Done(DefV::Reg(r), k + 2)
                        } else {
                            unexpected(ts, k + 2)
                        }
                    },
                    _ => unexpected(ts, k + 1),
                }
            } else if na == 0 {
                unexpected(ts, k)
            } else {
                match uints_at(ts, k + 1, nu) {
                    Some(bad) => if tok_at(ts, bad) is None {
                        NOut::Stuck
                    } else {
                        unexpected(ts, bad)
                    },
                    None => match args_at(ts, k + 1 + nu, na) {
                        NOut::Done(a, k2) => op_value(ts, t, k + 1, a, k2),
                        NOut::Fail(s, m) => NOut::Fail(s, m),
                        NOut::Stuck => NOut::Stuck,
                    },
                }
            }
        },
    }
}

/// The right-hand side once its tokens are read; its numbers are taken then,
/// once the token at `k2` that follows it has been read.
pub open spec fn op_value(ts: Seq<(TokV, (Loc, Loc))>, t: TokV, u: int, a: Seq<ArgV>, k2: int) -> NOut<DefV> {
    let fits1 = uint_at(ts, u) <= u32::MAX;
    let fits2 = uint_at(ts, u + 1) <= u32::MAX;
    match t {
        TokV::Not => NOut::Done(DefV::Not(a[0]), k2),
        TokV::Or => NOut::Done(DefV::Bin(BinOpType::Or, a[0], a[1]), k2),
        TokV::Xor => NOut::Done(DefV::Bin(BinOpType::Xor, a[0], a[1]), k2),
        TokV::And => NOut::Done(DefV::Bin(BinOpType::And, a[0], a[1]), k2),
        TokV::Nand => NOut::Done(DefV::Bin(BinOpType::Nand, a[0], a[1]), k2),
        TokV::Concat => NOut::Done(DefV::Concat(a[0], a[1]), k2),
        TokV::Mux => NOut::Done(DefV::Mux(a[0], a[1], a[2]), k2),
        TokV::Ram => if !fits1 || !fits2 {
            NOut::Stuck
        } else {
            NOut::Done(DefV::Ram(uint_at(ts, u) as u32, uint_at(ts, u + 1) as u32, a[0], a[1], a[2], a[3]), k2)
        },
        TokV::Rom => if !fits1 || !fits2 {
            NOut::Stuck
        } else {
            NOut::Done(DefV::Rom(uint_at(ts, u) as u32, uint_at(ts, u + 1) as u32, a[0]), k2)
        },
        TokV::Select => if !fits1 {
            NOut::Stuck
        } else {
            NOut::Done(DefV::Select(uint_at(ts, u) as u32, a[0]), k2)
        },
        TokV::Slice => if !fits2 {
            NOut::Fail(ts[k2].1, "Number too big."@)
        } else if !fits1 {
            NOut::Stuck
        } else {
            NOut::Done(DefV::Slice(uint_at(ts, u) as u32, uint_at(ts, u + 1) as u32, a[0]), k2)
        },
        _ => NOut::Stuck,
    }
}

/// The equations from `k` on, after those already read.
pub open spec fn defs_at(ts: Seq<(TokV, (Loc, Loc))>, k: int, acc: Seq<(Seq<char>, DefV)>) -> NOut<Seq<(Seq<char>, DefV)>>
    decreases ts.len() - k,
{
    match tok_at(ts, k) {
        None => NOut::Stuck,
        Some(TokV::Eof) => NOut::Done(acc, k),
        Some(TokV::Ident(n)) => match tok_at(ts, k + 1) {
            None => NOut::Stuck,
            Some(TokV::Equals) => match op_at(ts, k + 2) {
                NOut::Done(d, k2) => if k2 > k && k2 <= ts.len() {
                    defs_at(ts, k2, acc.push((n, d)))
                } else {
                    NOut::Stuck
                },
                NOut::Fail(s, m) => NOut::Fail(s, m),
                NOut::Stuck => NOut::Stuck,
            },
            _ => unexpected(ts, k + 1),
        },
        _ => unexpected(ts, k),
    }
}

/// The names from `k` on, separated by commas and ended by `stop`; `first`
/// when no name has been read yet.
pub open spec fn names_at(ts: Seq<(TokV, (Loc, Loc))>, k: int, stop: TokV, acc: Seq<Seq<char>>, first: bool) -> NOut<Seq<Seq<char>>>
    decreases ts.len() - k,
{
    if k < 0 || k >= ts.len() {
        NOut::Stuck
    } else if first && ts[k].0 == stop {
        NOut::Done(acc, k)
    } else {
        match ts[k].0 {
            TokV::Ident(n) => match tok_at(ts, k + 1) {
                None => NOut::Stuck,
                Some(t) => if t == stop {
                    NOut::Done(acc.push(n), k + 1)
                } else if t == TokV::Comma {
                    names_at(ts, k + 2, stop, acc.push(n), false)
                } else {
                    unexpected(ts, k + 1)
                },
            },
            _ => unexpected(ts, k),
        }
    }
}

/// The declarations from `k` on, separated by commas and ended by `IN`;
/// `first` when none has been read yet. A length is taken once the token
/// after it has been read.
pub open spec fn decls_at(ts: Seq<(TokV, (Loc, Loc))>, k: int, acc: Seq<(Seq<char>, ValueType)>, first: bool) -> NOut<Seq<(Seq<char>, ValueType)>>
    decreases ts.len() - k,
{
    if k < 0 || k >= ts.len() {
        NOut::Stuck
    } else if first && ts[k].0 == TokV::In {
        NOut::Done(acc, k)
    } else {
        match ts[k].0 {
            TokV::Ident(n) => {
                let (d, after) = if tok_at(ts, k + 1) == Some(TokV::Colon) {
                    (3int, k + 3)
                } else {
                    (1int, k + 1)
                };
                let la = tok_at(ts, after);
                if d == 3 && !is_uint(tok_at(ts, k + 2)) {
                    if tok_at(ts, k + 2) is None {
                        NOut::Stuck
                    } else {
                        unexpected(ts, k + 2)
                    }
                } else if la is None {
                    NOut::Stuck
                } else if la != Some(TokV::Comma) && la != Some(TokV::In) {
                    unexpected(ts, after)
                } else {
                    let ty = if d == 3 {
                        ValueType::BitArray(uint_at(ts, k + 2) as u32)
                    } else {
                        ValueType::Bit
                    };
                    if d == 3 && uint_at(ts, k + 2) > u32::MAX {
                        NOut::Stuck
                    } else if d == 3 && uint_at(ts, k + 2) == 0 {
                        NOut::Fail(ts[after].1, "Illegal length (0) for a bit array."@)
                    } else if la == Some(TokV::In) {
                        NOut::Done(acc.push((n, ty)), after)
                    } else {
                        decls_at(ts, after + 1, acc.push((n, ty)), false)
                    }
                }
            },
            _ => unexpected(ts, k),
        }
    }
}

/// What reading the tokens of a netlist gives.
pub open spec fn netlist_of(ts: Seq<(TokV, (Loc, Loc))>) -> NOut<NetlistV> {
    if tok_at(ts, 0) is None {
        NOut::Stuck
    } else if ts[0].0 != TokV::Input {
        unexpected(ts, 0)
    } else {
        match names_at(ts, 1, TokV::Output, Seq::empty(), true) {
            NOut::Done(ins, k1) => match names_at(ts, k1 + 1, TokV::Var, Seq::empty(), true) {
                NOut::Done(outs, k2) => match decls_at(ts, k2 + 1, Seq::empty(), true) {
                    NOut::Done(vars, k3) => match defs_at(ts, k3 + 1, Seq::empty()) {
                        NOut::Done(defs, k4) => NOut::Done(
                            NetlistV { inputs: ins, outputs: outs, vars, defs },
                            k4,
                        ),
                        NOut::Fail(s, m) => NOut::Fail(s, m),
                        NOut::Stuck => NOut::Stuck,
                    },
                    NOut::Fail(s, m) => NOut::Fail(s, m),
                    NOut::Stuck => NOut::Stuck,
                },
                NOut::Fail(s, m) => NOut::Fail(s, m),
                NOut::Stuck => NOut::Stuck,
            },
            NOut::Fail(s, m) => NOut::Fail(s, m),
            NOut::Stuck => NOut::Stuck,
        }
    }
}

/// What reading a netlist text gives.
pub open spec fn netlist_text_of(s: Seq<char>) -> NOut<NetlistV> {
    netlist_of(tokens_of(s).0)
}

// ---------------------------------------------------------------------------
// Reading the tokens.

/// The tokens, as values.
pub open spec fn toks_v(ts: Seq<(Lexeme, Loc, Loc)>) -> Seq<(TokV, (Loc, Loc))> {
    ts.map_values(|t: (Lexeme, Loc, Loc)| (t.0@, (t.1, t.2)))
}

fn word_token(w: String) -> (r: Lexeme)
    ensures
        r@ == keyword(w@),
{
    proof {
        reveal_strlit("INPUT");
        reveal_strlit("OUTPUT");
        reveal_strlit("VAR");
        reveal_strlit("IN");
        reveal_strlit("NOT");
        reveal_strlit("OR");
        reveal_strlit("XOR");
        reveal_strlit("AND");
        reveal_strlit("NAND");
        reveal_strlit("MUX");
        reveal_strlit("REG");
        reveal_strlit("RAM");
        reveal_strlit("ROM");
        reveal_strlit("SELECT");
        reveal_strlit("SLICE");
        reveal_strlit("CONCAT");
    }
    let t = w.as_str();
    if str_eq(t, "INPUT") {
        Lexeme::Input
    } else if str_eq(t, "OUTPUT") {
        Lexeme::Output
    } else if str_eq(t, "VAR") {
        Lexeme::Var
    } else if str_eq(t, "IN") {
        Lexeme::In
    } else if str_eq(t, "NOT") {
        Lexeme::Not
    } else if str_eq(t, "OR") {
        Lexeme::Or
    } else if str_eq(t, "XOR") {
        Lexeme::Xor
    } else if str_eq(t, "AND") {
        Lexeme::And
    } else if str_eq(t, "NAND") {
        Lexeme::Nand
    } else if str_eq(t, "MUX") {
        Lexeme::Mux
    } else if str_eq(t, "REG") {
        Lexeme::Reg
    } else if str_eq(t, "RAM") {
        Lexeme::Ram
    } else if str_eq(t, "ROM") {
        Lexeme::Rom
    } else if str_eq(t, "SELECT") {
        Lexeme::Select
    } else if str_eq(t, "SLICE") {
        Lexeme::Slice
    } else if str_eq(t, "CONCAT") {
        Lexeme::Concat
    } else {
        Lexeme::Ident(w)
    }
}

fn chars_between(cs: &Vec<(char, Loc)>, i: usize, j: usize) -> (r: String)
    requires
        i <= j <= cs@.len(),
    ensures
        r@ == text_of(cs@, i as int, j as int),
{
    let mut v: Vec<char> = Vec::new();
    let mut k = i;
    while k < j
        invariant
            i <= k <= j <= cs@.len(),
            v@ == text_of(cs@, i as int, k as int),
        decreases j - k,
    {
        v.push(cs[k].0);
        assert(text_of(cs@, i as int, k + 1) =~= text_of(cs@, i as int, k as int).push(cs@[k as int].0));
        k = k + 1;
    }
    from_chars(&v)
}

/// One step of reading: what stands at `i`.
fn lex_one(cs: &Vec<(char, Loc)>, i: usize) -> (r: (Option<Lexeme>, usize, bool))
    requires
        i < cs@.len(),
    ensures
        match lexeme(cs@, i as int) {
            Lexed::Skip(j) => r.0 is None && !r.2 && r.1 == j,
            Lexed::Word(t, j) => r.0 matches Some(x) && x@ == t && !r.2 && r.1 == j,
            Lexed::Bad => r.2,
        },
        i < r.1 <= cs@.len() || r.2,
{
    let n = cs.len();
    let c = cs[i].0;
    proof {
        lemma_runs(cs@, i + 1);
    }
    if c == ' ' || c == '\t' || c == '\n' {
        let mut j = i + 1;
        while j < n && (cs[j].0 == ' ' || cs[j].0 == '\t' || cs[j].0 == '\n')
            invariant
                i + 1 <= j <= n,
                n == cs@.len(),
                run_ws(cs@, j as int) == run_ws(cs@, i + 1),
            decreases n - j,
        {
            j = j + 1;
        }
        (None, j, false)
    } else if c == '#' {
        let mut j = i + 1;
        while j < n && is_behaved(cs[j].0)
            invariant
                i + 1 <= j <= n,
                n == cs@.len(),
                run_behaved(cs@, j as int) == run_behaved(cs@, i + 1),
            decreases n - j,
        {
            j = j + 1;
        }
        if j < n && cs[j].0 == '\n' {
            (None, j + 1, false)
        } else {
            (None, 0, true)
        }
    } else if is_ascii_alpha(c) || c == '_' {
        let mut j = i + 1;
        while j < n && (is_ascii_alpha(cs[j].0) || cs[j].0 == '_' || is_ascii_digit(cs[j].0))
            invariant
                i + 1 <= j <= n,
                n == cs@.len(),
                run_word(cs@, j as int) == run_word(cs@, i + 1),
            decreases n - j,
        {
            j = j + 1;
        }
        let w = chars_between(cs, i, j);
        (Some(word_token(w)), j, false)
    } else if is_ascii_digit(c) {
        let mut j = i + 1;
        while j < n && is_ascii_digit(cs[j].0)
            invariant
                i + 1 <= j <= n,
                n == cs@.len(),
                run_digits(cs@, j as int) == run_digits(cs@, i + 1),
            decreases n - j,
        {
            j = j + 1;
        }
        let w = chars_between(cs, i, j);
        (Some(Lexeme::Uint(w)), j, false)
    } else if c == ',' {
        (Some(Lexeme::Comma), i + 1, false)
    } else if c == ':' {
        (Some(Lexeme::Colon), i + 1, false)
    } else if c == '=' {
        (Some(Lexeme::Equals), i + 1, false)
    } else {
        (None, 0, true)
    }
}

/// The tokens of a text, up to its end or to what the reader does not take
/// (then the flag is set).
pub fn lex_netlist(contents: &str) -> (r: (Vec<(Lexeme, Loc, Loc)>, bool))
    requires
        contents@.len() < usize::MAX,
    ensures
        toks_v(r.0@) == tokens_of(contents@).0,
        r.1 == tokens_of(contents@).1,
{
    let mut it = LineIter::new(contents);
    let mut cs: Vec<(char, Loc)> = Vec::new();
    let ghost all = located(contents@);
    let n = it.remaining();
    let mut k: usize = 0;
    while k < n
        invariant
            k <= n,
            n == all.len(),
            it.rest() == all.skip(k as int),
            cs@ == all.take(k as int),
        decreases n - k,
    {
        let x = it.next();
        match x {
            Some(p) => {
                cs.push(p);
            },
            None => {},
        }
        assert(cs@ =~= all.take(k + 1));
        k = k + 1;
    }
    assert(cs@ =~= all);
    let ghost first = ((0usize, 1usize, 1usize), (0usize, 1usize, 1usize));
    let mut out: Vec<(Lexeme, Loc, Loc)> = Vec::new();
    let mut last: (Loc, Loc) = ((0, 1, 1), (0, 1, 1));
    let mut i: usize = 0;
    while i < n
        invariant
            i <= n,
            n == cs@.len(),
            cs@ == all,
            all == located(contents@),
            first == ((0usize, 1usize, 1usize), (0usize, 1usize, 1usize)),
            toks_v(out@) + lex_from(cs@, i as int, last).0 == lex_from(cs@, 0, first).0,
            lex_from(cs@, i as int, last).1 == lex_from(cs@, 0, first).1,
        decreases n - i,
    {
        let (t, j, bad) = lex_one(&cs, i);
        if bad {
            assert(lex_from(cs@, i as int, last) == (Seq::<(TokV, (Loc, Loc))>::empty(), true));
            assert(toks_v(out@) =~= toks_v(out@) + Seq::<(TokV, (Loc, Loc))>::empty());
            return (out, true);
        }
        let sp = (cs[i].1, cs[j - 1].1);
        match t {
            None => {},
            Some(tok) => {
                let ghost before = toks_v(out@);
                out.push((tok, sp.0, sp.1));
                assert(toks_v(out@) =~= before.push((out@[out@.len() - 1].0@, sp)));
                assert(lex_from(cs@, i as int, last).0 =~= seq![(out@[out@.len() - 1].0@, sp)] + lex_from(
                    cs@,
                    j as int,
                    sp,
                ).0);
                assert(toks_v(out@) + lex_from(cs@, j as int, sp).0 =~= before + lex_from(cs@, i as int, last).0);
            },
        }
        last = sp;
        i = j;
    }
    let ghost before = toks_v(out@);
    out.push((Lexeme::Eof, last.0, last.1));
    assert(toks_v(out@) =~= before + lex_from(cs@, i as int, last).0);
    (out, false)
}

// ---------------------------------------------------------------------------
// Reading the grammar.

/// What reading a part gives: its value and the index of the token after
/// it; the region and message of the first error; or nothing, where the
/// reader gives up.
pub enum Parsed<T> {
    Done(T, usize),
    Fail(Loc, Loc, String),
    Stuck,
}

/// The outcome of reading agrees with the outcome expected.
pub open spec fn agrees<T, V>(r: Parsed<T>, o: NOut<V>, f: spec_fn(T) -> V) -> bool {
    match r {
        Parsed::Done(x, k) => o matches NOut::Done(v, k2) && f(x) == v && k == k2,
        Parsed::Fail(a, b, m) => o matches NOut::Fail(sp, mv) && (a, b) == sp && m@ == mv,
        Parsed::Stuck => o is Stuck,
    }
}

fn unexpected_at<T>(ts: &Vec<(Lexeme, Loc, Loc)>, k: usize) -> (r: Parsed<T>)
    ensures
        agrees(r, unexpected::<T>(toks_v(ts@), k as int), |x: T| x),
{
    proof {
        reveal_strlit("Unexpected token.");
    }
    if k < ts.len() {
        Parsed::Fail(ts[k].1, ts[k].2, String::from_str("Unexpected token."))
    } else {
        Parsed::Stuck
    }
}

fn is_binary_text(s: &String) -> (r: bool)
    ensures
        r == binary(s@),
{
    let v = crate::text::chars_of(s.as_str());
    let mut i: usize = 0;
    while i < v.len()
        invariant
            i <= v@.len(),
            v@ == s@,
            forall|j: int| 0 <= j < i ==> s@[j] == '0' || s@[j] == '1',
        decreases v.len() - i,
    {
        if v[i] != '0' && v[i] != '1' {
            return false;
        }
        i = i + 1;
    }
    true
}

fn bits_value(s: &String) -> (r: Arg)
    requires
        binary(s@),
    ensures
        arg_v(r) == bits_of(s@),
{
    let v = crate::text::chars_of(s.as_str());
    if v.len() == 1 {
        Arg::Const(Value::Bit(v[0] == '1'))
    } else {
        let mut out: Vec<bool> = Vec::new();
        let mut i: usize = 0;
        while i < v.len()
            invariant
                i <= v@.len(),
                v@ == s@,
                out@.len() == i,
                forall|j: int| 0 <= j < i ==> out@[j] == (s@[j] == '1'),
            decreases v.len() - i,
        {
            out.push(v[i] == '1');
            i = i + 1;
        }
        assert(out@ =~= s@.map_values(|c: char| c == '1'));
        Arg::Const(Value::BitArray(out))
    }
}

pub proof fn lemma_dec_grows(s: Seq<char>, k: int)
    requires
        0 <= k <= s.len(),
        forall|i: int| 0 <= i < s.len() ==> ascii_digit(#[trigger] s[i]),
    ensures
        dec_value(s.take(k)) <= dec_value(s),
    decreases s.len() - k,
{
    if k < s.len() {
        lemma_dec_grows(s, k + 1);
        assert(s.take(k + 1).drop_last() =~= s.take(k));
    } else {
        assert(s.take(k) =~= s);
    }
}

/// The number a string of digits stands for, if it fits in 32 bits.
fn parse_u32(s: &String) -> (r: Option<u32>)
    requires
        forall|i: int| 0 <= i < s@.len() ==> ascii_digit(#[trigger] s@[i]),
    ensures
        match r {
            Some(v) => v == dec_value(s@),
            None => dec_value(s@) > u32::MAX,
        },
{
    let v = crate::text::chars_of(s.as_str());
    let mut acc: u64 = 0;
    let mut i: usize = 0;
    while i < v.len()
        invariant
            i <= v@.len(),
            v@ == s@,
            forall|j: int| 0 <= j < s@.len() ==> ascii_digit(#[trigger] s@[j]),
            acc == dec_value(s@.take(i as int)),
            acc <= u32::MAX,
        decreases v.len() - i,
    {
        assert(s@.take(i + 1).drop_last() =~= s@.take(i as int));
        assert(ascii_digit(s@[i as int]));
        let d = (v[i] as u32 - '0' as u32) as u64;
        acc = acc * 10 + d;
        if acc > 0xffff_ffff {
            proof {
                lemma_dec_grows(s@, i + 1);
            }
            return None;
        }
        i = i + 1;
    }
    assert(s@.take(v@.len() as int) =~= s@);
    Some(acc as u32)
}

/// Every `uint` token is made of digits.
pub open spec fn uints_digits(ts: Seq<(TokV, (Loc, Loc))>) -> bool {
    forall|k: int, j: int|
        #![trigger ts[k], ts[k].0->Uint_0[j]]
        0 <= k < ts.len() && ts[k].0 is Uint && 0 <= j < ts[k].0->Uint_0.len() ==> ascii_digit(ts[k].0->Uint_0[j])
}

fn arg_exec(ts: &Vec<(Lexeme, Loc, Loc)>, k: usize, last: bool) -> (r: Parsed<Arg>)
    requires
        k < usize::MAX - 8,
    ensures
        agrees(r, arg_at(toks_v(ts@), k as int, last), |a: Arg| arg_v(a)),
        r matches Parsed::Done(_, k2) ==> k2 == k + 1 && k2 < ts@.len(),
{
    proof {
        reveal_strlit("Expected a list of '1's and '0's");
    }
    if k >= ts.len() {
        return Parsed::Stuck;
    }
    let is_id = match &ts[k].0 {
        Lexeme::Ident(_) => true,
        _ => false,
    };
    let is_num = match &ts[k].0 {
        Lexeme::Uint(_) => true,
        _ => false,
    };
    if !is_id && !is_num {
        return unexpected_at(ts, k);
    }
    if k + 1 >= ts.len() {
        return Parsed::Stuck;
    }
    let la_ok = match &ts[k + 1].0 {
        Lexeme::Ident(_) => true,
        Lexeme::Eof => last,
        Lexeme::Uint(_) => !last,
        _ => false,
    };
    if !la_ok {
        return unexpected_at(ts, k + 1);
    }
    match &ts[k].0 {
        Lexeme::Ident(n) => Parsed::Done(Arg::Var(n.clone()), k + 1),
        Lexeme::Uint(n) => {
            if !is_binary_text(n) {
                Parsed::Fail(ts[k + 1].1, ts[k + 1].2, String::from_str("Expected a list of '1's and '0's"))
            } else {
                Parsed::Done(bits_value(n), k + 1)
            }
        },
        _ => Parsed::Stuck,
    }
}

proof fn lemma_run_digits(cs: Seq<(char, Loc)>, j: int)
    requires
        0 <= j <= cs.len(),
    ensures
        forall|m: int| j <= m < run_digits(cs, j) ==> ascii_digit(#[trigger] cs[m].0),
    decreases cs.len() - j,
{
    if j < cs.len() && ascii_digit(cs[j].0) {
        lemma_run_digits(cs, j + 1);
    }
}

proof fn lemma_lex_digits(cs: Seq<(char, Loc)>, i: int, last: (Loc, Loc))
    ensures
        uints_digits(lex_from(cs, i, last).0),
    decreases cs.len() - i,
{
    if 0 <= i < cs.len() {
        lemma_runs(cs, i + 1);
        match lexeme(cs, i) {
            Lexed::Skip(j) => {
                lemma_lex_digits(cs, j, (cs[i].1, cs[j - 1].1));
            },
            Lexed::Word(t, j) => {
                let sp = (cs[i].1, cs[j - 1].1);
                lemma_lex_digits(cs, j, sp);
                let rest = lex_from(cs, j, sp).0;
                let all = seq![(t, sp)] + rest;
                if t is Uint {
                    lemma_run_digits(cs, i + 1);
                    assert forall|m: int| 0 <= m < t->Uint_0.len() implies ascii_digit(#[trigger] t->Uint_0[m]) by {
                        assert(t->Uint_0[m] == cs[i + m].0);
                    }
                }
                assert forall|k: int, m: int|
                    #![trigger all[k], all[k].0->Uint_0[m]]
                    0 <= k < all.len() && all[k].0 is Uint && 0 <= m < all[k].0->Uint_0.len() implies ascii_digit(
                        all[k].0->Uint_0[m],
                    ) by {
                    if k > 0 {
                        assert(all[k] == rest[k - 1]);
                    }
                }
            },
            Lexed::Bad => {},
        }
    }
}

/// The chained operands, from what was read before.
pub open spec fn after_prefix(acc: Seq<ArgV>, o: NOut<Seq<ArgV>>) -> NOut<Seq<ArgV>> {
    match o {
        NOut::Done(rest, k) => NOut::Done(acc + rest, k),
        NOut::Fail(s, m) => NOut::Fail(s, m),
        NOut::Stuck => NOut::Stuck,
    }
}

fn args_exec(ts: &Vec<(Lexeme, Loc, Loc)>, k: usize, n: usize) -> (r: Parsed<Vec<Arg>>)
    requires
        k < usize::MAX - 16,
        n <= 4,
    ensures
        agrees(r, args_at(toks_v(ts@), k as int, n as nat), |v: Vec<Arg>| v@.map_values(|a: Arg| arg_v(a))),
        r matches Parsed::Done(v, _) ==> v@.len() == n,
        n > 0 ==> (r matches Parsed::Done(_, k2) ==> k < k2 < ts@.len() && k2 == k + n),
{
    let ghost tv = toks_v(ts@);
    let mut out: Vec<Arg> = Vec::new();
    let mut cur = k;
    let mut left = n;
    while left > 0
        invariant
            tv == toks_v(ts@),
            k <= cur <= k + (n - left),
            left <= n <= 4,
            k < usize::MAX - 16,
            out@.len() == n - left,
            cur == k + (n - left),
            left < n ==> cur < ts@.len(),
            args_at(tv, k as int, n as nat) == after_prefix(
                out@.map_values(|a: Arg| arg_v(a)),
                args_at(tv, cur as int, left as nat),
            ),
        decreases left,
    {
        let r = arg_exec(ts, cur, left == 1);
        match r {
            Parsed::Done(a, k2) => {
                let ghost before = out@.map_values(|a: Arg| arg_v(a));
                out.push(a);
                assert(out@.map_values(|a: Arg| arg_v(a)) =~= before.push(arg_v(out@[out@.len() - 1])));
                proof {
                    let o = args_at(tv, k2 as int, (left - 1) as nat);
                    match o {
                        NOut::Done(rest, k3) => {
                            assert(before + (seq![arg_v(out@[out@.len() - 1])] + rest) =~= before.push(arg_v(out@[out@.len() - 1])) + rest);
                        },
                        _ => {},
                    }
                }
                cur = k2;
                left = left - 1;
            },
            Parsed::Fail(a, b, m) => {
                return Parsed::Fail(a, b, m);
            },
            Parsed::Stuck => {
                return Parsed::Stuck;
            },
        }
    }
    assert(out@.map_values(|a: Arg| arg_v(a)) + Seq::<ArgV>::empty() =~= out@.map_values(|a: Arg| arg_v(a)));
    Parsed::Done(out, cur)
}

fn op_shape(t: &Lexeme) -> (r: (usize, usize))
    ensures
        r == (match t@ {
            TokV::Not => (0usize, 1usize),
            TokV::Or | TokV::Xor | TokV::And | TokV::Nand | TokV::Concat => (0usize, 2usize),
            TokV::Mux => (0usize, 3usize),
            TokV::Ram => (2usize, 4usize),
            TokV::Rom => (2usize, 1usize),
            TokV::Select => (1usize, 1usize),
            TokV::Slice => (2usize, 1usize),
            _ => (0usize, 0usize),
        }),
{
    match t {
        Lexeme::Not => (0, 1),
        Lexeme::Or | Lexeme::Xor | Lexeme::And | Lexeme::Nand | Lexeme::Concat => (0, 2),
        Lexeme::Mux => (0, 3),
        Lexeme::Ram => (2, 4),
        Lexeme::Rom => (2, 1),
        Lexeme::Select => (1, 1),
        Lexeme::Slice => (2, 1),
        _ => (0, 0),
    }
}

fn uint_text(ts: &Vec<(Lexeme, Loc, Loc)>, k: usize) -> (r: Option<u32>)
    requires
        k < ts@.len(),
        ts@[k as int].0 is Uint,
        uints_digits(toks_v(ts@)),
    ensures
        match r {
            Some(v) => v == uint_at(toks_v(ts@), k as int),
            None => uint_at(toks_v(ts@), k as int) > u32::MAX,
        },
{
    match &ts[k].0 {
        Lexeme::Uint(s) => {
            proof {
                let tv = toks_v(ts@);
                assert(tv[k as int].0 == TokV::Uint(s@));
                assert forall|j: int| 0 <= j < s@.len() implies ascii_digit(#[trigger] s@[j]) by {
                    assert(tv[k as int].0->Uint_0[j] == s@[j]);
                }
            }
            parse_u32(s)
        },
        _ => None,
    }
}

fn op_value_exec(ts: &Vec<(Lexeme, Loc, Loc)>, t: &Lexeme, u: usize, args: Vec<Arg>, k2: usize) -> (r: Parsed<Def>)
    requires
        u < k2 < ts@.len(),
        uints_digits(toks_v(ts@)),
        args@.len() == (match t@ {
            TokV::Not => 1int,
            TokV::Or | TokV::Xor | TokV::And | TokV::Nand | TokV::Concat => 2,
            TokV::Mux => 3,
            TokV::Ram => 4,
            TokV::Rom => 1,
            TokV::Select => 1,
            TokV::Slice => 1,
            _ => 0,
        }),
        t@ is Ram || t@ is Rom || t@ is Slice ==> ts@[u as int].0 is Uint && ts@[u + 1].0 is Uint,
        t@ is Select ==> ts@[u as int].0 is Uint,
    ensures
        agrees(r, op_value(toks_v(ts@), t@, u as int, args@.map_values(|a: Arg| arg_v(a)), k2 as int), |d: Def| def_v(d)),
{
    proof {
        reveal_strlit("Number too big.");
    }
    let ghost av = args@.map_values(|a: Arg| arg_v(a));
    let mut args = args;
    match t {
        Lexeme::Not => {
            let a = args.remove(0);
            Parsed::Done(Def::Not(a), k2)
        },
        Lexeme::Or | Lexeme::Xor | Lexeme::And | Lexeme::Nand => {
            let b = args.remove(1);
            let a = args.remove(0);
            let ty = match t {
                Lexeme::Or => BinOpType::Or,
                Lexeme::Xor => BinOpType::Xor,
                Lexeme::And => BinOpType::And,
                _ => BinOpType::Nand,
            };
            Parsed::Done(Def::Bin(ty, a, b), k2)
        },
        Lexeme::Concat => {
            let b = args.remove(1);
            let a = args.remove(0);
            Parsed::Done(Def::Concat(a, b), k2)
        },
        Lexeme::Mux => {
            let c = args.remove(2);
            let b = args.remove(1);
            let a = args.remove(0);
            Parsed::Done(Def::Mux(a, b, c), k2)
        },
        Lexeme::Ram => {
            let x = uint_text(ts, u);
            let y = uint_text(ts, u + 1);
            match (x, y) {
                (Some(address_size), Some(word_size)) => {
                    let data = args.remove(3);
                    let write_address = args.remove(2);
                    let write_enable = args.remove(1);
                    let read_address = args.remove(0);
                    Parsed::Done(
                        Def::Ram(RamData { address_size, word_size, read_address, write_enable, write_address, data }),
                        k2,
                    )
                },
                _ => Parsed::Stuck,
            }
        },
        Lexeme::Rom => {
            let x = uint_text(ts, u);
            let y = uint_text(ts, u + 1);
            match (x, y) {
                (Some(address_size), Some(word_size)) => {
                    let read_address = args.remove(0);
                    Parsed::Done(Def::Rom(RomData { address_size, word_size, read_address }), k2)
                },
                _ => Parsed::Stuck,
            }
        },
        Lexeme::Select => {
            match uint_text(ts, u) {
                Some(i) => {
                    let a = args.remove(0);
                    Parsed::Done(Def::Select(i, a), k2)
                },
                None => Parsed::Stuck,
            }
        },
        Lexeme::Slice => {
            match uint_text(ts, u + 1) {
                None => Parsed::Fail(ts[k2].1, ts[k2].2, String::from_str("Number too big.")),
                Some(e) => match uint_text(ts, u) {
                    None => Parsed::Stuck,
                    Some(b) => {
                        let a = args.remove(0);
                        Parsed::Done(Def::Slice(b, e, a), k2)
                    },
                },
            }
        },
        _ => Parsed::Stuck,
    }
}

fn op_exec(ts: &Vec<(Lexeme, Loc, Loc)>, k: usize) -> (r: Parsed<Def>)
    requires
        k < usize::MAX - 32,
        uints_digits(toks_v(ts@)),
    ensures
        agrees(r, op_at(toks_v(ts@), k as int), |d: Def| def_v(d)),
        r matches Parsed::Done(_, k2) ==> k < k2 < ts@.len(),
{
    proof {
        reveal_with_fuel(uints_at, 3);
    }
    let ghost tv = toks_v(ts@);
    if k >= ts.len() {
        return Parsed::Stuck;
    }
    let t = &ts[k].0;
    let (nu, na) = op_shape(t);
    let simple = match t {
        Lexeme::Ident(_) | Lexeme::Uint(_) => true,
        _ => false,
    };
    if simple {
        return match arg_exec(ts, k, true) {
            Parsed::Done(a, k2) => Parsed::Done(Def::Fwd(a), k2),
            Parsed::Fail(a, b, m) => Parsed::Fail(a, b, m),
            Parsed::Stuck => Parsed::Stuck,
        };
    }
    let is_reg = match t {
        Lexeme::Reg => true,
        _ => false,
    };
    if is_reg {
        if k + 1 >= ts.len() {
            return Parsed::Stuck;
        }
        return match &ts[k + 1].0 {
            Lexeme::Ident(r) => {
                if k + 2 >= ts.len() {
                    Parsed::Stuck
                } else {
                    let ok = match &ts[k + 2].0 {
                        Lexeme::Ident(_) | Lexeme::Eof => true,
                        _ => false,
                    };
                    if ok {
                        Parsed::Done(Def::Reg(r.clone()), k + 2)
                    } else {
                        unexpected_at(ts, k + 2)
                    }
                }
            },
            _ => unexpected_at(ts, k + 1),
        };
    }
    if na == 0 {
        return unexpected_at(ts, k);
    }
    // the numbers that follow the keyword
    if nu >= 1 {
        if k + 1 >= ts.len() {
            return Parsed::Stuck;
        }
        let is_num = match &ts[k + 1].0 {
            Lexeme::Uint(_) => true,
            _ => false,
        };
        if !is_num {
            return unexpected_at(ts, k + 1);
        }
    }
    if nu >= 2 {
        if k + 2 >= ts.len() {
            return Parsed::Stuck;
        }
        let is_num = match &ts[k + 2].0 {
            Lexeme::Uint(_) => true,
            _ => false,
        };
        if !is_num {
            return unexpected_at(ts, k + 2);
        }
    }
    assert(uints_at(tv, k + 1, nu as int) is None) by {
        if nu >= 1 {
            assert(is_uint(tok_at(tv, k + 1)));
            if nu >= 2 {
                assert(is_uint(tok_at(tv, k + 2)));
                assert(uints_at(tv, k + 3, 0) is None);
            }
        }
    }
    match args_exec(ts, k + 1 + nu, na) {
        Parsed::Done(a, k2) => {
            let t2 = &ts[k].0;
            op_value_exec(ts, t2, k + 1, a, k2)
        },
        Parsed::Fail(a, b, m) => Parsed::Fail(a, b, m),
        Parsed::Stuck => Parsed::Stuck,
    }
}

fn is_stop(t: &Lexeme, stop_output: bool) -> (r: bool)
    ensures
        r == (t@ == (if stop_output { TokV::Output } else { TokV::Var })),
{
    match t {
        Lexeme::Output => stop_output,
        Lexeme::Var => !stop_output,
        _ => false,
    }
}

fn names_exec(ts: &Vec<(Lexeme, Loc, Loc)>, k: usize, stop_output: bool) -> (r: Parsed<Vec<String>>)
    requires
        k < ts@.len(),
        ts@.len() < usize::MAX - 64,
    ensures
        agrees(
            r,
            names_at(toks_v(ts@), k as int, if stop_output { TokV::Output } else { TokV::Var }, Seq::empty(), true),
            |v: Vec<String>| v@.map_values(|s: String| s@),
        ),
        r matches Parsed::Done(_, k2) ==> k2 < ts@.len(),
{
    let ghost tv = toks_v(ts@);
    let ghost stop = if stop_output { TokV::Output } else { TokV::Var };
    let mut out: Vec<String> = Vec::new();
    let mut cur = k;
    let mut first = true;
    assert(out@.map_values(|s: String| s@) =~= Seq::<Seq<char>>::empty());
    while cur < ts.len()
        invariant
            tv == toks_v(ts@),
            ts@.len() < usize::MAX - 64,
            stop == (if stop_output { TokV::Output } else { TokV::Var }),
            names_at(tv, k as int, stop, Seq::empty(), true) == names_at(
                tv,
                cur as int,
                stop,
                out@.map_values(|s: String| s@),
                first,
            ),
        decreases ts@.len() - cur,
    {
        if first && is_stop(&ts[cur].0, stop_output) {
            return Parsed::Done(out, cur);
        }
        match &ts[cur].0 {
            Lexeme::Ident(n) => {
                if cur + 1 >= ts.len() {
                    return Parsed::Stuck;
                }
                let ghost before = out@.map_values(|s: String| s@);
                let name = n.clone();
                out.push(name);
                assert(out@.map_values(|s: String| s@) =~= before.push(n@));
                if is_stop(&ts[cur + 1].0, stop_output) {
                    return Parsed::Done(out, cur + 1);
                }
                let is_comma = match &ts[cur + 1].0 {
                    Lexeme::Comma => true,
                    _ => false,
                };
                if !is_comma {
                    return unexpected_at(ts, cur + 1);
                }
                cur = cur + 2;
                first = false;
            },
            _ => {
                return unexpected_at(ts, cur);
            },
        }
    }
    Parsed::Stuck
}

fn decls_exec(ts: &Vec<(Lexeme, Loc, Loc)>, k: usize) -> (r: Parsed<Vec<(String, ValueType)>>)
    requires
        k < ts@.len(),
        ts@.len() < usize::MAX - 64,
        uints_digits(toks_v(ts@)),
    ensures
        agrees(
            r,
            decls_at(toks_v(ts@), k as int, Seq::empty(), true),
            |v: Vec<(String, ValueType)>| v@.map_values(|d: (String, ValueType)| (d.0@, d.1)),
        ),
        r matches Parsed::Done(_, k2) ==> k2 < ts@.len(),
{
    proof {
        reveal_strlit("Illegal length (0) for a bit array.");
    }
    let ghost tv = toks_v(ts@);
    let mut out: Vec<(String, ValueType)> = Vec::new();
    let mut cur = k;
    let mut first = true;
    assert(out@.map_values(|d: (String, ValueType)| (d.0@, d.1)) =~= Seq::<(Seq<char>, ValueType)>::empty());
    while cur < ts.len()
        invariant
            tv == toks_v(ts@),
            ts@.len() < usize::MAX - 64,
            uints_digits(tv),
            decls_at(tv, k as int, Seq::empty(), true) == decls_at(
                tv,
                cur as int,
                out@.map_values(|d: (String, ValueType)| (d.0@, d.1)),
                first,
            ),
        decreases ts@.len() - cur,
    {
        let at_in = match &ts[cur].0 {
            Lexeme::In => true,
            _ => false,
        };
        if first && at_in {
            return Parsed::Done(out, cur);
        }
        match &ts[cur].0 {
            Lexeme::Ident(n) => {
                let has_len = cur + 1 < ts.len() && match &ts[cur + 1].0 {
                    Lexeme::Colon => true,
                    _ => false,
                };
                let after = if has_len {
                    cur + 3
                } else {
                    cur + 1
                };
                let mut ty = ValueType::Bit;
                if has_len {
                    if cur + 2 >= ts.len() {
                        return Parsed::Stuck;
                    }
                    let is_num = match &ts[cur + 2].0 {
                        Lexeme::Uint(_) => true,
                        _ => false,
                    };
                    if !is_num {
                        return unexpected_at(ts, cur + 2);
                    }
                }
                if after >= ts.len() {
                    return Parsed::Stuck;
                }
                let (la_comma, la_in) = match &ts[after].0 {
                    Lexeme::Comma => (true, false),
                    Lexeme::In => (false, true),
                    _ => (false, false),
                };
                if !la_comma && !la_in {
                    return unexpected_at(ts, after);
                }
                if has_len {
                    match uint_text(ts, cur + 2) {
                        None => {
                            return Parsed::Stuck;
                        },
                        Some(len) => {
                            if len == 0 {
                                return Parsed::Fail(
                                    ts[after].1,
                                    ts[after].2,
                                    String::from_str("Illegal length (0) for a bit array."),
                                );
                            }
                            ty = ValueType::BitArray(len);
                        },
                    }
                }
                let ghost before = out@.map_values(|d: (String, ValueType)| (d.0@, d.1));
                out.push((n.clone(), ty));
                assert(out@.map_values(|d: (String, ValueType)| (d.0@, d.1)) =~= before.push((n@, ty)));
                if la_in {
                    return Parsed::Done(out, after);
                }
                cur = after + 1;
                first = false;
            },
            _ => {
                return unexpected_at(ts, cur);
            },
        }
    }
    Parsed::Stuck
}

fn defs_exec(ts: &Vec<(Lexeme, Loc, Loc)>, k: usize) -> (r: Parsed<Vec<(String, Def)>>)
    requires
        ts@.len() < usize::MAX - 64,
        uints_digits(toks_v(ts@)),
    ensures
        agrees(
            r,
            defs_at(toks_v(ts@), k as int, Seq::empty()),
            |v: Vec<(String, Def)>| v@.map_values(|d: (String, Def)| (d.0@, def_v(d.1))),
        ),
{
    let ghost tv = toks_v(ts@);
    let mut out: Vec<(String, Def)> = Vec::new();
    let mut cur = k;
    assert(out@.map_values(|d: (String, Def)| (d.0@, def_v(d.1))) =~= Seq::<(Seq<char>, DefV)>::empty());
    while cur < ts.len()
        invariant
            tv == toks_v(ts@),
            ts@.len() < usize::MAX - 64,
            uints_digits(tv),
            defs_at(tv, k as int, Seq::empty()) == defs_at(
                tv,
                cur as int,
                out@.map_values(|d: (String, Def)| (d.0@, def_v(d.1))),
            ),
        decreases ts@.len() - cur,
    {
        let is_eof = match &ts[cur].0 {
            Lexeme::Eof => true,
            _ => false,
        };
        if is_eof {
            return Parsed::Done(out, cur);
        }
        match &ts[cur].0 {
            Lexeme::Ident(n) => {
                if cur + 1 >= ts.len() {
                    return Parsed::Stuck;
                }
                let is_eq = match &ts[cur + 1].0 {
                    Lexeme::Equals => true,
                    _ => false,
                };
                if !is_eq {
                    return unexpected_at(ts, cur + 1);
                }
                match op_exec(ts, cur + 2) {
                    Parsed::Done(d, k2) => {
                        let ghost before = out@.map_values(|d: (String, Def)| (d.0@, def_v(d.1)));
                        let ghost dv = def_v(d);
                        out.push((n.clone(), d));
                        assert(out@.map_values(|d: (String, Def)| (d.0@, def_v(d.1))) =~= before.push((n@, dv)));
                        cur = k2;
                    },
                    Parsed::Fail(a, b, m) => {
                        return Parsed::Fail(a, b, m);
                    },
                    Parsed::Stuck => {
                        return Parsed::Stuck;
                    },
                }
            },
            _ => {
                return unexpected_at(ts, cur);
            },
        }
    }
    Parsed::Stuck
}

fn netlist_exec(ts: &Vec<(Lexeme, Loc, Loc)>) -> (r: Parsed<Netlist>)
    requires
        ts@.len() < usize::MAX - 64,
        uints_digits(toks_v(ts@)),
    ensures
        agrees(r, netlist_of(toks_v(ts@)), |n: Netlist| netlist_v(n)),
{
    if ts.len() == 0 {
        return Parsed::Stuck;
    }
    let is_input = match &ts[0].0 {
        Lexeme::Input => true,
        _ => false,
    };
    if !is_input {
        return unexpected_at(ts, 0);
    }
    if 1 >= ts.len() {
        return Parsed::Stuck;
    }
    let (inputs, k1) = match names_exec(ts, 1, true) {
        Parsed::Done(v, k1) => (v, k1),
        Parsed::Fail(a, b, m) => {
            return Parsed::Fail(a, b, m);
        },
        Parsed::Stuck => {
            return Parsed::Stuck;
        },
    };
    if k1 + 1 >= ts.len() {
        return Parsed::Stuck;
    }
    let (outputs, k2) = match names_exec(ts, k1 + 1, false) {
        Parsed::Done(v, k2) => (v, k2),
        Parsed::Fail(a, b, m) => {
            return Parsed::Fail(a, b, m);
        },
        Parsed::Stuck => {
            return Parsed::Stuck;
        },
    };
    if k2 + 1 >= ts.len() {
        return Parsed::Stuck;
    }
    let (vars, k3) = match decls_exec(ts, k2 + 1) {
        Parsed::Done(v, k3) => (v, k3),
        Parsed::Fail(a, b, m) => {
            return Parsed::Fail(a, b, m);
        },
        Parsed::Stuck => {
            return Parsed::Stuck;
        },
    };
    match defs_exec(ts, k3 + 1) {
        Parsed::Done(defs, k4) => Parsed::Done(Netlist { inputs, outputs, vars, defs }, k4),
        Parsed::Fail(a, b, m) => Parsed::Fail(a, b, m),
        Parsed::Stuck => Parsed::Stuck,
    }
}

proof fn lemma_lex_len(cs: Seq<(char, Loc)>, i: int, last: (Loc, Loc))
    requires
        0 <= i <= cs.len(),
    ensures
        lex_from(cs, i, last).0.len() <= cs.len() - i + 1,
    decreases cs.len() - i,
{
    if i < cs.len() {
        lemma_runs(cs, i + 1);
        match lexeme(cs, i) {
            Lexed::Skip(j) => {
                lemma_lex_len(cs, j, (cs[i].1, cs[j - 1].1));
            },
            Lexed::Word(t, j) => {
                lemma_lex_len(cs, j, (cs[i].1, cs[j - 1].1));
            },
            Lexed::Bad => {},
        }
    }
}

proof fn lemma_tokens_len(s: Seq<char>)
    ensures
        tokens_of(s).0.len() <= s.len() + 1,
{
    lemma_lex_len(located(s), 0, ((0usize, 1usize, 1usize), (0usize, 1usize, 1usize)));
}

/// Whether reading the text succeeds, fails with an error, or gives up.
pub open spec fn read_outcome<'a>(file_name: &'a str, s: Seq<char>, r: Result<Netlist, ReadError<'a>>) -> bool {
    match netlist_text_of(s) {
        NOut::Done(n, _) => r matches Ok(x) && netlist_v(x) == n,
        NOut::Fail(sp, m) => r matches Err(e) && e.spec_span() == (Span { file: file_name, start: sp.0, end: sp.1 })
            && e.spec_message() == m,
        NOut::Stuck => false,
    }
}

/// Reads a netlist: `None` where the grammar reaches what the netlist
/// language gives no reading to (a character or token the reader does not
/// take, or a number too large where it must fit in 32 bits): reading such
/// a text panics, and this is how a caller tells it apart beforehand; else
/// the netlist or the first error, with its region.
pub fn read_netlist<'a>(file_name: &'a str, contents: &'a str) -> (r: Option<Result<Netlist, ReadError<'a>>>)
    requires
        contents@.len() < usize::MAX - 128,
    ensures
        r is None <==> netlist_text_of(contents@) is Stuck,
        r matches Some(x) ==> read_outcome(file_name, contents@, x),
{
    let (ts, bad) = lex_netlist(contents);
    proof {
        lemma_lex_digits(located(contents@), 0, ((0usize, 1usize, 1usize), (0usize, 1usize, 1usize)));
        lemma_tokens_len(contents@);
    }
    match netlist_exec(&ts) {
        Parsed::Done(n, _) => Some(Ok(n)),
        Parsed::Fail(a, b, m) => Some(Err(ReadError::from((Span { file: file_name, start: a, end: b }, m)))),
        Parsed::Stuck => None,
    }
}

/// Reads a netlist: the netlist, or the first error with its region. A
/// text on which the grammar reaches what the language gives no reading to
/// (see `read_netlist`) has no result: reading it panics.
pub fn parse_netlist<'a>(file_name: &'a str, contents: &'a str) -> (r: Result<Netlist, ReadError<'a>>)
    requires
        contents@.len() < usize::MAX - 128,
        !(netlist_text_of(contents@) is Stuck),
    ensures
        read_outcome(file_name, contents@, r),
{
    match read_netlist(file_name, contents) {
        Some(r) => r,
        None => {
            proof {
                assert(false);
            }
            Err(ReadError::from((Span { file: file_name, start: (0, 1, 1), end: (0, 1, 1) }, String::new())))
        },
    }
}

} // verus!
