use vstd::prelude::*;

use crate::text::{append_decimal64, append_item, comma_list, decimal, lemma_comma_list_step, list_sep, push_char};
use super::lir::{stmts_view, vals_view, BinOp, Function, InstV, Instruction, Source, Statement, StmtV, UnaryOp, Val, ValV};
use super::lir_parsing::{fn_v, names_v, source_v, FnV, SourceV};

verus! {

// ---------------------------------------------------------------------------
// The text of a program of the low-level language, in the form its reader
// takes.

/// A character of a string literal: `\`, `"`, a new line and a tab are
/// escaped.
pub open spec fn escaped_char(c: char) -> Seq<char> {
    if c == '\\' {
        seq!['\\', '\\']
    } else if c == '"' {
        seq!['\\', '"']
    } else if c == '\n' {
        seq!['\\', 'n']
    } else if c == '\t' {
        seq!['\\', 't']
    } else {
        seq![c]
    }
}

/// The characters of a string literal, escaped.
pub open spec fn escaped(s: Seq<char>) -> Seq<char>
    decreases s.len(),
{
    if s.len() == 0 {
        seq![]
    } else {
        escaped(s.drop_last()) + escaped_char(s.last())
    }
}

/// The text of a value.
pub open spec fn val_text(v: ValV) -> Seq<char> {
    match v {
        ValV::Var(x) => x,
        ValV::Const(c) => decimal(c as nat),
        ValV::Str(s) => seq!['"'] + escaped(s) + seq!['"'],
    }
}

/// The text of an operator between two values.
pub open spec fn bin_text(op: BinOp) -> Seq<char> {
    match op {
        BinOp::And => "&&"@,
        BinOp::Or => "||"@,
        BinOp::Equ => "=="@,
        BinOp::Neq => "!="@,
        BinOp::Lt => "<"@,
        BinOp::Leq => "<="@,
        BinOp::Gt => ">"@,
        BinOp::Geq => ">="@,
        BinOp::Add => "+"@,
        BinOp::Sub => "-"@,
        BinOp::Mul => "*"@,
        BinOp::Div => "%"@,
    }
}

/// The text of an operator before a value.
pub open spec fn un_text(op: UnaryOp) -> Seq<char> {
    match op {
        UnaryOp::Neg => "-"@,
        UnaryOp::Not => "!"@,
    }
}

/// The texts of some values, separated by commas.
pub open spec fn vals_text(vs: Seq<ValV>) -> Seq<char> {
    comma_list(vs.map_values(|v: ValV| val_text(v)))
}

/// The text of an instruction.
pub open spec fn inst_text(i: InstV) -> Seq<char> {
    match i {
        InstV::Bin(d, op, a, b) => d + " <- "@ + val_text(a) + " "@ + bin_text(op) + " "@ + val_text(b) + ";"@,
        InstV::Unary(d, op, a) => d + " <- "@ + un_text(op) + val_text(a) + ";"@,
        InstV::Mov(d, a) => d + " <- "@ + val_text(a) + ";"@,
        InstV::AssignArray(v, k, w) => val_text(v) + "["@ + decimal(k as nat) + "] <- "@ + val_text(w) + ";"@,
        InstV::Access(d, a, k) => d + " <- "@ + val_text(a) + "["@ + decimal(k as nat) + "];"@,
        InstV::Jump(l) => "jump "@ + l + ";"@,
        InstV::Jumpif(a, l) => "jumpif "@ + val_text(a) + " "@ + l + ";"@,
        InstV::JumpifNot(a, l) => "jumpif !"@ + val_text(a) + " "@ + l + ";"@,
        InstV::Call(dest, native, f, args) => (match dest {
            Some((d1, d2)) => "("@ + d1 + ", "@ + d2 + ") <- "@,
            None => seq![],
        }) + "call "@ + (if native {
            "native "@
        } else {
            seq![]
        }) + f + "("@ + vals_text(args) + ");"@,
        InstV::Return(a, b) => "return "@ + val_text(a) + ", "@ + val_text(b) + ";"@,
    }
}

/// The line of a statement: a label, or an indented instruction.
pub open spec fn stmt_line(s: StmtV) -> Seq<char> {
    match s {
        StmtV::Label(l) => l + ":\n"@,
        StmtV::Inst(i) => "\t"@ + inst_text(i) + "\n"@,
    }
}

/// The lines of the first `k` statements.
pub open spec fn stmts_text(s: Seq<StmtV>, k: int) -> Seq<char>
    decreases k,
{
    if k <= 0 || k > s.len() {
        seq![]
    } else {
        stmts_text(s, k - 1) + stmt_line(s[k - 1])
    }
}

/// The text of a function: its head, its variables, and its statements in
/// braces.
pub open spec fn fn_text(f: FnV) -> Seq<char> {
    "fn "@ + f.0 + "("@ + comma_list(f.1) + ") vars: "@ + comma_list(f.2) + "; {\n"@ + stmts_text(f.3, f.3.len() as int)
        + "}\n"@
}

/// The texts of the first `k` functions.
pub open spec fn fns_text(fs: Seq<FnV>, k: int) -> Seq<char>
    decreases k,
{
    if k <= 0 || k > fs.len() {
        seq![]
    } else {
        fns_text(fs, k - 1) + fn_text(fs[k - 1])
    }
}

/// The text of a program: its globals, then its functions.
pub open spec fn source_text(s: SourceV) -> Seq<char> {
    "globals: "@ + comma_list(s.0) + ";\n"@ + fns_text(s.1, s.1.len() as int)
}

// ---------------------------------------------------------------------------
// Writing.

fn append_escaped(out: &mut String, s: &str)
    ensures
        final(out)@ == old(out)@ + escaped(s@),
{
    let cs = crate::text::chars_of(s);
    let ghost o = out@;
    let mut i: usize = 0;
    assert(escaped(cs@.take(0)) =~= seq![]);
    assert(o + seq![] =~= o);
    while i < cs.len()
        invariant
            i <= cs@.len(),
            cs@ == s@,
            out@ == o + escaped(cs@.take(i as int)),
        decreases cs.len() - i,
    {
        let c = cs[i];
        let ghost before = out@;
        if c == '\\' {
            push_char(out, '\\');
            push_char(out, '\\');
        } else if c == '"' {
            push_char(out, '\\');
            push_char(out, '"');
        } else if c == '\n' {
            push_char(out, '\\');
            push_char(out, 'n');
        } else if c == '\t' {
            push_char(out, '\\');
            push_char(out, 't');
        } else {
            push_char(out, c);
        }
        proof {
            assert(cs@.take(i + 1).drop_last() =~= cs@.take(i as int));
            assert(out@ =~= before + escaped_char(c));
        }
        i = i + 1;
    }
    assert(cs@.take(cs@.len() as int) =~= s@);
}

fn append_val(out: &mut String, v: &Val)
    ensures
        final(out)@ == old(out)@ + val_text(v@),
{
    match v {
        Val::Var(x) => out.append(x.as_str()),
        Val::Const(c) => append_decimal64(out, *c),
        Val::Str(s) => {
            let ghost o = out@;
            push_char(out, '"');
            append_escaped(out, s.as_str());
            push_char(out, '"');
            assert(out@ =~= o + (seq!['"'] + escaped(s@) + seq!['"']));
        },
    }
}

fn append_names(out: &mut String, names: &Vec<String>)
    ensures
        final(out)@ == old(out)@ + comma_list(names_v(names@)),
{
    let ghost o = out@;
    let ghost items = names_v(names@);
    let mut i: usize = 0;
    assert(comma_list(items.take(0)) =~= seq![]);
    assert(o + seq![] =~= o);
    while i < names.len()
        invariant
            i <= names@.len(),
            items == names_v(names@),
            out@ == o + comma_list(items.take(i as int)),
        decreases names.len() - i,
    {
        proof {
            lemma_comma_list_step(items, i as int);
        }
        append_item(out, i, names[i].as_str());
        i = i + 1;
    }
    assert(items.take(names@.len() as int) =~= items);
}

fn append_vals(out: &mut String, vs: &Vec<Val>)
    ensures
        final(out)@ == old(out)@ + vals_text(vals_view(vs@)),
{
    let ghost o = out@;
    let ghost items = vals_view(vs@).map_values(|v: ValV| val_text(v));
    let mut i: usize = 0;
    assert(comma_list(items.take(0)) =~= seq![]);
    assert(o + seq![] =~= o);
    while i < vs.len()
        invariant
            i <= vs@.len(),
            items == vals_view(vs@).map_values(|v: ValV| val_text(v)),
            out@ == o + comma_list(items.take(i as int)),
        decreases vs.len() - i,
    {
        proof {
            lemma_comma_list_step(items, i as int);
        }
        let ghost before = out@;
        if i > 0 {
            out.append(", ");
        }
        append_val(out, &vs[i]);
        proof {
            assert(items[i as int] == val_text(vs@[i as int]@));
            if i == 0 {
                assert(before + list_sep(0) =~= before);
            } else {
                reveal_strlit(", ");
            }
        }
        i = i + 1;
    }
    assert(items.take(vs@.len() as int) =~= items);
}

fn append_bin(out: &mut String, op: BinOp)
    ensures
        final(out)@ == old(out)@ + bin_text(op),
{
    match op {
        BinOp::And => out.append("&&"),
        BinOp::Or => out.append("||"),
        BinOp::Equ => out.append("=="),
        BinOp::Neq => out.append("!="),
        BinOp::Lt => out.append("<"),
        BinOp::Leq => out.append("<="),
        BinOp::Gt => out.append(">"),
        BinOp::Geq => out.append(">="),
        BinOp::Add => out.append("+"),
        BinOp::Sub => out.append("-"),
        BinOp::Mul => out.append("*"),
        BinOp::Div => out.append("%"),
    }
}

#[verifier::spinoff_prover]
#[verifier::rlimit(100)]
fn append_inst(out: &mut String, i: &Instruction)
    ensures
        final(out)@ == old(out)@ + inst_text(i@),
{
    let ghost o = out@;
    match i {
        Instruction::Bin(d, op, a, b) => {
            out.append(d.as_str());
            out.append(" <- ");
            append_val(out, a);
            out.append(" ");
            append_bin(out, *op);
            out.append(" ");
            append_val(out, b);
            out.append(";");
            assert(out@ =~= o + inst_text(i@));
        },
        Instruction::Unary(d, op, a) => {
            out.append(d.as_str());
            out.append(" <- ");
            match op {
                UnaryOp::Neg => out.append("-"),
                UnaryOp::Not => out.append("!"),
            }
            append_val(out, a);
            out.append(";");
            assert(out@ =~= o + inst_text(i@));
        },
        Instruction::Mov(d, a) => {
            out.append(d.as_str());
            out.append(" <- ");
            append_val(out, a);
            out.append(";");
            assert(out@ =~= o + inst_text(i@));
        },
        Instruction::AssignArray(v, k, w) => {
            append_val(out, v);
            out.append("[");
            append_decimal64(out, *k);
            out.append("] <- ");
            append_val(out, w);
            out.append(";");
            assert(out@ =~= o + inst_text(i@));
        },
        Instruction::Access(d, a, k) => {
            out.append(d.as_str());
            out.append(" <- ");
            append_val(out, a);
            out.append("[");
            append_decimal64(out, *k);
            out.append("];");
            assert(out@ =~= o + inst_text(i@));
        },
        Instruction::Jump(l) => {
            out.append("jump ");
            out.append(l.name.as_str());
            out.append(";");
            assert(out@ =~= o + inst_text(i@));
        },
        Instruction::Jumpif(a, l) => {
            out.append("jumpif ");
            append_val(out, a);
            out.append(" ");
            out.append(l.name.as_str());
            out.append(";");
            assert(out@ =~= o + inst_text(i@));
        },
        Instruction::JumpifNot(a, l) => {
            out.append("jumpif !");
            append_val(out, a);
            out.append(" ");
            out.append(l.name.as_str());
            out.append(";");
            assert(out@ =~= o + inst_text(i@));
        },
        Instruction::Call(dest, native, f, args) => {
            let ghost o1 = out@;
            match dest {
                Some((d1, d2)) => {
                    out.append("(");
                    out.append(d1.as_str());
                    out.append(", ");
                    out.append(d2.as_str());
                    out.append(") <- ");
                },
                None => {
                    assert(o1 + Seq::<char>::empty() =~= o1);
                },
            }
            let ghost o2 = out@;
            out.append("call ");
            if *native {
                out.append("native ");
            } else {
                assert(out@ + Seq::<char>::empty() =~= out@);
            }
            out.append(f.as_str());
            out.append("(");
            append_vals(out, args);
            out.append(");");
            assert(out@ =~= o + inst_text(i@));
        },
        Instruction::Return(a, b) => {
            out.append("return ");
            append_val(out, a);
            out.append(", ");
            append_val(out, b);
            out.append(";");
            assert(out@ =~= o + inst_text(i@));
        },
    }
}

impl Instruction {
    /// The text of the instruction, as the reader of the low-level language
    /// takes it.
    pub fn to_text(&self) -> (r: String)
        ensures
            r@ == inst_text(self@),
    {
        let mut out = String::new();
        append_inst(&mut out, self);
        assert(out@ =~= inst_text(self@));
        out
    }
}

impl Function {
    /// The text of the function, as the reader of the low-level language
    /// takes it.
    pub fn to_text(&self) -> (r: String)
        ensures
            r@ == fn_text(fn_v(*self)),
    {
        let mut out = String::new();
        append_fn(&mut out, self);
        assert(out@ =~= fn_text(fn_v(*self)));
        out
    }
}

fn append_fn(out: &mut String, f: &Function)
    ensures
        final(out)@ == old(out)@ + fn_text(fn_v(*f)),
{
    let ghost o = out@;
    out.append("fn ");
    out.append(f.name.as_str());
    out.append("(");
    append_names(out, &f.args);
    out.append(") vars: ");
    append_names(out, &f.vars);
    out.append("; {\n");
    let ghost o1 = out@;
    let ghost ss = stmts_view(f.body.stmts@);
    let mut i: usize = 0;
    assert(o1 + stmts_text(ss, 0) =~= o1);
    while i < f.body.stmts.len()
        invariant
            i <= f.body.stmts@.len(),
            ss == stmts_view(f.body.stmts@),
            out@ == o1 + stmts_text(ss, i as int),
        decreases f.body.stmts.len() - i,
    {
        let ghost before = out@;
        match &f.body.stmts[i] {
            Statement::Label(l) => {
                out.append(l.name.as_str());
                out.append(":\n");
            },
            Statement::Inst(inst) => {
                out.append("\t");
                append_inst(out, inst);
                out.append("\n");
            },
        }
        proof {
            assert(ss[i as int] == f.body.stmts@[i as int]@);
            assert(out@ =~= before + stmt_line(ss[i as int]));
        }
        i = i + 1;
    }
    out.append("}\n");
    assert(out@ =~= o + fn_text(fn_v(*f)));
}

impl Source {
    /// The text of the program, as the reader of the low-level language
    /// takes it.
    pub fn to_text(&self) -> (r: String)
        ensures
            r@ == source_text(source_v(*self)),
    {
        let mut out = String::new();
        out.append("globals: ");
        append_names(&mut out, &self.globals);
        out.append(";\n");
        let ghost o1 = out@;
        let ghost fs = source_v(*self).1;
        let mut i: usize = 0;
        assert(o1 + fns_text(fs, 0) =~= o1);
        while i < self.functions.len()
            invariant
                i <= self.functions@.len(),
                fs == source_v(*self).1,
                out@ == o1 + fns_text(fs, i as int),
            decreases self.functions.len() - i,
        {
            let ghost before = out@;
            append_fn(&mut out, &self.functions[i]);
            proof {
                assert(fs[i as int] == fn_v(self.functions@[i as int]));
                assert(out@ =~= before + fn_text(fs[i as int]));
            }
            i = i + 1;
        }
        assert(out@ =~= source_text(source_v(*self)));
        out
    }
}

} // verus!
