use vstd::prelude::*;

use super::hir;
use super::lir;
use super::lir::{stmts_view, InstV, StmtV, ValV};
use super::lir_to_asm::{count_distinct, distinct_count, last_index, lemma_distinct_count_bound, names_of};
use crate::text::{append_decimal, decimal, str_eq};

verus! {

/// What the translation of a function knows: the global variables, the
/// structures (name and fields), the user functions, and the local
/// variables of the function.
pub struct HirCtx {
    pub globals: Seq<Seq<char>>,
    pub structs: Seq<(Seq<char>, Seq<Seq<char>>)>,
    pub fns: Seq<Seq<char>>,
    pub locals: Seq<Seq<char>>,
}

/// The pseudo-register of the value of variable `id`.
pub open spec fn val_name(id: nat, global: bool) -> Seq<char> {
    (if global {
        "global_"@
    } else {
        ""@
    }) + "var_"@ + decimal(id) + "_val"@
}

/// The pseudo-register of the type of variable `id`.
pub open spec fn ty_name(id: nat, global: bool) -> Seq<char> {
    (if global {
        "global_"@
    } else {
        ""@
    }) + "var_"@ + decimal(id) + "_ty"@
}

/// The pseudo-registers (type, value) of a variable.
pub open spec fn get_var(ctx: HirCtx, name: Seq<char>) -> Option<(Seq<char>, Seq<char>)> {
    match last_index(ctx.locals, name) {
        Some(i) => Some((ty_name(i, false), val_name(i, false))),
        None => match last_index(ctx.globals, name) {
            Some(g) => Some((ty_name(g, true), val_name(g, true))),
            None => None,
        },
    }
}

pub open spec fn var_undeclared(name: Seq<char>) -> Seq<char> {
    "Variable \""@ + name + "\" was not declared"@
}

pub open spec fn struct_undeclared(name: Seq<char>) -> Seq<char> {
    "Structure \""@ + name + "\" was not declared"@
}

pub open spec fn no_field(s: Seq<char>, f: Seq<char>) -> Seq<char> {
    "Structure \""@ + s + "\" has no field named \""@ + f + "\""@
}

pub open spec fn no_user_fn(name: Seq<char>) -> Seq<char> {
    "No user function named \""@ + name + "\""@
}

/// The number of a structure: the last one declared with that name.
pub open spec fn struct_id(ctx: HirCtx, name: Seq<char>) -> Option<nat> {
    last_index(ctx.structs.map_values(|s: (Seq<char>, Seq<Seq<char>>)| s.0), name)
}

/// The number that stands for a type at run time.
pub open spec fn ty_id(ctx: HirCtx, t: hir::Type) -> Result<u64, Seq<char>> {
    match t {
        hir::Type::Nothing => Ok(0),
        hir::Type::Int64 => Ok(1),
        hir::Type::Bool => Ok(2),
        hir::Type::Str => Ok(3),
        hir::Type::Struct(n) => match struct_id(ctx, n@) {
            Some(i) => Ok((i + 4) as u64),
            None => Err(struct_undeclared(n@)),
        },
    }
}

/// The number of a field of a structure.
pub open spec fn field_id(ctx: HirCtx, s: Seq<char>, f: Seq<char>) -> Result<nat, Seq<char>> {
    match struct_id(ctx, s) {
        None => Err(struct_undeclared(s)),
        Some(i) => match last_index(ctx.structs[i as int].1, f) {
            Some(j) => Ok(j),
            None => Err(no_field(s, f)),
        },
    }
}

/// The (type, value) operands of a value.
pub open spec fn compile_val(ctx: HirCtx, v: hir::Val) -> Result<(ValV, ValV), Seq<char>> {
    match v {
        hir::Val::Nothing => Ok((ValV::Const(0), ValV::Const(0))),
        hir::Val::Var(n) => match get_var(ctx, n@) {
            Some((t, x)) => Ok((ValV::Var(t), ValV::Var(x))),
            None => Err(var_undeclared(n@)),
        },
        hir::Val::Const(t, i) => match ty_id(ctx, t) {
            Ok(k) => Ok((ValV::Const(k), ValV::Const(i))),
            Err(e) => Err(e),
        },
        hir::Val::Str(s) => Ok((ValV::Const(3), ValV::Str(s@))),
    }
}

/// The compiled name of a user function.
pub open spec fn fn_compiled(ctx: HirCtx, name: Seq<char>) -> Result<Seq<char>, Seq<char>> {
    match last_index(ctx.fns, name) {
        Some(i) => Ok("usr_fn_"@ + decimal(i)),
        None => Err(no_user_fn(name)),
    }
}

/// The LIR operator of a binary operator, and the type of its result.
pub open spec fn bin_parts(op: hir::BinOp) -> (u64, lir::BinOp) {
    match op {
        hir::BinOp::And => (2, lir::BinOp::And),
        hir::BinOp::Or => (2, lir::BinOp::Or),
        hir::BinOp::Equ => (2, lir::BinOp::Equ),
        hir::BinOp::Neq => (2, lir::BinOp::Neq),
        hir::BinOp::Lt => (2, lir::BinOp::Lt),
        hir::BinOp::Leq => (2, lir::BinOp::Leq),
        hir::BinOp::Gt => (2, lir::BinOp::Gt),
        hir::BinOp::Geq => (2, lir::BinOp::Geq),
        hir::BinOp::Add => (1, lir::BinOp::Add),
        hir::BinOp::Sub => (1, lir::BinOp::Sub),
        hir::BinOp::Mul => (1, lir::BinOp::Mul),
        hir::BinOp::Div => (1, lir::BinOp::Div),
    }
}

/// The LIR operator of a unary operator, and the type of its result.
pub open spec fn unary_parts(op: hir::UnaryOp) -> (u64, lir::UnaryOp) {
    match op {
        hir::UnaryOp::Neg => (1, lir::UnaryOp::Neg),
        hir::UnaryOp::Not => (2, lir::UnaryOp::Not),
    }
}

/// The operands (type then value of each) of the first `k` arguments.
pub open spec fn args_vals(ctx: HirCtx, args: Seq<hir::Val>, k: int) -> Result<Seq<ValV>, Seq<char>>
    decreases k,
{
    if k <= 0 {
        Ok(seq![])
    } else {
        match args_vals(ctx, args, k - 1) {
            Err(e) => Err(e),
            Ok(vs) => match compile_val(ctx, args[k - 1]) {
                Err(e) => Err(e),
                Ok((t, x)) => Ok(vs.push(t).push(x)),
            },
        }
    }
}

pub open spec fn inst(i: InstV) -> StmtV {
    StmtV::Inst(i)
}

/// The statements that compute `call` into the pseudo-registers `ty` and
/// `val`.
pub open spec fn callable_out(ctx: HirCtx, ty: Seq<char>, val: Seq<char>, call: hir::Callable) -> Result<Seq<StmtV>, Seq<char>> {
    match call {
        hir::Callable::Call(name, native, args) => match args_vals(ctx, args@, args@.len() as int) {
            Err(e) => Err(e),
            Ok(vs) => {
                let target = if native {
                    Ok("native_"@ + name@)
                } else {
                    fn_compiled(ctx, name@)
                };
                match target {
                    Err(e) => Err(e),
                    Ok(t) => Ok(seq![inst(InstV::Call(Some((ty, val)), native, t, vs))]),
                }
            },
        },
        hir::Callable::Bin(op, a, b) => match compile_val(ctx, a) {
            Err(e) => Err(e),
            Ok(ca) => match compile_val(ctx, b) {
                Err(e) => Err(e),
                Ok(cb) => Ok(
                    seq![
                        inst(InstV::Mov(ty, ValV::Const(bin_parts(op).0))),
                        inst(InstV::Bin(val, bin_parts(op).1, ca.1, cb.1)),
                    ],
                ),
            },
        },
        hir::Callable::Unary(op, a) => match compile_val(ctx, a) {
            Err(e) => Err(e),
            Ok(ca) => Ok(
                seq![
                    inst(InstV::Mov(ty, ValV::Const(unary_parts(op).0))),
                    inst(InstV::Unary(val, unary_parts(op).1, ca.1)),
                ],
            ),
        },
        hir::Callable::Assign(a) => match compile_val(ctx, a) {
            Err(e) => Err(e),
            Ok(ca) => Ok(seq![inst(InstV::Mov(ty, ca.0)), inst(InstV::Mov(val, ca.1))]),
        },
        hir::Callable::Alloc(s) => match struct_id(ctx, s@) {
            None => Err(struct_undeclared(s@)),
            Some(i) => Ok(
                seq![
                    inst(
                        InstV::Call(
                            Some((ty, val)),
                            true,
                            "native_alloc"@,
                            seq![ValV::Const((i + 4) as u64), ValV::Const((16 * distinct_count(ctx.structs[i as int].1)) as u64)],
                        ),
                    ),
                ],
            ),
        },
        hir::Callable::IsType(a, t) => match compile_val(ctx, a) {
            Err(e) => Err(e),
            Ok(ca) => match ty_id(ctx, t) {
                Err(e) => Err(e),
                Ok(k) => Ok(seq![inst(InstV::Mov(ty, ValV::Const(2))), inst(InstV::Bin(val, lir::BinOp::Equ, ca.0, ValV::Const(k)))]),
            },
        },
        hir::Callable::Access(a, s, f) => match field_id(ctx, s@, f@) {
            Err(e) => Err(e),
            Ok(j) => match compile_val(ctx, a) {
                Err(e) => Err(e),
                Ok(ca) => Ok(
                    seq![
                        inst(InstV::Access(ty, ca.1, (16 * j) as u64)),
                        inst(InstV::Access(val, ca.1, (16 * j + 8) as u64)),
                    ],
                ),
            },
        },
    }
}

/// The statements of `dest = call`, with `extra` additional variables made
/// before: the statements and the new number of additional variables.
pub open spec fn call_out(ctx: HirCtx, extra: nat, dest: hir::LValue, call: hir::Callable) -> Result<(Seq<StmtV>, nat), Seq<char>> {
    let dv: Result<(Seq<char>, Seq<char>, nat), Seq<char>> = match dest {
        hir::LValue::Var(d) => match get_var(ctx, d@) {
            Some((t, x)) => Ok((t, x, extra)),
            None => Err(var_undeclared(d@)),
        },
        hir::LValue::Access(_, _, _) => Ok(
            (ty_name(ctx.locals.len() + extra, false), val_name(ctx.locals.len() + extra, false), extra + 1),
        ),
    };
    match dv {
        Err(e) => Err(e),
        Ok((t, x, extra2)) => match callable_out(ctx, t, x, call) {
            Err(e) => Err(e),
            Ok(body) => match dest {
                hir::LValue::Var(_) => Ok((body, extra2)),
                hir::LValue::Access(v, s, f) => match field_id(ctx, s@, f@) {
                    Err(e) => Err(e),
                    Ok(j) => match compile_val(ctx, v) {
                        Err(e) => Err(e),
                        Ok(cv) => Ok(
                            (
                                body + seq![
                                    inst(InstV::AssignArray(cv.1, (16 * j) as u64, ValV::Var(t))),
                                    inst(InstV::AssignArray(cv.1, (16 * j + 8) as u64, ValV::Var(x))),
                                ],
                                extra2,
                            ),
                        ),
                    },
                },
            },
        },
    }
}

/// The name of label `n`.
pub open spec fn lbl(n: nat) -> Seq<char> {
    "lbl_"@ + decimal(n)
}

/// The statements of a block, with labels numbered from `st.0` and
/// `st.1` additional variables made before: the statements and the new
/// state.
pub open spec fn block_out(ctx: HirCtx, st: (nat, nat), b: hir::Block) -> Result<(Seq<StmtV>, (nat, nat)), Seq<char>>
    decreases b, 0int,
{
    proof {
        assert(decreases_to!(b => b.stmts));
    }
    stmts_out(ctx, st, b.stmts@, b.stmts@.len() as int)
}

/// The statements of the first `k` statements.
pub open spec fn stmts_out(ctx: HirCtx, st: (nat, nat), s: Seq<hir::Statement>, k: int) -> Result<(Seq<StmtV>, (nat, nat)), Seq<char>>
    decreases s, k,
{
    if k <= 0 || k > s.len() {
        Ok((seq![], st))
    } else {
        match stmts_out(ctx, st, s, k - 1) {
            Err(e) => Err(e),
            Ok((out1, st1)) => match stmt_out(ctx, st1, s[k - 1]) {
                Err(e) => Err(e),
                Ok((out2, st2)) => Ok((out1 + out2, st2)),
            },
        }
    }
}

/// The statements of one statement.
pub open spec fn stmt_out(ctx: HirCtx, st: (nat, nat), stmt: hir::Statement) -> Result<(Seq<StmtV>, (nat, nat)), Seq<char>>
    decreases stmt, 0int,
{
    match stmt {
        hir::Statement::Call(d, c) => match call_out(ctx, st.1, d, c) {
            Err(e) => Err(e),
            Ok((out, extra)) => Ok((out, (st.0, extra))),
        },
        hir::Statement::Return(a) => match compile_val(ctx, a) {
            Err(e) => Err(e),
            Ok(ca) => Ok((seq![inst(InstV::Return(ca.0, ca.1))], st)),
        },
        hir::Statement::If(c, bt, bf) => {
            let l1 = lbl(st.0);
            let l2 = lbl(st.0 + 1);
            match compile_val(ctx, c) {
                Err(e) => Err(e),
                Ok(cc) => match block_out(ctx, (st.0 + 2, st.1), bf) {
                    Err(e) => Err(e),
                    Ok((of, st1)) => match block_out(ctx, st1, bt) {
                        Err(e) => Err(e),
                        Ok((ot, st2)) => Ok(
                            (
                                seq![inst(InstV::Jumpif(cc.1, l1))] + of + seq![inst(InstV::Jump(l2)), StmtV::Label(l1)] + ot
                                    + seq![StmtV::Label(l2)],
                                st2,
                            ),
                        ),
                    },
                },
            }
        },
        hir::Statement::While(c, b) => {
            let l1 = lbl(st.0);
            let l2 = lbl(st.0 + 1);
            match compile_val(ctx, c) {
                Err(e) => Err(e),
                Ok(cc) => match block_out(ctx, (st.0 + 2, st.1), b) {
                    Err(e) => Err(e),
                    Ok((ob, st1)) => Ok(
                        (
                            seq![StmtV::Label(l1), inst(InstV::JumpifNot(cc.1, l2))] + ob + seq![inst(InstV::Jump(l1)), StmtV::Label(l2)],
                            st1,
                        ),
                    ),
                },
            }
        },
    }
}


/// Hands out fresh labels: `lbl_0`, `lbl_1`, ...
struct LabelGenerator {
    next_label_id: usize,
}

impl LabelGenerator {
    fn new_label(&mut self) -> (r: lir::Label)
        requires
            old(self).next_label_id < usize::MAX,
        ensures
            r.name@ == lbl(old(self).next_label_id as nat),
            final(self).next_label_id == old(self).next_label_id + 1,
    {
        let mut name = String::from_str("lbl_");
        append_decimal(&mut name, self.next_label_id);
        proof {
            reveal_strlit("lbl_");
        }
        self.next_label_id = self.next_label_id + 1;
        lir::Label::new(name)
    }
}

/// The pseudo-registers (type, value) of variable `id`.
fn var_names(id: usize, global: bool) -> (r: (String, String))
    ensures
        r.0@ == ty_name(id as nat, global),
        r.1@ == val_name(id as nat, global),
{
    proof {
        reveal_strlit("global_");
        reveal_strlit("");
        reveal_strlit("var_");
        reveal_strlit("_ty");
        reveal_strlit("_val");
    }
    let mut t = if global { String::from_str("global_") } else { String::new() };
    t.append("var_");
    append_decimal(&mut t, id);
    let mut v = t.clone();
    t.append("_ty");
    v.append("_val");
    proof {
        assert(t@ =~= ty_name(id as nat, global));
        assert(v@ =~= val_name(id as nat, global));
    }
    (t, v)
}

fn find_last(names: &Vec<String>, n: &str) -> (r: Option<usize>)
    ensures
        r matches Some(i) ==> last_index(names_of(names@), n@) == Some(i as nat),
        r is None ==> last_index(names_of(names@), n@) is None,
{
    let ghost ns = names_of(names@);
    let mut i: usize = names.len();
    assert(ns.take(i as int) =~= ns);
    while i > 0
        invariant
            i <= names@.len(),
            ns == names_of(names@),
            last_index(ns, n@) == last_index(ns.take(i as int), n@),
        decreases i,
    {
        assert(ns.take(i as int).last() == names@[i - 1]@);
        assert(ns.take(i as int).drop_last() =~= ns.take(i - 1));
        if str_eq(names[i - 1].as_str(), n) {
            return Some(i - 1);
        }
        i = i - 1;
    }
    assert(ns.take(0) =~= Seq::<Seq<char>>::empty());
    None
}

/// Appends a string to a fresh copy of `a`.
fn cat(a: &str, b: &str, c: &str) -> (r: String)
    ensures
        r@ == a@ + b@ + c@,
{
    let mut r = String::from_str(a);
    r.append(b);
    r.append(c);
    r
}

/// The names, structures and functions of the program.
struct GlobalRegistry<'a> {
    globals: &'a Vec<String>,
    struct_names: Vec<String>,
    structs: Vec<&'a hir::StructDecl>,
    fns: Vec<String>,
}

impl<'a> GlobalRegistry<'a> {
    spec fn wf(&self) -> bool {
        &&& self.struct_names@.len() == self.structs@.len()
        &&& forall|i: int| 0 <= i < self.structs@.len() ==> #[trigger] self.struct_names@[i]@ == self.structs@[i].name@
        &&& self.structs@.len() < 0x1000_0000
        &&& forall|i: int| 0 <= i < self.structs@.len() ==> (#[trigger] self.structs@[i]).fields@.len() < 0x1000_0000
    }

    spec fn ctx(&self, locals: Seq<Seq<char>>) -> HirCtx {
        HirCtx {
            globals: names_of(self.globals@),
            structs: self.structs@.map_values(|d: &hir::StructDecl| (d.name@, names_of(d.fields@))),
            fns: names_of(self.fns@),
            locals,
        }
    }

    proof fn lemma_struct_names(&self, locals: Seq<Seq<char>>)
        requires
            self.wf(),
        ensures
            names_of(self.struct_names@) == self.ctx(locals).structs.map_values(|s: (Seq<char>, Seq<Seq<char>>)| s.0),
    {
        assert(names_of(self.struct_names@) =~= self.ctx(locals).structs.map_values(|s: (Seq<char>, Seq<Seq<char>>)| s.0));
    }

    fn get_global(&self, name: &str, Ghost(locals): Ghost<Seq<Seq<char>>>) -> (r: Result<(String, String), String>)
        ensures
            match last_index(names_of(self.globals@), name@) {
                Some(g) => r matches Ok(p) && p.0@ == ty_name(g, true) && p.1@ == val_name(g, true),
                None => r matches Err(e) && e@ == var_undeclared(name@),
            },
    {
        match find_last(self.globals, name) {
            Some(i) => Ok(var_names(i, true)),
            None => {
                proof {
                    reveal_strlit("Variable \"");
                    reveal_strlit("\" was not declared");
                }
                Err(cat("Variable \"", name, "\" was not declared"))
            },
        }
    }

    /// The number of a structure.
    fn get_struct(&self, name: &str, Ghost(locals): Ghost<Seq<Seq<char>>>) -> (r: Result<usize, String>)
        requires
            self.wf(),
        ensures
            match struct_id(self.ctx(locals), name@) {
                Some(i) => r matches Ok(j) && j == i && i < self.structs@.len(),
                None => r matches Err(e) && e@ == struct_undeclared(name@),
            },
    {
        proof {
            self.lemma_struct_names(locals);
            lemma_last_index_bound(names_of(self.struct_names@), name@);
        }
        match find_last(&self.struct_names, name) {
            Some(i) => Ok(i),
            None => {
                proof {
                    reveal_strlit("Structure \"");
                    reveal_strlit("\" was not declared");
                }
                Err(cat("Structure \"", name, "\" was not declared"))
            },
        }
    }

    fn get_ty_id(&self, t: &hir::Type, Ghost(locals): Ghost<Seq<Seq<char>>>) -> (r: Result<u64, String>)
        requires
            self.wf(),
        ensures
            match ty_id(self.ctx(locals), *t) {
                Ok(k) => r matches Ok(j) && j == k,
                Err(e) => r matches Err(x) && x@ == e,
            },
    {
        match t {
            hir::Type::Nothing => Ok(0),
            hir::Type::Int64 => Ok(1),
            hir::Type::Bool => Ok(2),
            hir::Type::Str => Ok(3),
            hir::Type::Struct(name) => match self.get_struct(name.as_str(), Ghost(locals)) {
                Ok(i) => Ok(i as u64 + 4),
                Err(e) => Err(e),
            },
        }
    }

    /// The number of a field of a structure.
    fn get_field(&self, s: &str, f: &str, Ghost(locals): Ghost<Seq<Seq<char>>>) -> (r: Result<usize, String>)
        requires
            self.wf(),
        ensures
            match field_id(self.ctx(locals), s@, f@) {
                Ok(j) => r matches Ok(x) && x == j && j < 0x1000_0000,
                Err(e) => r matches Err(x) && x@ == e,
            },
    {
        match self.get_struct(s, Ghost(locals)) {
            Ok(i) => {
                let d = self.structs[i];
                assert(self.ctx(locals).structs[i as int].1 == names_of(d.fields@));
                proof {
                    lemma_last_index_bound(names_of(d.fields@), f@);
                }
                match find_last(&d.fields, f) {
                    Some(j) => Ok(j),
                    None => {
                        proof {
                            reveal_strlit("Structure \"");
                            reveal_strlit("\" has no field named \"");
                            reveal_strlit("\"");
                        }
                        let mut e = cat("Structure \"", s, "\" has no field named \"");
                        e.append(f);
                        e.append("\"");
                        Err(e)
                    },
                }
            },
            Err(e) => Err(e),
        }
    }

    fn get_fn_compiled_name(&self, name: &str, Ghost(locals): Ghost<Seq<Seq<char>>>) -> (r: Result<String, String>)
        ensures
            match fn_compiled(self.ctx(locals), name@) {
                Ok(n) => r matches Ok(x) && x@ == n,
                Err(e) => r matches Err(x) && x@ == e,
            },
    {
        proof {
            reveal_strlit("usr_fn_");
        }
        match find_last(&self.fns, name) {
            Some(i) => {
                let mut n = String::from_str("usr_fn_");
                append_decimal(&mut n, i);
                Ok(n)
            },
            None => {
                proof {
                    reveal_strlit("No user function named \"");
                    reveal_strlit("\"");
                }
                Err(cat("No user function named \"", name, "\""))
            },
        }
    }
}

proof fn lemma_last_index_bound(names: Seq<Seq<char>>, n: Seq<char>)
    ensures
        last_index(names, n) matches Some(i) ==> i < names.len(),
    decreases names.len(),
{
    if names.len() > 0 {
        lemma_last_index_bound(names.drop_last(), n);
    }
}


/// The variables of a function, over the global registry, with the
/// additional variables made so far.
struct LocalRegistry<'a> {
    parent: &'a GlobalRegistry<'a>,
    vars: &'a Vec<String>,
    next_additional_id: usize,
}

impl<'a> LocalRegistry<'a> {
    spec fn ctx(&self) -> HirCtx {
        self.parent.ctx(names_of(self.vars@))
    }

    /// The number of additional variables made so far.
    spec fn extra(&self) -> nat {
        (self.next_additional_id - self.vars@.len()) as nat
    }

    spec fn wf(&self) -> bool {
        &&& self.parent.wf()
        &&& self.vars@.len() <= self.next_additional_id < 0x1000_0000
    }

    fn get_var(&self, name: &str) -> (r: Result<(String, String), String>)
        ensures
            match get_var(self.ctx(), name@) {
                Some((t, v)) => r matches Ok(p) && p.0@ == t && p.1@ == v,
                None => r matches Err(e) && e@ == var_undeclared(name@),
            },
    {
        match find_last(self.vars, name) {
            Some(i) => Ok(var_names(i, false)),
            None => self.parent.get_global(name, Ghost(names_of(self.vars@))),
        }
    }

    fn compile_val(&self, val: &hir::Val) -> (r: Result<(lir::Val, lir::Val), String>)
        requires
            self.wf(),
        ensures
            match compile_val(self.ctx(), *val) {
                Ok(p) => r matches Ok(q) && q.0@ == p.0 && q.1@ == p.1,
                Err(e) => r matches Err(x) && x@ == e,
            },
    {
        match val {
            hir::Val::Nothing => Ok((lir::Val::Const(0), lir::Val::Const(0))),
            hir::Val::Var(name) => match self.get_var(name.as_str()) {
                Ok((t, v)) => Ok((lir::Val::Var(t), lir::Val::Var(v))),
                Err(e) => Err(e),
            },
            hir::Val::Const(t, i) => match self.parent.get_ty_id(t, Ghost(names_of(self.vars@))) {
                Ok(k) => Ok((lir::Val::Const(k), lir::Val::Const(*i))),
                Err(e) => Err(e),
            },
            hir::Val::Str(s) => Ok((lir::Val::Const(3), lir::Val::Str(s.clone()))),
        }
    }

    /// A fresh variable.
    fn mk_additional_var(&mut self) -> (r: (String, String))
        requires
            old(self).wf(),
            old(self).next_additional_id + 1 < 0x1000_0000,
        ensures
            r.0@ == ty_name(old(self).next_additional_id as nat, false),
            r.1@ == val_name(old(self).next_additional_id as nat, false),
            final(self).next_additional_id == old(self).next_additional_id + 1,
            final(self).parent == old(self).parent,
            final(self).vars == old(self).vars,
    {
        let r = var_names(self.next_additional_id, false);
        self.next_additional_id = self.next_additional_id + 1;
        r
    }
}

fn ins(i: lir::Instruction) -> (r: lir::Statement)
    ensures
        r@ == inst(i@),
{
    lir::Statement::Inst(i)
}

/// The operands of the arguments of a call.
fn compile_args(local: &LocalRegistry, args: &Vec<hir::Val>) -> (r: Result<Vec<lir::Val>, String>)
    requires
        local.wf(),
    ensures
        match args_vals(local.ctx(), args@, args@.len() as int) {
            Ok(vs) => r matches Ok(v) && lir::vals_view(v@) == vs,
            Err(e) => r matches Err(x) && x@ == e,
        },
{
    let mut vars: Vec<lir::Val> = Vec::new();
    let mut i: usize = 0;
    assert(lir::vals_view(vars@) =~= seq![]);
    while i < args.len()
        invariant
            i <= args@.len(),
            local.wf(),
            args_vals(local.ctx(), args@, i as int) == Ok::<Seq<ValV>, Seq<char>>(lir::vals_view(vars@)),
        decreases args.len() - i,
    {
        match local.compile_val(&args[i]) {
            Ok((t, v)) => {
                vars.push(t);
                vars.push(v);
                assert(lir::vals_view(vars@) =~= args_vals(local.ctx(), args@, i + 1)->Ok_0);
            },
            Err(e) => {
                proof {
                    lemma_args_vals_err(local.ctx(), args@, i + 1, args@.len() as int);
                }
                return Err(e);
            },
        }
        i = i + 1;
    }
    Ok(vars)
}

proof fn lemma_args_vals_err(ctx: HirCtx, args: Seq<hir::Val>, k: int, n: int)
    requires
        0 <= k <= n,
        args_vals(ctx, args, k) is Err,
    ensures
        args_vals(ctx, args, n) == args_vals(ctx, args, k),
    decreases n - k,
{
    if k < n {
        lemma_args_vals_err(ctx, args, k, n - 1);
    }
}

/// The statements that compute `call` into `ty` and `val`.
fn callable_to(local: &LocalRegistry, ty: &String, val: &String, call: &hir::Callable) -> (r: Result<Vec<lir::Statement>, String>)
    requires
        local.wf(),
    ensures
        match callable_out(local.ctx(), ty@, val@, *call) {
            Ok(out) => r matches Ok(v) && stmts_view(v@) == out,
            Err(e) => r matches Err(x) && x@ == e,
        },
{
    let ghost ctx = local.ctx();
    let mut out: Vec<lir::Statement> = Vec::new();
    match call {
        hir::Callable::Call(fn_name, native, args) => {
            let vars = match compile_args(local, args) {
                Ok(v) => v,
                Err(e) => {
                    return Err(e);
                },
            };
            let target = if *native {
                proof {
                    reveal_strlit("native_");
                }
                let mut t = String::from_str("native_");
                t.append(fn_name.as_str());
                t
            } else {
                match local.parent.get_fn_compiled_name(fn_name.as_str(), Ghost(names_of(local.vars@))) {
                    Ok(t) => t,
                    Err(e) => {
                        return Err(e);
                    },
                }
            };
            out.push(ins(lir::Instruction::Call(Some((ty.clone(), val.clone())), *native, target, vars)));
            assert(stmts_view(out@) =~= callable_out(ctx, ty@, val@, *call)->Ok_0);
        },
        hir::Callable::Bin(op, a, b) => {
            let (k, lop) = match op {
                hir::BinOp::And => (2, lir::BinOp::And),
                hir::BinOp::Or => (2, lir::BinOp::Or),
                hir::BinOp::Equ => (2, lir::BinOp::Equ),
                hir::BinOp::Neq => (2, lir::BinOp::Neq),
                hir::BinOp::Lt => (2, lir::BinOp::Lt),
                hir::BinOp::Leq => (2, lir::BinOp::Leq),
                hir::BinOp::Gt => (2, lir::BinOp::Gt),
                hir::BinOp::Geq => (2, lir::BinOp::Geq),
                hir::BinOp::Add => (1, lir::BinOp::Add),
                hir::BinOp::Sub => (1, lir::BinOp::Sub),
                hir::BinOp::Mul => (1, lir::BinOp::Mul),
                hir::BinOp::Div => (1, lir::BinOp::Div),
            };
            out.push(ins(lir::Instruction::Mov(ty.clone(), lir::Val::Const(k))));
            let ca = match local.compile_val(a) {
                Ok(c) => c,
                Err(e) => {
                    return Err(e);
                },
            };
            let cb = match local.compile_val(b) {
                Ok(c) => c,
                Err(e) => {
                    return Err(e);
                },
            };
            out.push(ins(lir::Instruction::Bin(val.clone(), lop, ca.1, cb.1)));
            assert(stmts_view(out@) =~= callable_out(ctx, ty@, val@, *call)->Ok_0);
        },
        hir::Callable::Unary(op, a) => {
            let (k, lop) = match op {
                hir::UnaryOp::Neg => (1, lir::UnaryOp::Neg),
                hir::UnaryOp::Not => (2, lir::UnaryOp::Not),
            };
            out.push(ins(lir::Instruction::Mov(ty.clone(), lir::Val::Const(k))));
            let ca = match local.compile_val(a) {
                Ok(c) => c,
                Err(e) => {
                    return Err(e);
                },
            };
            out.push(ins(lir::Instruction::Unary(val.clone(), lop, ca.1)));
            assert(stmts_view(out@) =~= callable_out(ctx, ty@, val@, *call)->Ok_0);
        },
        hir::Callable::Assign(a) => {
            let ca = match local.compile_val(a) {
                Ok(c) => c,
                Err(e) => {
                    return Err(e);
                },
            };
            let (ct, cv) = ca;
            out.push(ins(lir::Instruction::Mov(ty.clone(), ct)));
            out.push(ins(lir::Instruction::Mov(val.clone(), cv)));
            assert(stmts_view(out@) =~= callable_out(ctx, ty@, val@, *call)->Ok_0);
        },
        hir::Callable::Alloc(structure) => {
            let i = match local.parent.get_struct(structure.as_str(), Ghost(names_of(local.vars@))) {
                Ok(i) => i,
                Err(e) => {
                    return Err(e);
                },
            };
            let d = local.parent.structs[i];
            assert(ctx.structs[i as int].1 == names_of(d.fields@));
            let n = count_distinct(&d.fields);
            proof {
                reveal_strlit("native_alloc");
                lemma_distinct_count_bound(names_of(d.fields@));
            }
            let mut args: Vec<lir::Val> = Vec::new();
            args.push(lir::Val::Const(i as u64 + 4));
            args.push(lir::Val::Const(16 * (n as u64)));
            assert(lir::vals_view(args@) =~= seq![ValV::Const((i + 4) as u64), ValV::Const((16 * distinct_count(ctx.structs[i as int].1)) as u64)]);
            out.push(ins(lir::Instruction::Call(Some((ty.clone(), val.clone())), true, String::from_str("native_alloc"), args)));
            assert(stmts_view(out@) =~= callable_out(ctx, ty@, val@, *call)->Ok_0);
        },
        hir::Callable::IsType(a, t) => {
            out.push(ins(lir::Instruction::Mov(ty.clone(), lir::Val::Const(2))));
            let ca = match local.compile_val(a) {
                Ok(c) => c,
                Err(e) => {
                    return Err(e);
                },
            };
            let k = match local.parent.get_ty_id(t, Ghost(names_of(local.vars@))) {
                Ok(k) => k,
                Err(e) => {
                    return Err(e);
                },
            };
            out.push(ins(lir::Instruction::Bin(val.clone(), lir::BinOp::Equ, ca.0, lir::Val::Const(k))));
            assert(stmts_view(out@) =~= callable_out(ctx, ty@, val@, *call)->Ok_0);
        },
        hir::Callable::Access(a, structure, field) => {
            let j = match local.parent.get_field(structure.as_str(), field.as_str(), Ghost(names_of(local.vars@))) {
                Ok(j) => j,
                Err(e) => {
                    return Err(e);
                },
            };
            let ca = match local.compile_val(a) {
                Ok(c) => c,
                Err(e) => {
                    return Err(e);
                },
            };
            let cb = match local.compile_val(a) {
                Ok(c) => c,
                Err(e) => {
                    return Err(e);
                },
            };
            let c1 = ca.1;
            let c2 = cb.1;
            out.push(ins(lir::Instruction::Access(ty.clone(), c1, 16 * (j as u64))));
            out.push(ins(lir::Instruction::Access(val.clone(), c2, 16 * (j as u64) + 8)));
            assert(stmts_view(out@) =~= callable_out(ctx, ty@, val@, *call)->Ok_0);
        },
    }
    assert(stmts_view(out@) =~= callable_out(ctx, ty@, val@, *call)->Ok_0);
    Ok(out)
}


/// The number of statements of a block, nested ones included.
pub open spec fn block_size(b: hir::Block) -> nat
    decreases b, 0int,
{
    proof {
        assert(decreases_to!(b => b.stmts));
    }
    stmts_size(b.stmts@, b.stmts@.len() as int)
}

pub open spec fn stmts_size(s: Seq<hir::Statement>, k: int) -> nat
    decreases s, k,
{
    if k <= 0 || k > s.len() {
        0
    } else {
        stmts_size(s, k - 1) + stmt_size(s[k - 1])
    }
}

pub open spec fn stmt_size(st: hir::Statement) -> nat
    decreases st, 0int,
{
    match st {
        hir::Statement::If(_, t, f) => 1 + block_size(t) + block_size(f),
        hir::Statement::While(_, b) => 1 + block_size(b),
        _ => 1,
    }
}

/// The statements of `dest = call`.
fn compile_call(local: &mut LocalRegistry, dest: &hir::LValue, call: &hir::Callable) -> (r: Result<Vec<lir::Statement>, String>)
    requires
        old(local).wf(),
        old(local).next_additional_id + 1 < 0x1000_0000,
    ensures
        final(local).parent == old(local).parent,
        final(local).vars == old(local).vars,
        final(local).wf(),
        final(local).next_additional_id <= old(local).next_additional_id + 1,
        match call_out(old(local).ctx(), old(local).extra(), *dest, *call) {
            Ok((out, extra)) => r matches Ok(v) && stmts_view(v@) == out && final(local).extra() == extra,
            Err(e) => r matches Err(x) && x@ == e,
        },
{
    let ghost ctx = local.ctx();
    let (ty, val) = match dest {
        hir::LValue::Var(d) => match local.get_var(d.as_str()) {
            Ok(p) => p,
            Err(e) => {
                return Err(e);
            },
        },
        hir::LValue::Access(_, _, _) => local.mk_additional_var(),
    };
    assert(local.ctx() == ctx);
    let mut out = match callable_to(local, &ty, &val, call) {
        Ok(o) => o,
        Err(e) => {
            return Err(e);
        },
    };
    match dest {
        hir::LValue::Var(_) => {},
        hir::LValue::Access(x, structure, field) => {
            let j = match local.parent.get_field(structure.as_str(), field.as_str(), Ghost(names_of(local.vars@))) {
                Ok(j) => j,
                Err(e) => {
                    return Err(e);
                },
            };
            let c1 = match local.compile_val(x) {
                Ok(c) => c.1,
                Err(e) => {
                    return Err(e);
                },
            };
            let c2 = match local.compile_val(x) {
                Ok(c) => c.1,
                Err(e) => {
                    return Err(e);
                },
            };
            let ghost before = stmts_view(out@);
            out.push(ins(lir::Instruction::AssignArray(c1, 16 * (j as u64), lir::Val::Var(ty))));
            out.push(ins(lir::Instruction::AssignArray(c2, 16 * (j as u64) + 8, lir::Val::Var(val))));
            assert(stmts_view(out@) =~= before + seq![
                inst(InstV::AssignArray(compile_val(ctx, *x)->Ok_0.1, (16 * j) as u64, ValV::Var(ty_name(ctx.locals.len() + old(local).extra(), false)))),
                inst(InstV::AssignArray(compile_val(ctx, *x)->Ok_0.1, (16 * j + 8) as u64, ValV::Var(val_name(ctx.locals.len() + old(local).extra(), false)))),
            ]);
        },
    }
    Ok(out)
}


proof fn lemma_stmts_size_mono(s: Seq<hir::Statement>, j: int, k: int)
    requires
        0 <= j <= k <= s.len(),
    ensures
        stmts_size(s, j) <= stmts_size(s, k),
    decreases k - j,
{
    if j < k {
        lemma_stmts_size_mono(s, j, k - 1);
    }
}

proof fn lemma_stmts_out_err(ctx: HirCtx, st: (nat, nat), s: Seq<hir::Statement>, k: int, n: int)
    requires
        0 < k <= n <= s.len(),
        stmts_out(ctx, st, s, k) is Err,
    ensures
        stmts_out(ctx, st, s, n) == stmts_out(ctx, st, s, k),
    decreases n - k,
{
    if k < n {
        lemma_stmts_out_err(ctx, st, s, k, n - 1);
    }
}

fn copy_label(l: &lir::Label) -> (r: lir::Label)
    ensures
        r.name@ == l.name@,
{
    lir::Label::new(l.name.clone())
}

/// The statements of a block.
fn compile_block(lbl_gen: &mut LabelGenerator, local: &mut LocalRegistry, block: &hir::Block) -> (r: Result<Vec<lir::Statement>, String>)
    requires
        old(local).wf(),
        old(local).next_additional_id + block_size(*block) < 0x1000_0000,
        old(lbl_gen).next_label_id + 2 * block_size(*block) < usize::MAX,
    ensures
        final(local).parent == old(local).parent,
        final(local).vars == old(local).vars,
        final(local).wf(),
        final(local).next_additional_id <= old(local).next_additional_id + block_size(*block),
        final(lbl_gen).next_label_id <= old(lbl_gen).next_label_id + 2 * block_size(*block),
        match block_out(old(local).ctx(), (old(lbl_gen).next_label_id as nat, old(local).extra()), *block) {
            Ok((out, st)) => r matches Ok(v) && stmts_view(v@) == out && final(lbl_gen).next_label_id == st.0 && final(local).extra() == st.1,
            Err(e) => r matches Err(x) && x@ == e,
        },
    decreases block, 1int,
{
    let ghost ctx = local.ctx();
    let ghost st0 = (lbl_gen.next_label_id as nat, local.extra());
    let ghost s = block.stmts@;
    let ghost lbl0 = lbl_gen.next_label_id;
    let ghost add0 = local.next_additional_id;
    let ghost parent0 = local.parent;
    let ghost vars0 = local.vars;
    let mut out: Vec<lir::Statement> = Vec::new();
    let mut k: usize = 0;
    assert(stmts_view(out@) =~= seq![]);
    proof {
        lemma_stmts_size_mono(s, 0, s.len() as int);
    }
    while k < block.stmts.len()
        invariant
            k <= s.len(),
            s == block.stmts@,
            local.wf(),
            parent0 == old(local).parent,
            vars0 == old(local).vars,
            lbl0 == old(lbl_gen).next_label_id,
            add0 == old(local).next_additional_id,
            ctx == old(local).ctx(),
            local.parent == parent0,
            local.vars == vars0,
            ctx == local.ctx(),
            st0.0 == lbl0,
            st0.1 == add0 - vars0@.len(),
            add0 + block_size(*block) < 0x1000_0000,
            lbl0 + 2 * block_size(*block) < usize::MAX,
            block_size(*block) == stmts_size(s, s.len() as int),
            local.next_additional_id <= add0 + stmts_size(s, k as int),
            lbl_gen.next_label_id <= lbl0 + 2 * stmts_size(s, k as int),
            stmts_out(ctx, st0, s, k as int) == Ok::<(Seq<StmtV>, (nat, nat)), Seq<char>>((stmts_view(out@), (lbl_gen.next_label_id as nat, local.extra()))),
        decreases block.stmts.len() - k,
    {
        proof {
            lemma_stmts_size_mono(s, k + 1, s.len() as int);
            assert(decreases_to!(*block => block.stmts));
            assert(decreases_to!(block.stmts => block.stmts@));
            assert(decreases_to!(block.stmts@ => block.stmts@[k as int]));
        }
        let ghost before = stmts_view(out@);
        match compile_stmt(lbl_gen, local, &block.stmts[k]) {
            Ok(more) => {
                let mut more = more;
                let ghost mv = stmts_view(more@);
                out.append(&mut more);
                assert(stmts_view(out@) =~= before + mv);
            },
            Err(e) => {
                proof {
                    lemma_stmts_out_err(ctx, st0, s, k + 1, s.len() as int);
                }
                return Err(e);
            },
        }
        k = k + 1;
    }
    Ok(out)
}

/// The statements of one statement.
fn compile_stmt(lbl_gen: &mut LabelGenerator, local: &mut LocalRegistry, stmt: &hir::Statement) -> (r: Result<Vec<lir::Statement>, String>)
    requires
        old(local).wf(),
        old(local).next_additional_id + stmt_size(*stmt) < 0x1000_0000,
        old(lbl_gen).next_label_id + 2 * stmt_size(*stmt) < usize::MAX,
    ensures
        final(local).parent == old(local).parent,
        final(local).vars == old(local).vars,
        final(local).wf(),
        final(local).next_additional_id <= old(local).next_additional_id + stmt_size(*stmt),
        final(lbl_gen).next_label_id <= old(lbl_gen).next_label_id + 2 * stmt_size(*stmt),
        match stmt_out(old(local).ctx(), (old(lbl_gen).next_label_id as nat, old(local).extra()), *stmt) {
            Ok((out, st)) => r matches Ok(v) && stmts_view(v@) == out && final(lbl_gen).next_label_id == st.0 && final(local).extra() == st.1,
            Err(e) => r matches Err(x) && x@ == e,
        },
    decreases stmt, 0int,
{
    let ghost ctx = local.ctx();
    match stmt {
        hir::Statement::Call(dest, call) => compile_call(local, dest, call),
        hir::Statement::Return(a) => {
            match local.compile_val(a) {
                Ok((t, v)) => {
                    let mut out: Vec<lir::Statement> = Vec::new();
                    out.push(ins(lir::Instruction::Return(t, v)));
                    assert(stmts_view(out@) =~= stmt_out(ctx, (old(lbl_gen).next_label_id as nat, old(local).extra()), *stmt)->Ok_0.0);
                    Ok(out)
                },
                Err(e) => Err(e),
            }
        },
        hir::Statement::If(cond, block_true, block_false) => {
            let lbl_true = lbl_gen.new_label();
            let lbl_end = lbl_gen.new_label();
            let c = match local.compile_val(cond) {
                Ok(c) => c.1,
                Err(e) => {
                    return Err(e);
                },
            };
            let mut out: Vec<lir::Statement> = Vec::new();
            out.push(ins(lir::Instruction::Jumpif(c, copy_label(&lbl_true))));
            let mut of = match compile_block(lbl_gen, local, block_false) {
                Ok(o) => o,
                Err(e) => {
                    return Err(e);
                },
            };
            let ghost ofv = stmts_view(of@);
            out.append(&mut of);
            out.push(ins(lir::Instruction::Jump(copy_label(&lbl_end))));
            out.push(lir::Statement::Label(copy_label(&lbl_true)));
            let mut ot = match compile_block(lbl_gen, local, block_true) {
                Ok(o) => o,
                Err(e) => {
                    return Err(e);
                },
            };
            let ghost otv = stmts_view(ot@);
            out.append(&mut ot);
            out.push(lir::Statement::Label(copy_label(&lbl_end)));
            assert(stmts_view(out@) =~= stmt_out(ctx, (old(lbl_gen).next_label_id as nat, old(local).extra()), *stmt)->Ok_0.0);
            Ok(out)
        },
        hir::Statement::While(cond, block) => {
            let lbl_body = lbl_gen.new_label();
            let lbl_end = lbl_gen.new_label();
            let c = match local.compile_val(cond) {
                Ok(c) => c.1,
                Err(e) => {
                    return Err(e);
                },
            };
            let mut out: Vec<lir::Statement> = Vec::new();
            out.push(lir::Statement::Label(copy_label(&lbl_body)));
            out.push(ins(lir::Instruction::JumpifNot(c, copy_label(&lbl_end))));
            let mut ob = match compile_block(lbl_gen, local, block) {
                Ok(o) => o,
                Err(e) => {
                    return Err(e);
                },
            };
            out.append(&mut ob);
            out.push(ins(lir::Instruction::Jump(copy_label(&lbl_body))));
            out.push(lir::Statement::Label(copy_label(&lbl_end)));
            assert(stmts_view(out@) =~= stmt_out(ctx, (old(lbl_gen).next_label_id as nat, old(local).extra()), *stmt)->Ok_0.0);
            Ok(out)
        },
    }
}


/// The pseudo-registers of the first `k` named variables: type then value
/// of each name, at the last index of the name.
pub open spec fn named_var_regs(names: Seq<Seq<char>>, k: int, global: bool) -> Seq<Seq<char>>
    decreases k,
{
    if k <= 0 {
        seq![]
    } else {
        named_var_regs(names, k - 1, global) + if last_index(names, names[k - 1]) == Some((k - 1) as nat) {
            seq![ty_name((k - 1) as nat, global), val_name((k - 1) as nat, global)]
        } else {
            seq![]
        }
    }
}

/// The pseudo-registers of `n` additional variables numbered from `base`.
pub open spec fn extra_var_regs(base: nat, n: nat) -> Seq<Seq<char>>
    decreases n,
{
    if n == 0 {
        seq![]
    } else {
        extra_var_regs(base, (n - 1) as nat) + seq![ty_name((base + n - 1) as nat, false), val_name((base + n - 1) as nat, false)]
    }
}

/// The pseudo-registers of the first `k` arguments.
pub open spec fn fn_args(ctx: HirCtx, args: Seq<String>, k: int) -> Result<Seq<Seq<char>>, Seq<char>>
    decreases k,
{
    if k <= 0 {
        Ok(seq![])
    } else {
        match fn_args(ctx, args, k - 1) {
            Err(e) => Err(e),
            Ok(a) => match get_var(ctx, args[k - 1]@) {
                None => Err(var_undeclared(args[k - 1]@)),
                Some((t, v)) => Ok(a + seq![t, v]),
            },
        }
    }
}

/// The view of a compiled function: name, arguments, pseudo-registers and
/// body.
pub open spec fn fn_view(f: lir::Function) -> (Seq<char>, Seq<Seq<char>>, Seq<Seq<char>>, Seq<StmtV>) {
    (f.name@, names_of(f.args@), names_of(f.vars@), stmts_view(f.body.stmts@))
}

/// The compiled function of `f`, in a program described by `g` (whose
/// `locals` are ignored).
pub open spec fn fn_out(g: HirCtx, f: hir::Function) -> Result<(Seq<char>, Seq<Seq<char>>, Seq<Seq<char>>, Seq<StmtV>), Seq<char>> {
    let locals = names_of(f.vars@);
    let ctx = HirCtx { locals, ..g };
    match block_out(ctx, (0, 0), f.body) {
        Err(e) => Err(e),
        Ok((body, st)) => match fn_args(ctx, f.args@, f.args@.len() as int) {
            Err(e) => Err(e),
            Ok(args) => match fn_compiled(ctx, f.name@) {
                Err(e) => Err(e),
                Ok(name) => Ok((name, args, named_var_regs(locals, locals.len() as int, false) + extra_var_regs(locals.len(), st.1), body)),
            },
        },
    }
}

/// The function fits the counters of the translation.
pub open spec fn fn_fits_h(f: hir::Function) -> bool {
    f.vars@.len() + block_size(f.body) < 0x1000_0000
}

fn named_regs(names: &Vec<String>, global: bool) -> (r: Vec<String>)
    ensures
        names_of(r@) == named_var_regs(names_of(names@), names@.len() as int, global),
{
    let ghost ns = names_of(names@);
    let mut r: Vec<String> = Vec::new();
    let mut i: usize = 0;
    assert(names_of(r@) =~= seq![]);
    while i < names.len()
        invariant
            i <= names@.len(),
            ns == names_of(names@),
            names_of(r@) == named_var_regs(ns, i as int, global),
        decreases names.len() - i,
    {
        let last = find_last(names, names[i].as_str());
        assert(ns[i as int] == names@[i as int]@);
        if last == Some(i) {
            let (t, v) = var_names(i, global);
            r.push(t);
            r.push(v);
        }
        assert(names_of(r@) =~= named_var_regs(ns, i + 1, global));
        i = i + 1;
    }
    r
}

/// The compiled function of `f`.
fn compile_fn(global: &GlobalRegistry, f: &hir::Function) -> (r: Result<lir::Function, String>)
    requires
        global.wf(),
        fn_fits_h(*f),
    ensures
        match fn_out(global.ctx(Seq::empty()), *f) {
            Ok(v) => r matches Ok(x) && fn_view(x) == v,
            Err(e) => r matches Err(x) && x@ == e,
        },
{
    let ghost ctx = global.ctx(names_of(f.vars@));
    assert(ctx == HirCtx { locals: names_of(f.vars@), ..global.ctx(Seq::empty()) });
    let mut local = LocalRegistry { parent: global, vars: &f.vars, next_additional_id: f.vars.len() };
    let mut lbl_gen = LabelGenerator { next_label_id: 0 };
    assert(local.extra() == 0);
    let body = match compile_block(&mut lbl_gen, &mut local, &f.body) {
        Ok(b) => b,
        Err(e) => {
            return Err(e);
        },
    };
    let ghost extra = local.extra();
    let mut args: Vec<String> = Vec::new();
    let mut i: usize = 0;
    assert(names_of(args@) =~= seq![]);
    while i < f.args.len()
        invariant
            i <= f.args@.len(),
            local.parent == global,
            local.vars == &f.vars,
            ctx == local.ctx(),
            ctx == (HirCtx { locals: names_of(f.vars@), ..global.ctx(Seq::empty()) }),
            block_out(ctx, (0, 0), f.body) is Ok,
            fn_args(ctx, f.args@, i as int) == Ok::<Seq<Seq<char>>, Seq<char>>(names_of(args@)),
        decreases f.args.len() - i,
    {
        match local.get_var(f.args[i].as_str()) {
            Ok((t, v)) => {
                args.push(t);
                args.push(v);
                assert(names_of(args@) =~= fn_args(ctx, f.args@, i + 1)->Ok_0);
            },
            Err(e) => {
                proof {
                    lemma_fn_args_err(ctx, f.args@, i + 1, f.args@.len() as int);
                }
                return Err(e);
            },
        }
        i = i + 1;
    }
    let name = match global.get_fn_compiled_name(f.name.as_str(), Ghost(names_of(f.vars@))) {
        Ok(n) => n,
        Err(e) => {
            return Err(e);
        },
    };
    let mut vars = named_regs(&f.vars, false);
    let mut j: usize = f.vars.len();
    let ghost base = f.vars@.len();
    let ghost named = names_of(vars@);
    assert(names_of(vars@) =~= named + extra_var_regs(base, 0));
    while j < local.next_additional_id
        invariant
            base == f.vars@.len(),
            base <= j <= local.next_additional_id,
            local.next_additional_id < 0x1000_0000,
            names_of(vars@) == named + extra_var_regs(base, (j - base) as nat),
        decreases local.next_additional_id - j,
    {
        let (t, v) = var_names(j, false);
        let ghost before = names_of(vars@);
        let ghost tv = t@;
        let ghost vv = v@;
        vars.push(t);
        vars.push(v);
        assert(names_of(vars@) =~= before + seq![tv, vv]);
        let ghost m: nat = (j - base) as nat;
        assert(base + m == j);
        assert(extra_var_regs(base, m + 1) == extra_var_regs(base, m) + seq![ty_name((base + m) as nat, false), val_name((base + m) as nat, false)]);
        assert((j + 1 - base) as nat == m + 1);
        assert(names_of(vars@) =~= named + extra_var_regs(base, (j + 1 - base) as nat));
        j = j + 1;
    }
    let r = lir::Function::new(name, args, vars, lir::Block::new(body));
    Ok(r)
}

proof fn lemma_fn_args_err(ctx: HirCtx, args: Seq<String>, k: int, n: int)
    requires
        0 <= k <= n,
        fn_args(ctx, args, k) is Err,
    ensures
        fn_args(ctx, args, n) == fn_args(ctx, args, k),
    decreases n - k,
{
    if k < n {
        lemma_fn_args_err(ctx, args, k, n - 1);
    }
}


/// The structures among the first `k` declarations: name and fields.
pub open spec fn decl_structs(decls: Seq<hir::Decl>, k: int) -> Seq<(Seq<char>, Seq<Seq<char>>)>
    decreases k,
{
    if k <= 0 {
        seq![]
    } else {
        decl_structs(decls, k - 1) + match decls[k - 1] {
            hir::Decl::Struct(d) => seq![(d.name@, names_of(d.fields@))],
            hir::Decl::Function(_) => seq![],
        }
    }
}

/// The names of the functions among the first `k` declarations.
pub open spec fn decl_fns(decls: Seq<hir::Decl>, k: int) -> Seq<Seq<char>>
    decreases k,
{
    if k <= 0 {
        seq![]
    } else {
        decl_fns(decls, k - 1) + match decls[k - 1] {
            hir::Decl::Function(f) => seq![f.name@],
            hir::Decl::Struct(_) => seq![],
        }
    }
}

/// What the whole program declares.
pub open spec fn hir_global(h: hir::Source) -> HirCtx {
    HirCtx {
        globals: names_of(h.globals@),
        structs: decl_structs(h.decls@, h.decls@.len() as int),
        fns: decl_fns(h.decls@, h.decls@.len() as int),
        locals: seq![],
    }
}

/// The compiled functions of the first `k` declarations.
pub open spec fn compiled_fns(g: HirCtx, decls: Seq<hir::Decl>, k: int) -> Result<Seq<(Seq<char>, Seq<Seq<char>>, Seq<Seq<char>>, Seq<StmtV>)>, Seq<char>>
    decreases k,
{
    if k <= 0 {
        Ok(seq![])
    } else {
        match compiled_fns(g, decls, k - 1) {
            Err(e) => Err(e),
            Ok(fs) => match decls[k - 1] {
                hir::Decl::Struct(_) => Ok(fs),
                hir::Decl::Function(f) => match fn_out(g, f) {
                    Err(e) => Err(e),
                    Ok(v) => Ok(fs.push(v)),
                },
            },
        }
    }
}

/// The `main` function of the compiled program: it calls the entry point
/// and returns what it returns.
pub open spec fn main_fn(g: HirCtx, entry: Seq<char>) -> Result<(Seq<char>, Seq<Seq<char>>, Seq<Seq<char>>, Seq<StmtV>), Seq<char>> {
    match fn_compiled(g, entry) {
        Err(e) => Err(e),
        Ok(name) => Ok(
            (
                "main"@,
                seq![],
                seq!["ret_code_ty"@, "ret_code_val"@],
                seq![
                    inst(InstV::Call(Some(("ret_code_ty"@, "ret_code_val"@)), false, name, seq![])),
                    inst(InstV::Return(ValV::Var("ret_code_ty"@), ValV::Var("ret_code_val"@))),
                ],
            ),
        ),
    }
}

/// Whether a function named `main` is declared.
pub open spec fn has_main(decls: Seq<hir::Decl>) -> bool {
    exists|i: int| 0 <= i < decls.len() && (#[trigger] decls[i] matches hir::Decl::Function(f) && f.name@ == "main"@)
}

/// The compiled program: its global pseudo-registers and its functions.
pub open spec fn source_out(h: hir::Source) -> Result<(Seq<Seq<char>>, Seq<(Seq<char>, Seq<Seq<char>>, Seq<Seq<char>>, Seq<StmtV>)>), Seq<char>> {
    let g = hir_global(h);
    if !has_main(h.decls@) {
        Err("No \"main\" function"@)
    } else {
        match compiled_fns(g, h.decls@, h.decls@.len() as int) {
            Err(e) => Err(e),
            Ok(fs) => match main_fn(g, h.entrypoint@) {
                Err(e) => Err(e),
                Ok(m) => Ok((named_var_regs(g.globals, g.globals.len() as int, true), fs.push(m))),
            },
        }
    }
}

/// Every function fits the counters, and the numbers of structures and of
/// their fields are small enough.
pub open spec fn hir_fits(h: hir::Source) -> bool {
    &&& h.decls@.len() < 0x1000_0000
    &&& forall|i: int|
        0 <= i < h.decls@.len() ==> match #[trigger] h.decls@[i] {
            hir::Decl::Function(f) => fn_fits_h(f),
            hir::Decl::Struct(d) => d.fields@.len() < 0x1000_0000,
        }
}

proof fn lemma_compiled_fns_err(g: HirCtx, decls: Seq<hir::Decl>, k: int, n: int)
    requires
        0 <= k <= n,
        compiled_fns(g, decls, k) is Err,
    ensures
        compiled_fns(g, decls, n) == compiled_fns(g, decls, k),
    decreases n - k,
{
    if k < n {
        lemma_compiled_fns_err(g, decls, k, n - 1);
    }
}

proof fn lemma_decl_structs_len(decls: Seq<hir::Decl>, k: int)
    requires
        0 <= k,
    ensures
        decl_structs(decls, k).len() <= k,
    decreases k,
{
    if k > 0 {
        lemma_decl_structs_len(decls, k - 1);
    }
}

/// The LIR program of a HIR program: each function compiled, then a `main`
/// function that calls the entry point; the first error met otherwise.
pub fn hir_to_lir(hir: &hir::Source) -> (r: Result<lir::Source, String>)
    requires
        hir_fits(*hir),
    ensures
        match source_out(*hir) {
            Ok((gs, fs)) => r matches Ok(src) && names_of(src.globals@) == gs && src.functions@.map_values(|f: lir::Function| fn_view(f)) == fs,
            Err(e) => r matches Err(x) && x@ == e,
        },
{
    let ghost decls = hir.decls@;
    let mut structs: Vec<&hir::StructDecl> = Vec::new();
    let mut struct_names: Vec<String> = Vec::new();
    let mut fns: Vec<String> = Vec::new();
    let mut has_main_fn = false;
    let mut i: usize = 0;
    while i < hir.decls.len()
        invariant
            i <= decls.len(),
            decls == hir.decls@,
            hir_fits(*hir),
            struct_names@.len() == structs@.len(),
            forall|k: int| 0 <= k < structs@.len() ==> #[trigger] struct_names@[k]@ == structs@[k].name@,
            forall|k: int| 0 <= k < structs@.len() ==> (#[trigger] structs@[k]).fields@.len() < 0x1000_0000,
            structs@.map_values(|d: &hir::StructDecl| (d.name@, names_of(d.fields@))) == decl_structs(decls, i as int),
            names_of(fns@) == decl_fns(decls, i as int),
            has_main_fn <==> exists|j: int| 0 <= j < i && (#[trigger] decls[j] matches hir::Decl::Function(f) && f.name@ == "main"@),
        decreases hir.decls.len() - i,
    {
        proof {
            lemma_decl_structs_len(decls, i + 1);
        }
        match &hir.decls[i] {
            hir::Decl::Struct(d) => {
                assert(decls[i as int] matches hir::Decl::Struct(dd) && dd.fields@.len() < 0x1000_0000);
                let ghost before = structs@;
                structs.push(d);
                struct_names.push(d.name.clone());
                assert(structs@.map_values(|d: &hir::StructDecl| (d.name@, names_of(d.fields@))) =~= decl_structs(decls, i + 1));
                assert(names_of(fns@) =~= decl_fns(decls, i + 1));
            },
            hir::Decl::Function(f) => {
                if str_eq(f.name.as_str(), "main") {
                    has_main_fn = true;
                }
                fns.push(f.name.clone());
                assert(structs@.map_values(|d: &hir::StructDecl| (d.name@, names_of(d.fields@))) =~= decl_structs(decls, i + 1));
                assert(names_of(fns@) =~= decl_fns(decls, i + 1));
            },
        }
        proof {
            reveal_strlit("main");
        }
        i = i + 1;
    }
    proof {
        lemma_decl_structs_len(decls, decls.len() as int);
    }
    let global = GlobalRegistry { globals: &hir.globals, struct_names, structs, fns };
    assert(global.ctx(Seq::empty()) == hir_global(*hir));
    if !has_main_fn {
        proof {
            reveal_strlit("No \"main\" function");
        }
        return Err(String::from_str("No \"main\" function"));
    }
    proof {
        let j = choose|j: int| 0 <= j < decls.len() && (#[trigger] decls[j] matches hir::Decl::Function(f) && f.name@ == "main"@);
        assert(0 <= j < decls.len() && (decls[j] matches hir::Decl::Function(f) && f.name@ == "main"@));
    }
    let mut compiled: Vec<lir::Function> = Vec::new();
    assert(compiled@.map_values(|f: lir::Function| fn_view(f)) =~= seq![]);
    let mut k: usize = 0;
    while k < hir.decls.len()
        invariant
            k <= decls.len(),
            decls == hir.decls@,
            hir_fits(*hir),
            global.wf(),
            global.ctx(Seq::empty()) == hir_global(*hir),
            has_main(decls),
            compiled_fns(hir_global(*hir), decls, k as int) == Ok::<Seq<(Seq<char>, Seq<Seq<char>>, Seq<Seq<char>>, Seq<StmtV>)>, Seq<char>>(
                compiled@.map_values(|f: lir::Function| fn_view(f)),
            ),
        decreases hir.decls.len() - k,
    {
        match &hir.decls[k] {
            hir::Decl::Struct(_) => {},
            hir::Decl::Function(f) => {
                assert(decls[k as int] matches hir::Decl::Function(ff) && fn_fits_h(ff));
                match compile_fn(&global, f) {
                    Ok(c) => {
                        compiled.push(c);
                        assert(compiled@.map_values(|f: lir::Function| fn_view(f)) =~= compiled_fns(hir_global(*hir), decls, k + 1)->Ok_0);
                    },
                    Err(e) => {
                        proof {
                            lemma_compiled_fns_err(hir_global(*hir), decls, k + 1, decls.len() as int);
                        }
                        return Err(e);
                    },
                }
            },
        }
        k = k + 1;
    }
    let entry = match global.get_fn_compiled_name(hir.entrypoint.as_str(), Ghost(Seq::empty())) {
        Ok(n) => n,
        Err(e) => {
            return Err(e);
        },
    };
    proof {
        reveal_strlit("main");
        reveal_strlit("ret_code_ty");
        reveal_strlit("ret_code_val");
    }
    let mut main_vars: Vec<String> = Vec::new();
    main_vars.push(String::from_str("ret_code_ty"));
    main_vars.push(String::from_str("ret_code_val"));
    let mut body: Vec<lir::Statement> = Vec::new();
    let no_args: Vec<lir::Val> = Vec::new();
    assert(lir::vals_view(no_args@) =~= seq![]);
    body.push(ins(lir::Instruction::Call(
        Some((String::from_str("ret_code_ty"), String::from_str("ret_code_val"))),
        false,
        entry,
        no_args,
    )));
    body.push(ins(lir::Instruction::Return(
        lir::Val::Var(String::from_str("ret_code_ty")),
        lir::Val::Var(String::from_str("ret_code_val")),
    )));
    let main_f = lir::Function::new(String::from_str("main"), Vec::new(), main_vars, lir::Block::new(body));
    let ghost mv = main_fn(hir_global(*hir), hir.entrypoint@)->Ok_0;
    assert(names_of(main_f.args@) =~= mv.1);
    assert(names_of(main_f.vars@) =~= mv.2);
    assert(stmts_view(main_f.body.stmts@) =~= mv.3);
    let ghost before = compiled@.map_values(|f: lir::Function| fn_view(f));
    compiled.push(main_f);
    assert(compiled@.map_values(|f: lir::Function| fn_view(f)) =~= before.push(mv));
    let globals = named_regs(&hir.globals, true);
    Ok(lir::Source::new(globals, compiled))
}

} // verus!
