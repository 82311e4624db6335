use vstd::prelude::*;

use super::lir::{BinOp, Function, Instruction, Source, Statement, UnaryOp, Val};
use crate::text::{append_decimal, append_decimal64, decimal, law_decimal_injective, law_decimal_reads_back, str_eq};

verus! {

/// The names of a list of strings.
pub open spec fn names_of(v: Seq<String>) -> Seq<Seq<char>> {
    v.map_values(|s: String| s@)
}

/// The index of the last occurrence of `n`, if any.
pub open spec fn last_index(names: Seq<Seq<char>>, n: Seq<char>) -> Option<nat>
    decreases names.len(),
{
    if names.len() == 0 {
        None
    } else if names.last() == n {
        Some((names.len() - 1) as nat)
    } else {
        last_index(names.drop_last(), n)
    }
}

/// The index of the first occurrence of `n`, if any.
pub open spec fn first_index(names: Seq<Seq<char>>, n: Seq<char>) -> Option<nat>
    decreases names.len(),
{
    if names.len() == 0 {
        None
    } else if names[0] == n {
        Some(0)
    } else {
        match first_index(names.drop_first(), n) {
            Some(i) => Some(i + 1),
            None => None,
        }
    }
}

proof fn lemma_last_index(names: Seq<Seq<char>>, n: Seq<char>)
    ensures
        last_index(names, n) matches Some(i) ==> i < names.len() && names[i as int] == n && forall|j: int| i < j < names.len() ==> names[j] != n,
        last_index(names, n) is None ==> forall|j: int| 0 <= j < names.len() ==> names[j] != n,
    decreases names.len(),
{
    if names.len() > 0 {
        lemma_last_index(names.drop_last(), n);
        if names.last() != n {
            assert forall|j: int| 0 <= j < names.len() - 1 implies names[j] == names.drop_last()[j] by {
            }
        }
    }
}

proof fn lemma_first_index(names: Seq<Seq<char>>, n: Seq<char>)
    ensures
        first_index(names, n) matches Some(i) ==> i < names.len() && names[i as int] == n && forall|j: int| 0 <= j < i ==> names[j] != n,
        first_index(names, n) is None ==> forall|j: int| 0 <= j < names.len() ==> names[j] != n,
    decreases names.len(),
{
    if names.len() > 0 {
        lemma_first_index(names.drop_first(), n);
        if names[0] != n {
            if let Some(i) = first_index(names, n) {
                assert forall|j: int| 0 <= j < i implies names[j] != n by {
                    if j > 0 {
                        assert(names.drop_first()[j - 1] == names[j]);
                    }
                }
            } else {
                assert forall|j: int| 0 <= j < names.len() implies names[j] != n by {
                    if j > 0 {
                        assert(names.drop_first()[j - 1] == names[j]);
                    }
                }
            }
        }
    }
}

/// The index of the last occurrence of `n` in `names`.
fn find_last(names: &Vec<String>, n: &str) -> (r: Option<usize>)
    ensures
        r matches Some(i) ==> last_index(names_of(names@), n@) == Some(i as nat),
        r is None ==> last_index(names_of(names@), n@) is None,
{
    let ghost ns = names_of(names@);
    let mut i: usize = names.len();
    assert(ns.take(i as int) =~= ns);
    while i > 0
        invariant
            i <= names@.len(),
            ns == names_of(names@),
            last_index(ns, n@) == last_index(ns.take(i as int), n@),
        decreases i,
    {
        assert(ns.take(i as int).last() == names@[i - 1]@);
        assert(ns.take(i as int).drop_last() =~= ns.take(i - 1));
        if str_eq(names[i - 1].as_str(), n) {
            return Some(i - 1);
        }
        i = i - 1;
    }
    assert(ns.take(0) =~= Seq::<Seq<char>>::empty());
    None
}

/// The index of the first occurrence of `n` in `names`.
fn find_first(names: &Vec<String>, n: &str) -> (r: Option<usize>)
    ensures
        r matches Some(i) ==> first_index(names_of(names@), n@) == Some(i as nat),
        r is None ==> first_index(names_of(names@), n@) is None,
{
    let ghost ns = names_of(names@);
    let mut i: usize = 0;
    assert(ns.skip(0) =~= ns);
    while i < names.len()
        invariant
            i <= names@.len(),
            ns == names_of(names@),
            first_index(ns, n@) == match first_index(ns.skip(i as int), n@) {
                Some(k) => Some((k + i) as nat),
                None => None::<nat>,
            },
        decreases names.len() - i,
    {
        assert(ns.skip(i as int)[0] == names@[i as int]@);
        assert(ns.skip(i as int).drop_first() =~= ns.skip(i + 1));
        if str_eq(names[i].as_str(), n) {
            return Some(i);
        }
        i = i + 1;
    }
    assert(ns.skip(i as int) =~= Seq::<Seq<char>>::empty());
    None
}

/// What the translation of a function knows: the global and local
/// pseudo-registers, the names of the functions, the labels of the function
/// in the order of their first appearance, and the index of the function.
pub struct AsmCtx {
    pub globals: Seq<Seq<char>>,
    pub locals: Seq<Seq<char>>,
    pub fns: Seq<Seq<char>>,
    pub labels: Seq<Seq<char>>,
    pub fn_id: nat,
}

/// Where a pseudo-register lives, when the stack pointer has moved down by
/// `extra` bytes: its slot in the frame, or its global cell.
pub open spec fn access(ctx: AsmCtx, extra: nat, name: Seq<char>) -> Option<Seq<char>> {
    match last_index(ctx.locals, name) {
        Some(i) => Some(decimal(8 * i + extra) + "(%rsp)"@),
        None => match last_index(ctx.globals, name) {
            Some(g) => Some("(global_var_"@ + decimal(g) + ")"@),
            None => None,
        },
    }
}

/// The message for a pseudo-register that was not declared.
pub open spec fn undeclared(name: Seq<char>) -> Seq<char> {
    "[LIR] Variable "@ + name + " was not declared"@
}

/// The error that looking up a pseudo-register gives, if any.
pub open spec fn access_err(ctx: AsmCtx, name: Seq<char>) -> Option<Seq<char>> {
    if access(ctx, 0, name) is None {
        Some(undeclared(name))
    } else {
        None
    }
}

/// The first error of two.
pub open spec fn first_err(a: Option<Seq<char>>, b: Option<Seq<char>>) -> Option<Seq<char>> {
    match a {
        Some(e) => Some(e),
        None => b,
    }
}

/// The error that loading a value gives, if any.
pub open spec fn val_err(ctx: AsmCtx, v: Val) -> Option<Seq<char>> {
    match v {
        Val::Var(name) => access_err(ctx, name@),
        _ => None,
    }
}

/// The strings a value registers.
pub open spec fn val_strs(v: Val) -> Seq<Seq<char>> {
    match v {
        Val::Str(s) => seq![s@],
        _ => seq![],
    }
}

/// The code that loads a value into `dest`; `count` strings are
/// registered before it.
pub open spec fn val_text(ctx: AsmCtx, count: nat, v: Val, dest: Seq<char>) -> Seq<char> {
    match v {
        Val::Var(name) => "\tmovq "@ + access(ctx, 0, name@)->0 + ", "@ + dest + "\n"@,
        Val::Const(i) => "\tmovq $"@ + decimal(i as nat) + ", "@ + dest + "\n"@,
        Val::Str(_) => "\tmovq $string_"@ + decimal(count) + ", %rax\n"@,
    }
}

/// Registers each string met, giving it the next number.
pub struct StringRegistry {
    strings: Vec<String>,
    next_id: usize,
}

impl StringRegistry {
    /// The strings registered so far.
    pub closed spec fn spec_strings(&self) -> Seq<Seq<char>> {
        names_of(self.strings@)
    }

    /// The number the next registered string gets.
    pub closed spec fn spec_next_id(&self) -> nat {
        self.next_id as nat
    }

    fn new() -> (r: Self)
        ensures
            r.spec_strings() == Seq::<Seq<char>>::empty(),
            r.spec_next_id() == 0,
    {
        let r = StringRegistry { strings: Vec::new(), next_id: 0 };
        assert(r.spec_strings() =~= Seq::<Seq<char>>::empty());
        r
    }

    /// Registers `s` and returns its number.
    fn register(&mut self, s: String) -> (r: usize)
        ensures
            r == old(self).spec_strings().len(),
            final(self).spec_strings() == old(self).spec_strings().push(s@),
            final(self).spec_next_id() == r + 1,
    {
        let id = self.strings.len();
        let ghost sv = s@;
        self.strings.push(s);
        self.next_id = self.strings.len();
        assert(self.spec_strings() =~= old(self).spec_strings().push(sv));
        id
    }
}

/// The global pseudo-registers.
struct GlobalRegistry {
    names: Vec<String>,
}

impl GlobalRegistry {
    fn get_var_access(&self, name: &str) -> (r: Result<String, String>)
        ensures
            match last_index(names_of(self.names@), name@) {
                Some(g) => r matches Ok(s) && s@ == "(global_var_"@ + decimal(g) + ")"@,
                None => r matches Err(e) && e@ == undeclared(name@),
            },
    {
        match find_last(&self.names, name) {
            Some(i) => {
                let mut s = String::from_str("(global_var_");
                append_decimal(&mut s, i);
                s.append(")");
                proof {
                    reveal_strlit("(global_var_");
                    reveal_strlit(")");
                }
                Ok(s)
            },
            None => {
                let mut s = String::from_str("[LIR] Variable ");
                s.append(name);
                s.append(" was not declared");
                proof {
                    reveal_strlit("[LIR] Variable ");
                    reveal_strlit(" was not declared");
                }
                Err(s)
            },
        }
    }
}

/// The local pseudo-registers of a function, over the global ones.
struct LocalRegistry<'a> {
    parent: &'a GlobalRegistry,
    names: &'a Vec<String>,
}

impl<'a> LocalRegistry<'a> {
    spec fn ctx_ok(&self, ctx: AsmCtx) -> bool {
        ctx.globals == names_of(self.parent.names@) && ctx.locals == names_of(self.names@)
    }

    fn get_var_access_with_extra(&self, stack_extra: usize, name: &str, Ghost(ctx): Ghost<AsmCtx>) -> (r: Result<String, String>)
        requires
            self.ctx_ok(ctx),
            8 * self.names@.len() + stack_extra <= usize::MAX,
        ensures
            match access(ctx, stack_extra as nat, name@) {
                Some(a) => r matches Ok(s) && s@ == a,
                None => r matches Err(e) && e@ == undeclared(name@),
            },
    {
        match find_last(self.names, name) {
            Some(i) => {
                proof {
                    lemma_last_index(names_of(self.names@), name@);
                }
                let mut s = String::new();
                append_decimal(&mut s, 8 * i + stack_extra);
                s.append("(%rsp)");
                proof {
                    reveal_strlit("(%rsp)");
                    assert(s@ =~= decimal((8 * i + stack_extra) as nat) + "(%rsp)"@);
                }
                Ok(s)
            },
            None => self.parent.get_var_access(name),
        }
    }
}


/// The code of a binary operator, on `%rax` and `%rbx`, into `%rax`.
pub open spec fn op_text(op: BinOp) -> Seq<char> {
    match op {
        BinOp::And => "\tandq %rbx, %rax\n"@,
        BinOp::Or => "\torq %rbx, %rax\n"@,
        BinOp::Equ => "\tcmp %rbx, %rax\n"@ + "\tmovq $0, %rax\n"@ + "\tsete %al\n"@,
        BinOp::Neq => "\tcmp %rbx, %rax\n"@ + "\tmovq $0, %rax\n"@ + "\tsetne %al\n"@,
        BinOp::Lt => "\tcmp %rbx, %rax\n"@ + "\tmovq $0, %rax\n"@ + "\tsetl %al\n"@,
        BinOp::Leq => "\tcmp %rbx, %rax\n"@ + "\tmovq $0, %rax\n"@ + "\tsetle %al\n"@,
        BinOp::Gt => "\tcmp %rbx, %rax\n"@ + "\tmovq $0, %rax\n"@ + "\tsetg %al\n"@,
        BinOp::Geq => "\tcmp %rbx, %rax\n"@ + "\tmovq $0, %rax\n"@ + "\tsetge %al\n"@,
        BinOp::Add => "\taddq %rbx, %rax\n"@,
        BinOp::Sub => "\tsubq %rbx, %rax\n"@,
        BinOp::Mul => "\timulq %rbx, %rax\n"@,
        BinOp::Div => "\tcqto\n"@ + "\tidivq %rbx\n"@,
    }
}

/// The code of a unary operator on `%rax`.
pub open spec fn unary_text(op: UnaryOp) -> Seq<char> {
    match op {
        UnaryOp::Neg => "\tnegq %rax\n"@,
        UnaryOp::Not => "\tnotq %rax\n"@ + "\tandq $0, %rax\n"@,
    }
}

/// The code that stores `%rax` (or another register) into a pseudo-register.
pub open spec fn store_text(ctx: AsmCtx, reg: Seq<char>, name: Seq<char>) -> Seq<char> {
    "\tmovq "@ + reg + ", "@ + access(ctx, 0, name)->0 + "\n"@
}

fn write_str(out: &mut String, s: &str)
    ensures
        final(out)@ == old(out)@ + s@,
{
    out.append(s);
}

fn emit_bin_op(out: &mut String, op: BinOp)
    ensures
        final(out)@ == old(out)@ + op_text(op),
{
    let cmp = "\tcmp %rbx, %rax\n";
    let zero = "\tmovq $0, %rax\n";
    proof {
        reveal_strlit("\tandq %rbx, %rax\n");
        reveal_strlit("\torq %rbx, %rax\n");
        reveal_strlit("\tcmp %rbx, %rax\n");
        reveal_strlit("\tmovq $0, %rax\n");
        reveal_strlit("\tsete %al\n");
        reveal_strlit("\tsetne %al\n");
        reveal_strlit("\tsetl %al\n");
        reveal_strlit("\tsetle %al\n");
        reveal_strlit("\tsetg %al\n");
        reveal_strlit("\tsetge %al\n");
        reveal_strlit("\taddq %rbx, %rax\n");
        reveal_strlit("\tsubq %rbx, %rax\n");
        reveal_strlit("\timulq %rbx, %rax\n");
        reveal_strlit("\tcqto\n");
        reveal_strlit("\tidivq %rbx\n");
    }
    match op {
        BinOp::And => write_str(out, "\tandq %rbx, %rax\n"),
        BinOp::Or => write_str(out, "\torq %rbx, %rax\n"),
        BinOp::Equ => {
            write_str(out, cmp);
            write_str(out, zero);
            write_str(out, "\tsete %al\n");
        },
        BinOp::Neq => {
            write_str(out, cmp);
            write_str(out, zero);
            write_str(out, "\tsetne %al\n");
        },
        BinOp::Lt => {
            write_str(out, cmp);
            write_str(out, zero);
            write_str(out, "\tsetl %al\n");
        },
        BinOp::Leq => {
            write_str(out, cmp);
            write_str(out, zero);
            write_str(out, "\tsetle %al\n");
        },
        BinOp::Gt => {
            write_str(out, cmp);
            write_str(out, zero);
            write_str(out, "\tsetg %al\n");
        },
        BinOp::Geq => {
            write_str(out, cmp);
            write_str(out, zero);
            write_str(out, "\tsetge %al\n");
        },
        BinOp::Add => write_str(out, "\taddq %rbx, %rax\n"),
        BinOp::Sub => write_str(out, "\tsubq %rbx, %rax\n"),
        BinOp::Mul => write_str(out, "\timulq %rbx, %rax\n"),
        BinOp::Div => {
            write_str(out, "\tcqto\n");
            write_str(out, "\tidivq %rbx\n");
        },
    }
    proof {
        assert(out@ =~= old(out)@ + op_text(op));
    }
}

/// Loads a value into `dest`.
fn write_get_val(
    out: &mut String,
    reg: &mut StringRegistry,
    local: &LocalRegistry,
    val: &Val,
    dest: &str,
    Ghost(ctx): Ghost<AsmCtx>,
) -> (r: Result<(), String>)
    requires
        local.ctx_ok(ctx),
        local.names@.len() < 0x100_0000,
    ensures
        match val_err(ctx, *val) {
            Some(e) => r matches Err(x) && x@ == e,
            None => {
                &&& r is Ok
                &&& final(out)@ == old(out)@ + val_text(ctx, old(reg).spec_strings().len(), *val, dest@)
                &&& final(reg).spec_strings() == old(reg).spec_strings() + val_strs(*val)
            },
        },
{
    proof {
        reveal_strlit("\tmovq ");
        reveal_strlit(", ");
        reveal_strlit("\n");
        reveal_strlit("\tmovq $");
        reveal_strlit("\tmovq $string_");
        reveal_strlit(", %rax\n");
    }
    match val {
        Val::Var(name) => {
            let a = local.get_var_access_with_extra(0, name.as_str(), Ghost(ctx));
            match a {
                Ok(a) => {
                    write_str(out, "\tmovq ");
                    write_str(out, a.as_str());
                    write_str(out, ", ");
                    write_str(out, dest);
                    write_str(out, "\n");
                    assert(out@ =~= old(out)@ + val_text(ctx, old(reg).spec_strings().len(), *val, dest@));
                    assert(reg.spec_strings() =~= old(reg).spec_strings() + val_strs(*val));
                    Ok(())
                },
                Err(e) => Err(e),
            }
        },
        Val::Const(i) => {
            write_str(out, "\tmovq $");
            append_decimal64(out, *i);
            write_str(out, ", ");
            write_str(out, dest);
            write_str(out, "\n");
            assert(out@ =~= old(out)@ + val_text(ctx, old(reg).spec_strings().len(), *val, dest@));
            assert(reg.spec_strings() =~= old(reg).spec_strings() + val_strs(*val));
            Ok(())
        },
        Val::Str(s) => {
            let id = reg.register(s.clone());
            write_str(out, "\tmovq $string_");
            append_decimal(out, id);
            write_str(out, ", %rax\n");
            assert(out@ =~= old(out)@ + val_text(ctx, old(reg).spec_strings().len(), *val, dest@));
            assert(reg.spec_strings() =~= old(reg).spec_strings() + val_strs(*val));
            Ok(())
        },
    }
}


/// The number of a label of the function, by the order of first
/// appearance.
pub open spec fn label_id(ctx: AsmCtx, name: Seq<char>) -> Option<nat> {
    first_index(ctx.labels, name)
}

/// The message for a jump to a missing label.
pub open spec fn no_label(name: Seq<char>) -> Seq<char> {
    "[LIR] No label named \""@ + name + "\""@
}

/// The message for a call of a missing function.
pub open spec fn no_function(name: Seq<char>) -> Seq<char> {
    "[LIR] No function named \""@ + name + "\"."@
}

/// An operand of a call: one of the two slots where a native function
/// writes its result (the first one, or the second), or an argument.
pub enum CallArg {
    NativeSlot(bool),
    Usr(Val),
}

/// The operands of a call.
pub open spec fn call_ops(native: bool, args: Seq<Val>) -> Seq<CallArg> {
    (if native {
        seq![CallArg::NativeSlot(true), CallArg::NativeSlot(false)]
    } else {
        Seq::<CallArg>::empty()
    }) + args.map_values(|v: Val| CallArg::Usr(v))
}

/// The room that a call with `n` operands takes on the stack.
pub open spec fn stack_extra(native: bool, n: nat) -> nat {
    ((if n >= 6 {
        if (n - 6) % 2 == 0 {
            8 * (n - 6)
        } else {
            8 * (n - 5)
        }
    } else {
        0
    }) + (if native {
        16nat
    } else {
        0nat
    })) as nat
}

/// The code that passes `%rax` as operand `i`.
pub open spec fn reg_line(i: nat) -> Seq<char> {
    if i == 0 {
        "\tmovq %rax, %rdi\n"@
    } else if i == 1 {
        "\tmovq %rax, %rsi\n"@
    } else if i == 2 {
        "\tmovq %rax, %rdx\n"@
    } else if i == 3 {
        "\tmovq %rax, %rcx\n"@
    } else if i == 4 {
        "\tmovq %rax, %r8\n"@
    } else if i == 5 {
        "\tmovq %rax, %r9\n"@
    } else {
        "\tmovq %rax, "@ + decimal((8 * (i - 6)) as nat) + "(%rsp)\n"@
    }
}

/// The code that loads an operand into `%rax`.
pub open spec fn operand_text(ctx: AsmCtx, count: nat, extra: nat, op: CallArg) -> Seq<char> {
    match op {
        CallArg::NativeSlot(b) => "\tmovq %rsp, %rax\n"@ + "\taddq $"@ + decimal(
            (if b {
                extra - 8
            } else {
                extra - 16
            }) as nat,
        ) + ", %rax\n"@,
        CallArg::Usr(Val::Var(n)) => "\tmovq "@ + access(ctx, extra, n@)->0 + ", %rax\n"@,
        CallArg::Usr(Val::Const(i)) => "\tmovq $"@ + decimal(i as nat) + ", %rax\n"@,
        CallArg::Usr(Val::Str(_)) => "\tmovq $string_"@ + decimal(count) + ", %rax\n"@,
    }
}

pub open spec fn op_strs(op: CallArg) -> Seq<Seq<char>> {
    match op {
        CallArg::Usr(v) => val_strs(v),
        CallArg::NativeSlot(_) => seq![],
    }
}

pub open spec fn op_err(ctx: AsmCtx, extra: nat, op: CallArg) -> Option<Seq<char>> {
    match op {
        CallArg::Usr(Val::Var(n)) => if access(ctx, extra, n@) is None {
            Some(undeclared(n@))
        } else {
            None
        },
        _ => None,
    }
}

/// The strings that the first `k` operands register.
pub open spec fn ops_strs(ops: Seq<CallArg>, k: int) -> Seq<Seq<char>>
    decreases k,
{
    if k <= 0 {
        seq![]
    } else {
        ops_strs(ops, k - 1) + op_strs(ops[k - 1])
    }
}

/// The code that passes the first `k` operands.
pub open spec fn ops_text(ctx: AsmCtx, count: nat, extra: nat, ops: Seq<CallArg>, k: int) -> Seq<char>
    decreases k,
{
    if k <= 0 {
        seq![]
    } else {
        ops_text(ctx, count, extra, ops, k - 1) + operand_text(ctx, count + ops_strs(ops, k - 1).len(), extra, ops[k - 1])
            + reg_line((k - 1) as nat)
    }
}

/// The first error that passing the first `k` operands gives.
pub open spec fn ops_err(ctx: AsmCtx, extra: nat, ops: Seq<CallArg>, k: int) -> Option<Seq<char>>
    decreases k,
{
    if k <= 0 {
        None
    } else {
        first_err(ops_err(ctx, extra, ops, k - 1), op_err(ctx, extra, ops[k - 1]))
    }
}

/// The code that makes room for the operands of a call.
pub open spec fn call_head(extra: nat) -> Seq<char> {
    if extra != 0 {
        "\tsubq $"@ + decimal(extra) + ", %rsp\n"@
    } else {
        seq![]
    }
}

/// The code of a call.
pub open spec fn call_text(ctx: AsmCtx, count: nat, dest: Option<(String, String)>, native: bool, name: Seq<char>, args: Seq<Val>) -> Seq<char> {
    let ops = call_ops(native, args);
    let extra = stack_extra(native, ops.len());
    call_head(extra) + ops_text(ctx, count, extra, ops, ops.len() as int) + call_tail(ctx, dest, native, name, extra)
}

/// The first error of a call.
pub open spec fn call_err(ctx: AsmCtx, dest: Option<(String, String)>, native: bool, name: Seq<char>, args: Seq<Val>) -> Option<Seq<char>> {
    let ops = call_ops(native, args);
    let extra = stack_extra(native, ops.len());
    first_err(
        ops_err(ctx, extra, ops, ops.len() as int),
        first_err(
            if !native && first_index(ctx.fns, name) is None {
                Some(no_function(name))
            } else {
                None
            },
            match dest {
                Some((d1, d2)) => first_err(access_err(ctx, d1@), access_err(ctx, d2@)),
                None => None,
            },
        ),
    )
}

/// The first error of an instruction, if any.
pub open spec fn inst_err(ctx: AsmCtx, inst: Instruction) -> Option<Seq<char>> {
    match inst {
        Instruction::Bin(d, _, a, b) => first_err(val_err(ctx, a), first_err(val_err(ctx, b), access_err(ctx, d@))),
        Instruction::Unary(d, _, a) => first_err(val_err(ctx, a), access_err(ctx, d@)),
        Instruction::Mov(d, a) => first_err(val_err(ctx, a), access_err(ctx, d@)),
        Instruction::AssignArray(dst, _, a) => first_err(val_err(ctx, a), val_err(ctx, dst)),
        Instruction::Access(d, a, _) => first_err(val_err(ctx, a), access_err(ctx, d@)),
        Instruction::Jump(_) => None,
        Instruction::Jumpif(a, l) => first_err(
            val_err(ctx, a),
            if label_id(ctx, l.name@) is None {
                Some(no_label(l.name@))
            } else {
                None
            },
        ),
        Instruction::JumpifNot(a, l) => first_err(
            val_err(ctx, a),
            if label_id(ctx, l.name@) is None {
                Some(no_label(l.name@))
            } else {
                None
            },
        ),
        Instruction::Call(dest, native, name, args) => call_err(ctx, dest, native, name@, args@),
        Instruction::Return(u, v) => first_err(val_err(ctx, u), val_err(ctx, v)),
    }
}

/// The strings that an instruction registers.
pub open spec fn inst_strs(inst: Instruction) -> Seq<Seq<char>> {
    match inst {
        Instruction::Bin(_, _, a, b) => val_strs(a) + val_strs(b),
        Instruction::Unary(_, _, a) => val_strs(a),
        Instruction::Mov(_, a) => val_strs(a),
        Instruction::AssignArray(dst, _, a) => val_strs(a) + val_strs(dst),
        Instruction::Access(_, a, _) => val_strs(a),
        Instruction::Jump(_) => seq![],
        Instruction::Jumpif(a, _) => val_strs(a),
        Instruction::JumpifNot(a, _) => val_strs(a),
        Instruction::Call(_, native, _, args) => {
            let ops = call_ops(native, args@);
            ops_strs(ops, ops.len() as int)
        },
        Instruction::Return(u, v) => val_strs(u) + val_strs(v),
    }
}

/// The name of the code of label `id` of function `f`.
pub open spec fn label_name(f: nat, id: nat) -> Seq<char> {
    "fn_"@ + decimal(f) + "_lbl_"@ + decimal(id)
}

/// The code of an instruction; `count` strings are registered before it.
pub open spec fn inst_text(ctx: AsmCtx, count: nat, inst: Instruction) -> Seq<char> {
    match inst {
        Instruction::Bin(d, op, a, b) => val_text(ctx, count, a, "%rax"@) + val_text(ctx, count + val_strs(a).len(), b, "%rbx"@)
            + op_text(op) + store_text(ctx, "%rax"@, d@),
        Instruction::Unary(d, op, a) => val_text(ctx, count, a, "%rax"@) + unary_text(op) + store_text(ctx, "%rax"@, d@),
        Instruction::Mov(d, a) => val_text(ctx, count, a, "%rax"@) + store_text(ctx, "%rax"@, d@),
        Instruction::AssignArray(dst, off, a) => val_text(ctx, count, a, "%rax"@) + val_text(
            ctx,
            count + val_strs(a).len(),
            dst,
            "%rbx"@,
        ) + "\tmov %rax, "@ + decimal(off as nat) + "(%rbx)\n"@,
        Instruction::Access(d, a, off) => val_text(ctx, count, a, "%rax"@) + "\tmov "@ + decimal(off as nat) + "(%rax), %rbx\n"@
            + "\tmov %rbx, "@ + access(ctx, 0, d@)->0 + "\n"@,
        Instruction::Jump(l) => "\tjmp "@ + label_name(ctx.fn_id, label_id(ctx, l.name@)->0) + "\n"@,
        Instruction::Jumpif(a, l) => val_text(ctx, count, a, "%rax"@) + "\tmovq $0, %rbx\n"@ + "\tcmp %rax, %rbx\n"@ + "\tjnz "@
            + label_name(ctx.fn_id, label_id(ctx, l.name@)->0) + "\n"@,
        Instruction::JumpifNot(a, l) => val_text(ctx, count, a, "%rax"@) + "\tmovq $0, %rbx\n"@ + "\tcmp %rax, %rbx\n"@ + "\tjz "@
            + label_name(ctx.fn_id, label_id(ctx, l.name@)->0) + "\n"@,
        Instruction::Call(dest, native, name, args) => call_text(ctx, count, dest, native, name@, args@),
        Instruction::Return(u, v) => val_text(ctx, count, u, "%rax"@) + val_text(ctx, count + val_strs(u).len(), v, "%rdx"@)
            + "\tjmp fn_"@ + decimal(ctx.fn_id) + "_exit\n"@,
    }
}


/// The translation context of a function, as the code holds it.
spec fn exec_ctx_ok(ctx: AsmCtx, local: &LocalRegistry, fn_names: &Vec<String>, labels: &Vec<String>, fn_id: usize) -> bool {
    &&& local.ctx_ok(ctx)
    &&& ctx.fns == names_of(fn_names@)
    &&& ctx.labels == names_of(labels@)
    &&& ctx.fn_id == fn_id
    &&& local.names@.len() < 0x100_0000
}

/// Stores a register into a pseudo-register.
fn write_store(out: &mut String, local: &LocalRegistry, reg: &str, name: &str, Ghost(ctx): Ghost<AsmCtx>) -> (r: Result<(), String>)
    requires
        local.ctx_ok(ctx),
        local.names@.len() < 0x100_0000,
    ensures
        match access_err(ctx, name@) {
            Some(e) => r matches Err(x) && x@ == e,
            None => r is Ok && final(out)@ == old(out)@ + store_text(ctx, reg@, name@),
        },
{
    proof {
        reveal_strlit("\tmovq ");
        reveal_strlit(", ");
        reveal_strlit("\n");
    }
    match local.get_var_access_with_extra(0, name, Ghost(ctx)) {
        Ok(a) => {
            write_str(out, "\tmovq ");
            write_str(out, reg);
            write_str(out, ", ");
            write_str(out, a.as_str());
            write_str(out, "\n");
            assert(out@ =~= old(out)@ + store_text(ctx, reg@, name@));
            Ok(())
        },
        Err(e) => Err(e),
    }
}

/// Writes the name of label `id` of function `f`.
fn write_label_name(out: &mut String, f: usize, id: usize)
    ensures
        final(out)@ == old(out)@ + label_name(f as nat, id as nat),
{
    proof {
        reveal_strlit("fn_");
        reveal_strlit("_lbl_");
    }
    write_str(out, "fn_");
    append_decimal(out, f);
    write_str(out, "_lbl_");
    append_decimal(out, id);
    assert(out@ =~= old(out)@ + label_name(f as nat, id as nat));
}

/// Writes the code that passes `%rax` as operand `i`.
fn write_reg_line(out: &mut String, i: usize)
    requires
        i < 0x200_0000,
    ensures
        final(out)@ == old(out)@ + reg_line(i as nat),
{
    proof {
        reveal_strlit("\tmovq %rax, %rdi\n");
        reveal_strlit("\tmovq %rax, %rsi\n");
        reveal_strlit("\tmovq %rax, %rdx\n");
        reveal_strlit("\tmovq %rax, %rcx\n");
        reveal_strlit("\tmovq %rax, %r8\n");
        reveal_strlit("\tmovq %rax, %r9\n");
        reveal_strlit("\tmovq %rax, ");
        reveal_strlit("(%rsp)\n");
    }
    if i == 0 {
        write_str(out, "\tmovq %rax, %rdi\n");
    } else if i == 1 {
        write_str(out, "\tmovq %rax, %rsi\n");
    } else if i == 2 {
        write_str(out, "\tmovq %rax, %rdx\n");
    } else if i == 3 {
        write_str(out, "\tmovq %rax, %rcx\n");
    } else if i == 4 {
        write_str(out, "\tmovq %rax, %r8\n");
    } else if i == 5 {
        write_str(out, "\tmovq %rax, %r9\n");
    } else {
        write_str(out, "\tmovq %rax, ");
        append_decimal(out, 8 * (i - 6));
        write_str(out, "(%rsp)\n");
        assert(out@ =~= old(out)@ + reg_line(i as nat));
    }
}

/// Writes the code that loads operand `i` of a call into `%rax`.
fn write_operand(
    out: &mut String,
    reg: &mut StringRegistry,
    local: &LocalRegistry,
    native: bool,
    args: &Vec<Val>,
    i: usize,
    extra: usize,
    Ghost(ctx): Ghost<AsmCtx>,
) -> (r: Result<(), String>)
    requires
        local.ctx_ok(ctx),
        local.names@.len() < 0x100_0000,
        i < call_ops(native, args@).len(),
        extra < 0x1000_0000,
        native ==> extra >= 16,
    ensures
        match op_err(ctx, extra as nat, call_ops(native, args@)[i as int]) {
            Some(e) => r matches Err(x) && x@ == e,
            None => {
                &&& r is Ok
                &&& final(out)@ == old(out)@ + operand_text(ctx, old(reg).spec_strings().len(), extra as nat, call_ops(native, args@)[i as int])
                &&& final(reg).spec_strings() == old(reg).spec_strings() + op_strs(call_ops(native, args@)[i as int])
            },
        },
{
    let off: usize = if native { 2 } else { 0 };
    let ghost op = call_ops(native, args@)[i as int];
    assert(op == if native && i < 2 { CallArg::NativeSlot(i == 0) } else { CallArg::Usr(args@[i - off]) });
    if native && i < 2 {
        proof {
            reveal_strlit("\tmovq %rsp, %rax\n");
            reveal_strlit("\taddq $");
            reveal_strlit(", %rax\n");
        }
        write_str(out, "\tmovq %rsp, %rax\n");
        write_str(out, "\taddq $");
        if i == 0 {
            append_decimal(out, extra - 8);
        } else {
            append_decimal(out, extra - 16);
        }
        write_str(out, ", %rax\n");
        assert(out@ =~= old(out)@ + operand_text(ctx, old(reg).spec_strings().len(), extra as nat, op));
        assert(reg.spec_strings() =~= old(reg).spec_strings() + op_strs(op));
        Ok(())
    } else {
        proof {
            reveal_strlit("\tmovq ");
            reveal_strlit(", %rax\n");
            reveal_strlit("\tmovq $");
            reveal_strlit("\tmovq $string_");
        }
        match &args[i - off] {
            Val::Var(name) => {
                match local.get_var_access_with_extra(extra, name.as_str(), Ghost(ctx)) {
                    Ok(a) => {
                        write_str(out, "\tmovq ");
                        write_str(out, a.as_str());
                        write_str(out, ", %rax\n");
                        assert(out@ =~= old(out)@ + operand_text(ctx, old(reg).spec_strings().len(), extra as nat, op));
                        assert(reg.spec_strings() =~= old(reg).spec_strings() + op_strs(op));
                        Ok(())
                    },
                    Err(e) => Err(e),
                }
            },
            Val::Const(c) => {
                write_str(out, "\tmovq $");
                append_decimal64(out, *c);
                write_str(out, ", %rax\n");
                assert(out@ =~= old(out)@ + operand_text(ctx, old(reg).spec_strings().len(), extra as nat, op));
                assert(reg.spec_strings() =~= old(reg).spec_strings() + op_strs(op));
                Ok(())
            },
            Val::Str(s) => {
                let id = reg.register(s.clone());
                write_str(out, "\tmovq $string_");
                append_decimal(out, id);
                write_str(out, ", %rax\n");
                assert(out@ =~= old(out)@ + operand_text(ctx, old(reg).spec_strings().len(), extra as nat, op));
                assert(reg.spec_strings() =~= old(reg).spec_strings() + op_strs(op));
                Ok(())
            },
        }
    }
}

/// The code after the operands of a call: the call itself, the results of
/// a native function, the freeing of the room on the stack, and the
/// storing of the results.
pub open spec fn call_tail(ctx: AsmCtx, dest: Option<(String, String)>, native: bool, name: Seq<char>, extra: nat) -> Seq<char> {
    (if native {
        "\tcall "@ + name + "\n"@
    } else {
        "\tcall fn_"@ + decimal(first_index(ctx.fns, name)->0) + "\n"@
    }) + (if native {
        "\tmovq "@ + decimal((extra - 8) as nat) + "(%rsp), %rax\n"@ + "\tmovq "@ + decimal((extra - 16) as nat) + "(%rsp), %rdx\n"@
    } else {
        seq![]
    }) + (if extra != 0 {
        "\taddq $"@ + decimal(extra) + ", %rsp\n"@
    } else {
        seq![]
    }) + match dest {
        Some((d1, d2)) => store_text(ctx, "%rax"@, d1@) + store_text(ctx, "%rdx"@, d2@),
        None => seq![],
    }
}

pub open spec fn call_tail_err(ctx: AsmCtx, dest: Option<(String, String)>, native: bool, name: Seq<char>) -> Option<Seq<char>> {
    first_err(
        if !native && first_index(ctx.fns, name) is None {
            Some(no_function(name))
        } else {
            None
        },
        match dest {
            Some((d1, d2)) => first_err(access_err(ctx, d1@), access_err(ctx, d2@)),
            None => None,
        },
    )
}

#[verifier::rlimit(50)]
fn write_call_tail(
    out: &mut String,
    fn_names: &Vec<String>,
    local: &LocalRegistry,
    dest: &Option<(String, String)>,
    native: bool,
    fn_name: &String,
    extra: usize,
    Ghost(ctx): Ghost<AsmCtx>,
) -> (r: Result<(), String>)
    requires
        local.ctx_ok(ctx),
        local.names@.len() < 0x100_0000,
        ctx.fns == names_of(fn_names@),
        native ==> extra >= 16,
    ensures
        match call_tail_err(ctx, *dest, native, fn_name@) {
            Some(e) => r matches Err(x) && x@ == e,
            None => r is Ok && final(out)@ == old(out)@ + call_tail(ctx, *dest, native, fn_name@, extra as nat),
        },
{
    proof {
        reveal_strlit("\tcall ");
        reveal_strlit("\n");
        reveal_strlit("\tcall fn_");
        reveal_strlit("\tmovq ");
        reveal_strlit("(%rsp), %rax\n");
        reveal_strlit("(%rsp), %rdx\n");
        reveal_strlit("\taddq $");
        reveal_strlit(", %rsp\n");
        reveal_strlit("%rax");
        reveal_strlit("%rdx");
    }
    if native {
        write_str(out, "\tcall ");
        write_str(out, fn_name.as_str());
        write_str(out, "\n");
    } else {
        match find_first(fn_names, fn_name.as_str()) {
            Some(id) => {
                write_str(out, "\tcall fn_");
                append_decimal(out, id);
                write_str(out, "\n");
            },
            None => {
                let mut e = String::from_str("[LIR] No function named \"");
                e.append(fn_name.as_str());
                e.append("\".");
                proof {
                    reveal_strlit("[LIR] No function named \"");
                    reveal_strlit("\".");
                    assert(e@ =~= no_function(fn_name@));
                }
                return Err(e);
            },
        }
    }
    let ghost out1 = out@;
    if native {
        write_str(out, "\tmovq ");
        append_decimal(out, extra - 8);
        write_str(out, "(%rsp), %rax\n");
        write_str(out, "\tmovq ");
        append_decimal(out, extra - 16);
        write_str(out, "(%rsp), %rdx\n");
    }
    if extra != 0 {
        write_str(out, "\taddq $");
        append_decimal(out, extra);
        write_str(out, ", %rsp\n");
    }
    let ghost out2 = out@;
    match dest {
        Some((d1, d2)) => {
            match write_store(out, local, "%rax", d1.as_str(), Ghost(ctx)) {
                Ok(()) => {},
                Err(e) => {
                    return Err(e);
                },
            }
            match write_store(out, local, "%rdx", d2.as_str(), Ghost(ctx)) {
                Ok(()) => {},
                Err(e) => {
                    return Err(e);
                },
            }
        },
        None => {},
    }
    assert(out@ =~= old(out)@ + call_tail(ctx, *dest, native, fn_name@, extra as nat));
    Ok(())
}

fn write_call_head(out: &mut String, extra: usize)
    ensures
        final(out)@ == old(out)@ + call_head(extra as nat),
{
    if extra != 0 {
        proof {
            reveal_strlit("\tsubq $");
            reveal_strlit(", %rsp\n");
        }
        write_str(out, "\tsubq $");
        append_decimal(out, extra);
        write_str(out, ", %rsp\n");
    }
    assert(out@ =~= old(out)@ + call_head(extra as nat));
}

/// Writes the code of a call.
#[verifier::rlimit(50)]
fn call_to_code(
    out: &mut String,
    reg: &mut StringRegistry,
    fn_names: &Vec<String>,
    local: &LocalRegistry,
    dest: &Option<(String, String)>,
    native: bool,
    fn_name: &String,
    args: &Vec<Val>,
    Ghost(ctx): Ghost<AsmCtx>,
) -> (r: Result<(), String>)
    requires
        local.ctx_ok(ctx),
        local.names@.len() < 0x100_0000,
        ctx.fns == names_of(fn_names@),
        args@.len() < 0x100_0000,
    ensures
        match call_err(ctx, *dest, native, fn_name@, args@) {
            Some(e) => r matches Err(x) && x@ == e,
            None => {
                &&& r is Ok
                &&& final(out)@ == old(out)@ + call_text(ctx, old(reg).spec_strings().len(), *dest, native, fn_name@, args@)
                &&& final(reg).spec_strings() == old(reg).spec_strings() + ops_strs(call_ops(native, args@), call_ops(native, args@).len() as int)
            },
        },
{
    let ghost ops = call_ops(native, args@);
    let off: usize = if native { 2 } else { 0 };
    let n: usize = args.len() + off;
    assert(ops.len() == n);
    let base: usize = if n >= 6 {
        if (n - 6) % 2 == 0 { 8 * (n - 6) } else { 8 * (n - 5) }
    } else {
        0
    };
    let extra: usize = base + if native { 16 } else { 0 };
    assert(extra == stack_extra(native, n as nat));
    let ghost count0 = reg.spec_strings().len();
    let ghost reg0 = reg.spec_strings();
    write_call_head(out, extra);
    let ghost head = call_head(extra as nat);
    let ghost out0 = old(out)@;
    let mut i: usize = 0;
    while i < n
        invariant
            i <= n,
            n == ops.len(),
            ops == call_ops(native, args@),
            n < 0x100_0003,
            extra == stack_extra(native, n as nat),
            extra < 0x1000_0000,
            native ==> extra >= 16,
            local.ctx_ok(ctx),
            local.names@.len() < 0x100_0000,
            ops_err(ctx, extra as nat, ops, i as int) is None,
            out@ == out0 + head + ops_text(ctx, count0, extra as nat, ops, i as int),
            reg.spec_strings() == reg0 + ops_strs(ops, i as int),
            count0 == reg0.len(),
        decreases n - i,
    {
        let ghost out1 = out@;
        let ghost strs1 = reg.spec_strings();
        match write_operand(out, reg, local, native, args, i, extra, Ghost(ctx)) {
            Ok(()) => {},
            Err(e) => {
                proof {
                    lemma_ops_err_extends(ctx, extra as nat, ops, i + 1, n as int);
                }
                return Err(e);
            },
        }
        assert(strs1.len() == count0 + ops_strs(ops, i as int).len());
        let ghost mid = out@;
        write_reg_line(out, i);
        assert(reg.spec_strings() =~= reg0 + ops_strs(ops, i + 1));
        assert(out@ =~= out0 + head + ops_text(ctx, count0, extra as nat, ops, i + 1));
        i = i + 1;
    }
    let ghost out2 = out@;
    match write_call_tail(out, fn_names, local, dest, native, fn_name, extra, Ghost(ctx)) {
        Ok(()) => {},
        Err(e) => {
            return Err(e);
        },
    }
    assert(out@ =~= old(out)@ + (head + ops_text(ctx, count0, extra as nat, ops, n as int) + call_tail(ctx, *dest, native, fn_name@, extra as nat)));
    Ok(())
}

proof fn lemma_ops_err_extends(ctx: AsmCtx, extra: nat, ops: Seq<CallArg>, k: int, n: int)
    requires
        0 <= k <= n,
        ops_err(ctx, extra, ops, k) is Some,
    ensures
        ops_err(ctx, extra, ops, n) == ops_err(ctx, extra, ops, k),
    decreases n - k,
{
    if k < n {
        lemma_ops_err_extends(ctx, extra, ops, k, n - 1);
    }
}


/// Writes a jump, conditional or not, to a label of the function.
fn write_jump(
    out: &mut String,
    labels: &Vec<String>,
    fn_id: usize,
    kind: &str,
    label: &String,
    Ghost(ctx): Ghost<AsmCtx>,
) -> (r: Result<(), String>)
    requires
        ctx.labels == names_of(labels@),
        ctx.fn_id == fn_id,
    ensures
        match label_id(ctx, label@) {
            None => r matches Err(x) && x@ == no_label(label@),
            Some(id) => r is Ok && final(out)@ == old(out)@ + kind@ + label_name(fn_id as nat, id) + "\n"@,
        },
{
    match find_first(labels, label.as_str()) {
        Some(id) => {
            write_str(out, kind);
            write_label_name(out, fn_id, id);
            write_str(out, "\n");
            assert(out@ =~= old(out)@ + kind@ + label_name(fn_id as nat, id as nat) + "\n"@);
            Ok(())
        },
        None => {
            let mut e = String::from_str("[LIR] No label named \"");
            e.append(label.as_str());
            e.append("\"");
            proof {
                reveal_strlit("[LIR] No label named \"");
                reveal_strlit("\"");
                assert(e@ =~= no_label(label@));
            }
            Err(e)
        },
    }
}

/// Writes the code of an instruction of function `fn_id`.
#[verifier::spinoff_prover]
#[verifier::rlimit(100)]
fn inst_to_code(
    out: &mut String,
    reg: &mut StringRegistry,
    fn_names: &Vec<String>,
    labels: &Vec<String>,
    local: &LocalRegistry,
    fn_id: usize,
    inst: &Instruction,
    Ghost(ctx): Ghost<AsmCtx>,
) -> (r: Result<(), String>)
    requires
        exec_ctx_ok(ctx, local, fn_names, labels, fn_id),
        inst is Call ==> inst->Call_3@.len() < 0x100_0000,
        inst is Jump ==> label_id(ctx, inst->Jump_0.name@) is Some,
    ensures
        match inst_err(ctx, *inst) {
            Some(e) => r matches Err(x) && x@ == e,
            None => {
                &&& r is Ok
                &&& final(out)@ == old(out)@ + inst_text(ctx, old(reg).spec_strings().len(), *inst)
                &&& final(reg).spec_strings() == old(reg).spec_strings() + inst_strs(*inst)
            },
        },
{
    let ghost count = reg.spec_strings().len();
    let ghost strs0 = reg.spec_strings();
    proof {
        reveal_strlit("%rax");
        reveal_strlit("%rbx");
        reveal_strlit("%rdx");
    }
    match inst {
        Instruction::Bin(dest, op, a, b) => {
            match write_get_val(out, reg, local, a, "%rax", Ghost(ctx)) {
                Ok(()) => {},
                Err(e) => {
                    return Err(e);
                },
            }
            match write_get_val(out, reg, local, b, "%rbx", Ghost(ctx)) {
                Ok(()) => {},
                Err(e) => {
                    return Err(e);
                },
            }
            emit_bin_op(out, *op);
            match write_store(out, local, "%rax", dest.as_str(), Ghost(ctx)) {
                Ok(()) => {},
                Err(e) => {
                    return Err(e);
                },
            }
            assert(out@ =~= old(out)@ + inst_text(ctx, count, *inst));
            assert(reg.spec_strings() =~= strs0 + inst_strs(*inst));
            Ok(())
        },
        Instruction::Unary(dest, op, a) => {
            match write_get_val(out, reg, local, a, "%rax", Ghost(ctx)) {
                Ok(()) => {},
                Err(e) => {
                    return Err(e);
                },
            }
            proof {
                reveal_strlit("\tnegq %rax\n");
                reveal_strlit("\tnotq %rax\n");
                reveal_strlit("\tandq $0, %rax\n");
            }
            match op {
                UnaryOp::Neg => write_str(out, "\tnegq %rax\n"),
                UnaryOp::Not => {
                    write_str(out, "\tnotq %rax\n");
                    write_str(out, "\tandq $0, %rax\n");
                },
            }
            match write_store(out, local, "%rax", dest.as_str(), Ghost(ctx)) {
                Ok(()) => {},
                Err(e) => {
                    return Err(e);
                },
            }
            assert(out@ =~= old(out)@ + inst_text(ctx, count, *inst));
            Ok(())
        },
        Instruction::Mov(dest, a) => {
            match write_get_val(out, reg, local, a, "%rax", Ghost(ctx)) {
                Ok(()) => {},
                Err(e) => {
                    return Err(e);
                },
            }
            match write_store(out, local, "%rax", dest.as_str(), Ghost(ctx)) {
                Ok(()) => {},
                Err(e) => {
                    return Err(e);
                },
            }
            assert(out@ =~= old(out)@ + inst_text(ctx, count, *inst));
            Ok(())
        },
        Instruction::AssignArray(dst, offset, a) => {
            match write_get_val(out, reg, local, a, "%rax", Ghost(ctx)) {
                Ok(()) => {},
                Err(e) => {
                    return Err(e);
                },
            }
            match write_get_val(out, reg, local, dst, "%rbx", Ghost(ctx)) {
                Ok(()) => {},
                Err(e) => {
                    return Err(e);
                },
            }
            proof {
                reveal_strlit("\tmov %rax, ");
                reveal_strlit("(%rbx)\n");
            }
            write_str(out, "\tmov %rax, ");
            append_decimal64(out, *offset);
            write_str(out, "(%rbx)\n");
            assert(out@ =~= old(out)@ + inst_text(ctx, count, *inst));
            assert(reg.spec_strings() =~= strs0 + inst_strs(*inst));
            Ok(())
        },
        Instruction::Access(dest, a, offset) => {
            match write_get_val(out, reg, local, a, "%rax", Ghost(ctx)) {
                Ok(()) => {},
                Err(e) => {
                    return Err(e);
                },
            }
            proof {
                reveal_strlit("\tmov ");
                reveal_strlit("(%rax), %rbx\n");
                reveal_strlit("\tmov %rbx, ");
                reveal_strlit("\n");
            }
            write_str(out, "\tmov ");
            append_decimal64(out, *offset);
            write_str(out, "(%rax), %rbx\n");
            match local.get_var_access_with_extra(0, dest.as_str(), Ghost(ctx)) {
                Ok(acc) => {
                    write_str(out, "\tmov %rbx, ");
                    write_str(out, acc.as_str());
                    write_str(out, "\n");
                },
                Err(e) => {
                    return Err(e);
                },
            }
            assert(out@ =~= old(out)@ + inst_text(ctx, count, *inst));
            Ok(())
        },
        Instruction::Jump(label) => {
            proof {
                reveal_strlit("\tjmp ");
            }
            match write_jump(out, labels, fn_id, "\tjmp ", &label.name, Ghost(ctx)) {
                Ok(()) => {},
                Err(e) => {
                    return Err(e);
                },
            }
            assert(out@ =~= old(out)@ + inst_text(ctx, count, *inst));
            assert(reg.spec_strings() =~= strs0 + inst_strs(*inst));
            Ok(())
        },
        Instruction::Jumpif(a, label) => {
            match write_get_val(out, reg, local, a, "%rax", Ghost(ctx)) {
                Ok(()) => {},
                Err(e) => {
                    return Err(e);
                },
            }
            proof {
                reveal_strlit("\tmovq $0, %rbx\n");
                reveal_strlit("\tcmp %rax, %rbx\n");
                reveal_strlit("\tjnz ");
            }
            write_str(out, "\tmovq $0, %rbx\n");
            write_str(out, "\tcmp %rax, %rbx\n");
            match write_jump(out, labels, fn_id, "\tjnz ", &label.name, Ghost(ctx)) {
                Ok(()) => {},
                Err(e) => {
                    return Err(e);
                },
            }
            assert(out@ =~= old(out)@ + inst_text(ctx, count, *inst));
            Ok(())
        },
        Instruction::JumpifNot(a, label) => {
            match write_get_val(out, reg, local, a, "%rax", Ghost(ctx)) {
                Ok(()) => {},
                Err(e) => {
                    return Err(e);
                },
            }
            proof {
                reveal_strlit("\tmovq $0, %rbx\n");
                reveal_strlit("\tcmp %rax, %rbx\n");
                reveal_strlit("\tjz ");
            }
            write_str(out, "\tmovq $0, %rbx\n");
            write_str(out, "\tcmp %rax, %rbx\n");
            match write_jump(out, labels, fn_id, "\tjz ", &label.name, Ghost(ctx)) {
                Ok(()) => {},
                Err(e) => {
                    return Err(e);
                },
            }
            assert(out@ =~= old(out)@ + inst_text(ctx, count, *inst));
            Ok(())
        },
        Instruction::Call(dest, native, fn_name, args) => {
            call_to_code(out, reg, fn_names, local, dest, *native, fn_name, args, Ghost(ctx))
        },
        Instruction::Return(u, v) => {
            match write_get_val(out, reg, local, u, "%rax", Ghost(ctx)) {
                Ok(()) => {},
                Err(e) => {
                    return Err(e);
                },
            }
            match write_get_val(out, reg, local, v, "%rdx", Ghost(ctx)) {
                Ok(()) => {},
                Err(e) => {
                    return Err(e);
                },
            }
            proof {
                reveal_strlit("\tjmp fn_");
                reveal_strlit("_exit\n");
            }
            write_str(out, "\tjmp fn_");
            append_decimal(out, fn_id);
            write_str(out, "_exit\n");
            assert(out@ =~= old(out)@ + inst_text(ctx, count, *inst));
            assert(reg.spec_strings() =~= strs0 + inst_strs(*inst));
            Ok(())
        },
    }
}


/// The labels of the first `k` statements, each once, in the order of
/// their first appearance.
pub open spec fn labels_of(stmts: Seq<Statement>, k: int) -> Seq<Seq<char>>
    decreases k,
{
    if k <= 0 {
        seq![]
    } else {
        let l = labels_of(stmts, k - 1);
        match stmts[k - 1] {
            Statement::Label(lb) => if l.contains(lb.name@) {
                l
            } else {
                l.push(lb.name@)
            },
            _ => l,
        }
    }
}

/// The number of different names.
pub open spec fn distinct_count(names: Seq<Seq<char>>) -> nat
    decreases names.len(),
{
    if names.len() == 0 {
        0
    } else if names.drop_last().contains(names.last()) {
        distinct_count(names.drop_last())
    } else {
        distinct_count(names.drop_last()) + 1
    }
}

/// The size of the frame of a function with these pseudo-registers: a
/// word for each, rounded up to an even number of words.
pub open spec fn frame_size(vars: Seq<Seq<char>>) -> nat {
    let n = distinct_count(vars);
    8 * if n % 2 == 0 {
        n
    } else {
        n + 1
    }
}

/// The code that moves argument `i` into `%rax`.
pub open spec fn arg_reg_text(i: nat) -> Seq<char> {
    if i == 0 {
        "\tmovq %rdi, %rax\n"@
    } else if i == 1 {
        "\tmovq %rsi, %rax\n"@
    } else if i == 2 {
        "\tmovq %rdx, %rax\n"@
    } else if i == 3 {
        "\tmovq %rcx, %rax\n"@
    } else if i == 4 {
        "\tmovq %r8, %rax\n"@
    } else if i == 5 {
        "\tmovq %r9, %rax\n"@
    } else {
        "\tmovq "@ + decimal((8 * (i - 4)) as nat) + "(%rbp), %rax\n"@
    }
}

/// The code that stores the first `k` arguments in their pseudo-registers.
pub open spec fn args_text(ctx: AsmCtx, args: Seq<String>, k: int) -> Seq<char>
    decreases k,
{
    if k <= 0 {
        seq![]
    } else {
        args_text(ctx, args, k - 1) + arg_reg_text((k - 1) as nat) + store_text(ctx, "%rax"@, args[k - 1]@)
    }
}

pub open spec fn args_err(ctx: AsmCtx, args: Seq<String>, k: int) -> Option<Seq<char>>
    decreases k,
{
    if k <= 0 {
        None
    } else {
        first_err(args_err(ctx, args, k - 1), access_err(ctx, args[k - 1]@))
    }
}

pub open spec fn stmt_text(ctx: AsmCtx, count: nat, st: Statement) -> Seq<char> {
    match st {
        Statement::Inst(i) => inst_text(ctx, count, i),
        Statement::Label(l) => label_name(ctx.fn_id, label_id(ctx, l.name@)->0) + ":\n"@,
    }
}

pub open spec fn stmt_strs(st: Statement) -> Seq<Seq<char>> {
    match st {
        Statement::Inst(i) => inst_strs(i),
        Statement::Label(_) => seq![],
    }
}

pub open spec fn stmt_err(ctx: AsmCtx, st: Statement) -> Option<Seq<char>> {
    match st {
        Statement::Inst(i) => inst_err(ctx, i),
        Statement::Label(_) => None,
    }
}

pub open spec fn stmts_strs(stmts: Seq<Statement>, k: int) -> Seq<Seq<char>>
    decreases k,
{
    if k <= 0 {
        seq![]
    } else {
        stmts_strs(stmts, k - 1) + stmt_strs(stmts[k - 1])
    }
}

pub open spec fn stmts_text(ctx: AsmCtx, count: nat, stmts: Seq<Statement>, k: int) -> Seq<char>
    decreases k,
{
    if k <= 0 {
        seq![]
    } else {
        stmts_text(ctx, count, stmts, k - 1) + stmt_text(ctx, count + stmts_strs(stmts, k - 1).len(), stmts[k - 1])
    }
}

pub open spec fn stmts_err(ctx: AsmCtx, stmts: Seq<Statement>, k: int) -> Option<Seq<char>>
    decreases k,
{
    if k <= 0 {
        None
    } else {
        first_err(stmts_err(ctx, stmts, k - 1), stmt_err(ctx, stmts[k - 1]))
    }
}

/// The translation context of function `f`, number `id`.
pub open spec fn fn_ctx(globals: Seq<Seq<char>>, fns: Seq<Seq<char>>, f: Function, id: nat) -> AsmCtx {
    AsmCtx {
        globals,
        locals: names_of(f.vars@),
        fns,
        labels: labels_of(f.body.stmts@, f.body.stmts@.len() as int),
        fn_id: id,
    }
}

/// The code of function `f`, number `id`; `count` strings are registered
/// before it.
#[verifier::opaque]
pub open spec fn fn_text(globals: Seq<Seq<char>>, fns: Seq<Seq<char>>, count: nat, f: Function, id: nat) -> Seq<char> {
    let ctx = fn_ctx(globals, fns, f, id);
    let frame = frame_size(names_of(f.vars@));
    fn_head(id, frame) + args_text(ctx, f.args@, f.args@.len() as int) + stmts_text(ctx, count, f.body.stmts@, f.body.stmts@.len() as int)
        + fn_foot(id, frame)
}

#[verifier::opaque]
pub open spec fn fn_strs(f: Function) -> Seq<Seq<char>> {
    stmts_strs(f.body.stmts@, f.body.stmts@.len() as int)
}

#[verifier::opaque]
pub open spec fn fn_err(globals: Seq<Seq<char>>, fns: Seq<Seq<char>>, f: Function, id: nat) -> Option<Seq<char>> {
    let ctx = fn_ctx(globals, fns, f, id);
    first_err(args_err(ctx, f.args@, f.args@.len() as int), stmts_err(ctx, f.body.stmts@, f.body.stmts@.len() as int))
}

/// The function can be translated without overflow, and every plain jump
/// goes to one of its labels.
pub open spec fn fn_fits(f: Function) -> bool {
    &&& f.vars@.len() < 0x100_0000
    &&& f.args@.len() < 0x100_0000
    &&& forall|k: int|
        0 <= k < f.body.stmts@.len() ==> match #[trigger] f.body.stmts@[k] {
            Statement::Inst(Instruction::Call(_, _, _, args)) => args@.len() < 0x100_0000,
            Statement::Inst(Instruction::Jump(l)) => labels_of(f.body.stmts@, f.body.stmts@.len() as int).contains(l.name@),
            _ => true,
        }
}

proof fn lemma_labels_of(stmts: Seq<Statement>, k: int)
    requires
        0 <= k <= stmts.len(),
    ensures
        labels_of(stmts, k).no_duplicates(),
        forall|j: int| 0 <= j < k ==> (#[trigger] stmts[j] matches Statement::Label(l) ==> labels_of(stmts, k).contains(l.name@)),
        forall|j: int, m: int| 0 <= j <= m <= k ==> labels_of(stmts, j).is_prefix_of(labels_of(stmts, m)),
    decreases k,
{
    if k > 0 {
        lemma_labels_of(stmts, k - 1);
        assert(labels_of(stmts, k - 1).is_prefix_of(labels_of(stmts, k)));
        assert forall|j: int, m: int| 0 <= j <= m <= k implies labels_of(stmts, j).is_prefix_of(labels_of(stmts, m)) by {
            if m == k && j < k {
                assert(labels_of(stmts, j).is_prefix_of(labels_of(stmts, k - 1)));
                assert(labels_of(stmts, k - 1).is_prefix_of(labels_of(stmts, k)));
            }
        }
        assert forall|j: int| 0 <= j < k implies (#[trigger] stmts[j] matches Statement::Label(l) ==> labels_of(stmts, k).contains(l.name@)) by {
            if j < k - 1 {
                if let Statement::Label(l) = stmts[j] {
                    let i = choose|i: int| 0 <= i < labels_of(stmts, k - 1).len() && #[trigger] labels_of(stmts, k - 1)[i] == l.name@;
                    assert(labels_of(stmts, k - 1).is_prefix_of(labels_of(stmts, k)));
                    assert(labels_of(stmts, k)[i] == l.name@);
                }
            } else {
                if let Statement::Label(l) = stmts[j] {
                    if !labels_of(stmts, k - 1).contains(l.name@) {
                        assert(labels_of(stmts, k).last() == l.name@);
                    } else {
                        let i = choose|i: int| 0 <= i < labels_of(stmts, k - 1).len() && #[trigger] labels_of(stmts, k - 1)[i] == l.name@;
                        assert(labels_of(stmts, k)[i] == l.name@);
                    }
                }
            }
        }
    }
}

/// The labels of a function, each once, in the order of their first
/// appearance.
fn extract_labels(f: &Function) -> (r: Vec<String>)
    ensures
        names_of(r@) == labels_of(f.body.stmts@, f.body.stmts@.len() as int),
{
    let stmts = &f.body.stmts;
    let mut r: Vec<String> = Vec::new();
    let mut k: usize = 0;
    while k < stmts.len()
        invariant
            k <= stmts@.len(),
            *stmts == f.body.stmts,
            names_of(r@) == labels_of(stmts@, k as int),
        decreases stmts.len() - k,
    {
        match &stmts[k] {
            Statement::Label(label) => {
                let found = find_first(&r, label.name.as_str());
                proof {
                    lemma_first_index(names_of(r@), label.name@);
                }
                if found.is_none() {
                    r.push(label.name.clone());
                    assert(names_of(r@) =~= labels_of(stmts@, k as int).push(label.name@));
                } else {
                    assert(labels_of(stmts@, k as int).contains(label.name@));
                }
            },
            Statement::Inst(_) => {},
        }
        k = k + 1;
    }
    r
}

/// The number of different names.
pub(crate) fn count_distinct(names: &Vec<String>) -> (r: usize)
    ensures
        r == distinct_count(names_of(names@)),
{
    let ghost ns = names_of(names@);
    let mut count: usize = 0;
    let mut k: usize = 0;
    assert(ns.take(0) =~= Seq::<Seq<char>>::empty());
    while k < names.len()
        invariant
            k <= names@.len(),
            ns == names_of(names@),
            count == distinct_count(ns.take(k as int)),
            count <= k,
        decreases names.len() - k,
    {
        let mut seen = false;
        let mut j: usize = 0;
        while j < k
            invariant
                j <= k,
                k < names@.len(),
                ns == names_of(names@),
                seen <==> exists|m: int| 0 <= m < j && ns[m] == ns[k as int],
            decreases k - j,
        {
            if str_eq(names[j].as_str(), names[k].as_str()) {
                assert(ns[j as int] == ns[k as int]);
                seen = true;
            }
            j = j + 1;
        }
        assert(ns.take(k + 1).drop_last() =~= ns.take(k as int));
        assert(ns.take(k + 1).last() == ns[k as int]);
        assert(seen == ns.take(k as int).contains(ns[k as int])) by {
            if ns.take(k as int).contains(ns[k as int]) {
                let m = choose|m: int| 0 <= m < k && ns.take(k as int)[m] == ns[k as int];
                assert(ns[m] == ns[k as int]);
            }
            if seen {
                let m = choose|m: int| 0 <= m < k && ns[m] == ns[k as int];
                assert(ns.take(k as int)[m] == ns[k as int]);
            }
        }
        if !seen {
            count = count + 1;
        }
        k = k + 1;
    }
    assert(ns.take(names@.len() as int) =~= ns);
    count
}


/// The function header: its label, the new frame.
pub open spec fn fn_head(id: nat, frame: nat) -> Seq<char> {
    "fn_"@ + decimal(id) + ":\n"@ + "\tpushq %rbp\n"@ + "\tmovq %rsp, %rbp\n"@ + "\tsubq $"@ + decimal(frame) + ", %rsp\n"@
}

/// The function footer: the default result, the frame restored.
pub open spec fn fn_foot(id: nat, frame: nat) -> Seq<char> {
    "\tmovq $0, %rax\n"@ + "\tmovq $0, %rdx\n"@ + "fn_"@ + decimal(id) + "_exit:\n"@ + "\taddq $"@ + decimal(frame)
        + ", %rsp\n"@ + "\tpopq %rbp\n"@ + "\tret\n"@
}

fn write_fn_head(out: &mut String, id: usize, frame: usize)
    ensures
        final(out)@ == old(out)@ + fn_head(id as nat, frame as nat),
{
    proof {
        reveal_strlit("fn_");
        reveal_strlit(":\n");
        reveal_strlit("\tpushq %rbp\n");
        reveal_strlit("\tmovq %rsp, %rbp\n");
        reveal_strlit("\tsubq $");
        reveal_strlit(", %rsp\n");
    }
    write_str(out, "fn_");
    append_decimal(out, id);
    write_str(out, ":\n");
    write_str(out, "\tpushq %rbp\n");
    write_str(out, "\tmovq %rsp, %rbp\n");
    write_str(out, "\tsubq $");
    append_decimal(out, frame);
    write_str(out, ", %rsp\n");
    assert(out@ =~= old(out)@ + fn_head(id as nat, frame as nat));
}

fn write_fn_foot(out: &mut String, id: usize, frame: usize)
    ensures
        final(out)@ == old(out)@ + fn_foot(id as nat, frame as nat),
{
    proof {
        reveal_strlit("\tmovq $0, %rax\n");
        reveal_strlit("\tmovq $0, %rdx\n");
        reveal_strlit("fn_");
        reveal_strlit("_exit:\n");
        reveal_strlit("\taddq $");
        reveal_strlit(", %rsp\n");
        reveal_strlit("\tpopq %rbp\n");
        reveal_strlit("\tret\n");
    }
    write_str(out, "\tmovq $0, %rax\n");
    write_str(out, "\tmovq $0, %rdx\n");
    write_str(out, "fn_");
    append_decimal(out, id);
    write_str(out, "_exit:\n");
    write_str(out, "\taddq $");
    append_decimal(out, frame);
    write_str(out, ", %rsp\n");
    write_str(out, "\tpopq %rbp\n");
    write_str(out, "\tret\n");
    assert(out@ =~= old(out)@ + fn_foot(id as nat, frame as nat));
}

fn write_arg_reg(out: &mut String, i: usize)
    requires
        i < 0x100_0000,
    ensures
        final(out)@ == old(out)@ + arg_reg_text(i as nat),
{
    proof {
        reveal_strlit("\tmovq %rdi, %rax\n");
        reveal_strlit("\tmovq %rsi, %rax\n");
        reveal_strlit("\tmovq %rdx, %rax\n");
        reveal_strlit("\tmovq %rcx, %rax\n");
        reveal_strlit("\tmovq %r8, %rax\n");
        reveal_strlit("\tmovq %r9, %rax\n");
        reveal_strlit("\tmovq ");
        reveal_strlit("(%rbp), %rax\n");
    }
    if i == 0 {
        write_str(out, "\tmovq %rdi, %rax\n");
    } else if i == 1 {
        write_str(out, "\tmovq %rsi, %rax\n");
    } else if i == 2 {
        write_str(out, "\tmovq %rdx, %rax\n");
    } else if i == 3 {
        write_str(out, "\tmovq %rcx, %rax\n");
    } else if i == 4 {
        write_str(out, "\tmovq %r8, %rax\n");
    } else if i == 5 {
        write_str(out, "\tmovq %r9, %rax\n");
    } else {
        write_str(out, "\tmovq ");
        append_decimal(out, 8 * (i - 4));
        write_str(out, "(%rbp), %rax\n");
        assert(out@ =~= old(out)@ + arg_reg_text(i as nat));
    }
}

proof fn lemma_args_err_extends(ctx: AsmCtx, args: Seq<String>, k: int, n: int)
    requires
        0 <= k <= n,
        args_err(ctx, args, k) is Some,
    ensures
        args_err(ctx, args, n) == args_err(ctx, args, k),
    decreases n - k,
{
    if k < n {
        lemma_args_err_extends(ctx, args, k, n - 1);
    }
}

proof fn lemma_stmts_err_extends(ctx: AsmCtx, stmts: Seq<Statement>, k: int, n: int)
    requires
        0 <= k <= n,
        stmts_err(ctx, stmts, k) is Some,
    ensures
        stmts_err(ctx, stmts, n) == stmts_err(ctx, stmts, k),
    decreases n - k,
{
    if k < n {
        lemma_stmts_err_extends(ctx, stmts, k, n - 1);
    }
}

/// Writes the code that stores the arguments of a function.
fn args_to_code(out: &mut String, local: &LocalRegistry, args: &Vec<String>, Ghost(ctx): Ghost<AsmCtx>) -> (r: Result<(), String>)
    requires
        local.ctx_ok(ctx),
        local.names@.len() < 0x100_0000,
        args@.len() < 0x100_0000,
    ensures
        match args_err(ctx, args@, args@.len() as int) {
            Some(e) => r matches Err(x) && x@ == e,
            None => r is Ok && final(out)@ == old(out)@ + args_text(ctx, args@, args@.len() as int),
        },
{
    let ghost out0 = old(out)@;
    proof {
        reveal_strlit("%rax");
    }
    let mut i: usize = 0;
    while i < args.len()
        invariant
            i <= args@.len(),
            args@.len() < 0x100_0000,
            local.ctx_ok(ctx),
            local.names@.len() < 0x100_0000,
            args_err(ctx, args@, i as int) is None,
            out@ == out0 + args_text(ctx, args@, i as int),
        decreases args.len() - i,
    {
        write_arg_reg(out, i);
        match write_store(out, local, "%rax", args[i].as_str(), Ghost(ctx)) {
            Ok(()) => {},
            Err(e) => {
                proof {
                    lemma_args_err_extends(ctx, args@, i + 1, args@.len() as int);
                }
                return Err(e);
            },
        }
        assert(out@ =~= out0 + args_text(ctx, args@, i + 1));
        i = i + 1;
    }
    Ok(())
}

/// Writes the code of one statement.
fn stmt_to_code(
    out: &mut String,
    reg: &mut StringRegistry,
    fn_names: &Vec<String>,
    labels: &Vec<String>,
    local: &LocalRegistry,
    id: usize,
    st: &Statement,
    Ghost(ctx): Ghost<AsmCtx>,
) -> (r: Result<(), String>)
    requires
        exec_ctx_ok(ctx, local, fn_names, labels, id),
        st matches Statement::Inst(Instruction::Call(_, _, _, args)) ==> args@.len() < 0x100_0000,
        st matches Statement::Inst(Instruction::Jump(l)) ==> ctx.labels.contains(l.name@),
        st matches Statement::Label(l) ==> ctx.labels.contains(l.name@),
    ensures
        match stmt_err(ctx, *st) {
            Some(e) => r matches Err(x) && x@ == e,
            None => {
                &&& r is Ok
                &&& final(out)@ == old(out)@ + stmt_text(ctx, old(reg).spec_strings().len(), *st)
                &&& final(reg).spec_strings() == old(reg).spec_strings() + stmt_strs(*st)
            },
        },
{
    match st {
        Statement::Inst(inst) => {
            proof {
                if inst is Jump {
                    lemma_first_index(ctx.labels, inst->Jump_0.name@);
                }
            }
            inst_to_code(out, reg, fn_names, labels, local, id, inst, Ghost(ctx))
        },
        Statement::Label(label) => {
            proof {
                lemma_first_index(ctx.labels, label.name@);
                reveal_strlit(":\n");
            }
            let lid = find_first(labels, label.name.as_str());
            match lid {
                Some(lid) => {
                    write_label_name(out, id, lid);
                    write_str(out, ":\n");
                },
                None => {},
            }
            assert(out@ =~= old(out)@ + stmt_text(ctx, old(reg).spec_strings().len(), *st));
            assert(reg.spec_strings() =~= old(reg).spec_strings() + stmt_strs(*st));
            Ok(())
        },
    }
}

/// Writes the code of the statements of a function.
fn stmts_to_code(
    out: &mut String,
    reg: &mut StringRegistry,
    fn_names: &Vec<String>,
    labels: &Vec<String>,
    local: &LocalRegistry,
    id: usize,
    f: &Function,
    Ghost(ctx): Ghost<AsmCtx>,
) -> (r: Result<(), String>)
    requires
        exec_ctx_ok(ctx, local, fn_names, labels, id),
        fn_fits(*f),
        ctx.labels == labels_of(f.body.stmts@, f.body.stmts@.len() as int),
    ensures
        match stmts_err(ctx, f.body.stmts@, f.body.stmts@.len() as int) {
            Some(e) => r matches Err(x) && x@ == e,
            None => {
                &&& r is Ok
                &&& final(out)@ == old(out)@ + stmts_text(ctx, old(reg).spec_strings().len(), f.body.stmts@, f.body.stmts@.len() as int)
                &&& final(reg).spec_strings() == old(reg).spec_strings() + stmts_strs(f.body.stmts@, f.body.stmts@.len() as int)
            },
        },
{
    let stmts = &f.body.stmts;
    let ghost out0 = old(out)@;
    let ghost reg0 = old(reg).spec_strings();
    let ghost count0 = reg0.len();
    proof {
        lemma_labels_of(stmts@, stmts@.len() as int);
    }
    let mut k: usize = 0;
    while k < stmts.len()
        invariant
            k <= stmts@.len(),
            *stmts == f.body.stmts,
            fn_fits(*f),
            exec_ctx_ok(ctx, local, fn_names, labels, id),
            ctx.labels == labels_of(stmts@, stmts@.len() as int),
            forall|j: int| 0 <= j < stmts@.len() ==> (#[trigger] stmts@[j] matches Statement::Label(l) ==> ctx.labels.contains(l.name@)),
            stmts_err(ctx, stmts@, k as int) is None,
            out@ == out0 + stmts_text(ctx, count0, stmts@, k as int),
            reg.spec_strings() == reg0 + stmts_strs(stmts@, k as int),
            count0 == reg0.len(),
        decreases stmts.len() - k,
    {
        let ghost r1 = reg.spec_strings();
        let ghost st = stmts@[k as int];
        assert(st matches Statement::Label(l) ==> ctx.labels.contains(l.name@));
        match stmt_to_code(out, reg, fn_names, labels, local, id, &stmts[k], Ghost(ctx)) {
            Ok(()) => {},
            Err(e) => {
                proof {
                    lemma_stmts_err_extends(ctx, stmts@, k + 1, stmts@.len() as int);
                }
                return Err(e);
            },
        }
        assert(r1.len() == count0 + stmts_strs(stmts@, k as int).len());
        assert(reg.spec_strings() =~= reg0 + stmts_strs(stmts@, k + 1));
        assert(out@ =~= out0 + stmts_text(ctx, count0, stmts@, k + 1));
        k = k + 1;
    }
    Ok(())
}

/// Writes the code of function `f`, number `id`.
#[verifier::spinoff_prover]
fn fn_to_code(
    out: &mut String,
    reg: &mut StringRegistry,
    fn_names: &Vec<String>,
    global: &GlobalRegistry,
    f: &Function,
    id: usize,
) -> (r: Result<(), String>)
    requires
        fn_fits(*f),
    ensures
        match fn_err(names_of(global.names@), names_of(fn_names@), *f, id as nat) {
            Some(e) => r matches Err(x) && x@ == e,
            None => {
                &&& r is Ok
                &&& final(out)@ == old(out)@ + fn_text(names_of(global.names@), names_of(fn_names@), old(reg).spec_strings().len(), *f, id as nat)
                &&& final(reg).spec_strings() == old(reg).spec_strings() + fn_strs(*f)
            },
        },
{
    let ghost ctx = fn_ctx(names_of(global.names@), names_of(fn_names@), *f, id as nat);
    proof {
        reveal(fn_text);
        reveal(fn_err);
        reveal(fn_strs);
    }
    let labels = extract_labels(f);
    let local = LocalRegistry { parent: global, names: &f.vars };
    let var_count = count_distinct(&f.vars);
    proof {
        lemma_distinct_count_bound(names_of(f.vars@));
    }
    let frame: usize = 8 * if var_count % 2 == 0 { var_count } else { var_count + 1 };
    let ghost count0 = reg.spec_strings().len();
    write_fn_head(out, id, frame);
    let ghost o0 = out@;
    match args_to_code(out, &local, &f.args, Ghost(ctx)) {
        Ok(()) => {},
        Err(e) => {
            return Err(e);
        },
    }
    let ghost o1 = out@;
    match stmts_to_code(out, reg, fn_names, &labels, &local, id, f, Ghost(ctx)) {
        Ok(()) => {},
        Err(e) => {
            return Err(e);
        },
    }
    let ghost o2 = out@;
    write_fn_foot(out, id, frame);
    proof {
        assert(frame == frame_size(names_of(f.vars@)));
        assert(out@ =~= old(out)@ + (fn_head(id as nat, frame as nat) + args_text(ctx, f.args@, f.args@.len() as int) + stmts_text(ctx, count0, f.body.stmts@, f.body.stmts@.len() as int) + fn_foot(id as nat, frame as nat)));
    }
    Ok(())
}

pub(crate) proof fn lemma_distinct_count_bound(names: Seq<Seq<char>>)
    ensures
        distinct_count(names) <= names.len(),
    decreases names.len(),
{
    if names.len() > 0 {
        lemma_distinct_count_bound(names.drop_last());
    }
}


/// How a string is written in the data section: quoted and escaped as
/// Rust's `Debug` formatting writes it.
pub uninterp spec fn debug_quoted(s: Seq<char>) -> Seq<char>;

/// Writes a string quoted and escaped, with Rust's `Debug` formatting of
/// `str`.
#[verifier::external_body]
pub(crate) fn debug_quote(s: &str) -> (r: String)
    ensures
        r@ == debug_quoted(s@),
{
    format!("{:?}", s)
}

/// The message for a function defined twice.
pub open spec fn dup_msg(name: Seq<char>) -> Seq<char> {
    "[LIR] Function \""@ + name + "\" is not uniquely defined."@
}

/// The first function name, among the first `k`, that was already used.
pub open spec fn dup_err(fns: Seq<Seq<char>>, k: int) -> Option<Seq<char>>
    decreases k,
{
    if k <= 0 {
        None
    } else {
        first_err(
            dup_err(fns, k - 1),
            if fns.take(k - 1).contains(fns[k - 1]) {
                Some(dup_msg(fns[k - 1]))
            } else {
                None
            },
        )
    }
}

/// The code that starts the program: a call of the function `main`.
pub open spec fn prelude(main_id: nat) -> Seq<char> {
    "\t.text\n"@ + "\t.globl main\n"@ + "main:\n"@ + "\tcall fn_"@ + decimal(main_id) + "\n"@ + "\tmovq $0, %rax\n"@ + "\tret\n"@
}

pub open spec fn fns_strs(functions: Seq<Function>, k: int) -> Seq<Seq<char>>
    decreases k,
{
    if k <= 0 {
        seq![]
    } else {
        fns_strs(functions, k - 1) + fn_strs(functions[k - 1])
    }
}

pub open spec fn fns_text(globals: Seq<Seq<char>>, fns: Seq<Seq<char>>, functions: Seq<Function>, k: int) -> Seq<char>
    decreases k,
{
    if k <= 0 {
        seq![]
    } else {
        fns_text(globals, fns, functions, k - 1) + fn_text(globals, fns, fns_strs(functions, k - 1).len(), functions[k - 1], (k - 1) as nat)
    }
}

pub open spec fn fns_err(globals: Seq<Seq<char>>, fns: Seq<Seq<char>>, functions: Seq<Function>, k: int) -> Option<Seq<char>>
    decreases k,
{
    if k <= 0 {
        None
    } else {
        first_err(fns_err(globals, fns, functions, k - 1), fn_err(globals, fns, functions[k - 1], (k - 1) as nat))
    }
}

/// The data section entries of the first `k` strings.
pub open spec fn strings_text(strings: Seq<Seq<char>>, k: int) -> Seq<char>
    decreases k,
{
    if k <= 0 {
        seq![]
    } else {
        strings_text(strings, k - 1) + "string_"@ + decimal((k - 1) as nat) + ":\n"@ + "\t.string "@ + debug_quoted(strings[k - 1]) + "\n"@
    }
}

/// The cells of the first `k` global pseudo-registers (one per name, at
/// the last index of the name).
pub open spec fn globals_text(globals: Seq<Seq<char>>, k: int) -> Seq<char>
    decreases k,
{
    if k <= 0 {
        seq![]
    } else {
        globals_text(globals, k - 1) + if last_index(globals, globals[k - 1]) == Some((k - 1) as nat) {
            "global_var_"@ + decimal((k - 1) as nat) + ":\n"@ + "\t.quad 0\n"@
        } else {
            seq![]
        }
    }
}

/// The functions of the program, by name.
pub open spec fn fn_names_of(functions: Seq<Function>) -> Seq<Seq<char>> {
    functions.map_values(|f: Function| f.name@)
}

/// The first error of the translation of a program, if any.
pub open spec fn source_err(src: Source) -> Option<Seq<char>> {
    let fns = fn_names_of(src.functions@);
    first_err(
        dup_err(fns, fns.len() as int),
        first_err(
            if first_index(fns, "main"@) is None {
                Some("[LIR] No \"main\" function !"@)
            } else {
                None
            },
            fns_err(names_of(src.globals@), fns, src.functions@, fns.len() as int),
        ),
    )
}

/// The assembly of a program.
pub open spec fn source_text(src: Source) -> Seq<char> {
    let fns = fn_names_of(src.functions@);
    let globals = names_of(src.globals@);
    let strings = fns_strs(src.functions@, fns.len() as int);
    prelude(first_index(fns, "main"@)->0) + fns_text(globals, fns, src.functions@, fns.len() as int) + "\t.data\n"@
        + strings_text(strings, strings.len() as int) + globals_text(globals, globals.len() as int)
}

proof fn lemma_fns_err_extends(globals: Seq<Seq<char>>, fns: Seq<Seq<char>>, functions: Seq<Function>, k: int, n: int)
    requires
        0 <= k <= n,
        fns_err(globals, fns, functions, k) is Some,
    ensures
        fns_err(globals, fns, functions, n) == fns_err(globals, fns, functions, k),
    decreases n - k,
{
    if k < n {
        lemma_fns_err_extends(globals, fns, functions, k, n - 1);
    }
}

proof fn lemma_dup_err_extends(fns: Seq<Seq<char>>, k: int, n: int)
    requires
        0 <= k <= n,
        dup_err(fns, k) is Some,
    ensures
        dup_err(fns, n) == dup_err(fns, k),
    decreases n - k,
{
    if k < n {
        lemma_dup_err_extends(fns, k, n - 1);
    }
}

/// The names of the functions, checking that none is defined twice.
fn function_names(functions: &Vec<Function>) -> (r: Result<Vec<String>, String>)
    ensures
        match dup_err(fn_names_of(functions@), functions@.len() as int) {
            Some(e) => r matches Err(x) && x@ == e,
            None => r matches Ok(v) && names_of(v@) == fn_names_of(functions@),
        },
{
    let ghost fns = fn_names_of(functions@);
    let mut names: Vec<String> = Vec::new();
    let mut i: usize = 0;
    while i < functions.len()
        invariant
            i <= functions@.len(),
            fns == fn_names_of(functions@),
            dup_err(fns, i as int) is None,
            names_of(names@) == fns.take(i as int),
        decreases functions.len() - i,
    {
        let name = &functions[i].name;
        let found = find_first(&names, name.as_str());
        proof {
            lemma_first_index(names_of(names@), name@);
        }
        if found.is_some() {
            let mut e = String::from_str("[LIR] Function \"");
            e.append(name.as_str());
            e.append("\" is not uniquely defined.");
            proof {
                reveal_strlit("[LIR] Function \"");
                reveal_strlit("\" is not uniquely defined.");
                assert(e@ =~= dup_msg(name@));
                let j = first_index(names_of(names@), name@)->0;
                assert(fns.take(i as int)[j as int] == fns[i as int]);
                assert(dup_err(fns, i + 1) == Some(dup_msg(fns[i as int])));
                lemma_dup_err_extends(fns, i + 1, functions@.len() as int);
            }
            return Err(e);
        }
        proof {
            assert(!fns.take(i as int).contains(fns[i as int]));
        }
        names.push(name.clone());
        assert(names_of(names@) =~= fns.take(i + 1));
        i = i + 1;
    }
    assert(fns.take(functions@.len() as int) =~= fns);
    Ok(names)
}

fn write_prelude(out: &mut String, main_id: usize)
    ensures
        final(out)@ == old(out)@ + prelude(main_id as nat),
{
    proof {
        reveal_strlit("\t.text\n");
        reveal_strlit("\t.globl main\n");
        reveal_strlit("main:\n");
        reveal_strlit("\tcall fn_");
        reveal_strlit("\n");
        reveal_strlit("\tmovq $0, %rax\n");
        reveal_strlit("\tret\n");
    }
    write_str(out, "\t.text\n");
    write_str(out, "\t.globl main\n");
    write_str(out, "main:\n");
    write_str(out, "\tcall fn_");
    append_decimal(out, main_id);
    write_str(out, "\n");
    write_str(out, "\tmovq $0, %rax\n");
    write_str(out, "\tret\n");
    assert(out@ =~= old(out)@ + prelude(main_id as nat));
}

fn write_strings(out: &mut String, reg: &StringRegistry)
    ensures
        final(out)@ == old(out)@ + strings_text(reg.spec_strings(), reg.spec_strings().len() as int),
{
    proof {
        reveal_strlit("string_");
        reveal_strlit(":\n");
        reveal_strlit("\t.string ");
        reveal_strlit("\n");
    }
    let ghost ss = reg.spec_strings();
    let mut i: usize = 0;
    while i < reg.strings.len()
        invariant
            i <= reg.strings@.len(),
            ss == reg.spec_strings(),
            ss.len() == reg.strings@.len(),
            out@ == old(out)@ + strings_text(ss, i as int),
        decreases reg.strings.len() - i,
    {
        write_str(out, "string_");
        append_decimal(out, i);
        write_str(out, ":\n");
        write_str(out, "\t.string ");
        let q = debug_quote(reg.strings[i].as_str());
        assert(ss[i as int] == reg.strings@[i as int]@);
        write_str(out, q.as_str());
        write_str(out, "\n");
        assert(out@ =~= old(out)@ + strings_text(ss, i + 1));
        i = i + 1;
    }
}

fn write_globals(out: &mut String, global: &GlobalRegistry)
    ensures
        final(out)@ == old(out)@ + globals_text(names_of(global.names@), global.names@.len() as int),
{
    proof {
        reveal_strlit("global_var_");
        reveal_strlit(":\n");
        reveal_strlit("\t.quad 0\n");
    }
    let ghost gs = names_of(global.names@);
    let mut i: usize = 0;
    while i < global.names.len()
        invariant
            i <= global.names@.len(),
            gs == names_of(global.names@),
            out@ == old(out)@ + globals_text(gs, i as int),
        decreases global.names.len() - i,
    {
        let last = find_last(&global.names, global.names[i].as_str());
        assert(gs[i as int] == global.names@[i as int]@);
        let ghost o1 = out@;
        if last == Some(i) {
            write_str(out, "global_var_");
            append_decimal(out, i);
            write_str(out, ":\n");
            write_str(out, "\t.quad 0\n");
        }
        assert(out@ =~= old(out)@ + globals_text(gs, i + 1));
        i = i + 1;
    }
}

/// Every function can be translated without overflow, and each plain jump
/// goes to a label of its function.
pub open spec fn source_fits(src: Source) -> bool {
    forall|i: int| 0 <= i < src.functions@.len() ==> fn_fits(#[trigger] src.functions@[i])
}

/// The assembly of a program, or the first error met while translating
/// it.
pub fn lir_to_asm(source: &Source) -> (r: Result<String, String>)
    requires
        source_fits(*source),
    ensures
        match source_err(*source) {
            Some(e) => r matches Err(x) && x@ == e,
            None => r matches Ok(s) && s@ == source_text(*source),
        },
{
    let ghost fns = fn_names_of(source.functions@);
    let global = GlobalRegistry { names: source.globals.clone() };
    let ghost globals = names_of(global.names@);
    assert(global.names@ == source.globals@);
    let fn_names = match function_names(&source.functions) {
        Ok(v) => v,
        Err(e) => {
            return Err(e);
        },
    };
    let main_id = match find_first(&fn_names, "main") {
        Some(i) => i,
        None => {
            proof {
                reveal_strlit("[LIR] No \"main\" function !");
            }
            return Err(String::from_str("[LIR] No \"main\" function !"));
        },
    };
    let mut out = String::new();
    let mut reg = StringRegistry::new();
    write_prelude(&mut out, main_id);
    let ghost o0 = out@;
    let mut i: usize = 0;
    while i < source.functions.len()
        invariant
            i <= source.functions@.len(),
            source_fits(*source),
            fns == fn_names_of(source.functions@),
            names_of(fn_names@) == fns,
            dup_err(fns, fns.len() as int) is None,
            first_index(fns, "main"@) == Some(main_id as nat),
            globals == names_of(global.names@),
            globals == names_of(source.globals@),
            fns_err(globals, fns, source.functions@, i as int) is None,
            out@ == o0 + fns_text(globals, fns, source.functions@, i as int),
            reg.spec_strings() == fns_strs(source.functions@, i as int),
        decreases source.functions.len() - i,
    {
        assert(fn_fits(source.functions@[i as int]));
        match fn_to_code(&mut out, &mut reg, &fn_names, &global, &source.functions[i], i) {
            Ok(()) => {},
            Err(e) => {
                proof {
                    lemma_fns_err_extends(globals, fns, source.functions@, i + 1, source.functions@.len() as int);
                }
                return Err(e);
            },
        }
        assert(reg.spec_strings() =~= fns_strs(source.functions@, i + 1));
        assert(out@ =~= o0 + fns_text(globals, fns, source.functions@, i + 1));
        i = i + 1;
    }
    proof {
        reveal_strlit("\t.data\n");
    }
    write_str(&mut out, "\t.data\n");
    write_strings(&mut out, &reg);
    write_globals(&mut out, &global);
    assert(out@ =~= source_text(*source));
    Ok(out)
}

} // verus!

verus! {

/// A name is among the labels of the first `k` statements exactly when one
/// of them is a label of that name.
proof fn lemma_labels_contain(stmts: Seq<Statement>, k: int, x: Seq<char>)
    requires
        0 <= k <= stmts.len(),
    ensures
        labels_of(stmts, k).contains(x) <==> exists|j: int| 0 <= j < k && #[trigger] label_named(stmts[j], x),
    decreases k,
{
    if k > 0 {
        lemma_labels_contain(stmts, k - 1, x);
        let l = labels_of(stmts, k - 1);
        if exists|j: int| 0 <= j < k && #[trigger] label_named(stmts[j], x) {
            let j = choose|j: int| 0 <= j < k && #[trigger] label_named(stmts[j], x);
            if j < k - 1 {
                assert(l.contains(x));
                if let Statement::Label(lb) = stmts[k - 1] {
                    if !l.contains(lb.name@) {
                        let w = choose|w: int| 0 <= w < l.len() && l[w] == x;
                        assert(l.push(lb.name@)[w] == x);
                    }
                }
            } else {
                if let Statement::Label(lb) = stmts[k - 1] {
                    if !l.contains(lb.name@) {
                        assert(l.push(lb.name@)[l.len() as int] == x);
                    }
                }
            }
        } else {
            assert(!label_named(stmts[k - 1], x));
            if labels_of(stmts, k).contains(x) {
                if let Statement::Label(lb) = stmts[k - 1] {
                    if !l.contains(lb.name@) {
                        let i = choose|i: int| 0 <= i < l.len() + 1 && l.push(lb.name@)[i] == x;
                        if i < l.len() {
                            assert(l[i] == x);
                        }
                    }
                }
            }
        }
    }
}

/// The statement is a label named `x`.
pub open spec fn label_named(s: Statement, x: Seq<char>) -> bool {
    s matches Statement::Label(lb) && lb.name@ == x
}

/// Whether the program can be translated: whether every function keeps to
/// the sizes the translation counts with and jumps only to its own labels.
pub fn source_fits_check(src: &Source) -> (r: bool)
    ensures
        r == source_fits(*src),
{
    let mut i: usize = 0;
    while i < src.functions.len()
        invariant
            i <= src.functions@.len(),
            forall|q: int| 0 <= q < i ==> fn_fits(#[trigger] src.functions@[q]),
        decreases src.functions.len() - i,
    {
        if !fn_fits_check(&src.functions[i]) {
            return false;
        }
        i = i + 1;
    }
    true
}

fn fn_fits_check(f: &Function) -> (r: bool)
    ensures
        r == fn_fits(*f),
{
    if f.vars.len() >= 0x100_0000 || f.args.len() >= 0x100_0000 {
        return false;
    }
    let ss = &f.body.stmts;
    let ghost n = ss@.len() as int;
    let mut k: usize = 0;
    while k < ss.len()
        invariant
            k <= ss@.len(),
            n == ss@.len(),
            ss == &f.body.stmts,
            forall|q: int|
                0 <= q < k ==> match #[trigger] ss@[q] {
                    Statement::Inst(Instruction::Call(_, _, _, args)) => args@.len() < 0x100_0000,
                    Statement::Inst(Instruction::Jump(l)) => labels_of(ss@, n).contains(l.name@),
                    _ => true,
                },
        decreases ss.len() - k,
    {
        match &ss[k] {
            Statement::Inst(Instruction::Call(_, _, _, args)) => {
                if args.len() >= 0x100_0000 {
                    return false;
                }
            },
            Statement::Inst(Instruction::Jump(l)) => {
                let mut found = false;
                let mut j: usize = 0;
                while j < ss.len()
                    invariant
                        j <= ss@.len(),
                        found <==> exists|q: int| 0 <= q < j && #[trigger] label_named(ss@[q], l.name@),
                    decreases ss.len() - j,
                {
                    match &ss[j] {
                        Statement::Label(lb) => {
                            if str_eq(lb.name.as_str(), l.name.as_str()) {
                                found = true;
                            }
                        },
                        _ => {},
                    }
                    proof {
                        if label_named(ss@[j as int], l.name@) {
                            assert(exists|q: int| 0 <= q < j + 1 && #[trigger] label_named(ss@[q], l.name@));
                        }
                    }
                    j = j + 1;
                }
                proof {
                    lemma_labels_contain(ss@, n, l.name@);
                }
                if !found {
                    return false;
                }
            },
            _ => {},
        }
        k = k + 1;
    }
    true
}

} // verus!

verus! {

/// What the condition `cc` of `set<cc>` or `j<cc>` tests after
/// `cmp src, dst`, as the x86-64 manual gives it: `e` or `z` equal, `ne` or
/// `nz` not equal, and the signed orders `l`, `le`, `g` and `ge` of `dst`
/// against `src`.
pub open spec fn x86_condition(cc: Seq<char>, dst: int, src: int) -> bool {
    if cc.len() == 1 && (cc[0] == 'e' || cc[0] == 'z') {
        dst == src
    } else if cc.len() == 2 && cc[0] == 'n' && (cc[1] == 'e' || cc[1] == 'z') {
        dst != src
    } else if cc.len() == 1 && cc[0] == 'l' {
        dst < src
    } else if cc.len() == 2 && cc[0] == 'l' && cc[1] == 'e' {
        dst <= src
    } else if cc.len() == 1 && cc[0] == 'g' {
        dst > src
    } else if cc.len() == 2 && cc[0] == 'g' && cc[1] == 'e' {
        dst >= src
    } else {
        false
    }
}

/// A signed 64-bit result: `v` taken modulo 2^64 into the range of `i64`.
pub open spec fn wrap64(v: int) -> int {
    (v + 0x8000_0000_0000_0000int) % 0x1_0000_0000_0000_0000int - 0x8000_0000_0000_0000int
}

/// What `<mn> %rbx, %rax` leaves in `%rax`, as the x86-64 manual gives it:
/// `addq`, `subq` (`%rax` less `%rbx`) and `imulq` wrap around, `andq` and
/// `orq` act on each bit.
pub open spec fn x86_alu(mn: Seq<char>, rax: i64, rbx: i64) -> int {
    if mn == "addq"@ {
        wrap64(rax + rbx)
    } else if mn == "subq"@ {
        wrap64(rax - rbx)
    } else if mn == "imulq"@ {
        wrap64(rax * rbx)
    } else if mn == "andq"@ {
        (rax & rbx) as int
    } else if mn == "orq"@ {
        (rax | rbx) as int
    } else {
        0
    }
}

/// What the arithmetic and logic operators of the LIR compute on two
/// 64-bit integers: sums, differences and products wrap around, `And` and
/// `Or` act on each bit.
pub open spec fn lir_arith(op: BinOp, a: i64, b: i64) -> int {
    match op {
        BinOp::Add => wrap64(a + b),
        BinOp::Sub => wrap64(a - b),
        BinOp::Mul => wrap64(a * b),
        BinOp::And => (a & b) as int,
        BinOp::Or => (a | b) as int,
        _ => 0,
    }
}

/// What a comparison of the LIR means on two signed integers.
pub open spec fn lir_comparison(op: BinOp, a: int, b: int) -> bool {
    match op {
        BinOp::Equ => a == b,
        BinOp::Neq => a != b,
        BinOp::Lt => a < b,
        BinOp::Leq => a <= b,
        BinOp::Gt => a > b,
        BinOp::Geq => a >= b,
        _ => false,
    }
}

/// The comparisons of the LIR.
pub open spec fn is_comparison(op: BinOp) -> bool {
    op is Equ || op is Neq || op is Lt || op is Leq || op is Gt || op is Geq
}

/// A comparison loads its left operand into `%rax` and its right one into
/// `%rbx`, compares them, and sets `%rax` to 1 exactly where the
/// comparison holds of the two operands and to 0 elsewhere.
pub proof fn law_comparison_code(ctx: AsmCtx, count: nat, d: String, op: BinOp, a: Val, b: Val, x: i64, y: i64)
    requires
        is_comparison(op),
    ensures
        exists|cc: Seq<char>|
            {
                &&& inst_text(ctx, count, Instruction::Bin(d, op, a, b)) == val_text(ctx, count, a, "%rax"@)
                    + val_text(ctx, count + val_strs(a).len(), b, "%rbx"@) + "\tcmp %rbx, %rax\n"@ + "\tmovq $0, %rax\n"@
                    + "\tset"@ + cc + " %al\n"@ + store_text(ctx, "%rax"@, d@)
                &&& #[trigger] x86_condition(cc, x as int, y as int) == lir_comparison(op, x as int, y as int)
            },
{
    reveal_strlit("\tsete %al\n");
    reveal_strlit("\tsetne %al\n");
    reveal_strlit("\tsetl %al\n");
    reveal_strlit("\tsetle %al\n");
    reveal_strlit("\tsetg %al\n");
    reveal_strlit("\tsetge %al\n");
    reveal_strlit("\tset");
    reveal_strlit(" %al\n");
    reveal_strlit("e");
    reveal_strlit("ne");
    reveal_strlit("l");
    reveal_strlit("le");
    reveal_strlit("g");
    reveal_strlit("ge");
    let pre = val_text(ctx, count, a, "%rax"@) + val_text(ctx, count + val_strs(a).len(), b, "%rbx"@)
        + "\tcmp %rbx, %rax\n"@ + "\tmovq $0, %rax\n"@;
    let post = store_text(ctx, "%rax"@, d@);
    let cc: Seq<char> = match op {
        BinOp::Equ => "e"@,
        BinOp::Neq => "ne"@,
        BinOp::Lt => "l"@,
        BinOp::Leq => "le"@,
        BinOp::Gt => "g"@,
        _ => "ge"@,
    };
    assert("\tset"@ + cc + " %al\n"@ =~= op_text(op).subrange(
        ("\tcmp %rbx, %rax\n"@ + "\tmovq $0, %rax\n"@).len() as int,
        op_text(op).len() as int,
    )) by {
        reveal_strlit("\tcmp %rbx, %rax\n");
        reveal_strlit("\tmovq $0, %rax\n");
    }
    assert(inst_text(ctx, count, Instruction::Bin(d, op, a, b)) =~= pre + "\tset"@ + cc + " %al\n"@ + post) by {
        reveal_strlit("\tcmp %rbx, %rax\n");
        reveal_strlit("\tmovq $0, %rax\n");
    }
    assert(x86_condition(cc, x as int, y as int) == lir_comparison(op, x as int, y as int));
}

/// An arithmetic or logic operator loads its left operand into `%rax`
/// and its right one into `%rbx`, and leaves in `%rax` what the operator
/// computes of the two.
pub proof fn law_arith_code(ctx: AsmCtx, count: nat, d: String, op: BinOp, a: Val, b: Val, x: i64, y: i64)
    requires
        op is Add || op is Sub || op is Mul || op is And || op is Or,
    ensures
        exists|mn: Seq<char>|
            {
                &&& inst_text(ctx, count, Instruction::Bin(d, op, a, b)) == val_text(ctx, count, a, "%rax"@)
                    + val_text(ctx, count + val_strs(a).len(), b, "%rbx"@) + "\t"@ + mn + " %rbx, %rax\n"@
                    + store_text(ctx, "%rax"@, d@)
                &&& #[trigger] x86_alu(mn, x, y) == lir_arith(op, x, y)
            },
{
    reveal_strlit("\tandq %rbx, %rax\n");
    reveal_strlit("\torq %rbx, %rax\n");
    reveal_strlit("\taddq %rbx, %rax\n");
    reveal_strlit("\tsubq %rbx, %rax\n");
    reveal_strlit("\timulq %rbx, %rax\n");
    reveal_strlit("\t");
    reveal_strlit(" %rbx, %rax\n");
    reveal_strlit("addq");
    reveal_strlit("subq");
    reveal_strlit("imulq");
    reveal_strlit("andq");
    reveal_strlit("orq");
    let mn: Seq<char> = match op {
        BinOp::Add => "addq"@,
        BinOp::Sub => "subq"@,
        BinOp::Mul => "imulq"@,
        BinOp::And => "andq"@,
        _ => "orq"@,
    };
    assert("subq"@[0] != "addq"@[0]);
    assert("imulq"@[0] != "addq"@[0] && "imulq"@[0] != "subq"@[0]);
    assert("andq"@[1] != "addq"@[1] && "andq"@[0] != "subq"@[0] && "andq"@[0] != "imulq"@[0]);
    assert("orq"@.len() != "addq"@.len() && "orq"@.len() != "subq"@.len() && "orq"@.len() != "imulq"@.len() && "orq"@.len() != "andq"@.len());
    assert(op_text(op) =~= "\t"@ + mn + " %rbx, %rax\n"@);
    assert(x86_alu(mn, x, y) == lir_arith(op, x, y));
}

/// A conditional jump loads its operand into `%rax`, compares it with 0,
/// and jumps to its label exactly where the operand is not 0 (`Jumpif`) or
/// is 0 (`JumpifNot`).
pub proof fn law_jump_code(ctx: AsmCtx, count: nat, inst: Instruction, x: i64)
    requires
        inst is Jumpif || inst is JumpifNot,
    ensures
        exists|cc: Seq<char>|
            {
                &&& inst_text(ctx, count, inst) == match inst {
                    Instruction::Jumpif(a, l) => val_text(ctx, count, a, "%rax"@) + "\tmovq $0, %rbx\n"@ + "\tcmp %rax, %rbx\n"@
                        + "\tj"@ + cc + " "@ + label_name(ctx.fn_id, label_id(ctx, l.name@)->0) + "\n"@,
                    Instruction::JumpifNot(a, l) => val_text(ctx, count, a, "%rax"@) + "\tmovq $0, %rbx\n"@
                        + "\tcmp %rax, %rbx\n"@ + "\tj"@ + cc + " "@ + label_name(ctx.fn_id, label_id(ctx, l.name@)->0) + "\n"@,
                    _ => seq![],
                }
                &&& (#[trigger] x86_condition(cc, 0, x as int) <==> (if inst is Jumpif { x != 0 } else { x == 0 }))
            },
{
    reveal_strlit("\tjnz ");
    reveal_strlit("\tjz ");
    reveal_strlit("\tj");
    reveal_strlit(" ");
    reveal_strlit("nz");
    reveal_strlit("z");
    match inst {
        Instruction::Jumpif(a, l) => {
            let cc = "nz"@;
            assert("\tjnz "@ =~= "\tj"@ + cc + " "@);
            let lbl = label_name(ctx.fn_id, label_id(ctx, l.name@)->0) + "\n"@;
            let head = val_text(ctx, count, a, "%rax"@) + "\tmovq $0, %rbx\n"@ + "\tcmp %rax, %rbx\n"@;
            assert(inst_text(ctx, count, inst) =~= head + "\tj"@ + cc + " "@ + lbl);
            assert(x86_condition(cc, 0, x as int) <==> x != 0);
        },
        Instruction::JumpifNot(a, l) => {
            let cc = "z"@;
            assert("\tjz "@ =~= "\tj"@ + cc + " "@);
            let lbl = label_name(ctx.fn_id, label_id(ctx, l.name@)->0) + "\n"@;
            let head = val_text(ctx, count, a, "%rax"@) + "\tmovq $0, %rbx\n"@ + "\tcmp %rax, %rbx\n"@;
            assert(inst_text(ctx, count, inst) =~= head + "\tj"@ + cc + " "@ + lbl);
            assert(x86_condition(cc, 0, x as int) <==> x == 0);
        },
        _ => {},
    }
}

/// Equal strings with the same end have the same beginning.
proof fn lemma_same_end(a: Seq<char>, b: Seq<char>, x: Seq<char>)
    requires
        a + x == b + x,
    ensures
        a == b,
{
    assert(a =~= (a + x).subrange(0, a.len() as int));
    assert(b =~= (b + x).subrange(0, b.len() as int));
}

/// Two different pseudo-registers that are both declared live in
/// different places: locals in different slots of the frame, globals in
/// different cells, and no local in a global's cell.
pub proof fn law_distinct_places(ctx: AsmCtx, extra: nat, a: Seq<char>, b: Seq<char>)
    requires
        a != b,
        access(ctx, extra, a) is Some,
        access(ctx, extra, b) is Some,
    ensures
        access(ctx, extra, a) != access(ctx, extra, b),
{
    reveal_strlit("(%rsp)");
    reveal_strlit("(global_var_");
    reveal_strlit(")");
    lemma_last_index(ctx.locals, a);
    lemma_last_index(ctx.locals, b);
    lemma_last_index(ctx.globals, a);
    lemma_last_index(ctx.globals, b);
    match (last_index(ctx.locals, a), last_index(ctx.locals, b)) {
        (Some(i), Some(j)) => {
            if access(ctx, extra, a) == access(ctx, extra, b) {
                lemma_same_end(decimal(8 * i + extra), decimal(8 * j + extra), "(%rsp)"@);
                law_decimal_injective(8 * i + extra, 8 * j + extra);
            }
        },
        (Some(i), None) => {
            law_decimal_reads_back(8 * i + extra);
            let g = last_index(ctx.globals, b)->Some_0;
            assert((decimal(8 * i + extra) + "(%rsp)"@)[0] != ("(global_var_"@ + decimal(g) + ")"@)[0]);
        },
        (None, Some(j)) => {
            law_decimal_reads_back(8 * j + extra);
            let g = last_index(ctx.globals, a)->Some_0;
            assert((decimal(8 * j + extra) + "(%rsp)"@)[0] != ("(global_var_"@ + decimal(g) + ")"@)[0]);
        },
        (None, None) => {
            let g = last_index(ctx.globals, a)->Some_0;
            let h = last_index(ctx.globals, b)->Some_0;
            if access(ctx, extra, a) == access(ctx, extra, b) {
                lemma_same_end("(global_var_"@ + decimal(g), "(global_var_"@ + decimal(h), ")"@);
                assert(decimal(g) =~= ("(global_var_"@ + decimal(g)).subrange(12, ("(global_var_"@ + decimal(g)).len() as int));
                assert(decimal(h) =~= ("(global_var_"@ + decimal(h)).subrange(12, ("(global_var_"@ + decimal(h)).len() as int));
                law_decimal_injective(g, h);
            }
        },
    }
}

/// A negation loads its operand into `%rax` and leaves there its opposite,
/// wrapping around as `negq` does by the x86-64 manual.
pub proof fn law_negation_code(ctx: AsmCtx, count: nat, d: String, a: Val, x: i64)
    ensures
        exists|mn: Seq<char>|
            {
                &&& inst_text(ctx, count, Instruction::Unary(d, UnaryOp::Neg, a)) == val_text(ctx, count, a, "%rax"@) + "\t"@
                    + mn + " %rax\n"@ + store_text(ctx, "%rax"@, d@)
                &&& #[trigger] x86_unary(mn, x) == wrap64(0 - x)
            },
{
    reveal_strlit("\tnegq %rax\n");
    reveal_strlit("\t");
    reveal_strlit(" %rax\n");
    reveal_strlit("negq");
    let mn = "negq"@;
    assert(unary_text(UnaryOp::Neg) =~= "\t"@ + mn + " %rax\n"@);
    assert(x86_unary(mn, x) == wrap64(0 - x));
}

/// What `<mn> %rax` leaves in `%rax`, as the x86-64 manual gives it:
/// `negq` the opposite, wrapping around, and `notq` the complement of each
/// bit.
pub open spec fn x86_unary(mn: Seq<char>, rax: i64) -> int {
    if mn == "negq"@ {
        wrap64(0 - rax)
    } else if mn == "notq"@ {
        (!rax) as int
    } else {
        0
    }
}

} // verus!
