use vstd::prelude::*;
use crate::text::cat3;

verus! {

/// An operand of a simulated operation: the address of a bus in the
/// simulation memory, or a constant bus.
pub enum OpArg {
    Var(usize),
    Cst(Vec<bool>),
}

/// The mathematical value of an operand.
pub enum OpArgView {
    Var(usize),
    Cst(Seq<bool>),
}

impl View for OpArg {
    type V = OpArgView;

    open spec fn view(&self) -> OpArgView {
        match self {
            OpArg::Var(a) => OpArgView::Var(*a),
            OpArg::Cst(v) => OpArgView::Cst(v@),
        }
    }
}

impl OpArg {
    /// A copy of this operand.
    pub fn duplicate(&self) -> (r: OpArg)
        ensures
            r@ == self@,
    {
        match self {
            OpArg::Var(a) => OpArg::Var(*a),
            OpArg::Cst(v) => OpArg::Cst(copy_bits(v)),
        }
    }
}

/// A copy of a bit vector.
pub fn copy_bits(v: &Vec<bool>) -> (r: Vec<bool>)
    ensures
        r@ == v@,
{
    let mut r: Vec<bool> = Vec::new();
    let mut i: usize = 0;
    while i < v.len()
        invariant
            i <= v.len(),
            r@ == v@.take(i as int),
        decreases v.len() - i,
    {
        r.push(v[i]);
        i = i + 1;
        assert(r@ == v@.take(i as int));
    }
    assert(v@.take(v.len() as int) == v@);
    r
}

#[derive(Clone, Copy)]
pub enum BinOp {
    Or,
    Xor,
    And,
    Nand,
}

/// How a variable is computed during a tick.
pub enum VarDef {
    /// Written before each tick.
    Input,
    Fwd(u32, OpArg),
    Not(u32, OpArg),
    BinOp(BinOp, u32, OpArg, OpArg),
    Mux(OpArg, OpArg, OpArg),
    /// Rewritten by a memory operation at the start of each tick.
    Mem,
    Select(u32, OpArg),
    Slice(u32, u32, OpArg),
    Concat(u32, OpArg, u32, OpArg),
}

pub struct RegOp {
    pub data_len: u32,
    pub input: usize,
    pub output: usize,
}

pub struct RamOp {
    pub mem_id: usize,
    pub address_size: u32,
    pub word_size: u32,
    pub read_address: OpArg,
    pub write_enable: OpArg,
    pub write_address: OpArg,
    pub data: OpArg,
    pub output: usize,
}

pub struct RomOp {
    pub mem_id: usize,
    pub address_size: u32,
    pub word_size: u32,
    pub read_address: OpArg,
    pub output: usize,
}

pub enum MemOp {
    Reg(RegOp),
    Ram(RamOp),
    Rom(RomOp),
}

/// An auxiliary memory (RAM or ROM): its number of words and the word length.
pub struct MemInfo {
    pub size: usize,
    pub word_length: u32,
}

pub struct VarInfo {
    pub name: String,
    pub address: usize,
    pub def: VarDef,
    pub deps: Vec<usize>,
    pub len: u32,
}

/// A variable whose definition is being collected.
pub struct PartialVarInfo {
    pub name: String,
    pub address: usize,
    pub def: Option<VarDef>,
    pub deps: Option<Vec<usize>>,
    pub len: Option<u32>,
}

impl PartialVarInfo {
    /// A variable with nothing known yet but its name and address.
    pub fn new(name: String, address: usize) -> (r: Self)
        ensures
            r.name == name,
            r.address == address,
            r.def is None,
            r.deps is None,
            r.len is None,
    {
        PartialVarInfo { name, address, def: None, deps: None, len: None }
    }

    /// Whether nothing has been recorded for this variable yet.
    pub open spec fn is_empty(&self) -> bool {
        self.def is None && self.deps is None && self.len is None
    }

    /// Succeeds when nothing has been recorded for this variable yet,
    /// and otherwise reports that it is defined twice.
    pub fn check_empty(&self) -> (r: Result<(), String>)
        ensures
            r is Ok <==> self.is_empty(),
            r matches Err(e) ==> e@ == "Variable "@ + self.name@ + " is defined twice."@,
    {
        if !(self.def.is_none() && self.deps.is_none() && self.len.is_none()) {
            Err(cat3("Variable ", self.name.as_str(), " is defined twice."))
        } else {
            Ok(())
        }
    }

    /// Whether everything about this variable has been recorded.
    pub open spec fn is_complete(&self) -> bool {
        self.def is Some && self.deps is Some && self.len is Some
    }

    /// The complete description of the variable, or an error naming it
    /// when something is missing.
    pub fn validate(self) -> (r: Result<VarInfo, String>)
        ensures
            r is Ok <==> self.is_complete(),
            r matches Ok(v) ==> v.name == self.name && v.address == self.address
                && Some(v.def) == self.def && Some(v.deps) == self.deps && Some(v.len) == self.len,
            r matches Err(e) ==> e@ == "Variable "@ + self.name@ + " hasn't been defined."@,
    {
        let PartialVarInfo { name, address, def, deps, len } = self;
        match (def, deps, len) {
            (Some(def), Some(deps), Some(len)) => Ok(VarInfo { name, address, def, deps, len }),
            _ => Err(cat3("Variable ", name.as_str(), " hasn't been defined.")),
        }
    }
}

/// The dependency graph of a netlist: one edge description per variable.
pub struct OpsGraph {
    pub mem_size: usize,
    pub inputs: Vec<(u32, usize, String)>,
    pub outputs: Vec<(u32, usize, String)>,
    pub mems: Vec<MemInfo>,
    pub edges: Vec<VarInfo>,
    pub mem_ops: Vec<MemOp>,
}

/// The operations of a netlist in an order in which they can be run.
pub struct OpsList {
    pub mem_size: usize,
    pub inputs: Vec<(u32, usize, String)>,
    pub outputs: Vec<(u32, usize, String)>,
    pub mems: Vec<MemInfo>,
    /// The address of each variable and its definition.
    pub ops: Vec<(usize, VarDef)>,
    pub mem_ops: Vec<MemOp>,
}

} // verus!
