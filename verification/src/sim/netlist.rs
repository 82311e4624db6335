use vstd::prelude::*;

verus! {

/// The declared type of a netlist variable.
#[derive(Debug)]
pub enum ValueType {
    Bit,
    BitArray(u32),
}

/// A constant written in a netlist.
#[derive(Debug)]
pub enum Value {
    Bit(bool),
    BitArray(Vec<bool>),
}

/// An operand: a constant or the name of a variable.
#[derive(Debug)]
pub enum Arg {
    Const(Value),
    Var(String),
}

#[derive(Debug)]
pub enum BinOpType {
    Or,
    Xor,
    And,
    Nand,
}

#[derive(Debug)]
pub struct RamData {
    pub address_size: u32,
    pub word_size: u32,
    pub read_address: Arg,
    pub write_enable: Arg,
    pub write_address: Arg,
    pub data: Arg,
}

#[derive(Debug)]
pub struct RomData {
    pub address_size: u32,
    pub word_size: u32,
    pub read_address: Arg,
}

/// The right-hand side of an equation of the netlist.
#[derive(Debug)]
pub enum Def {
    Fwd(Arg),
    Not(Arg),
    Bin(BinOpType, Arg, Arg),
    Mux(Arg, Arg, Arg),
    Reg(String),
    Ram(RamData),
    Rom(RomData),
    Select(u32, Arg),
    Slice(u32, u32, Arg),
    Concat(Arg, Arg),
}

/// A parsed netlist: inputs, outputs, declared variables and equations.
#[derive(Debug)]
pub struct Netlist {
    pub inputs: Vec<String>,
    pub outputs: Vec<String>,
    pub vars: Vec<(String, ValueType)>,
    pub defs: Vec<(String, Def)>,
}

/// The number of wires of a declared variable.
pub open spec fn value_type_len(ty: ValueType) -> nat {
    match ty {
        ValueType::Bit => 1,
        ValueType::BitArray(k) => k as nat,
    }
}

} // verus!
