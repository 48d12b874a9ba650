//! Lessons, the variables they name, and their tests.
use vstd::prelude::*;
use std::collections::BTreeSet;
use crate::tifloat::TiReal;
use crate::token::{token_bytes, tokenize, tokenized, tokens_to_bytes};

verus! {

/// A check that a submitted program must pass.
#[derive(Debug)]
pub enum Test {
    /// Run the program in the emulator with `input` loaded, then compare the
    /// variables of `output` with what the emulator saved.
    CEmu { input: Vec<Variable>, output: Vec<Variable> },
    /// The program's source text matches a regular expression as a whole.
    FulltextMatch { regex: String },
    /// Every test of the group passes.
    Group(Vec<Test>),
}

/// The value of a calculator variable.
#[derive(Debug, Clone)]
pub enum VariableData {
    String(String),
    RealList(Vec<TiReal>),
    RealNumber(TiReal),
}

/// The file extension of each kind of variable.
pub open spec fn extension_of(v: VariableData) -> Seq<char> {
    match v {
        VariableData::String(_) => seq!['8', 'x', 's'],
        VariableData::RealList(_) => seq!['8', 'x', 'l'],
        VariableData::RealNumber(_) => seq!['8', 'x', 'n'],
    }
}

/// The record type byte of each kind of variable.
pub open spec fn type_tag(v: VariableData) -> u8 {
    match v {
        VariableData::String(_) => 0x04,
        VariableData::RealList(_) => 0x01,
        VariableData::RealNumber(_) => 0x00,
    }
}

impl VariableData {
    /// The extension of the files that hold a variable of this kind.
    pub fn file_extension(&self) -> (r: &'static str)
        ensures
            r@ == extension_of(*self),
    {
        proof {
            reveal_strlit("8xs");
            reveal_strlit("8xl");
            reveal_strlit("8xn");
        }
        match self {
            VariableData::String(_) => "8xs",
            VariableData::RealList(_) => "8xl",
            VariableData::RealNumber(_) => "8xn",
        }
    }
}

/// A named calculator variable.
#[derive(Debug, Clone)]
pub struct Variable {
    pub name: String,
    pub value: VariableData,
}

/// A lesson: its place among the others, the program it starts from, how
/// many bytes a solution must save, and the tests a solution must pass.
#[derive(Debug)]
pub struct Lesson {
    pub id: u16,
    pub name: String,
    pub requirements: BTreeSet<u16>,
    pub starting_program: String,
    pub required_savings: usize,
    pub brief_description: Option<String>,
    pub tests: Vec<Test>,
}

impl Lesson {
    /// The largest size in bytes that a solution may have: the starting
    /// program's size less the required savings. `None` where the starting
    /// program is not made of tokens or is smaller than the savings.
    pub fn byte_threshold(&self) -> (r: Option<usize>)
        ensures
            r is Some <==> (tokenized(self.starting_program@) matches Some(ts)
                && token_bytes(ts).len() >= self.required_savings),
            r is Some ==> (tokenized(self.starting_program@) matches Some(ts) && r->Some_0
                == token_bytes(ts).len() - self.required_savings),
    {
        match tokenize(self.starting_program.as_str()) {
            None => None,
            Some(tokens) => {
                let n = tokens_to_bytes(&tokens).len();
                if n < self.required_savings {
                    None
                } else {
                    Some(n - self.required_savings)
                }
            },
        }
    }
}

} // verus!
