use vstd::prelude::*;

verus! {

/// What the compiler driver is asked to produce: only the AST is consumed
/// here.
#[derive(Debug, Clone, Copy, PartialEq, Eq, Structural)]
pub enum SolidityOutputKind {
    AST,
}

/// A compiled AST together with the source it came from, both as text.
#[derive(Debug)]
pub struct SolidityASTOutput {
    pub ast: String,
    pub source: String,
}

/// The output of one compiler run.
#[derive(Debug)]
pub enum SolidityOutput {
    AST(SolidityASTOutput),
}

/// How to run the compiler driver: where its binaries live, which contract
/// file to compile, and what to produce.  Paths are carried as plain text.
#[derive(Debug)]
pub struct SolidityOption {
    pub bin_dir: String,
    pub contract: String,
    pub kind: SolidityOutputKind,
}

} // verus!
