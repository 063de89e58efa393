use vstd::prelude::*;

verus! {

/// The ways an instruction step, or the decoding of an item, can fail.
#[derive(Debug, PartialEq, Eq)]
pub enum Error {
    /// A pop was attempted on an empty stack.
    EmptyStack,
    /// A value failed an instruction's validation; it carries the offending bytes.
    InvalidValue(Vec<u8>),
    /// No handler recognises the instruction; it carries the encoded instruction.
    UnknownInstruction(Vec<u8>),
    /// The bounds of an encoded item cannot be determined.
    MalformedHeader,
}

/// What an error looks like to contracts: payloads as byte sequences.
pub enum Fault {
    EmptyStack,
    InvalidValue(Seq<u8>),
    UnknownInstruction(Seq<u8>),
    MalformedHeader,
}

impl View for Error {
    type V = Fault;

    open spec fn view(&self) -> Fault {
        match self {
            Error::EmptyStack => Fault::EmptyStack,
            Error::InvalidValue(v) => Fault::InvalidValue(v@),
            Error::UnknownInstruction(v) => Fault::UnknownInstruction(v@),
            Error::MalformedHeader => Fault::MalformedHeader,
        }
    }
}

/// The result of offering an instruction to a handler. An
/// `UnknownInstruction` error means the handler did not claim it.
pub type PassResult = Result<(), Error>;

/// The view of a `PassResult`.
pub open spec fn outcome(r: PassResult) -> Result<(), Fault> {
    match r {
        Ok(()) => Ok(()),
        Err(e) => Err(e@),
    }
}

} // verus!
