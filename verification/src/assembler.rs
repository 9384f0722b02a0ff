//! The assembly pipeline: normalize and parse every line, resolve labels
//! and variables in two passes, and encode each resolved instruction as a
//! 16-bit word. Assembly is all-or-nothing: the first error aborts it.
use crate::encoder::{encode_program, spec_encode_program};
use crate::parser::{parse_program_lines, spec_parse_lines};
use crate::symbols::{resolve, spec_resolve};
use crate::types::{instruction_views, AsmError, AsmErrorView};
use vstd::prelude::*;

verus! {

/// The words of a whole source, or its first error: the parse of every
/// normalized non-blank line, the two-pass resolution, and the encoding.
pub open spec fn spec_assemble(ls: Seq<Seq<char>>) -> Result<Seq<u16>, AsmErrorView> {
    match spec_parse_lines(ls) {
        Result::Err(t) => Result::Err(AsmErrorView::SyntaxError(t)),
        Result::Ok(ivs) => match spec_resolve(ivs) {
            Result::Err(e) => Result::Err(e),
            Result::Ok((resolved, entries)) => spec_encode_program(resolved),
        },
    }
}

/// Sources that can be assembled into machine words.
pub trait Assemblable: Sized {
    /// The raw lines of this source.
    spec fn asm_lines(&self) -> Seq<Seq<char>>;

    /// Assembles this source into its ordered sequence of 16-bit words.
    fn assemble(self) -> (r: Result<Vec<u16>, AsmError>)
        ensures
            match r {
                Result::Ok(ws) => spec_assemble(self.asm_lines()) == Result::<
                    Seq<u16>,
                    AsmErrorView,
                >::Ok(ws@),
                Result::Err(e) => {
                    &&& spec_assemble(self.asm_lines()) matches Result::Err(ev)
                    &&& e@ == ev
                },
            },
    ;
}

impl Assemblable for Vec<String> {
    open spec fn asm_lines(&self) -> Seq<Seq<char>> {
        crate::types::line_views(self@)
    }

    fn assemble(self) -> (r: Result<Vec<u16>, AsmError>) {
        let parsed = match parse_program_lines(&self) {
            Result::Ok(v) => v,
            Result::Err(e) => {
                return Result::Err(e);
            },
        };
        let (resolved, _table) = match resolve(&parsed) {
            Result::Ok(t) => t,
            Result::Err(e) => {
                return Result::Err(e);
            },
        };
        encode_program(&resolved)
    }
}

} // verus!
