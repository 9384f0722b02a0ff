//! Core data model of the assembler: registers, address locations, ALU
//! sources and operations, jump conditions, computations, macro directives,
//! instructions, and the error type shared by the whole pipeline.
use vstd::prelude::*;

verus! {

/// A machine register operand: the address register `A`, the data register
/// `D`, or the memory cell `M` addressed by `A`.
#[derive(Debug, PartialEq, Eq, Structural, Copy, Clone)]
pub enum Register {
    A,
    D,
    M,
}

impl Register {
    /// The register named by a one-character token, if any.
    pub fn of_char(c: char) -> (r: Option<Register>)
        ensures
            r == Register::spec_of_char(c),
    {
        match c {
            'A' => Option::Some(Register::A),
            'D' => Option::Some(Register::D),
            'M' => Option::Some(Register::M),
            _ => Option::None,
        }
    }

    pub open spec fn spec_of_char(c: char) -> Option<Register> {
        if c == 'A' {
            Option::Some(Register::A)
        } else if c == 'D' {
            Option::Some(Register::D)
        } else if c == 'M' {
            Option::Some(Register::M)
        } else {
            Option::None
        }
    }
}

/// The target of an address instruction: either a literal address or a
/// symbolic label that resolution must rewrite to an address.
#[derive(Debug, PartialEq, Eq, Clone)]
pub enum Location {
    Address(u16),
    Label(String),
}

/// Spec-level shape of a `Location`: the label text as a character sequence.
pub ghost enum LocationView {
    Address(u16),
    Label(Seq<char>),
}

impl View for Location {
    type V = LocationView;

    open spec fn view(&self) -> LocationView {
        match self {
            Location::Address(a) => LocationView::Address(*a),
            Location::Label(s) => LocationView::Label(s@),
        }
    }
}

/// An operand of a computation: a register, the constant `0` or `1`, or
/// `Absent` where the computation has no operand in that position.
#[derive(Debug, PartialEq, Eq, Structural, Copy, Clone)]
pub enum Source {
    Register(Register),
    One,
    Zero,
    Absent,
}

impl Source {
    /// The source named by a one-character token, if any.
    pub fn of_char(c: char) -> (r: Option<Source>)
        ensures
            r == Source::spec_of_char(c),
    {
        match c {
            'A' => Option::Some(Source::Register(Register::A)),
            'D' => Option::Some(Source::Register(Register::D)),
            'M' => Option::Some(Source::Register(Register::M)),
            '0' => Option::Some(Source::Zero),
            '1' => Option::Some(Source::One),
            _ => Option::None,
        }
    }

    pub open spec fn spec_of_char(c: char) -> Option<Source> {
        if c == 'A' {
            Option::Some(Source::Register(Register::A))
        } else if c == 'D' {
            Option::Some(Source::Register(Register::D))
        } else if c == 'M' {
            Option::Some(Source::Register(Register::M))
        } else if c == '0' {
            Option::Some(Source::Zero)
        } else if c == '1' {
            Option::Some(Source::One)
        } else {
            Option::None
        }
    }
}

/// The combinator applied to the sources of a computation. `Negative` is
/// strictly unary, `Subtract` strictly binary; `Identity` passes a single
/// source through unchanged.
#[derive(Debug, PartialEq, Eq, Structural, Copy, Clone)]
pub enum Operation {
    Not,
    Negative,
    Add,
    Subtract,
    And,
    Or,
    Identity,
}

impl Operation {
    /// The unary operation written by a prefix character, if any.
    pub fn unary_of_char(c: char) -> (r: Option<Operation>)
        ensures
            r == Operation::spec_unary_of_char(c),
    {
        match c {
            '-' => Option::Some(Operation::Negative),
            '!' => Option::Some(Operation::Not),
            _ => Option::None,
        }
    }

    pub open spec fn spec_unary_of_char(c: char) -> Option<Operation> {
        if c == '-' {
            Option::Some(Operation::Negative)
        } else if c == '!' {
            Option::Some(Operation::Not)
        } else {
            Option::None
        }
    }

    /// The binary operation written by an infix character, if any.
    pub fn binary_of_char(c: char) -> (r: Option<Operation>)
        ensures
            r == Operation::spec_binary_of_char(c),
    {
        match c {
            '+' => Option::Some(Operation::Add),
            '-' => Option::Some(Operation::Subtract),
            '&' => Option::Some(Operation::And),
            '|' => Option::Some(Operation::Or),
            _ => Option::None,
        }
    }

    pub open spec fn spec_binary_of_char(c: char) -> Option<Operation> {
        if c == '+' {
            Option::Some(Operation::Add)
        } else if c == '-' {
            Option::Some(Operation::Subtract)
        } else if c == '&' {
            Option::Some(Operation::And)
        } else if c == '|' {
            Option::Some(Operation::Or)
        } else {
            Option::None
        }
    }
}

/// A jump condition; `Never` means the instruction has no jump part.
#[derive(Debug, PartialEq, Eq, Structural, Copy, Clone)]
pub enum Jump {
    JGT,
    JEQ,
    JGE,
    JLT,
    JNE,
    JLE,
    JMP,
    Never,
}

/// The ALU expression of a compute instruction: up to two sources combined
/// by an operation. A bare source is `Computation(src, Absent, Identity)`.
#[derive(Debug, PartialEq, Eq, Structural, Copy, Clone)]
pub enum Computation {
    Computation(Source, Source, Operation),
}

/// A preprocessor directive found on a `#`-line.
#[derive(Debug, PartialEq, Eq, Clone)]
pub enum Macro {
    Call(String),
    Return,
    Include(String),
}

/// Spec-level shape of a `Macro`: argument text as a character sequence.
pub ghost enum MacroView {
    Call(Seq<char>),
    Return,
    Include(Seq<char>),
}

impl View for Macro {
    type V = MacroView;

    open spec fn view(&self) -> MacroView {
        match self {
            Macro::Call(s) => MacroView::Call(s@),
            Macro::Return => MacroView::Return,
            Macro::Include(s) => MacroView::Include(s@),
        }
    }
}

/// One parsed line of assembly: an address instruction, a compute
/// instruction, or a label definition. Label definitions occupy no address
/// and are consumed by resolution before encoding.
#[derive(Debug, PartialEq, Eq, Clone)]
pub enum Instruction {
    A(Location),
    C(Vec<Register>, Computation, Jump),
    LabelDefinition(String),
}

/// Spec-level shape of an `Instruction`.
pub ghost enum InstructionView {
    A(LocationView),
    C(Seq<Register>, Computation, Jump),
    LabelDefinition(Seq<char>),
}

impl View for Instruction {
    type V = InstructionView;

    open spec fn view(&self) -> InstructionView {
        match self {
            Instruction::A(loc) => InstructionView::A(loc@),
            Instruction::C(dests, comp, jump) => InstructionView::C(dests@, *comp, *jump),
            Instruction::LabelDefinition(s) => InstructionView::LabelDefinition(s@),
        }
    }
}

/// Every failure the pipeline can report. Assembly is all-or-nothing: any of
/// these aborts the run. Payloads carry the offending text where feasible.
#[derive(Debug, PartialEq, Eq, Clone)]
pub enum AsmError {
    /// An included file could not be read; carries the path.
    IoError(String),
    /// A macro directive is missing its required argument; carries the line.
    MalformedDirective(String),
    /// A line matches no instruction shape; carries the line.
    SyntaxError(String),
    /// A label name was bound twice; carries the name.
    DuplicateLabel(String),
    /// An address instruction still carries a label after resolution;
    /// carries the name. This is an internal invariant violation.
    UnresolvedSymbol(String),
    /// A computation has no entry in the encoding table.
    IllegalComputation(Computation),
    /// A resolved address exceeds the 15-bit instruction range.
    AddressOverflow(u64),
}

/// Spec-level shape of an `AsmError`.
pub ghost enum AsmErrorView {
    IoError(Seq<char>),
    MalformedDirective(Seq<char>),
    SyntaxError(Seq<char>),
    DuplicateLabel(Seq<char>),
    UnresolvedSymbol(Seq<char>),
    IllegalComputation(Computation),
    AddressOverflow(u64),
}

impl View for AsmError {
    type V = AsmErrorView;

    open spec fn view(&self) -> AsmErrorView {
        match self {
            AsmError::IoError(s) => AsmErrorView::IoError(s@),
            AsmError::MalformedDirective(s) => AsmErrorView::MalformedDirective(s@),
            AsmError::SyntaxError(s) => AsmErrorView::SyntaxError(s@),
            AsmError::DuplicateLabel(s) => AsmErrorView::DuplicateLabel(s@),
            AsmError::UnresolvedSymbol(s) => AsmErrorView::UnresolvedSymbol(s@),
            AsmError::IllegalComputation(c) => AsmErrorView::IllegalComputation(*c),
            AsmError::AddressOverflow(a) => AsmErrorView::AddressOverflow(*a),
        }
    }
}

/// The character sequences of a sequence of lines.
pub open spec fn line_views(ls: Seq<String>) -> Seq<Seq<char>> {
    ls.map_values(|l: String| l@)
}

/// The spec-level shapes of a sequence of instructions.
pub open spec fn instruction_views(is: Seq<Instruction>) -> Seq<InstructionView> {
    is.map_values(|i: Instruction| i@)
}

} // verus!
