//! Encoder: maps a fully resolved instruction to its 16-bit machine word.
//! An address instruction puts its 15-bit address under a zero top bit; a
//! compute instruction packs `111`, the memory bit, the six-bit
//! computation code, three destination bits and three jump bits. The
//! decoder inverts the same tables, word for word.
use crate::types::{
    instruction_views, AsmError, AsmErrorView, Computation, Instruction, InstructionView, Jump,
    Location, LocationView, Operation, Register, Source,
};
use vstd::prelude::*;

verus! {

/// The memory bit and six-bit code of a computation, packed as `a<<6|c`,
/// or nothing when the triple has no entry in the instruction set.
pub open spec fn spec_comp_bits(comp: Computation) -> Option<u8> {
    let Computation::Computation(lhs, rhs, op) = comp;
    match (lhs, rhs, op) {
        (Source::Zero, Source::Absent, Operation::Identity) => Option::Some(0b0101010u8),
        (Source::One, Source::Absent, Operation::Identity) => Option::Some(0b0111111u8),
        (Source::One, Source::Absent, Operation::Negative) => Option::Some(0b0111010u8),
        (Source::Register(Register::D), Source::Absent, Operation::Identity) => Option::Some(
            0b0001100u8,
        ),
        (Source::Register(Register::A), Source::Absent, Operation::Identity) => Option::Some(
            0b0110000u8,
        ),
        (Source::Register(Register::M), Source::Absent, Operation::Identity) => Option::Some(
            0b1110000u8,
        ),
        (Source::Register(Register::D), Source::Absent, Operation::Not) => Option::Some(
            0b0001101u8,
        ),
        (Source::Register(Register::A), Source::Absent, Operation::Not) => Option::Some(
            0b0110001u8,
        ),
        (Source::Register(Register::M), Source::Absent, Operation::Not) => Option::Some(
            0b1110001u8,
        ),
        (Source::Register(Register::D), Source::Absent, Operation::Negative) => Option::Some(
            0b0001111u8,
        ),
        (Source::Register(Register::A), Source::Absent, Operation::Negative) => Option::Some(
            0b0110011u8,
        ),
        (Source::Register(Register::M), Source::Absent, Operation::Negative) => Option::Some(
            0b1110011u8,
        ),
        (Source::Register(Register::D), Source::One, Operation::Add) => Option::Some(0b0011111u8),
        (Source::Register(Register::A), Source::One, Operation::Add) => Option::Some(0b0110111u8),
        (Source::Register(Register::M), Source::One, Operation::Add) => Option::Some(0b1110111u8),
        (Source::Register(Register::D), Source::One, Operation::Subtract) => Option::Some(
            0b0001110u8,
        ),
        (Source::Register(Register::A), Source::One, Operation::Subtract) => Option::Some(
            0b0110010u8,
        ),
        (Source::Register(Register::M), Source::One, Operation::Subtract) => Option::Some(
            0b1110010u8,
        ),
        (Source::Register(Register::D), Source::Register(Register::A), Operation::Add) => {
            Option::Some(0b0000010u8)
        },
        (Source::Register(Register::D), Source::Register(Register::M), Operation::Add) => {
            Option::Some(0b1000010u8)
        },
        (Source::Register(Register::D), Source::Register(Register::A), Operation::Subtract) => {
            Option::Some(0b0010011u8)
        },
        (Source::Register(Register::D), Source::Register(Register::M), Operation::Subtract) => {
            Option::Some(0b1010011u8)
        },
        (Source::Register(Register::A), Source::Register(Register::D), Operation::Subtract) => {
            Option::Some(0b0000111u8)
        },
        (Source::Register(Register::M), Source::Register(Register::D), Operation::Subtract) => {
            Option::Some(0b1000111u8)
        },
        (Source::Register(Register::D), Source::Register(Register::A), Operation::And) => {
            Option::Some(0b0000000u8)
        },
        (Source::Register(Register::D), Source::Register(Register::M), Operation::And) => {
            Option::Some(0b1000000u8)
        },
        (Source::Register(Register::D), Source::Register(Register::A), Operation::Or) => {
            Option::Some(0b0010101u8)
        },
        (Source::Register(Register::D), Source::Register(Register::M), Operation::Or) => {
            Option::Some(0b1010101u8)
        },
        _ => Option::None,
    }
}

/// Looks the computation up in the encoding table.
pub fn comp_bits(comp: &Computation) -> (r: Option<u8>)
    ensures
        r == spec_comp_bits(*comp),
{
    let Computation::Computation(lhs, rhs, op) = *comp;
    match (lhs, rhs, op) {
        (Source::Zero, Source::Absent, Operation::Identity) => Option::Some(0b0101010u8),
        (Source::One, Source::Absent, Operation::Identity) => Option::Some(0b0111111u8),
        (Source::One, Source::Absent, Operation::Negative) => Option::Some(0b0111010u8),
        (Source::Register(Register::D), Source::Absent, Operation::Identity) => Option::Some(
            0b0001100u8,
        ),
        (Source::Register(Register::A), Source::Absent, Operation::Identity) => Option::Some(
            0b0110000u8,
        ),
        (Source::Register(Register::M), Source::Absent, Operation::Identity) => Option::Some(
            0b1110000u8,
        ),
        (Source::Register(Register::D), Source::Absent, Operation::Not) => Option::Some(
            0b0001101u8,
        ),
        (Source::Register(Register::A), Source::Absent, Operation::Not) => Option::Some(
            0b0110001u8,
        ),
        (Source::Register(Register::M), Source::Absent, Operation::Not) => Option::Some(
            0b1110001u8,
        ),
        (Source::Register(Register::D), Source::Absent, Operation::Negative) => Option::Some(
            0b0001111u8,
        ),
        (Source::Register(Register::A), Source::Absent, Operation::Negative) => Option::Some(
            0b0110011u8,
        ),
        (Source::Register(Register::M), Source::Absent, Operation::Negative) => Option::Some(
            0b1110011u8,
        ),
        (Source::Register(Register::D), Source::One, Operation::Add) => Option::Some(0b0011111u8),
        (Source::Register(Register::A), Source::One, Operation::Add) => Option::Some(0b0110111u8),
        (Source::Register(Register::M), Source::One, Operation::Add) => Option::Some(0b1110111u8),
        (Source::Register(Register::D), Source::One, Operation::Subtract) => Option::Some(
            0b0001110u8,
        ),
        (Source::Register(Register::A), Source::One, Operation::Subtract) => Option::Some(
            0b0110010u8,
        ),
        (Source::Register(Register::M), Source::One, Operation::Subtract) => Option::Some(
            0b1110010u8,
        ),
        (Source::Register(Register::D), Source::Register(Register::A), Operation::Add) => {
            Option::Some(0b0000010u8)
        },
        (Source::Register(Register::D), Source::Register(Register::M), Operation::Add) => {
            Option::Some(0b1000010u8)
        },
        (Source::Register(Register::D), Source::Register(Register::A), Operation::Subtract) => {
            Option::Some(0b0010011u8)
        },
        (Source::Register(Register::D), Source::Register(Register::M), Operation::Subtract) => {
            Option::Some(0b1010011u8)
        },
        (Source::Register(Register::A), Source::Register(Register::D), Operation::Subtract) => {
            Option::Some(0b0000111u8)
        },
        (Source::Register(Register::M), Source::Register(Register::D), Operation::Subtract) => {
            Option::Some(0b1000111u8)
        },
        (Source::Register(Register::D), Source::Register(Register::A), Operation::And) => {
            Option::Some(0b0000000u8)
        },
        (Source::Register(Register::D), Source::Register(Register::M), Operation::And) => {
            Option::Some(0b1000000u8)
        },
        (Source::Register(Register::D), Source::Register(Register::A), Operation::Or) => {
            Option::Some(0b0010101u8)
        },
        (Source::Register(Register::D), Source::Register(Register::M), Operation::Or) => {
            Option::Some(0b1010101u8)
        },
        _ => Option::None,
    }
}

/// The three destination bits: presence of `A`, `D`, `M`, independent of
/// the order they were written in.
pub open spec fn spec_dest_bits(ds: Seq<Register>) -> u8 {
    (((if ds.contains(Register::A) {
        4int
    } else {
        0int
    }) + (if ds.contains(Register::D) {
        2int
    } else {
        0int
    }) + (if ds.contains(Register::M) {
        1int
    } else {
        0int
    })) as u8)
}

/// Membership in a pushed sequence.
proof fn lemma_contains_push(s: Seq<Register>, x: Register, y: Register)
    ensures
        s.push(x).contains(y) <==> (s.contains(y) || x == y),
{
    if s.contains(y) {
        let i = choose|i: int| 0 <= i < s.len() && s[i] == y;
        assert(s.push(x)[i] == y);
    }
    if x == y {
        assert(s.push(x)[s.len() as int] == y);
    }
    if s.push(x).contains(y) {
        let i = choose|i: int| 0 <= i < s.push(x).len() && s.push(x)[i] == y;
        if i < s.len() {
            assert(s[i] == y);
        }
    }
}

/// Computes the destination bits of a register list.
pub fn dest_bits(ds: &Vec<Register>) -> (r: u8)
    ensures
        r == spec_dest_bits(ds@),
{
    let mut has_a = false;
    let mut has_d = false;
    let mut has_m = false;
    let mut i: usize = 0;
    while i < ds.len()
        invariant
            i <= ds@.len(),
            has_a == ds@.take(i as int).contains(Register::A),
            has_d == ds@.take(i as int).contains(Register::D),
            has_m == ds@.take(i as int).contains(Register::M),
        decreases ds@.len() - i,
    {
        proof {
            assert(ds@.take(i + 1 as int) == ds@.take(i as int).push(ds@[i as int]));
            lemma_contains_push(ds@.take(i as int), ds@[i as int], Register::A);
            lemma_contains_push(ds@.take(i as int), ds@[i as int], Register::D);
            lemma_contains_push(ds@.take(i as int), ds@[i as int], Register::M);
        }
        match ds[i] {
            Register::A => has_a = true,
            Register::D => has_d = true,
            Register::M => has_m = true,
        }
        i = i + 1;
    }
    proof {
        assert(ds@.take(ds@.len() as int) == ds@);
    }
    (if has_a {
        4u8
    } else {
        0u8
    }) + (if has_d {
        2u8
    } else {
        0u8
    }) + (if has_m {
        1u8
    } else {
        0u8
    })
}

/// The three jump bits.
pub open spec fn spec_jump_bits(j: Jump) -> u8 {
    match j {
        Jump::Never => 0,
        Jump::JGT => 1,
        Jump::JEQ => 2,
        Jump::JGE => 3,
        Jump::JLT => 4,
        Jump::JNE => 5,
        Jump::JLE => 6,
        Jump::JMP => 7,
    }
}

/// Computes the jump bits.
pub fn jump_bits(j: Jump) -> (r: u8)
    ensures
        r == spec_jump_bits(j),
{
    match j {
        Jump::Never => 0,
        Jump::JGT => 1,
        Jump::JEQ => 2,
        Jump::JGE => 3,
        Jump::JLT => 4,
        Jump::JNE => 5,
        Jump::JLE => 6,
        Jump::JMP => 7,
    }
}

/// The word of a fully resolved instruction. An address instruction is its
/// address under a zero top bit; addresses beyond fifteen bits overflow. A
/// computation outside the table is illegal. A surviving label (in a
/// reference or a definition) is an internal invariant violation.
pub open spec fn spec_encode_instruction(iv: InstructionView) -> Result<u16, AsmErrorView> {
    match iv {
        InstructionView::A(LocationView::Address(a)) => {
            if a <= 32767 {
                Result::Ok(a)
            } else {
                Result::Err(AsmErrorView::AddressOverflow(a as u64))
            }
        },
        InstructionView::A(LocationView::Label(name)) => Result::Err(
            AsmErrorView::UnresolvedSymbol(name),
        ),
        InstructionView::LabelDefinition(name) => Result::Err(
            AsmErrorView::UnresolvedSymbol(name),
        ),
        InstructionView::C(ds, comp, j) => match spec_comp_bits(comp) {
            Option::None => Result::Err(AsmErrorView::IllegalComputation(comp)),
            Option::Some(cb) => Result::Ok(
                0xE000u16 | ((cb as u16) << 6) | ((spec_dest_bits(ds) as u16) << 3) | (
                spec_jump_bits(j) as u16),
            ),
        },
    }
}

/// Encodes one fully resolved instruction.
pub fn encode_instruction(instr: &Instruction) -> (r: Result<u16, AsmError>)
    ensures
        match r {
            Result::Ok(w) => spec_encode_instruction(instr@) == Result::<u16, AsmErrorView>::Ok(w),
            Result::Err(e) => {
                &&& spec_encode_instruction(instr@) matches Result::Err(ev)
                &&& e@ == ev
            },
        },
{
    match instr {
        Instruction::A(Location::Address(a)) => {
            if *a <= 32767 {
                Result::Ok(*a)
            } else {
                Result::Err(AsmError::AddressOverflow(*a as u64))
            }
        },
        Instruction::A(Location::Label(name)) => Result::Err(
            AsmError::UnresolvedSymbol(name.clone()),
        ),
        Instruction::LabelDefinition(name) => Result::Err(AsmError::UnresolvedSymbol(name.clone())),
        Instruction::C(ds, comp, j) => match comp_bits(comp) {
            Option::None => Result::Err(AsmError::IllegalComputation(*comp)),
            Option::Some(cb) => Result::Ok(
                0xE000u16 | ((cb as u16) << 6) | ((dest_bits(ds) as u16) << 3) | (jump_bits(*j)
                    as u16),
            ),
        },
    }
}

/// The words of a whole resolved instruction sequence, or its first error.
pub open spec fn spec_encode_program(ivs: Seq<InstructionView>) -> Result<Seq<u16>, AsmErrorView>
    decreases ivs.len(),
{
    if ivs.len() == 0 {
        Result::Ok(Seq::empty())
    } else {
        match spec_encode_instruction(ivs[0]) {
            Result::Err(e) => Result::Err(e),
            Result::Ok(w) => match spec_encode_program(ivs.skip(1)) {
                Result::Ok(tail) => Result::Ok(seq![w] + tail),
                Result::Err(e) => Result::Err(e),
            },
        }
    }
}

/// Encodes a whole resolved instruction sequence in order; fails on the
/// first instruction the table refuses.
pub fn encode_program(instrs: &Vec<Instruction>) -> (r: Result<Vec<u16>, AsmError>)
    ensures
        match r {
            Result::Ok(ws) => spec_encode_program(instruction_views(instrs@)) == Result::<
                Seq<u16>,
                AsmErrorView,
            >::Ok(ws@),
            Result::Err(e) => {
                &&& spec_encode_program(instruction_views(instrs@)) matches Result::Err(ev)
                &&& e@ == ev
            },
        },
{
    let ghost ivs = instruction_views(instrs@);
    let mut out: Vec<u16> = Vec::new();
    let mut i: usize = 0;
    proof {
        assert(ivs.skip(0) == ivs);
        if spec_encode_program(ivs) is Ok {
            assert(out@ + spec_encode_program(ivs)->Ok_0 =~= spec_encode_program(ivs)->Ok_0);
        }
    }
    while i < instrs.len()
        invariant
            i <= instrs@.len(),
            ivs == instruction_views(instrs@),
            spec_encode_program(ivs.skip(i as int)) matches Result::Ok(t) ==> spec_encode_program(
                ivs,
            ) == Result::<Seq<u16>, AsmErrorView>::Ok(out@ + t),
            spec_encode_program(ivs.skip(i as int)) matches Result::Err(e) ==> spec_encode_program(
                ivs,
            ) == Result::<Seq<u16>, AsmErrorView>::Err(e),
        decreases instrs@.len() - i,
    {
        proof {
            assert(ivs.skip(i as int)[0] == ivs[i as int]);
            assert(ivs[i as int] == instrs@[i as int]@);
            assert(ivs.skip(i as int).skip(1) =~= ivs.skip(i + 1));
        }
        match encode_instruction(&instrs[i]) {
            Result::Ok(w) => {
                proof {
                    if spec_encode_program(ivs.skip(i + 1)) is Ok {
                        let t = spec_encode_program(ivs.skip(i + 1))->Ok_0;
                        assert(out@ + (seq![w] + t) =~= out@.push(w) + t);
                    }
                }
                out.push(w);
            },
            Result::Err(e) => {
                return Result::Err(e);
            },
        }
        i = i + 1;
    }
    proof {
        assert(ivs.skip(instrs@.len() as int) =~= Seq::<InstructionView>::empty());
        if spec_encode_program(ivs) is Ok {
            assert(out@ + Seq::<u16>::empty() =~= out@);
        }
    }
    Result::Ok(out)
}

/// The registers named by three destination bits, in the fixed order
/// `A`, `D`, `M`.
pub open spec fn spec_dests_of_bits(b: u8) -> Seq<Register> {
    let after_a: Seq<Register> = if b & 4 != 0 {
        seq![Register::A]
    } else {
        Seq::empty()
    };
    let after_d: Seq<Register> = if b & 2 != 0 {
        after_a.push(Register::D)
    } else {
        after_a
    };
    if b & 1 != 0 {
        after_d.push(Register::M)
    } else {
        after_d
    }
}

/// The jump named by three jump bits (only the low three bits matter).
pub open spec fn spec_jump_of_bits(b: u8) -> Jump {
    let low = b & 7;
    if low == 0 {
        Jump::Never
    } else if low == 1 {
        Jump::JGT
    } else if low == 2 {
        Jump::JEQ
    } else if low == 3 {
        Jump::JGE
    } else if low == 4 {
        Jump::JLT
    } else if low == 5 {
        Jump::JNE
    } else if low == 6 {
        Jump::JLE
    } else {
        Jump::JMP
    }
}

/// The computation of a packed memory-bit-and-code value: the encoding
/// table read backward.
pub open spec fn spec_comp_of_bits(b: u8) -> Option<Computation> {
    if b == 0b0101010u8 {
        Option::Some(Computation::Computation(Source::Zero, Source::Absent, Operation::Identity))
    } else if b == 0b0111111u8 {
        Option::Some(Computation::Computation(Source::One, Source::Absent, Operation::Identity))
    } else if b == 0b0111010u8 {
        Option::Some(Computation::Computation(Source::One, Source::Absent, Operation::Negative))
    } else if b == 0b0001100u8 {
        Option::Some(
            Computation::Computation(
                Source::Register(Register::D),
                Source::Absent,
                Operation::Identity,
            ),
        )
    } else if b == 0b0110000u8 {
        Option::Some(
            Computation::Computation(
                Source::Register(Register::A),
                Source::Absent,
                Operation::Identity,
            ),
        )
    } else if b == 0b1110000u8 {
        Option::Some(
            Computation::Computation(
                Source::Register(Register::M),
                Source::Absent,
                Operation::Identity,
            ),
        )
    } else if b == 0b0001101u8 {
        Option::Some(
            Computation::Computation(Source::Register(Register::D), Source::Absent, Operation::Not),
        )
    } else if b == 0b0110001u8 {
        Option::Some(
            Computation::Computation(Source::Register(Register::A), Source::Absent, Operation::Not),
        )
    } else if b == 0b1110001u8 {
        Option::Some(
            Computation::Computation(Source::Register(Register::M), Source::Absent, Operation::Not),
        )
    } else if b == 0b0001111u8 {
        Option::Some(
            Computation::Computation(
                Source::Register(Register::D),
                Source::Absent,
                Operation::Negative,
            ),
        )
    } else if b == 0b0110011u8 {
        Option::Some(
            Computation::Computation(
                Source::Register(Register::A),
                Source::Absent,
                Operation::Negative,
            ),
        )
    } else if b == 0b1110011u8 {
        Option::Some(
            Computation::Computation(
                Source::Register(Register::M),
                Source::Absent,
                Operation::Negative,
            ),
        )
    } else if b == 0b0011111u8 {
        Option::Some(
            Computation::Computation(Source::Register(Register::D), Source::One, Operation::Add),
        )
    } else if b == 0b0110111u8 {
        Option::Some(
            Computation::Computation(Source::Register(Register::A), Source::One, Operation::Add),
        )
    } else if b == 0b1110111u8 {
        Option::Some(
            Computation::Computation(Source::Register(Register::M), Source::One, Operation::Add),
        )
    } else if b == 0b0001110u8 {
        Option::Some(
            Computation::Computation(
                Source::Register(Register::D),
                Source::One,
                Operation::Subtract,
            ),
        )
    } else if b == 0b0110010u8 {
        Option::Some(
            Computation::Computation(
                Source::Register(Register::A),
                Source::One,
                Operation::Subtract,
            ),
        )
    } else if b == 0b1110010u8 {
        Option::Some(
            Computation::Computation(
                Source::Register(Register::M),
                Source::One,
                Operation::Subtract,
            ),
        )
    } else if b == 0b0000010u8 {
        Option::Some(
            Computation::Computation(
                Source::Register(Register::D),
                Source::Register(Register::A),
                Operation::Add,
            ),
        )
    } else if b == 0b1000010u8 {
        Option::Some(
            Computation::Computation(
                Source::Register(Register::D),
                Source::Register(Register::M),
                Operation::Add,
            ),
        )
    } else if b == 0b0010011u8 {
        Option::Some(
            Computation::Computation(
                Source::Register(Register::D),
                Source::Register(Register::A),
                Operation::Subtract,
            ),
        )
    } else if b == 0b1010011u8 {
        Option::Some(
            Computation::Computation(
                Source::Register(Register::D),
                Source::Register(Register::M),
                Operation::Subtract,
            ),
        )
    } else if b == 0b0000111u8 {
        Option::Some(
            Computation::Computation(
                Source::Register(Register::A),
                Source::Register(Register::D),
                Operation::Subtract,
            ),
        )
    } else if b == 0b1000111u8 {
        Option::Some(
            Computation::Computation(
                Source::Register(Register::M),
                Source::Register(Register::D),
                Operation::Subtract,
            ),
        )
    } else if b == 0b0000000u8 {
        Option::Some(
            Computation::Computation(
                Source::Register(Register::D),
                Source::Register(Register::A),
                Operation::And,
            ),
        )
    } else if b == 0b1000000u8 {
        Option::Some(
            Computation::Computation(
                Source::Register(Register::D),
                Source::Register(Register::M),
                Operation::And,
            ),
        )
    } else if b == 0b0010101u8 {
        Option::Some(
            Computation::Computation(
                Source::Register(Register::D),
                Source::Register(Register::A),
                Operation::Or,
            ),
        )
    } else if b == 0b1010101u8 {
        Option::Some(
            Computation::Computation(
                Source::Register(Register::D),
                Source::Register(Register::M),
                Operation::Or,
            ),
        )
    } else {
        Option::None
    }
}

/// The instruction denoted by a word: addresses under a zero top bit,
/// compute instructions under `111`; anything else decodes to nothing.
pub open spec fn spec_decode(w: u16) -> Option<InstructionView> {
    if w < 0x8000 {
        Option::Some(InstructionView::A(LocationView::Address(w)))
    } else if w >> 13 == 7 {
        match spec_comp_of_bits(((w >> 6) & 0x7F) as u8) {
            Option::None => Option::None,
            Option::Some(comp) => Option::Some(
                InstructionView::C(
                    spec_dests_of_bits(((w >> 3) & 7) as u8),
                    comp,
                    spec_jump_of_bits((w & 7) as u8),
                ),
            ),
        }
    } else {
        Option::None
    }
}

/// Reads the encoding table backward.
pub fn comp_of_bits(b: u8) -> (r: Option<Computation>)
    ensures
        r == spec_comp_of_bits(b),
{
    if b == 0b0101010u8 {
        Option::Some(Computation::Computation(Source::Zero, Source::Absent, Operation::Identity))
    } else if b == 0b0111111u8 {
        Option::Some(Computation::Computation(Source::One, Source::Absent, Operation::Identity))
    } else if b == 0b0111010u8 {
        Option::Some(Computation::Computation(Source::One, Source::Absent, Operation::Negative))
    } else if b == 0b0001100u8 {
        Option::Some(
            Computation::Computation(
                Source::Register(Register::D),
                Source::Absent,
                Operation::Identity,
            ),
        )
    } else if b == 0b0110000u8 {
        Option::Some(
            Computation::Computation(
                Source::Register(Register::A),
                Source::Absent,
                Operation::Identity,
            ),
        )
    } else if b == 0b1110000u8 {
        Option::Some(
            Computation::Computation(
                Source::Register(Register::M),
                Source::Absent,
                Operation::Identity,
            ),
        )
    } else if b == 0b0001101u8 {
        Option::Some(
            Computation::Computation(Source::Register(Register::D), Source::Absent, Operation::Not),
        )
    } else if b == 0b0110001u8 {
        Option::Some(
            Computation::Computation(Source::Register(Register::A), Source::Absent, Operation::Not),
        )
    } else if b == 0b1110001u8 {
        Option::Some(
            Computation::Computation(Source::Register(Register::M), Source::Absent, Operation::Not),
        )
    } else if b == 0b0001111u8 {
        Option::Some(
            Computation::Computation(
                Source::Register(Register::D),
                Source::Absent,
                Operation::Negative,
            ),
        )
    } else if b == 0b0110011u8 {
        Option::Some(
            Computation::Computation(
                Source::Register(Register::A),
                Source::Absent,
                Operation::Negative,
            ),
        )
    } else if b == 0b1110011u8 {
        Option::Some(
            Computation::Computation(
                Source::Register(Register::M),
                Source::Absent,
                Operation::Negative,
            ),
        )
    } else if b == 0b0011111u8 {
        Option::Some(
            Computation::Computation(Source::Register(Register::D), Source::One, Operation::Add),
        )
    } else if b == 0b0110111u8 {
        Option::Some(
            Computation::Computation(Source::Register(Register::A), Source::One, Operation::Add),
        )
    } else if b == 0b1110111u8 {
        Option::Some(
            Computation::Computation(Source::Register(Register::M), Source::One, Operation::Add),
        )
    } else if b == 0b0001110u8 {
        Option::Some(
            Computation::Computation(
                Source::Register(Register::D),
                Source::One,
                Operation::Subtract,
            ),
        )
    } else if b == 0b0110010u8 {
        Option::Some(
            Computation::Computation(
                Source::Register(Register::A),
                Source::One,
                Operation::Subtract,
            ),
        )
    } else if b == 0b1110010u8 {
        Option::Some(
            Computation::Computation(
                Source::Register(Register::M),
                Source::One,
                Operation::Subtract,
            ),
        )
    } else if b == 0b0000010u8 {
        Option::Some(
            Computation::Computation(
                Source::Register(Register::D),
                Source::Register(Register::A),
                Operation::Add,
            ),
        )
    } else if b == 0b1000010u8 {
        Option::Some(
            Computation::Computation(
                Source::Register(Register::D),
                Source::Register(Register::M),
                Operation::Add,
            ),
        )
    } else if b == 0b0010011u8 {
        Option::Some(
            Computation::Computation(
                Source::Register(Register::D),
                Source::Register(Register::A),
                Operation::Subtract,
            ),
        )
    } else if b == 0b1010011u8 {
        Option::Some(
            Computation::Computation(
                Source::Register(Register::D),
                Source::Register(Register::M),
                Operation::Subtract,
            ),
        )
    } else if b == 0b0000111u8 {
        Option::Some(
            Computation::Computation(
                Source::Register(Register::A),
                Source::Register(Register::D),
                Operation::Subtract,
            ),
        )
    } else if b == 0b1000111u8 {
        Option::Some(
            Computation::Computation(
                Source::Register(Register::M),
                Source::Register(Register::D),
                Operation::Subtract,
            ),
        )
    } else if b == 0b0000000u8 {
        Option::Some(
            Computation::Computation(
                Source::Register(Register::D),
                Source::Register(Register::A),
                Operation::And,
            ),
        )
    } else if b == 0b1000000u8 {
        Option::Some(
            Computation::Computation(
                Source::Register(Register::D),
                Source::Register(Register::M),
                Operation::And,
            ),
        )
    } else if b == 0b0010101u8 {
        Option::Some(
            Computation::Computation(
                Source::Register(Register::D),
                Source::Register(Register::A),
                Operation::Or,
            ),
        )
    } else if b == 0b1010101u8 {
        Option::Some(
            Computation::Computation(
                Source::Register(Register::D),
                Source::Register(Register::M),
                Operation::Or,
            ),
        )
    } else {
        Option::None
    }
}

/// Reads the jump table backward.
pub fn jump_of_bits(b: u8) -> (r: Jump)
    ensures
        r == spec_jump_of_bits(b),
{
    let low = b & 7;
    if low == 0 {
        Jump::Never
    } else if low == 1 {
        Jump::JGT
    } else if low == 2 {
        Jump::JEQ
    } else if low == 3 {
        Jump::JGE
    } else if low == 4 {
        Jump::JLT
    } else if low == 5 {
        Jump::JNE
    } else if low == 6 {
        Jump::JLE
    } else {
        Jump::JMP
    }
}

/// Decodes one word back into an instruction, destination registers in the
/// fixed order `A`, `D`, `M`. Words that fit no instruction shape decode
/// to nothing.
pub fn decode_instruction(w: u16) -> (r: Option<Instruction>)
    ensures
        match r {
            Option::Some(instr) => spec_decode(w) == Option::Some(instr@),
            Option::None => spec_decode(w) is None,
        },
{
    if w < 0x8000 {
        return Option::Some(Instruction::A(Location::Address(w)));
    }
    if w >> 13 == 7 {
        let cb = ((w >> 6) & 0x7F) as u8;
        let comp = match comp_of_bits(cb) {
            Option::Some(c) => c,
            Option::None => {
                return Option::None;
            },
        };
        let db = ((w >> 3) & 7) as u8;
        let jb = (w & 7) as u8;
        let mut ds: Vec<Register> = Vec::new();
        if db & 4 != 0 {
            ds.push(Register::A);
        }
        if db & 2 != 0 {
            ds.push(Register::D);
        }
        if db & 1 != 0 {
            ds.push(Register::M);
        }
        proof {
            assert(ds@ =~= spec_dests_of_bits(db));
        }
        Option::Some(Instruction::C(ds, comp, jump_of_bits(jb)))
    } else {
        Option::None
    }
}

/// Law: a valid address instruction `@n` encodes to the word `n` itself:
/// the top bit is zero, the low fifteen bits are exactly `n`, and decoding
/// gives the instruction back.
pub proof fn lemma_address_encoding(n: u16)
    requires
        n <= 32767,
    ensures
        spec_encode_instruction(InstructionView::A(LocationView::Address(n))) == Result::<
            u16,
            AsmErrorView,
        >::Ok(n),
        n & 0x8000 == 0,
        n & 0x7FFF == n,
        spec_decode(n) == Option::Some(InstructionView::A(LocationView::Address(n))),
{
    assert(n <= 32767 ==> (n & 0x8000u16) == 0 && (n & 0x7FFFu16) == n) by (bit_vector);
}

/// The destination bits of a register list recover exactly its membership,
/// as the canonical list the decoder writes.
pub proof fn lemma_dest_bits_membership(ds: Seq<Register>)
    ensures
        forall|r: Register| #[trigger] spec_dests_of_bits(spec_dest_bits(ds)).contains(r)
            <==> ds.contains(r),
{
    let a: u8 = if ds.contains(Register::A) {
        4
    } else {
        0
    };
    let d: u8 = if ds.contains(Register::D) {
        2
    } else {
        0
    };
    let m: u8 = if ds.contains(Register::M) {
        1
    } else {
        0
    };
    let db = spec_dest_bits(ds);
    assert(db == a + d + m);
    assert((a == 0 || a == 4) && (d == 0 || d == 2) && (m == 0 || m == 1) ==> ((((a + d + m)
        as u8) & 4u8) == a && (((a + d + m) as u8) & 2u8) == d && (((a + d + m) as u8) & 1u8)
        == m)) by (bit_vector);
    let out = spec_dests_of_bits(db);
    let after_a: Seq<Register> = if db & 4 != 0 {
        seq![Register::A]
    } else {
        Seq::empty()
    };
    let after_d: Seq<Register> = if db & 2 != 0 {
        after_a.push(Register::D)
    } else {
        after_a
    };
    assert forall|r: Register| #[trigger] out.contains(r) <==> ds.contains(r) by {
        if db & 2 != 0 {
            lemma_contains_push(after_a, Register::D, r);
        }
        if db & 1 != 0 {
            lemma_contains_push(after_d, Register::M, r);
        }
        if after_a.len() == 1 {
            assert(after_a[0] == Register::A);
            assert(after_a.contains(Register::A));
        }
        if after_a.contains(r) {
            assert(after_a[choose|i: int| 0 <= i < after_a.len() && after_a[i] == r] == r);
        }
        match r {
            Register::A => {},
            Register::D => {},
            Register::M => {},
        }
    }
}

/// Law: encoding a compute instruction and decoding the word again gives
/// back the same computation and jump, and a destination list with exactly
/// the same registers (in the decoder's fixed order).
pub proof fn lemma_encode_decode_round_trip(ds: Seq<Register>, comp: Computation, j: Jump)
    requires
        spec_comp_bits(comp) is Some,
    ensures
        spec_encode_instruction(InstructionView::C(ds, comp, j)) matches Result::Ok(w)
            && spec_decode(w) == Option::Some(
            InstructionView::C(spec_dests_of_bits(spec_dest_bits(ds)), comp, j),
        ),
        forall|r: Register| #[trigger] spec_dests_of_bits(spec_dest_bits(ds)).contains(r)
            <==> ds.contains(r),
{
    let cb = spec_comp_bits(comp)->Some_0;
    let db = spec_dest_bits(ds);
    let jb = spec_jump_bits(j);
    assert(cb <= 127);
    assert(db <= 7);
    assert(jb <= 7);
    let c16 = cb as u16;
    let d16 = db as u16;
    let j16 = jb as u16;
    let w = 0xE000u16 | (c16 << 6) | (d16 << 3) | j16;
    assert(c16 <= 127 && d16 <= 7 && j16 <= 7 ==> {
        let w2 = 0xE000u16 | (c16 << 6) | (d16 << 3) | j16;
        &&& w2 >= 0x8000
        &&& (w2 >> 13) == 7
        &&& ((w2 >> 6) & 0x7F) == c16
        &&& ((w2 >> 3) & 7) == d16
        &&& (w2 & 7) == j16
    }) by (bit_vector);
    assert(spec_encode_instruction(InstructionView::C(ds, comp, j)) == Result::<
        u16,
        AsmErrorView,
    >::Ok(w));
    assert(spec_comp_of_bits(cb) == Option::Some(comp));
    assert(jb <= 7 ==> (jb & 7u8) == jb) by (bit_vector);
    assert(spec_jump_of_bits(jb) == j);
    lemma_dest_bits_membership(ds);
}

} // verus!
