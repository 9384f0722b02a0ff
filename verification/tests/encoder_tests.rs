use hack_assembler::encoder::{decode_instruction, encode_instruction};
use hack_assembler::types::{
    AsmError, Computation, Instruction, Jump, Location, Operation, Register, Source,
};

fn comp(lhs: Source, rhs: Source, op: Operation) -> Computation {
    Computation::Computation(lhs, rhs, op)
}

fn c_instr(dests: Vec<Register>, c: Computation, j: Jump) -> Instruction {
    Instruction::C(dests, c, j)
}

#[test]
fn encodes_addresses_with_zero_top_bit() {
    for n in [0u16, 1, 2, 21, 16384, 24576, 32767] {
        let w = encode_instruction(&Instruction::A(Location::Address(n))).unwrap();
        assert_eq!(w, n);
        assert_eq!(w & 0x8000, 0);
        assert_eq!(w & 0x7FFF, n);
    }
}

#[test]
fn encoding_rejects_addresses_beyond_fifteen_bits() {
    assert_eq!(
        encode_instruction(&Instruction::A(Location::Address(32768))),
        Err(AsmError::AddressOverflow(32768))
    );
    assert_eq!(
        encode_instruction(&Instruction::A(Location::Address(65535))),
        Err(AsmError::AddressOverflow(65535))
    );
}

#[test]
fn surviving_labels_are_internal_errors() {
    assert_eq!(
        encode_instruction(&Instruction::A(Location::Label("x".into()))),
        Err(AsmError::UnresolvedSymbol("x".into()))
    );
    assert_eq!(
        encode_instruction(&Instruction::LabelDefinition("x".into())),
        Err(AsmError::UnresolvedSymbol("x".into()))
    );
}

#[test]
fn encodes_the_documented_table_entries() {
    let a = || Source::Register(Register::A);
    let d = || Source::Register(Register::D);
    let m = || Source::Register(Register::M);
    let cases: Vec<(Computation, u16)> = vec![
        (comp(Source::Zero, Source::Absent, Operation::Identity), 0b101010),
        (comp(Source::One, Source::Absent, Operation::Identity), 0b111111),
        (comp(Source::One, Source::Absent, Operation::Negative), 0b111010),
        (comp(d(), Source::Absent, Operation::Identity), 0b001100),
        (comp(a(), Source::Absent, Operation::Identity), 0b110000),
        (comp(d(), Source::Absent, Operation::Not), 0b001101),
        (comp(a(), Source::Absent, Operation::Not), 0b110001),
        (comp(d(), Source::Absent, Operation::Negative), 0b001111),
        (comp(a(), Source::Absent, Operation::Negative), 0b110011),
        (comp(d(), Source::One, Operation::Add), 0b011111),
        (comp(a(), Source::One, Operation::Add), 0b110111),
        (comp(d(), Source::One, Operation::Subtract), 0b001110),
        (comp(a(), Source::One, Operation::Subtract), 0b110010),
        (comp(d(), a(), Operation::Add), 0b000010),
        (comp(d(), a(), Operation::Subtract), 0b010011),
        (comp(a(), d(), Operation::Subtract), 0b000111),
        (comp(d(), a(), Operation::And), 0b000000),
        (comp(d(), a(), Operation::Or), 0b010101),
    ];
    for (c, code) in &cases {
        let w = encode_instruction(&c_instr(vec![], *c, Jump::Never)).unwrap();
        assert_eq!(w, 0b1110_0000_0000_0000 | (code << 6), "a=0 entry {:?}", c);
    }
    // The same six-bit codes serve the memory operand under a set `a` bit.
    let m_cases: Vec<(Computation, u16)> = vec![
        (comp(m(), Source::Absent, Operation::Identity), 0b110000),
        (comp(m(), Source::Absent, Operation::Not), 0b110001),
        (comp(m(), Source::Absent, Operation::Negative), 0b110011),
        (comp(m(), Source::One, Operation::Add), 0b110111),
        (comp(m(), Source::One, Operation::Subtract), 0b110010),
        (comp(d(), m(), Operation::Add), 0b000010),
        (comp(d(), m(), Operation::Subtract), 0b010011),
        (comp(m(), d(), Operation::Subtract), 0b000111),
        (comp(d(), m(), Operation::And), 0b000000),
        (comp(d(), m(), Operation::Or), 0b010101),
    ];
    for (c, code) in &m_cases {
        let w = encode_instruction(&c_instr(vec![], *c, Jump::Never)).unwrap();
        assert_eq!(
            w,
            0b1111_0000_0000_0000 | (code << 6),
            "a=1 entry {:?}",
            c
        );
    }
}

#[test]
fn destination_bits_ignore_written_order() {
    let c0 = comp(Source::Zero, Source::Absent, Operation::Identity);
    let adm = encode_instruction(&c_instr(
        vec![Register::A, Register::D, Register::M],
        c0,
        Jump::Never,
    ))
    .unwrap();
    let mad = encode_instruction(&c_instr(
        vec![Register::M, Register::A, Register::D],
        c0,
        Jump::Never,
    ))
    .unwrap();
    assert_eq!(adm, mad);
    assert_eq!((adm >> 3) & 7, 0b111);
    let d_only =
        encode_instruction(&c_instr(vec![Register::D], c0, Jump::Never)).unwrap();
    assert_eq!((d_only >> 3) & 7, 0b010);
}

#[test]
fn jump_bits_follow_the_table() {
    let c0 = comp(Source::Zero, Source::Absent, Operation::Identity);
    let jumps = [
        (Jump::Never, 0b000u16),
        (Jump::JGT, 0b001),
        (Jump::JEQ, 0b010),
        (Jump::JGE, 0b011),
        (Jump::JLT, 0b100),
        (Jump::JNE, 0b101),
        (Jump::JLE, 0b110),
        (Jump::JMP, 0b111),
    ];
    for (j, bits) in jumps {
        let w = encode_instruction(&c_instr(vec![], c0, j)).unwrap();
        assert_eq!(w & 7, bits);
    }
}

#[test]
fn decoding_inverts_encoding_for_every_table_entry() {
    let a = || Source::Register(Register::A);
    let d = || Source::Register(Register::D);
    let m = || Source::Register(Register::M);
    let comps = vec![
        comp(Source::Zero, Source::Absent, Operation::Identity),
        comp(Source::One, Source::Absent, Operation::Identity),
        comp(Source::One, Source::Absent, Operation::Negative),
        comp(d(), Source::Absent, Operation::Identity),
        comp(a(), Source::Absent, Operation::Identity),
        comp(m(), Source::Absent, Operation::Identity),
        comp(d(), Source::Absent, Operation::Not),
        comp(a(), Source::Absent, Operation::Not),
        comp(m(), Source::Absent, Operation::Not),
        comp(d(), Source::Absent, Operation::Negative),
        comp(a(), Source::Absent, Operation::Negative),
        comp(m(), Source::Absent, Operation::Negative),
        comp(d(), Source::One, Operation::Add),
        comp(a(), Source::One, Operation::Add),
        comp(m(), Source::One, Operation::Add),
        comp(d(), Source::One, Operation::Subtract),
        comp(a(), Source::One, Operation::Subtract),
        comp(m(), Source::One, Operation::Subtract),
        comp(d(), a(), Operation::Add),
        comp(d(), m(), Operation::Add),
        comp(d(), a(), Operation::Subtract),
        comp(d(), m(), Operation::Subtract),
        comp(a(), d(), Operation::Subtract),
        comp(m(), d(), Operation::Subtract),
        comp(d(), a(), Operation::And),
        comp(d(), m(), Operation::And),
        comp(d(), a(), Operation::Or),
        comp(d(), m(), Operation::Or),
    ];
    let dest_sets: Vec<Vec<Register>> = vec![
        vec![],
        vec![Register::A],
        vec![Register::D],
        vec![Register::M],
        vec![Register::M, Register::D],
        vec![Register::A, Register::D, Register::M],
    ];
    let jumps = [
        Jump::Never,
        Jump::JGT,
        Jump::JEQ,
        Jump::JGE,
        Jump::JLT,
        Jump::JNE,
        Jump::JLE,
        Jump::JMP,
    ];
    for c in &comps {
        for ds in &dest_sets {
            for j in &jumps {
                let w = encode_instruction(&c_instr(ds.clone(), *c, *j)).unwrap();
                let decoded = decode_instruction(w).unwrap();
                match decoded {
                    Instruction::C(ds2, c2, j2) => {
                        assert_eq!(c2, *c);
                        assert_eq!(j2, *j);
                        // The same destination set, in the decoder's
                        // canonical order.
                        for r in [Register::A, Register::D, Register::M] {
                            assert_eq!(ds2.contains(&r), ds.contains(&r));
                        }
                    },
                    other => panic!("decoded {:?}", other),
                }
            }
        }
    }
}

#[test]
fn decoding_inverts_address_encoding() {
    for n in [0u16, 7, 32767] {
        let w = encode_instruction(&Instruction::A(Location::Address(n))).unwrap();
        assert_eq!(
            decode_instruction(w),
            Some(Instruction::A(Location::Address(n)))
        );
    }
}

#[test]
fn words_outside_the_tables_decode_to_nothing() {
    // Top bits `10` fit no instruction shape.
    assert_eq!(decode_instruction(0b1000_0000_0000_0000), None);
    // A compute word whose code is not in the table.
    assert_eq!(decode_instruction(0b1110_0000_0100_0000), None);
}
