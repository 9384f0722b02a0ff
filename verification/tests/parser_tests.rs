use hack_assembler::parser::{
    parse, parse_a, parse_c, parse_computation, parse_dest, parse_jmp, parse_line, parse_macro,
};
use hack_assembler::types::{
    AsmError, Computation, Instruction, Jump, Location, Macro, Operation, Register, Source,
};

#[test]
fn parses_a() {
    assert_eq!(parse_a("@1"), Ok(("", Instruction::A(Location::Address(1)))));
    assert_eq!(parse_a("@64"), Ok(("", Instruction::A(Location::Address(64)))));
    assert_eq!(
        parse_a("@test"),
        Ok(("", Instruction::A(Location::Label("test".into()))))
    );
    assert_eq!(
        parse_a("@TeSt"),
        Ok(("", Instruction::A(Location::Label("TeSt".into()))))
    );
    assert_eq!(
        parse_a("@test\n"),
        Ok(("", Instruction::A(Location::Label("test".into()))))
    );
    assert_eq!(
        parse_a("@test\n\n\n"),
        Ok(("\n\n", Instruction::A(Location::Label("test".into()))))
    );
}

#[test]
fn parses_dest() {
    assert_eq!(parse_dest("A"), Ok(("", vec![Register::A])));
    assert_eq!(parse_dest("D"), Ok(("", vec![Register::D])));
    assert_eq!(parse_dest("M"), Ok(("", vec![Register::M])));

    assert_eq!(parse_dest("AD"), Ok(("", vec![Register::A, Register::D])));
    assert_eq!(
        parse_dest("ADM"),
        Ok(("", vec![Register::A, Register::D, Register::M]))
    );
    assert_eq!(
        parse_dest("MAD"),
        Ok(("", vec![Register::M, Register::A, Register::D]))
    );

    assert_eq!(parse_dest("M="), Ok(("", vec![Register::M])));
    assert_eq!(parse_dest("M=a"), Ok(("a", vec![Register::M])));
}

#[test]
fn parses_comp() {
    assert_eq!(
        parse_computation("0"),
        Ok((
            "",
            Computation::Computation(Source::Zero, Source::Absent, Operation::Identity)
        ))
    );
    assert_eq!(
        parse_computation("0\n"),
        Ok((
            "",
            Computation::Computation(Source::Zero, Source::Absent, Operation::Identity)
        ))
    );
    assert_eq!(
        parse_computation("0;"),
        Ok((
            "",
            Computation::Computation(Source::Zero, Source::Absent, Operation::Identity)
        ))
    );

    assert_eq!(
        parse_computation("1"),
        Ok((
            "",
            Computation::Computation(Source::One, Source::Absent, Operation::Identity)
        ))
    );
    assert_eq!(
        parse_computation("A"),
        Ok((
            "",
            Computation::Computation(
                Source::Register(Register::A),
                Source::Absent,
                Operation::Identity
            )
        ))
    );
    assert_eq!(
        parse_computation("D"),
        Ok((
            "",
            Computation::Computation(
                Source::Register(Register::D),
                Source::Absent,
                Operation::Identity
            )
        ))
    );
    assert_eq!(
        parse_computation("M"),
        Ok((
            "",
            Computation::Computation(
                Source::Register(Register::M),
                Source::Absent,
                Operation::Identity
            )
        ))
    );

    assert_eq!(
        parse_computation("-1"),
        Ok((
            "",
            Computation::Computation(Source::One, Source::Absent, Operation::Negative)
        ))
    );
    assert_eq!(
        parse_computation("-A"),
        Ok((
            "",
            Computation::Computation(
                Source::Register(Register::A),
                Source::Absent,
                Operation::Negative
            )
        ))
    );
    assert_eq!(
        parse_computation("-D"),
        Ok((
            "",
            Computation::Computation(
                Source::Register(Register::D),
                Source::Absent,
                Operation::Negative
            )
        ))
    );
    assert_eq!(
        parse_computation("-M"),
        Ok((
            "",
            Computation::Computation(
                Source::Register(Register::M),
                Source::Absent,
                Operation::Negative
            )
        ))
    );

    assert_eq!(
        parse_computation("!A"),
        Ok((
            "",
            Computation::Computation(
                Source::Register(Register::A),
                Source::Absent,
                Operation::Not
            )
        ))
    );

    assert_eq!(
        parse_computation("D+1"),
        Ok((
            "",
            Computation::Computation(Source::Register(Register::D), Source::One, Operation::Add)
        ))
    );
    // A binary minus is subtraction, distinct from the unary negative.
    assert_eq!(
        parse_computation("D-1"),
        Ok((
            "",
            Computation::Computation(
                Source::Register(Register::D),
                Source::One,
                Operation::Subtract
            )
        ))
    );
    assert_eq!(
        parse_computation("D+A"),
        Ok((
            "",
            Computation::Computation(
                Source::Register(Register::D),
                Source::Register(Register::A),
                Operation::Add
            )
        ))
    );
    assert_eq!(
        parse_computation("D&A"),
        Ok((
            "",
            Computation::Computation(
                Source::Register(Register::D),
                Source::Register(Register::A),
                Operation::And
            )
        ))
    );
    assert_eq!(
        parse_computation("D|A"),
        Ok((
            "",
            Computation::Computation(
                Source::Register(Register::D),
                Source::Register(Register::A),
                Operation::Or
            )
        ))
    );
}

#[test]
fn parses_jump() {
    assert_eq!(parse_jmp("JGT"), Ok(("", Jump::JGT)));
    assert_eq!(parse_jmp("JEQ"), Ok(("", Jump::JEQ)));
    assert_eq!(parse_jmp("JGE"), Ok(("", Jump::JGE)));
    assert_eq!(parse_jmp("JLT"), Ok(("", Jump::JLT)));
    assert_eq!(parse_jmp("JNE"), Ok(("", Jump::JNE)));
    assert_eq!(parse_jmp("JLE"), Ok(("", Jump::JLE)));
    assert_eq!(parse_jmp("JMP"), Ok(("", Jump::JMP)));

    assert_eq!(parse_jmp("JmP"), Ok(("", Jump::JMP)));
    assert_eq!(parse_jmp("jmp"), Ok(("", Jump::JMP)));

    assert_eq!(parse_jmp("a"), Err(AsmError::SyntaxError("a".into())));
    assert_eq!(parse_jmp("jmpx"), Err(AsmError::SyntaxError("jmpx".into())));

    assert_eq!(parse_jmp("JMP\n"), Ok(("", Jump::JMP)));
    assert_eq!(parse_jmp("JMP\n\n\n"), Ok(("\n\n", Jump::JMP)));
}

#[test]
fn parses_c() {
    assert_eq!(
        parse_c("D=A+1;JMP"),
        Ok((
            "",
            Instruction::C(
                vec![Register::D],
                Computation::Computation(
                    Source::Register(Register::A),
                    Source::One,
                    Operation::Add
                ),
                Jump::JMP
            )
        ))
    );
    assert_eq!(
        parse_c("D=A+1;JMP\n"),
        Ok((
            "",
            Instruction::C(
                vec![Register::D],
                Computation::Computation(
                    Source::Register(Register::A),
                    Source::One,
                    Operation::Add
                ),
                Jump::JMP
            )
        ))
    );

    assert_eq!(
        parse_c("D=A+1;JMP\n\n"),
        Ok((
            "\n",
            Instruction::C(
                vec![Register::D],
                Computation::Computation(
                    Source::Register(Register::A),
                    Source::One,
                    Operation::Add
                ),
                Jump::JMP
            )
        ))
    );
}

#[test]
fn parses_macro() {
    assert_eq!(
        parse_macro("#call func1"),
        Ok(("", Macro::Call("func1".into())))
    );
    assert_eq!(
        parse_macro("#call func1 \n"),
        Ok(("", Macro::Call("func1".into())))
    );

    assert_eq!(parse_macro("#ret\n"), Ok(("", Macro::Return)));

    assert_eq!(
        parse_macro("#include file1\n"),
        Ok(("", Macro::Include("file1".into())))
    );
}

#[test]
fn parses_label_definition_line() {
    assert_eq!(
        parse_line("(LOOP)"),
        Ok(Instruction::LabelDefinition("LOOP".into()))
    );
}

#[test]
fn parses_c_line_without_dest_or_jump() {
    assert_eq!(
        parse_line("0;JMP"),
        Ok(Instruction::C(
            vec![],
            Computation::Computation(Source::Zero, Source::Absent, Operation::Identity),
            Jump::JMP
        ))
    );
    assert_eq!(
        parse_line("D=M"),
        Ok(Instruction::C(
            vec![Register::D],
            Computation::Computation(
                Source::Register(Register::M),
                Source::Absent,
                Operation::Identity
            ),
            Jump::Never
        ))
    );
}

#[test]
fn parse_line_rejects_bad_shapes() {
    assert_eq!(parse_line("D=W"), Err(AsmError::SyntaxError("D=W".into())));
    assert_eq!(
        parse_line("DD=A"),
        Err(AsmError::SyntaxError("DD=A".into()))
    );
    assert_eq!(
        parse_line("D=A;XYZ"),
        Err(AsmError::SyntaxError("D=A;XYZ".into()))
    );
}

#[test]
fn parse_whole_source() {
    let parsed = parse("@2\nD=A // load\n\n(END)\n@END\n".to_string()).unwrap();
    assert_eq!(
        parsed,
        vec![
            Instruction::A(Location::Address(2)),
            Instruction::C(
                vec![Register::D],
                Computation::Computation(
                    Source::Register(Register::A),
                    Source::Absent,
                    Operation::Identity
                ),
                Jump::Never
            ),
            Instruction::LabelDefinition("END".into()),
            Instruction::A(Location::Label("END".into())),
        ]
    );
}

#[test]
fn parse_reports_first_bad_line() {
    let r = parse("@1\nD=W\n@2\n".to_string());
    assert_eq!(r, Err(AsmError::SyntaxError("D=W".into())));
}

#[test]
fn numeric_address_text_limits() {
    // Digits that exceed sixteen bits fall back to a symbolic label.
    assert_eq!(
        parse_line("@99999"),
        Ok(Instruction::A(Location::Label("99999".into())))
    );
    assert_eq!(parse_line("@65535"), Ok(Instruction::A(Location::Address(65535))));
}
