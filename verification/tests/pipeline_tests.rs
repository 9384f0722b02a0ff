use hack_assembler::assembler::Assemblable;
use hack_assembler::symbols::{pass_one, pass_two, resolve, SymbolTable};
use hack_assembler::types::{
    AsmError, Computation, Instruction, Jump, Location, Operation, Register, Source,
};

fn lines(xs: &[&str]) -> Vec<String> {
    xs.iter().map(|x| x.to_string()).collect()
}

#[test]
fn assembles_literal_program() {
    // Only literal addresses: no label or variable allocation happens.
    let words = lines(&["@2", "D=A", "@3", "D=D+A", "@0", "M=D"]).assemble().unwrap();
    let rendered: Vec<String> = words.iter().map(|w| format!("{:016b}", w)).collect();
    assert_eq!(
        rendered,
        vec![
            "0000000000000010",
            "1110110000010000",
            "0000000000000011",
            "1110000010010000",
            "0000000000000000",
            "1110001100001000",
        ]
    );
}

#[test]
fn label_binds_to_next_real_instruction() {
    // `(foo)` binds to the address of the instruction after it; the
    // forward reference `@foo` uses that binding, and no variable address
    // is allocated for `foo`.
    let words = lines(&["@foo", "M=1", "(foo)", "@0", "D=M"]).assemble().unwrap();
    assert_eq!(words[0], 2);
    assert!(words[0] < 16);
    assert_eq!(words.len(), 4);
    assert_eq!(words[2], 0);
}

#[test]
fn forward_reference_resolves() {
    let words = lines(&["@END", "0;JMP", "(END)", "@21"]).assemble().unwrap();
    assert_eq!(words, vec![2, 0b1110101010000111, 21]);
}

#[test]
fn predefined_symbols_resolve_to_fixed_addresses() {
    let words = lines(&["@SP", "@LCL", "@ARG", "@THIS", "@THAT", "@SCREEN", "@KBD"])
        .assemble()
        .unwrap();
    assert_eq!(words, vec![0, 1, 2, 3, 4, 16384, 24576]);
}

#[test]
fn register_aliases_resolve() {
    let words = lines(&["@R0", "@R1", "@R9", "@R15"]).assemble().unwrap();
    assert_eq!(words, vec![0, 1, 9, 15]);
}

#[test]
fn variables_allocated_in_first_occurrence_order() {
    let words = lines(&["@x", "@y", "@x", "@z", "@y"]).assemble().unwrap();
    assert_eq!(words, vec![16, 17, 16, 18, 17]);
}

#[test]
fn comments_and_whitespace_are_stripped() {
    let words = lines(&["  @2  // go", "// only a comment", "", "D = A "]).assemble().unwrap();
    assert_eq!(words, vec![2, 0b1110110000010000]);
}

#[test]
fn duplicate_label_is_fatal() {
    let r = lines(&["(x)", "@0", "(x)", "@1"]).assemble();
    assert_eq!(r, Err(AsmError::DuplicateLabel("x".into())));
}

#[test]
fn predefined_name_cannot_be_rebound() {
    let r = lines(&["(SP)", "@0"]).assemble();
    assert_eq!(r, Err(AsmError::DuplicateLabel("SP".into())));
}

#[test]
fn illegal_computation_is_fatal() {
    let r = lines(&["D=D+D"]).assemble();
    assert_eq!(
        r,
        Err(AsmError::IllegalComputation(Computation::Computation(
            Source::Register(Register::D),
            Source::Register(Register::D),
            Operation::Add
        )))
    );
}

#[test]
fn address_overflow_is_fatal() {
    assert_eq!(lines(&["@32767"]).assemble(), Ok(vec![32767]));
    assert_eq!(
        lines(&["@32768"]).assemble(),
        Err(AsmError::AddressOverflow(32768))
    );
}

#[test]
fn syntax_error_carries_the_line() {
    let r = lines(&["@1", "D=W"]).assemble();
    assert_eq!(r, Err(AsmError::SyntaxError("D=W".into())));
}

#[test]
fn symbol_table_lookup_and_insert() {
    let mut t = SymbolTable::new();
    assert_eq!(t.get(&"SP".to_string()), Some(0));
    assert_eq!(t.get(&"KBD".to_string()), Some(24576));
    assert_eq!(t.get(&"R10".to_string()), Some(10));
    assert_eq!(t.get(&"loop".to_string()), None);
    t.insert("loop".to_string(), 7);
    assert_eq!(t.get(&"loop".to_string()), Some(7));
}

#[test]
fn pass_one_strips_labels_and_binds_them() {
    let mut table = SymbolTable::new();
    let parsed = vec![
        Instruction::A(Location::Label("go".into())),
        Instruction::LabelDefinition("go".into()),
        Instruction::C(
            vec![Register::D],
            Computation::Computation(Source::Zero, Source::Absent, Operation::Identity),
            Jump::Never,
        ),
    ];
    let stripped = pass_one(&parsed, &mut table).unwrap();
    assert_eq!(stripped.len(), 2);
    assert_eq!(table.get(&"go".to_string()), Some(1));
}

#[test]
fn pass_two_rewrites_all_references() {
    let mut table = SymbolTable::new();
    let instrs = vec![
        Instruction::A(Location::Label("v".into())),
        Instruction::A(Location::Label("SCREEN".into())),
        Instruction::A(Location::Label("v".into())),
    ];
    let out = pass_two(&instrs, &mut table).unwrap();
    assert_eq!(
        out,
        vec![
            Instruction::A(Location::Address(16)),
            Instruction::A(Location::Address(16384)),
            Instruction::A(Location::Address(16)),
        ]
    );
    assert_eq!(table.get(&"v".to_string()), Some(16));
}

#[test]
fn resolve_leaves_no_labels() {
    let parsed = vec![
        Instruction::A(Location::Label("n".into())),
        Instruction::LabelDefinition("here".into()),
        Instruction::A(Location::Label("here".into())),
    ];
    let (out, table) = resolve(&parsed).unwrap();
    assert_eq!(
        out,
        vec![
            Instruction::A(Location::Address(16)),
            Instruction::A(Location::Address(1)),
        ]
    );
    assert_eq!(table.get(&"here".to_string()), Some(1));
    assert_eq!(table.get(&"n".to_string()), Some(16));
}
