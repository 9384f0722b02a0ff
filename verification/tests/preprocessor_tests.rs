use hack_assembler::preprocessor::{expand_lines, Preprocessable};
use hack_assembler::types::AsmError;

fn lines(xs: &[&str]) -> Vec<String> {
    xs.iter().map(|x| x.to_string()).collect()
}

const SETUP: [&str; 4] = ["@16383", "D=A-1", "M=D", "@0"];

#[test]
fn emits_setup_exactly_once_before_all_output() {
    let p = lines(&["@1"]).preprocess().unwrap();
    assert!(p.is_complete());
    assert_eq!(p.take_lines(), lines(&["@16383", "D=A-1", "M=D", "@0", "@1"]));
}

#[test]
fn no_directives_passes_input_through() {
    // Identity up to the setup prefix: text without directives comes back
    // unchanged.
    let input = ["@1", "D=A", "// note", "(L)", "@L", "0;JMP"];
    let p = lines(&input).preprocess().unwrap();
    let mut expected: Vec<String> = lines(&SETUP);
    expected.extend(lines(&input));
    assert_eq!(p.take_lines(), expected);
}

#[test]
fn call_and_ret_expand_to_documented_shapes() {
    let p = lines(&["#call subroutine", "#ret"]).preprocess().unwrap();
    let mut expected: Vec<String> = lines(&SETUP);
    expected.extend(lines(&[
        "// CALL subroutine",
        "@__RETURN_0",
        "D=A",
        "@16383",
        "A=M",
        "M=D",
        "@16383",
        "M=M-1",
        "@subroutine",
        "0;JMP",
        "(__RETURN_0)",
        "// RETURN",
        "@16383",
        "M=M+1",
        "A=M",
        "A=M",
        "0;JMP",
    ]));
    assert_eq!(p.take_lines(), expected);
}

#[test]
fn each_call_site_gets_a_fresh_return_label() {
    let p = lines(&["#call f", "#call g"]).preprocess().unwrap();
    let out = p.take_lines();
    assert!(out.contains(&"@__RETURN_0".to_string()));
    assert!(out.contains(&"(__RETURN_0)".to_string()));
    assert!(out.contains(&"@__RETURN_1".to_string()));
    assert!(out.contains(&"(__RETURN_1)".to_string()));
}

#[test]
fn directives_match_without_regard_to_case() {
    let p = lines(&["#CALL f"]).preprocess().unwrap();
    let out = p.take_lines();
    assert!(out.contains(&"@f".to_string()));
    assert!(out.contains(&"// CALL f".to_string()));
}

#[test]
fn call_without_target_is_malformed() {
    assert_eq!(
        lines(&["#call"]).preprocess().err(),
        Some(AsmError::MalformedDirective("#call".into()))
    );
    assert_eq!(
        lines(&["#include"]).preprocess().err(),
        Some(AsmError::MalformedDirective("#include".into()))
    );
}

#[test]
fn unknown_hash_line_passes_through() {
    let p = lines(&["#pragma"]).preprocess().unwrap();
    let mut expected: Vec<String> = lines(&SETUP);
    expected.push("#pragma".to_string());
    assert_eq!(p.take_lines(), expected);
}

#[test]
fn include_defers_the_file_and_expands_its_lines() {
    let mut p = lines(&["@1", "#include lib.asm", "@2"]).preprocess().unwrap();
    assert!(!p.is_complete());
    assert_eq!(p.pending_include(), Some("lib.asm".to_string()));
    p.supply_include(&lines(&["@3", "#call f"])).unwrap();
    assert!(p.is_complete());
    let out = p.take_lines();
    let mut expected: Vec<String> = lines(&SETUP);
    expected.extend(lines(&[
        "@1",
        "@2",
        "// INCLUDE lib.asm",
        "@3",
        "// CALL f",
        "@__RETURN_0",
        "D=A",
        "@16383",
        "A=M",
        "M=D",
        "@16383",
        "M=M-1",
        "@f",
        "0;JMP",
        "(__RETURN_0)",
    ]));
    assert_eq!(out, expected);
}

#[test]
fn nested_includes_queue_in_order() {
    let mut p = lines(&["#include a"]).preprocess().unwrap();
    p.supply_include(&lines(&["#include b", "@1"])).unwrap();
    assert_eq!(p.pending_include(), Some("b".to_string()));
    p.supply_include(&lines(&["@2"])).unwrap();
    assert!(p.is_complete());
}

#[test]
fn expand_lines_threads_the_call_counter() {
    let (out, k, inc) = expand_lines(&lines(&["#call f", "#include x", "#call g"]), 5).unwrap();
    assert_eq!(k, 7);
    assert_eq!(inc, lines(&["x"]));
    assert!(out.contains(&"@__RETURN_5".to_string()));
    assert!(out.contains(&"@__RETURN_6".to_string()));
}
