use hack_assembler::normalize::normalize_line;

#[test]
fn strips_whitespace_and_comments() {
    assert_eq!(normalize_line("  D = A  // load A"), "D=A");
    assert_eq!(normalize_line("@2\t"), "@2");
    assert_eq!(normalize_line("// only a comment"), "");
    assert_eq!(normalize_line("   "), "");
    assert_eq!(normalize_line(""), "");
    assert_eq!(normalize_line("M=M+1//inc"), "M=M+1");
}

#[test]
fn keeps_single_slashes() {
    assert_eq!(normalize_line("D|A / x"), "D|A/x");
    assert_eq!(normalize_line("/ /"), "//");
}
