use umjunsik::compile_umjunsik;

#[test]
fn round_trip_determinism() {
    let source = "어떻게\n엄...\n식어!\n이 사람이름이냐";
    let a = compile_umjunsik(source).unwrap();
    let b = compile_umjunsik(source).unwrap();
    assert_eq!(a, b);
}

#[test]
fn end_to_end_print_five() {
    let source = "어떻게\n식.....!\n이 사람이름이냐";
    let ir = compile_umjunsik(source).unwrap();
    let expected = "fn @main() -> i64 {\n  entry:\n    jmp line_2\n\n  line_1:\n    jmp line_2\n\n  line_2:\n    %t0 = add.i64 5, 0\n    print %t0\n    ret.i64 0\n}\n";
    assert_eq!(ir, expected);
}

#[test]
fn constant_goto_resolves() {
    let source = "어떻게\n준...\n식ㅋ\n식ㅋ\n이 사람이름이냐";
    let ir = compile_umjunsik(source).unwrap();
    assert!(ir.contains("jmp line_3"));
}

#[test]
fn goto_with_variable_is_error() {
    let source = "어떻게\n준어\n이 사람이름이냐";
    assert!(compile_umjunsik(source).is_err());
}

#[test]
fn goto_nonpositive_is_error() {
    let source = "어떻게\n준,\n이 사람이름이냐";
    assert!(compile_umjunsik(source).is_err());
}

#[test]
fn conditional_branch_polarity() {
    let source = "어떻게\n동탄.?식.!\n이 사람이름이냐";
    let ir = compile_umjunsik(source).unwrap();
    assert!(ir.contains("%t1 = eq.i64 %t0, 0"));
    assert!(ir.contains("br %t1, then_0, else_0"));
    assert!(ir.contains("\n  then_0:\n"));
    assert!(ir.contains("\n  else_0:\n"));
}

#[test]
fn input_automaton_emitted() {
    let source = "어떻게\n엄식?\n이 사람이름이냐";
    let ir = compile_umjunsik(source).unwrap();
    assert!(ir.contains("input_skip_ws_0"));
    assert!(ir.contains("input_loop_0_proc"));
    assert!(ir.contains("readbyte"));
    assert!(ir.contains("= add.i64 32, 0"));
    assert!(ir.contains("= add.i64 48, 0"));
    assert!(ir.contains("store.i64 %var_ptr_1"));
}

#[test]
fn slots_allocated_exactly_for_used_vars() {
    let source = "어떻게\n엄...\n식어!\n이 사람이름이냐";
    let ir = compile_umjunsik(source).unwrap();
    assert!(ir.contains("%var_ptr_1 = alloc.ptr.stack i64"));
    assert!(!ir.contains("%var_ptr_0"));
    assert!(!ir.contains("%var_ptr_2"));
    assert!(ir.contains("load.i64 %var_ptr_1"));
}

#[test]
fn unexpected_character_is_error() {
    assert!(compile_umjunsik("어떻게\nx\n이 사람이름이냐").is_err());
}

#[test]
fn missing_program_start_is_error() {
    assert!(compile_umjunsik("식.....!").is_err());
}

#[test]
fn empty_program_returns_zero() {
    let source = "어떻게\n이 사람이름이냐";
    let ir = compile_umjunsik(source).unwrap();
    assert!(ir.contains("ret.i64 0"));
    assert!(ir.starts_with("fn @main() -> i64 {\n  entry:\n"));
    assert!(ir.ends_with("}\n"));
}

#[test]
fn multiplication_by_space() {
    let source = "어떻게\n식.. ...!\n이 사람이름이냐";
    let ir = compile_umjunsik(source).unwrap();
    assert!(ir.contains("mul.i64"));
}

#[test]
fn print_newline_statement() {
    let source = "어떻게\n식ㅋ\n이 사람이름이냐";
    let ir = compile_umjunsik(source).unwrap();
    assert!(ir.contains("= add.i64 10, 0"));
    assert!(ir.contains("writebyte"));
}

#[test]
fn one_line_program_with_tilde() {
    let source = "어떻게~식.!~화이팅!.\n이 사람이름이냐";
    let ir = compile_umjunsik(source).unwrap();
    let expected = "fn @main() -> i64 {\n  entry:\n    jmp line_1\n\n  line_1:\n    %t0 = add.i64 1, 0\n    print %t0\n    %t1 = add.i64 1, 0\n    ret.i64 %t1\n}\n";
    assert_eq!(ir, expected);
}

#[test]
fn same_line_statements_share_one_block() {
    let source = "어떻게~식.!~식..!\n이 사람이름이냐";
    let ir = compile_umjunsik(source).unwrap();
    assert_eq!(ir.matches("line_1:").count(), 1);
    assert_eq!(ir.matches("jmp line_1").count(), 1);
    assert!(ir.contains("print %t0"));
    assert!(ir.contains("print %t1"));
    assert!(ir.contains("ret.i64 0"));
}

#[test]
fn adjacent_terms_multiply() {
    let source = "어떻게\n엄..\n식어.어!\n이 사람이름이냐";
    let ir = compile_umjunsik(source).unwrap();
    assert!(ir.contains("mul.i64"));
}

#[test]
fn return_statement_ends_block() {
    let source = "어떻게\n화이팅!..\n이 사람이름이냐";
    let ir = compile_umjunsik(source).unwrap();
    assert!(ir.contains("%t0 = add.i64 2, 0"));
    assert!(ir.contains("ret.i64 %t0"));
}
