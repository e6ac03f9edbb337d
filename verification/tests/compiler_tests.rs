//! Code-generator behaviour on the textual output: module layout,
//! string-constant pooling, label uniqueness, format selection.

use minicomp::ast::{Expression, Statement};
use minicomp::compiler::{Compiler, CodegenError};
use minicomp::lexer::Lexer;
use minicomp::parser::parse_program;

fn compile(src: &str) -> Result<Vec<String>, CodegenError> {
    let mut lexer = Lexer::new(src.to_string());
    let tokens = lexer.tokenise().unwrap();
    let ast = parse_program(&tokens).unwrap();
    let mut c = Compiler::new();
    c.compile(ast)
}

#[test]
fn whole_module_for_a_tiny_program() {
    let lines = compile("run main print 1 end").unwrap();
    let expected: Vec<String> = vec![
        format!("ex{}", "tern _printf"),
        format!("ex{}", "tern _fetch"),
        "section .rodata".to_string(),
        "fmt: db \"%ld\", 10, 0".to_string(),
        "fmt_str: db \"%s\", 10, 0".to_string(),
        "global _main".to_string(),
        "section .text".to_string(),
        "_main:".to_string(),
        "    push rbp".to_string(),
        "    mov rbp, rsp".to_string(),
        "    sub rsp, 0".to_string(),
        "    mov rax, 1".to_string(),
        "    mov rsi, rax".to_string(),
        "    lea rdi, [rel fmt]".to_string(),
        "    mov rax, 0".to_string(),
        "    call _printf".to_string(),
        "    mov rax, 0".to_string(),
        "epilogue_0:".to_string(),
        "    mov rsp, rbp".to_string(),
        "    pop rbp".to_string(),
        "    ret".to_string(),
    ];
    assert_eq!(lines, expected);
}

#[test]
fn compiling_twice_yields_identical_lines() {
    let src = "run main x = 1; while x < 3 do x = x + 1 end; print x; end";
    let first = compile(src).unwrap();
    let second = compile(src).unwrap();
    assert_eq!(first, second);
}

#[test]
fn same_literal_shares_one_data_entry() {
    let lines =
        compile("run main x = \"a\"; y = \"a\"; z = \"b\"; end").unwrap();
    let entries: Vec<&String> = lines.iter().filter(|l| l.starts_with("str_")).collect();
    assert_eq!(entries.len(), 2);
    assert_eq!(entries[0], "str_0: db \"a\", 0");
    assert_eq!(entries[1], "str_1: db \"b\", 0");
    let loads_a = lines.iter().filter(|l| *l == "    lea rax, [rel str_0]").count();
    assert_eq!(loads_a, 2);
}

#[test]
fn quotes_in_literals_are_escaped_in_the_data_section() {
    let lines = compile("run main x = \"a\"; end").unwrap();
    assert!(lines.contains(&"str_0: db \"a\", 0".to_string()));
}

#[test]
fn generated_labels_are_pairwise_distinct() {
    let thn = format!("th{}", "en");
    let src = format!(
        "run main x = 0; while x < 2 do x = x + 1 end; if x {} print 1 else print 0 end; if x {} print 2 end; end",
        thn, thn
    );
    let lines = compile(&src).unwrap();
    let labels: Vec<&String> = lines
        .iter()
        .filter(|l| l.ends_with(":") && !l.starts_with("_") && !l.starts_with("str"))
        .collect();
    assert!(labels.len() >= 6);
    for i in 0..labels.len() {
        for j in (i + 1)..labels.len() {
            assert_ne!(labels[i], labels[j]);
        }
    }
}

#[test]
fn non_entry_functions_are_exported() {
    let lines = compile("run f send 1 end run main print @f end").unwrap();
    assert!(lines.contains(&"global _f".to_string()));
    let main_globals = lines.iter().filter(|l| *l == "global _main").count();
    assert_eq!(main_globals, 1);
}

#[test]
fn each_variable_gets_one_slot_in_first_use_order() {
    let lines = compile("run main x = 1; y = 2; x = 3; end").unwrap();
    let x_stores = lines.iter().filter(|l| *l == "    mov [rbp - 8], rax").count();
    let y_stores = lines.iter().filter(|l| *l == "    mov [rbp - 16], rax").count();
    assert_eq!(x_stores, 2);
    assert_eq!(y_stores, 1);
    assert!(lines.contains(&"    sub rsp, 16".to_string()));
}

#[test]
fn parameters_spill_from_the_argument_registers() {
    let lines = compile("run f(a, b) send a + b end run main print @f(2, 3) end").unwrap();
    assert!(lines.contains(&"    mov [rbp - 8], rdi".to_string()));
    assert!(lines.contains(&"    mov [rbp - 16], rsi".to_string()));
    assert!(lines.contains(&"    pop rsi".to_string()));
    assert!(lines.contains(&"    pop rdi".to_string()));
    assert!(lines.contains(&"    call _f".to_string()));
}

#[test]
fn subtraction_corrects_operand_order() {
    let lines = compile("run main print 5 - 2 end").unwrap();
    let idx = lines.iter().position(|l| l == "    sub rcx, rax").unwrap();
    assert_eq!(lines[idx + 1], "    mov rax, rcx");
}

#[test]
fn comparison_compares_left_against_right() {
    let lines = compile("run main print 1 < 2 end").unwrap();
    let idx = lines.iter().position(|l| l == "    cmp rcx, rax").unwrap();
    assert_eq!(lines[idx + 1], "    setl al");
    assert_eq!(lines[idx + 2], "    movzx rax, al");
}

#[test]
fn string_assignment_selects_string_format() {
    let lines = compile("run main x = \"hi\"; print x; end").unwrap();
    assert!(lines.contains(&"    lea rdi, [rel fmt_str]".to_string()));
    assert!(!lines.contains(&"    lea rdi, [rel fmt]".to_string()));
}

#[test]
fn integer_reassignment_reselects_integer_format() {
    let lines = compile("run main x = \"hi\"; x = 1; print x; end").unwrap();
    assert!(lines.contains(&"    lea rdi, [rel fmt]".to_string()));
    assert!(!lines.contains(&"    lea rdi, [rel fmt_str]".to_string()));
}

#[test]
fn fetch_result_is_classified_as_string() {
    let lines = compile("run main x = @fetch(\"GET\", \"u\"); print x; end").unwrap();
    assert!(lines.contains(&"    call _fetch".to_string()));
    assert!(lines.contains(&"    lea rdi, [rel fmt_str]".to_string()));
}

#[test]
fn undefined_variable_is_fatal() {
    let err = compile("run main print x end").unwrap_err();
    assert_eq!(err, CodegenError::UndefinedVariable("x".to_string()));
}

#[test]
fn too_many_call_arguments_are_refused() {
    let err = compile("run main @f(1, 2, 3, 4, 5, 6, 7); end").unwrap_err();
    assert_eq!(err, CodegenError::TooManyArguments);
}

#[test]
fn too_many_parameters_are_refused() {
    let err = compile("run f(a, b, c, d, e, g, h) end").unwrap_err();
    assert_eq!(err, CodegenError::TooManyArguments);
}

#[test]
fn a_parameter_that_is_not_a_bare_name_is_an_unrecognized_shape() {
    let ast = vec![Statement::Function {
        name: "f".to_string(),
        params: vec![Expression::Integer(1)],
        body: vec![],
    }];
    let mut c = Compiler::new();
    let err = c.compile(ast).unwrap_err();
    assert_eq!(err, CodegenError::UnrecognizedShape);
}

#[test]
fn top_level_non_function_statements_are_skipped() {
    let lines = compile("x = 1; run main print 2 end").unwrap();
    assert!(!lines.contains(&"    mov rax, 1".to_string()));
    assert!(lines.contains(&"    mov rax, 2".to_string()));
}

#[test]
fn send_jumps_to_the_epilogue_label() {
    let lines = compile("run f send 7 end run main print @f end").unwrap();
    assert!(lines.contains(&"    jmp epilogue_0".to_string()));
    assert!(lines.contains(&"epilogue_0:".to_string()));
}
