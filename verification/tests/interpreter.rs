use brainf::machine::{Interpreter, NewInterpreterError, TAPE_LEN};
use brainf::program::{build_instructions, build_loop_map, BuildLoopMapError, Instruction};

const BUDGET: usize = 1_000_000;

#[test]
fn loop_map_of_nested_source_is_an_involution() {
    let map = build_loop_map("[+[-]]").unwrap();
    assert_eq!(map[&0], 5);
    assert_eq!(map[&5], 0);
    assert_eq!(map[&2], 4);
    assert_eq!(map[&4], 2);
    assert_eq!(map.len(), 4);
    for (open, close) in &map {
        assert_eq!(map[close], *open);
    }
}

#[test]
fn loop_map_of_empty_and_loop_free_source_is_empty() {
    assert!(build_loop_map("").unwrap().is_empty());
    assert!(build_loop_map("+-<>.,").unwrap().is_empty());
}

#[test]
fn stray_close_reports_first_offending_offset() {
    assert_eq!(build_loop_map("]"), Err(BuildLoopMapError::StrayClose(0)));
    assert_eq!(build_loop_map("+]"), Err(BuildLoopMapError::StrayClose(1)));
    assert_eq!(build_loop_map("[]]]"), Err(BuildLoopMapError::StrayClose(2)));
}

#[test]
fn stray_close_offsets_ignore_comment_characters() {
    // Offsets count recognized symbols only, never raw characters.
    assert_eq!(build_loop_map("comment ]"), Err(BuildLoopMapError::StrayClose(0)));
    assert_eq!(build_loop_map("a+b]c"), Err(BuildLoopMapError::StrayClose(1)));
}

#[test]
fn stray_opens_reports_all_pending_offsets_in_order() {
    assert_eq!(build_loop_map("[["), Err(BuildLoopMapError::StrayOpens(vec![0, 1])));
    assert_eq!(build_loop_map("[]["), Err(BuildLoopMapError::StrayOpens(vec![2])));
    assert_eq!(build_loop_map("[[]"), Err(BuildLoopMapError::StrayOpens(vec![0])));
}

#[test]
fn build_instructions_translates_symbols_and_appends_halt() {
    let source = "+[-].,<>";
    let map = build_loop_map(source).unwrap();
    let instructions = build_instructions(source, &map);
    assert_eq!(
        instructions,
        vec![
            Instruction::Increment,
            Instruction::StartLoop(3),
            Instruction::Decrement,
            Instruction::EndLoop(1),
            Instruction::Output,
            Instruction::Input,
            Instruction::MoveLeft,
            Instruction::MoveRight,
            Instruction::Halt,
        ]
    );
}

#[test]
fn build_instructions_drops_comment_characters() {
    let source = "say + and [ loudly ] now .";
    let map = build_loop_map(source).unwrap();
    let instructions = build_instructions(source, &map);
    assert_eq!(
        instructions,
        vec![
            Instruction::Increment,
            Instruction::StartLoop(2),
            Instruction::EndLoop(1),
            Instruction::Output,
            Instruction::Halt,
        ]
    );
}

#[test]
fn new_starts_with_zeroed_state() {
    let program = Interpreter::new("+").unwrap();
    assert_eq!(program.instruction_pointer, 0);
    assert_eq!(program.data_pointer, 0);
    assert_eq!(program.tape.len(), TAPE_LEN);
    assert!(program.tape.iter().all(|&cell| cell == 0));
    assert_eq!(program.instructions, vec![Instruction::Increment, Instruction::Halt]);
}

#[test]
fn new_surfaces_structural_errors() {
    match Interpreter::new("]") {
        Err(NewInterpreterError::BuildLoopMap(e)) => {
            assert_eq!(e, BuildLoopMapError::StrayClose(0));
        }
        Ok(_) => panic!("expected a structural error"),
    }
    match Interpreter::new("[[]") {
        Err(NewInterpreterError::BuildLoopMap(e)) => {
            assert_eq!(e, BuildLoopMapError::StrayOpens(vec![0]));
        }
        Ok(_) => panic!("expected a structural error"),
    }
}

#[test]
fn incrementing_256_times_returns_cell_to_zero() {
    let source: String = "+".repeat(256);
    let mut program = Interpreter::new(&source).unwrap();
    program.run(&Vec::new(), BUDGET);
    assert!(program.halted());
    assert_eq!(program.tape[0], 0);
}

#[test]
fn decrementing_256_times_returns_cell_to_zero() {
    let source: String = "-".repeat(256);
    let mut program = Interpreter::new(&source).unwrap();
    program.run(&Vec::new(), BUDGET);
    assert!(program.halted());
    assert_eq!(program.tape[0], 0);
}

#[test]
fn decrementing_zero_wraps_to_255() {
    let mut program = Interpreter::new("-").unwrap();
    program.run(&Vec::new(), BUDGET);
    assert_eq!(program.tape[0], 255);
}

#[test]
fn moving_left_from_cell_zero_wraps_to_last_cell() {
    let mut program = Interpreter::new("<").unwrap();
    program.run(&Vec::new(), BUDGET);
    assert_eq!(program.data_pointer, TAPE_LEN - 1);
}

#[test]
fn moving_right_from_last_cell_wraps_to_cell_zero() {
    let mut program = Interpreter::new("<>").unwrap();
    program.run(&Vec::new(), BUDGET);
    assert_eq!(program.data_pointer, 0);
}

#[test]
fn zero_cell_loop_is_never_entered() {
    let mut program = Interpreter::new("[]").unwrap();
    let output = program.run(&Vec::new(), BUDGET);
    assert!(program.halted());
    // The instruction pointer stops immediately past the close, on the
    // halt sentinel.
    assert_eq!(program.instruction_pointer, 2);
    assert!(output.is_empty());
    assert!(program.tape.iter().all(|&cell| cell == 0));
    assert_eq!(program.data_pointer, 0);
}

#[test]
fn two_increments_and_output_emit_byte_two() {
    let mut program = Interpreter::new("++.").unwrap();
    let output = program.run(&Vec::new(), BUDGET);
    assert!(program.halted());
    assert_eq!(output, vec![2]);
    assert_eq!(char::from(output[0]), '\u{2}');
}

#[test]
fn countdown_loop_terminates_with_cell_back_at_zero() {
    let mut program = Interpreter::new("+[-]").unwrap();
    let output = program.run(&Vec::new(), BUDGET);
    assert!(program.halted());
    assert_eq!(program.tape[0], 0);
    assert!(output.is_empty());
}

#[test]
fn echo_program_echoes_its_input_byte() {
    let mut program = Interpreter::new(",.").unwrap();
    let output = program.run(&vec![65], BUDGET);
    assert!(program.halted());
    assert_eq!(output, vec![65]);
}

#[test]
fn exhausted_input_reads_as_zero() {
    let mut program = Interpreter::new(",.,.").unwrap();
    let output = program.run(&vec![7], BUDGET);
    assert!(program.halted());
    assert_eq!(output, vec![7, 0]);
}

#[test]
fn run_budget_suspends_a_nonterminating_program() {
    let mut program = Interpreter::new("+[]").unwrap();
    program.run(&Vec::new(), 1000);
    assert!(!program.halted());
}

#[test]
fn step_reports_liveness_and_halts_exactly_once() {
    let mut program = Interpreter::new("+").unwrap();
    let input = Vec::new();
    let mut in_pos = 0usize;
    let mut output = Vec::new();
    assert!(program.step(&input, &mut in_pos, &mut output));
    assert_eq!(program.tape[0], 1);
    assert!(!program.step(&input, &mut in_pos, &mut output));
    assert_eq!(program.instruction_pointer, 1);
    assert!(!program.step(&input, &mut in_pos, &mut output));
    assert!(output.is_empty());
}
