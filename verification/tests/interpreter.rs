use brainfuck::brackets::build_pc_map;
use brainfuck::engine::run;
use brainfuck::engine::run_bounded;
use brainfuck::error::BfError;
use brainfuck::state::BfState;
use brainfuck::tape::GrowableVec;

// GrowableVec

#[test]
fn can_index_growable_vects() {
    let mut vect = GrowableVec::new();
    vect.write_at(0, 33);
    assert_eq!(vect.read_at(0), 33);
}

#[test]
fn growable_vects_have_sensible_index_defaults() {
    let vect = GrowableVec::new();
    assert_eq!(vect.read_at(0), 0);
    assert_eq!(vect.read_at(33), 0);
}

#[test]
fn tape_reads_independent_of_write_order_and_growth() {
    let mut vect = GrowableVec::new();
    vect.write_at(5, 7);
    assert_eq!(vect.read_at(5), 7);
    assert_eq!(vect.read_at(0), 0);
    assert_eq!(vect.read_at(4), 0);
    assert_eq!(vect.read_at(100), 0);
    vect.write_at(2, 9);
    assert_eq!(vect.read_at(2), 9);
    assert_eq!(vect.read_at(5), 7);
}

// BfState

#[test]
fn test_inc() {
    let mut state = BfState::new();
    state.inc();
    assert_eq!(state.curr(), 1);
    state.inc();
    assert_eq!(state.curr(), 2);
}

#[test]
fn test_dec() {
    let mut state = BfState::new();
    let p = state.pointer;
    state.memory.write_at(p, 200);
    state.dec();
    assert_eq!(state.curr(), 199);
    state.dec();
    assert_eq!(state.curr(), 198);
}

#[test]
fn test_curr() {
    let mut state = BfState::new();
    assert_eq!(state.curr(), 0);

    state.pointer = 13;
    assert_eq!(state.curr(), 0);
    let p = state.pointer;
    state.memory.write_at(p, 40);
    assert_eq!(state.curr(), 40);
}

#[test]
fn increment_overflow_test() {
    let mut state = BfState::new();
    state.memory.write_at(0, 255);
    state.inc();
    assert_eq!(state.curr(), 0);
}

#[test]
fn decrement_underflow_test() {
    let mut state = BfState::new();
    state.memory.write_at(0, 0);
    state.dec();
    assert_eq!(state.curr(), 255);
}

#[test]
fn set_curr_test() {
    let mut state = BfState::new();
    state.set_curr(10);
    assert_eq!(state.curr(), 10);
}

#[test]
fn right() {
    let mut state = BfState::new();
    assert_eq!(state.pointer, 0);
    state.right();
    assert_eq!(state.pointer, 1);
    state.right();
    assert_eq!(state.pointer, 2);
}

#[test]
fn run_left() {
    let mut state = BfState::new();
    state.pointer = 200;
    assert!(state.left().is_ok());
    assert_eq!(state.pointer, 199);
    assert!(state.left().is_ok());
    assert_eq!(state.pointer, 198);
}

#[test]
fn left_at_zero_fails_with_tape_underflow() {
    let mut state = BfState::new();
    assert_eq!(state.left(), Err(BfError::Segfault));
    assert_eq!(state.pointer, 0);
}

// run

#[test]
fn run_left_handle_segfault() {
    let mut state = BfState::new();
    let result = run("<", &mut state);
    assert!(result.is_err());
    assert_eq!(result.err(), Some(BfError::Segfault));
}

#[test]
fn run_propagates_segfault_err() {
    let result = run("<", &mut BfState::new());
    assert!(result.is_err());
    assert_eq!(result.err(), Some(BfError::Segfault));
}

#[test]
fn run_ok_on_empty_program() {
    assert!(run("", &mut BfState::new()).is_ok());
}

#[test]
fn run_empty_program_touches_nothing() {
    let mut state = BfState::new();
    assert!(run("", &mut state).is_ok());
    assert!(state.output.is_empty());
    assert_eq!(state.pointer, 0);
    assert_eq!(state.curr(), 0);
    assert_eq!(state.memory.read_at(0), 0);
}

#[test]
fn run_empty_loop() {
    let mut state = BfState::new();
    assert!(run("[]", &mut state).is_ok());
}

#[test]
fn run_nonempty_loop() {
    let mut state = BfState::new();
    assert!(run("++[>+<-]", &mut state).is_ok());
    assert_eq!(state.memory.read_at(0), 0);
    assert_eq!(state.memory.read_at(1), 2);
}

#[test]
fn run_loop_with_overflow() {
    let mut state = BfState::new();
    assert!(run("-[->+<]", &mut state).is_ok());
    assert_eq!(state.memory.read_at(0), 0);
    assert_eq!(state.memory.read_at(1), 255);

    state = BfState::new();
    assert!(run("[+]", &mut state).is_ok());
    assert!(run("+[+>+<]", &mut state).is_ok());
    assert_eq!(state.memory.read_at(0), 0);
    assert_eq!(state.memory.read_at(1), 255);
}

#[test]
fn run_noop_loop() {
    assert!(run("[<]", &mut BfState::new()).is_ok());
}

#[test]
fn run_nested_loops() {
    let mut state = BfState::new();
    assert!(run("-[->+<]", &mut state).is_ok());
    assert_eq!(state.memory.read_at(0), 0);
    assert_eq!(state.memory.read_at(1), 255);
}

#[test]
fn run_fails_on_mismatched_parens() {
    let mut state = BfState::new();
    let mut result = run("[]]", &mut state);
    assert!(result.is_err());
    assert_eq!(result.err(), Some(BfError::MismatchedBraces));

    result = run("[[]", &mut state);
    assert!(result.is_err());
    assert_eq!(result.err(), Some(BfError::MismatchedBraces));

    result = run("]", &mut state);
    assert!(result.is_err());
    assert_eq!(result.err(), Some(BfError::MismatchedBraces));
}

#[test]
fn run_nontrivial_empty_loops() {
    assert!(run("[[[]]]", &mut BfState::new()).is_ok());
    assert!(run("[][][]", &mut BfState::new()).is_ok());
}

#[test]
fn well_bracketed_programs_validate_without_tape_mutation() {
    for program in ["[]", "[[]]", "[][]", "[[[]]]"] {
        let mut state = BfState::new();
        assert!(run(program, &mut state).is_ok());
        assert!(state.output.is_empty());
        assert_eq!(state.pointer, 0);
        assert_eq!(state.memory.read_at(0), 0);
        assert_eq!(state.memory.read_at(1), 0);
    }
}

#[test]
fn build_pc_map_pairs_brackets() {
    let map = build_pc_map("[]").unwrap();
    assert_eq!(map, vec![1, 0]);
    let map = build_pc_map("+[->[]<]").unwrap();
    assert_eq!(map, vec![0, 7, 0, 0, 5, 4, 0, 1]);
    assert_eq!(build_pc_map("]["), Err(BfError::MismatchedBraces));
    assert_eq!(build_pc_map("["), Err(BfError::MismatchedBraces));
}

#[test]
fn mismatched_programs_leave_the_state_untouched() {
    let mut state = BfState::new();
    assert_eq!(run("++]", &mut state).err(), Some(BfError::MismatchedBraces));
    assert_eq!(state.curr(), 0);
    assert!(state.output.is_empty());
}

// input and output

#[test]
fn dot_emits_the_current_cell() {
    let mut state = BfState::new();
    assert!(run("+++.", &mut state).is_ok());
    assert_eq!(state.output, vec![3]);
}

#[test]
fn comma_reads_successive_input_bytes() {
    let mut state = BfState::new();
    state.input = vec![65, 66];
    assert!(run(",.>,.", &mut state).is_ok());
    assert_eq!(state.output, vec![65, 66]);
    assert_eq!(state.memory.read_at(0), 65);
    assert_eq!(state.memory.read_at(1), 66);
}

#[test]
fn comma_on_exhausted_input_fails() {
    let mut state = BfState::new();
    let result = run(",", &mut state);
    assert_eq!(result.err(), Some(BfError::InputExhausted));

    let mut state = BfState::new();
    state.input = vec![9];
    let result = run(",.,", &mut state);
    assert_eq!(result.err(), Some(BfError::InputExhausted));
    // the partial output from before the failure stays visible
    assert_eq!(state.output, vec![9]);
}

// dialect policy: characters outside the eight instructions are comments

#[test]
fn unknown_characters_are_skipped() {
    let mut state = BfState::new();
    assert!(run("x", &mut state).is_ok());
    assert_eq!(state.curr(), 0);
    assert!(state.output.is_empty());

    let mut state = BfState::new();
    assert!(run("+x y\n+", &mut state).is_ok());
    assert_eq!(state.curr(), 2);
}

// purity: a second run of the same program from a fresh state agrees

#[test]
fn reruns_are_byte_identical() {
    let program = "++[>+<-]>.<.";
    let mut first = BfState::new();
    let mut second = BfState::new();
    assert!(run(program, &mut first).is_ok());
    assert!(run(program, &mut second).is_ok());
    assert_eq!(first.output, second.output);
    assert_eq!(first.pointer, second.pointer);
    for p in 0..8 {
        assert_eq!(first.memory.read_at(p), second.memory.read_at(p));
    }
}

#[test]
fn right_at_the_top_of_the_cursor_range_is_not_a_segfault() {
    let mut state = BfState::new();
    state.pointer = usize::MAX - 1;
    assert_eq!(run(">", &mut state).err(), Some(BfError::CursorOverflow));
    assert_eq!(state.pointer, usize::MAX - 1);

    let mut state = BfState::new();
    state.pointer = usize::MAX - 2;
    assert!(run(">", &mut state).is_ok());
    assert_eq!(state.pointer, usize::MAX - 1);
}

// the step budget

#[test]
fn bounded_run_stops_an_endless_loop() {
    let mut state = BfState::new();
    assert_eq!(run_bounded("+[]", &mut state, 1000).err(), Some(BfError::StepLimit));
}

#[test]
fn bounded_run_finishes_within_its_budget() {
    let mut state = BfState::new();
    assert!(run_bounded("++", &mut state, 2).is_ok());
    assert_eq!(state.curr(), 2);

    let mut state = BfState::new();
    assert_eq!(run_bounded("++", &mut state, 1).err(), Some(BfError::StepLimit));
}
