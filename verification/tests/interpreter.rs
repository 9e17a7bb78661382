use befreak::interpreter::{run, RunStatus};
use befreak::program::Program;

fn run_src(src: &str, input: &str, max_steps: u64) -> (befreak::state::State, RunStatus) {
    let p = Program::from_str(src).unwrap();
    run(p, input.chars().collect(), max_steps)
}

#[test]
fn three_glyphs_halt_cleanly() {
    let (st, status) = run_src("  @", "", 100);
    assert_eq!(status, RunStatus::Halted);
    assert!(st.data_stack.is_empty());
    assert!(st.control_stack.is_empty());
    assert_eq!(st.location, (2, 0));
}

#[test]
fn literal_absorbs_and_increment_writes() {
    let (st, status) = run_src("(7'w@", "", 100);
    assert_eq!(status, RunStatus::Halted);
    assert!(st.data_stack.is_empty());
    assert_eq!(st.emitted, vec![8u8 as char]);
    assert_eq!(st.output_stack.last(), Some(8u8 as char));
}

#[test]
fn add_keeps_the_operand_on_top() {
    let (st, status) = run_src("((3+w@", "", 100);
    assert_eq!(status, RunStatus::Halted);
    assert_eq!(st.emitted, vec![3u8 as char]);
    assert_eq!(st.data_stack.last(), Some(3));
    assert_eq!(st.data_stack.len(), 1);
}

#[test]
fn reverse_round_trip_restores_the_stacks() {
    let (st, status) = run_src("('?\\\n ('/", "", 8);
    assert_eq!(status, RunStatus::OutOfSteps);
    assert!(st.data_stack.is_empty());
    assert!(st.control_stack.is_empty());
    assert!(st.reverse_mode);
    assert!(!st.string_mode);
    assert!(st.multi_digit_accumulator.is_empty());
}

#[test]
fn reverse_round_trip_midpoint_holds_the_forward_value() {
    let (st, status) = run_src("('?\\\n ('/", "", 3);
    assert_eq!(status, RunStatus::OutOfSteps);
    assert_eq!(st.data_stack.last(), Some(1));
    assert!(st.reverse_mode);
}

#[test]
fn multi_digit_literal_folds_once() {
    let (st, status) = run_src("(42'@", "", 100);
    assert_eq!(status, RunStatus::Halted);
    assert_eq!(st.data_stack.last(), Some(43));
    assert!(st.multi_digit_accumulator.is_empty());
}

#[test]
fn two_literals_make_a_sum() {
    let (st, status) = run_src("(2(3+@", "", 100);
    assert_eq!(status, RunStatus::Halted);
    assert_eq!(st.data_stack.get(0), Some(5));
    assert_eq!(st.data_stack.get(1), Some(3));
}

#[test]
fn subtract_undoes_add() {
    let (st, status) = run_src("(9(4-@", "", 100);
    assert_eq!(status, RunStatus::Halted);
    assert_eq!(st.data_stack.get(0), Some(5));
    assert_eq!(st.data_stack.get(1), Some(4));
}

#[test]
fn divide_pushes_quotient_remainder_divisor() {
    let (st, status) = run_src("(7(2%@", "", 100);
    assert_eq!(status, RunStatus::Halted);
    assert_eq!(st.data_stack.get(0), Some(3));
    assert_eq!(st.data_stack.get(1), Some(1));
    assert_eq!(st.data_stack.get(2), Some(2));
}

#[test]
fn multiply_recombines_quotient_and_remainder() {
    let (st, status) = run_src("(3(1(2*@", "", 100);
    assert_eq!(status, RunStatus::Halted);
    assert_eq!(st.data_stack.get(0), Some(7));
    assert_eq!(st.data_stack.get(1), Some(2));
}

#[test]
fn xor_keeps_the_operand() {
    let (st, status) = run_src("(6(3#@", "", 100);
    assert_eq!(status, RunStatus::Halted);
    assert_eq!(st.data_stack.get(0), Some(5));
    assert_eq!(st.data_stack.get(1), Some(3));
}

#[test]
fn control_stack_transfer_and_toggle() {
    let (st, status) = run_src("(([!@", "", 100);
    assert_eq!(status, RunStatus::Halted);
    assert_eq!(st.control_stack.last(), Some(1));
    assert_eq!(st.data_stack.last(), Some(0));
}

#[test]
fn string_mode_pushes_code_points() {
    let (st, status) = run_src("\"AB\"@", "", 100);
    assert_eq!(status, RunStatus::Halted);
    assert_eq!(st.data_stack.get(0), Some(65));
    assert_eq!(st.data_stack.get(1), Some(66));
    assert!(!st.string_mode);
}

#[test]
fn duplicate_then_pop_zero() {
    let (st, status) = run_src("(:;)@", "", 100);
    assert_eq!(status, RunStatus::Halted);
    assert!(st.data_stack.is_empty());
}

#[test]
fn reading_input_and_writing_it_back() {
    let (st, status) = run_src("rw@", "A", 100);
    assert_eq!(status, RunStatus::Halted);
    assert_eq!(st.emitted, vec!['A']);
    assert!(st.data_stack.is_empty());
}

#[test]
fn halt_under_reverse_mode_is_fatal() {
    let (_st, status) = run_src("?@", "", 100);
    assert_eq!(status, RunStatus::ReverseHalt);
}

#[test]
fn stuck_when_no_rule_matches() {
    let (st, status) = run_src("+", "", 100);
    assert_eq!(status, RunStatus::Stuck);
    assert_eq!(st.location, (0, 0));
}

#[test]
fn an_all_nop_grid_exhausts_the_budget() {
    let (_st, status) = run_src(" ", "", 5);
    assert_eq!(status, RunStatus::OutOfSteps);
}

#[test]
fn pointer_wraps_around_every_edge() {
    let (st, status) = run_src("\\@\n/\\", "", 100);
    assert_eq!(status, RunStatus::Halted);
    assert!(st.data_stack.is_empty());
}
