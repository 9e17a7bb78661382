use befreak::direction::Direction;
use befreak::instruction::InstructionExecutionStatus;
use befreak::program::Program;
use befreak::semantics::Rule;
use befreak::state::State;

fn state_for(src: &str) -> State {
    State::new(Program::from_str(src).unwrap(), Vec::new())
}

fn step(st: &mut State) -> InstructionExecutionStatus {
    let ins = st.instr();
    ins.execute(st)
}

#[test]
fn side_branch_pushes_one_and_turns() {
    let mut st = state_for("v");
    let status = step(&mut st);
    assert_eq!(status, InstructionExecutionStatus::Successful(Rule::BranchSide));
    assert_eq!(st.control_stack.last(), Some(1));
    assert_eq!(st.direction, Direction::South);
}

#[test]
fn side_branch_left_turn_pushes_zero() {
    let mut st = state_for("^");
    let status = step(&mut st);
    assert_eq!(status, InstructionExecutionStatus::Successful(Rule::BranchSide));
    assert_eq!(st.control_stack.last(), Some(0));
    assert_eq!(st.direction, Direction::North);
}

#[test]
fn opposite_branch_zero_turns_left() {
    let mut st = state_for("<");
    st.control_stack.push(0);
    let status = step(&mut st);
    assert_eq!(status, InstructionExecutionStatus::Successful(Rule::BranchOpposite));
    assert_eq!(st.direction, Direction::North);
    assert!(st.control_stack.is_empty());
}

#[test]
fn opposite_branch_one_turns_right() {
    let mut st = state_for("<");
    st.control_stack.push(1);
    let status = step(&mut st);
    assert_eq!(status, InstructionExecutionStatus::Successful(Rule::BranchOpposite));
    assert_eq!(st.direction, Direction::South);
}

#[test]
fn same_branch_toggles_bit_and_reverses() {
    let mut st = state_for(">");
    st.control_stack.push(0);
    let status = step(&mut st);
    assert_eq!(status, InstructionExecutionStatus::Successful(Rule::BranchSame));
    assert_eq!(st.control_stack.last(), Some(1));
    assert!(st.reverse_mode);
    assert_eq!(st.direction, Direction::West);
}

#[test]
fn mirror_back_reflects_east_to_south() {
    let mut st = state_for("\\");
    let status = step(&mut st);
    assert_eq!(status, InstructionExecutionStatus::Successful(Rule::MirrorBack));
    assert_eq!(st.direction, Direction::South);
}

#[test]
fn mirror_forward_reflects_east_to_north() {
    let mut st = state_for("/");
    let status = step(&mut st);
    assert_eq!(status, InstructionExecutionStatus::Successful(Rule::MirrorForward));
    assert_eq!(st.direction, Direction::North);
}

#[test]
fn write_emits_ascii_and_records_it() {
    let mut st = state_for("w");
    st.data_stack.push(65);
    let status = step(&mut st);
    assert_eq!(status, InstructionExecutionStatus::Successful(Rule::Write));
    assert!(st.data_stack.is_empty());
    assert_eq!(st.output_stack.last(), Some('A'));
    assert_eq!(st.emitted, vec!['A']);
}

#[test]
fn write_refuses_a_non_ascii_word() {
    let mut st = state_for("w");
    st.data_stack.push(-1);
    let status = step(&mut st);
    assert_eq!(status, InstructionExecutionStatus::Unsuccessful);
    assert_eq!(st.data_stack.last(), Some(-1));
}

#[test]
fn write_refuses_an_empty_stack() {
    let mut st = state_for("w");
    let status = step(&mut st);
    assert_eq!(status, InstructionExecutionStatus::Unsuccessful);
}

#[test]
fn unwrite_moves_output_back_to_data() {
    let mut st = state_for("w");
    st.reverse_mode = true;
    st.output_stack.push('A');
    let status = step(&mut st);
    assert_eq!(status, InstructionExecutionStatus::Successful(Rule::Unwrite));
    assert_eq!(st.data_stack.last(), Some(65));
    assert!(st.output_stack.is_empty());
    assert_eq!(st.location, (0, 0));
}

#[test]
fn read_takes_host_input_in_order() {
    let p = Program::from_str("rr@").unwrap();
    let mut st = State::new(p, vec!['h', 'i']);
    let s1 = step(&mut st);
    assert_eq!(s1, InstructionExecutionStatus::Successful(Rule::Read));
    assert_eq!(st.data_stack.last(), Some(104));
    let s2 = step(&mut st);
    assert_eq!(s2, InstructionExecutionStatus::Successful(Rule::Read));
    assert_eq!(st.data_stack.last(), Some(105));
    assert_eq!(st.data_stack.get(0), Some(104));
}

#[test]
fn read_prefers_the_input_buffer() {
    let p = Program::from_str("r").unwrap();
    let mut st = State::new(p, vec!['z']);
    st.input_stack.push('a');
    let status = step(&mut st);
    assert_eq!(status, InstructionExecutionStatus::Successful(Rule::Read));
    assert_eq!(st.data_stack.last(), Some(97));
    assert_eq!(st.host_input.last(), Some('z'));
}

#[test]
fn read_fails_at_end_of_input() {
    let mut st = state_for("r");
    let status = step(&mut st);
    assert_eq!(status, InstructionExecutionStatus::Unsuccessful);
}

#[test]
fn unread_buffers_a_printable_word() {
    let mut st = state_for("r");
    st.reverse_mode = true;
    st.data_stack.push(97);
    let status = step(&mut st);
    assert_eq!(status, InstructionExecutionStatus::Successful(Rule::Unread));
    assert_eq!(st.input_stack.last(), Some('a'));
    assert!(st.data_stack.is_empty());
}

#[test]
fn unread_refuses_a_control_word() {
    let mut st = state_for("r");
    st.reverse_mode = true;
    st.data_stack.push(9);
    let status = step(&mut st);
    assert_eq!(status, InstructionExecutionStatus::Unsuccessful);
    assert_eq!(st.data_stack.last(), Some(9));
}

#[test]
fn equal_toggles_on_equal_tops() {
    let mut st = state_for("=");
    st.data_stack.push(2);
    st.data_stack.push(2);
    st.control_stack.push(0);
    let status = step(&mut st);
    assert_eq!(status, InstructionExecutionStatus::Successful(Rule::Equal));
    assert_eq!(st.control_stack.last(), Some(1));
    assert_eq!(st.data_stack.len(), 2);
}

#[test]
fn equal_leaves_control_on_unequal_tops() {
    let mut st = state_for("=");
    st.data_stack.push(2);
    st.data_stack.push(3);
    st.control_stack.push(0);
    step(&mut st);
    assert_eq!(st.control_stack.last(), Some(0));
}

#[test]
fn less_compares_signed_values() {
    let mut st = state_for("l");
    st.data_stack.push(-5);
    st.data_stack.push(3);
    st.control_stack.push(0);
    let status = step(&mut st);
    assert_eq!(status, InstructionExecutionStatus::Successful(Rule::Less));
    assert_eq!(st.control_stack.last(), Some(1));
}

#[test]
fn greater_compares_second_against_top() {
    let mut st = state_for("g");
    st.data_stack.push(7);
    st.data_stack.push(3);
    st.control_stack.push(0);
    let status = step(&mut st);
    assert_eq!(status, InstructionExecutionStatus::Successful(Rule::Greater));
    assert_eq!(st.control_stack.last(), Some(1));
}

#[test]
fn not_complements_the_top() {
    let mut st = state_for("~");
    st.data_stack.push(0);
    let status = step(&mut st);
    assert_eq!(status, InstructionExecutionStatus::Successful(Rule::Not));
    assert_eq!(st.data_stack.last(), Some(-1));
}

#[test]
fn and_folds_into_the_third() {
    let mut st = state_for("&");
    st.data_stack.push(1);
    st.data_stack.push(6);
    st.data_stack.push(3);
    let status = step(&mut st);
    assert_eq!(status, InstructionExecutionStatus::Successful(Rule::And));
    assert_eq!(st.data_stack.get(0), Some((3 & 6) ^ 1));
    assert_eq!(st.data_stack.get(1), Some(6));
    assert_eq!(st.data_stack.get(2), Some(3));
}

#[test]
fn or_folds_into_the_third() {
    let mut st = state_for("|");
    st.data_stack.push(1);
    st.data_stack.push(6);
    st.data_stack.push(3);
    let status = step(&mut st);
    assert_eq!(status, InstructionExecutionStatus::Successful(Rule::Or));
    assert_eq!(st.data_stack.get(0), Some((3 | 6) ^ 1));
}

#[test]
fn rotate_left_by_top_modulo_width() {
    let mut st = state_for("{");
    st.data_stack.push(4);
    st.data_stack.push(1);
    let status = step(&mut st);
    assert_eq!(status, InstructionExecutionStatus::Successful(Rule::RotateLeft));
    assert_eq!(st.data_stack.get(0), Some(8));
    assert_eq!(st.data_stack.get(1), Some(1));
}

#[test]
fn rotate_right_carries_bits_around() {
    let mut st = state_for("}");
    st.data_stack.push(1);
    st.data_stack.push(1);
    let status = step(&mut st);
    assert_eq!(status, InstructionExecutionStatus::Successful(Rule::RotateRight));
    assert_eq!(st.data_stack.get(0), Some(i32::MIN));
}

#[test]
fn divide_wraps_only_on_the_smallest_word() {
    let mut st = state_for("%");
    st.data_stack.push(i32::MIN);
    st.data_stack.push(-1);
    let status = step(&mut st);
    assert_eq!(status, InstructionExecutionStatus::Successful(Rule::Divide));
    assert_eq!(st.data_stack.get(0), Some(i32::MIN));
    assert_eq!(st.data_stack.get(1), Some(0));
    assert_eq!(st.data_stack.get(2), Some(-1));
}

#[test]
fn divide_truncates_toward_zero() {
    let mut st = state_for("%");
    st.data_stack.push(-7);
    st.data_stack.push(2);
    step(&mut st);
    assert_eq!(st.data_stack.get(0), Some(-3));
    assert_eq!(st.data_stack.get(1), Some(-1));
    assert_eq!(st.data_stack.get(2), Some(2));
}

#[test]
fn under_removes_the_top_only_when_it_matches_the_third() {
    let mut st = state_for("u");
    st.data_stack.push(5);
    st.data_stack.push(9);
    st.data_stack.push(5);
    let status = step(&mut st);
    assert_eq!(status, InstructionExecutionStatus::Successful(Rule::Under));
    assert_eq!(st.data_stack.len(), 2);
    assert_eq!(st.data_stack.last(), Some(9));
}

#[test]
fn under_is_stuck_when_the_top_differs() {
    let mut st = state_for("u");
    st.data_stack.push(5);
    st.data_stack.push(9);
    st.data_stack.push(6);
    assert_eq!(step(&mut st), InstructionExecutionStatus::Unsuccessful);
}

#[test]
fn dig_and_bury_rotate_three() {
    let mut st = state_for("d");
    st.data_stack.push(1);
    st.data_stack.push(2);
    st.data_stack.push(3);
    step(&mut st);
    assert_eq!(
        (st.data_stack.get(0), st.data_stack.get(1), st.data_stack.get(2)),
        (Some(2), Some(3), Some(1))
    );
    let mut st2 = state_for("b");
    st2.data_stack.push(2);
    st2.data_stack.push(3);
    st2.data_stack.push(1);
    step(&mut st2);
    assert_eq!(
        (st2.data_stack.get(0), st2.data_stack.get(1), st2.data_stack.get(2)),
        (Some(1), Some(2), Some(3))
    );
}

#[test]
fn flip_reverses_the_top_three() {
    let mut st = state_for("f");
    st.data_stack.push(1);
    st.data_stack.push(2);
    st.data_stack.push(3);
    step(&mut st);
    assert_eq!(
        (st.data_stack.get(0), st.data_stack.get(1), st.data_stack.get(2)),
        (Some(3), Some(2), Some(1))
    );
}

#[test]
fn swap_second_third_leaves_the_top() {
    let mut st = state_for("c");
    st.data_stack.push(1);
    st.data_stack.push(2);
    st.data_stack.push(3);
    step(&mut st);
    assert_eq!(
        (st.data_stack.get(0), st.data_stack.get(1), st.data_stack.get(2)),
        (Some(2), Some(1), Some(3))
    );
}

#[test]
fn over_copies_the_second_onto_the_top() {
    let mut st = state_for("o");
    st.data_stack.push(4);
    st.data_stack.push(7);
    step(&mut st);
    assert_eq!(
        (st.data_stack.get(0), st.data_stack.get(1), st.data_stack.get(2)),
        (Some(4), Some(7), Some(4))
    );
}

#[test]
fn increment_wraps_at_the_top_of_the_range() {
    let mut st = state_for("'");
    st.data_stack.push(i32::MAX);
    step(&mut st);
    assert_eq!(st.data_stack.last(), Some(i32::MIN));
}

#[test]
fn interchange_swaps_the_stack_tops() {
    let mut st = state_for("$");
    st.data_stack.push(1);
    st.control_stack.push(2);
    let status = step(&mut st);
    assert_eq!(status, InstructionExecutionStatus::Successful(Rule::Interchange));
    assert_eq!(st.data_stack.last(), Some(2));
    assert_eq!(st.control_stack.last(), Some(1));
}

#[test]
fn digit_end_is_stuck_when_the_literal_overflows() {
    let p = Program::from_str("(99999999999'@").unwrap();
    let (st, status) = befreak::interpreter::run(p, Vec::new(), 100);
    assert_eq!(status, befreak::interpreter::RunStatus::Stuck);
    assert_eq!(st.multi_digit_accumulator.len(), 11);
}

#[test]
fn digit_under_reverse_mode_prepends() {
    let mut st = state_for("5");
    st.reverse_mode = true;
    st.multi_digit_accumulator.push(b'7');
    let status = step(&mut st);
    assert_eq!(status, InstructionExecutionStatus::Successful(Rule::DigitInv));
    assert_eq!(st.multi_digit_accumulator, vec![b'5', b'7']);
}

#[test]
fn string_pop_consumes_a_matching_code_point() {
    let mut st = state_for("A");
    st.string_mode = true;
    st.reverse_mode = true;
    st.data_stack.push(65);
    let status = step(&mut st);
    assert_eq!(status, InstructionExecutionStatus::Successful(Rule::StringPop));
    assert!(st.data_stack.is_empty());
    assert!(st.string_mode);
}

#[test]
fn string_pop_is_stuck_on_a_mismatch() {
    let mut st = state_for("A");
    st.string_mode = true;
    st.reverse_mode = true;
    st.data_stack.push(66);
    assert_eq!(step(&mut st), InstructionExecutionStatus::Unsuccessful);
}

#[test]
fn string_pop_matches_the_inverted_glyph() {
    let mut st = state_for("(");
    st.string_mode = true;
    st.reverse_mode = true;
    st.data_stack.push(b')' as i32);
    let status = step(&mut st);
    assert_eq!(status, InstructionExecutionStatus::Successful(Rule::StringPop));
    assert!(st.data_stack.is_empty());
}

#[test]
fn pop_is_stuck_on_a_non_zero_top() {
    let mut st = state_for(")");
    st.data_stack.push(1);
    assert_eq!(step(&mut st), InstructionExecutionStatus::Unsuccessful);
    assert_eq!(st.data_stack.last(), Some(1));
}

#[test]
fn unduplicate_is_stuck_on_unequal_tops() {
    let mut st = state_for(";");
    st.data_stack.push(1);
    st.data_stack.push(2);
    assert_eq!(step(&mut st), InstructionExecutionStatus::Unsuccessful);
}

#[test]
fn transfers_move_the_top_between_stacks() {
    let mut st = state_for("[");
    st.data_stack.push(7);
    let status = step(&mut st);
    assert_eq!(status, InstructionExecutionStatus::Successful(Rule::TransferDataControl));
    assert!(st.data_stack.is_empty());
    assert_eq!(st.control_stack.last(), Some(7));
    let mut st2 = state_for("]");
    st2.control_stack.push(9);
    let status2 = step(&mut st2);
    assert_eq!(status2, InstructionExecutionStatus::Successful(Rule::TransferControlData));
    assert_eq!(st2.data_stack.last(), Some(9));
    assert!(st2.control_stack.is_empty());
}

#[test]
fn halt_glyph_is_pushed_in_string_mode() {
    let mut st = state_for("@");
    st.string_mode = true;
    let status = step(&mut st);
    assert_eq!(status, InstructionExecutionStatus::Successful(Rule::StringPush));
    assert_eq!(st.data_stack.last(), Some(64));
}

#[test]
fn reverse_glyph_toggles_the_mode() {
    let mut st = state_for("?");
    let status = step(&mut st);
    assert_eq!(status, InstructionExecutionStatus::Successful(Rule::Reverse));
    assert!(st.reverse_mode);
}
