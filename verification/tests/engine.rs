use braincooker::eval_instr;
use braincooker::DisplayMode;
use braincooker::InstructionSet;
use braincooker::Interpreter;
use braincooker::RunOutcome;

fn run_to_end(instr: &InstructionSet, mode: DisplayMode) -> Vec<u8> {
    let mut interp = Interpreter::<u16, u8>::builder()
        .display_mode(mode)
        .build::<u16, u8>();
    let outcome = interp.run_for(instr, u64::MAX);
    assert_eq!(outcome, RunOutcome::Finished);
    interp.take_output()
}

#[test]
fn engine_numeric_output() {
    let instr = eval_instr("++>+++++[<+>-]++++++++[<++++++>-]<.").expect("Unreachable");
    let output = run_to_end(&instr, DisplayMode::Numeric);

    assert_eq!(output, b"55\n");
}

#[test]
fn engine_ascii_output() {
    let instr = eval_instr("++>+++++[<+>-]++++++++[<++++++>-]<.").expect("Unreachable");
    let output = run_to_end(&instr, DisplayMode::ASCII);

    assert_eq!(output, b"7\n");
}

#[test]
fn engine_jump_advances_past_partner() {
    // The jump to a loop boundary lands on the partner's index and the
    // universal advance then moves one past it: the closing at index 2
    // is not re-tested, and the output instruction inside the skipped
    // loop never runs.
    let instr = eval_instr("[.]+.").expect("Unreachable");
    let output = run_to_end(&instr, DisplayMode::Numeric);

    assert_eq!(output, b"1\n");
}

#[test]
fn engine_falls_through_closed_loop() {
    let instr = eval_instr("+[-]+.").expect("Unreachable");
    let output = run_to_end(&instr, DisplayMode::Numeric);

    assert_eq!(output, b"1\n");
}

#[test]
fn engine_ascii_hex_fallback() {
    let instr = eval_instr(&format!("{}.", "+".repeat(200))).expect("Unreachable");
    let output = run_to_end(&instr, DisplayMode::ASCII);

    assert_eq!(output, b"0xC8\n");
}

#[test]
fn engine_ascii_hex_width_follows_cell_bytes() {
    let instr = eval_instr(&format!("{}.", "+".repeat(200))).expect("Unreachable");
    let mut interp = Interpreter::<u8, u16>::builder()
        .display_mode(DisplayMode::ASCII)
        .build::<u8, u16>();
    assert_eq!(interp.run_for(&instr, u64::MAX), RunOutcome::Finished);

    assert_eq!(interp.take_output(), b"0x00C8\n");
}

#[test]
fn engine_pauses_on_exhausted_budget() {
    let instr = eval_instr("+[]").expect("Unreachable");
    let mut interp = Interpreter::<u16, u8>::builder().build::<u16, u8>();
    let outcome = interp.run_for(&instr, 1000);

    assert_eq!(outcome, RunOutcome::Paused);
}

#[test]
fn engine_reads_numeric_input() {
    let instr = eval_instr(",.").expect("Unreachable");
    let mut interp = Interpreter::<u16, u8>::builder()
        .display_mode(DisplayMode::Numeric)
        .build::<u16, u8>();

    assert_eq!(interp.run_for(&instr, u64::MAX), RunOutcome::NeedInput);
    assert!(interp.feed_line(&instr, "66\n"));
    assert_eq!(interp.run_for(&instr, u64::MAX), RunOutcome::Finished);
    assert_eq!(interp.take_output(), b"66\n");
}

#[test]
fn engine_reads_character_input() {
    let instr = eval_instr(",.").expect("Unreachable");
    let mut interp = Interpreter::<u16, u8>::builder()
        .display_mode(DisplayMode::ASCII)
        .build::<u16, u8>();

    assert_eq!(interp.run_for(&instr, u64::MAX), RunOutcome::NeedInput);
    assert!(interp.feed_line(&instr, "'B'"));
    assert_eq!(interp.run_for(&instr, u64::MAX), RunOutcome::Finished);
    assert_eq!(interp.take_output(), b"B\n");
}

#[test]
fn engine_rejects_malformed_input_line() {
    let instr = eval_instr(",.").expect("Unreachable");
    let mut interp = Interpreter::<u16, u8>::builder()
        .display_mode(DisplayMode::Numeric)
        .build::<u16, u8>();

    assert_eq!(interp.run_for(&instr, u64::MAX), RunOutcome::NeedInput);
    assert!(!interp.feed_line(&instr, "not a number"));
    assert!(!interp.feed_line(&instr, "300"));
    assert!(interp.feed_line(&instr, "  255  \n"));
    assert_eq!(interp.run_for(&instr, u64::MAX), RunOutcome::Finished);
    assert_eq!(interp.take_output(), b"255\n");
}

#[test]
fn engine_take_output_empties_buffer() {
    let instr = eval_instr("+.").expect("Unreachable");
    let mut interp = Interpreter::<u16, u8>::builder()
        .display_mode(DisplayMode::Numeric)
        .build::<u16, u8>();
    assert_eq!(interp.run_for(&instr, u64::MAX), RunOutcome::Finished);

    assert_eq!(interp.take_output(), b"1\n");
    assert_eq!(interp.take_output(), b"");
}

#[test]
fn engine_counts_executed_instructions() {
    let instr = eval_instr("+[-]+.").expect("Unreachable");
    let mut interp = Interpreter::<u16, u8>::builder()
        .display_mode(DisplayMode::Numeric)
        .build::<u16, u8>();
    assert_eq!(interp.run_for(&instr, u64::MAX), RunOutcome::Finished);

    assert_eq!(interp.executed_count(), 6);
}

#[test]
fn engine_empty_program_finishes_with_newline() {
    let instr = eval_instr("").expect("Unreachable");
    let output = run_to_end(&instr, DisplayMode::Numeric);

    assert_eq!(output, b"\n");
}

#[test]
fn jump_table_symmetry() {
    let instr = eval_instr("[[]][]").expect("Unreachable");
    let table = instr.build_jump_table();

    assert_eq!(table.len(), 6);
    assert_eq!(table.get(0), 3);
    assert_eq!(table.get(3), 0);
    assert_eq!(table.get(1), 2);
    assert_eq!(table.get(2), 1);
    assert_eq!(table.get(4), 5);
    assert_eq!(table.get(5), 4);

    let loop_indices = [0usize, 1, 2, 3, 4, 5];
    for i in loop_indices {
        assert!(table.contains(i));
        assert_eq!(table.get(table.get(i)), i);
    }
}

#[test]
fn jump_table_skips_other_instructions() {
    let instr = eval_instr("+[-]>").expect("Unreachable");
    let table = instr.build_jump_table();

    assert_eq!(table.len(), 2);
    assert!(!table.contains(0));
    assert!(table.contains(1));
    assert!(!table.contains(2));
    assert!(table.contains(3));
    assert!(!table.contains(4));
    assert_eq!(table.get(1), 3);
    assert_eq!(table.get(3), 1);
}

#[test]
fn jump_table_empty_program() {
    let instr = eval_instr("+-><.,").expect("Unreachable");
    let table = instr.build_jump_table();

    assert_eq!(table.len(), 0);
}
