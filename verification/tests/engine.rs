use brainfrick::BrainFuck;

const OPEN_MESSAGE: &str = "A matching \"]\" could not be found.";
const CLOSE_MESSAGE: &str = "A matching \"[\" could not be found.";

fn limit_message(budget: usize) -> String {
    format!(
        "Exceeded maximum steps ({}), the program may be stuck in a loop.",
        budget
    )
}

fn bytes_as_text(bytes: &[u8]) -> String {
    let mut text = String::new();
    for b in bytes {
        text.push(*b as char);
    }
    text
}

#[test]
fn empty_program_prints_nothing() {
    let mut engine = BrainFuck::new(1, "", 0);
    assert_eq!(engine.run(""), Ok(String::new()));
}

#[test]
fn other_characters_are_ignored() {
    let mut engine = BrainFuck::new(4, "", 100);
    assert_eq!(
        engine.run("add one + then print . \n done"),
        Ok(bytes_as_text(&[1]))
    );
}

#[test]
fn program_is_read_character_by_character() {
    // The jump targets are positions of characters, not of bytes.
    let mut engine = BrainFuck::new(4, "", 100);
    assert_eq!(
        engine.run("\u{e9}++[\u{2192}>+\u{1f600}<-]>."),
        Ok(bytes_as_text(&[2]))
    );
}

#[test]
fn increment_wraps_from_255_to_0() {
    let mut program = String::new();
    for _ in 0..255 {
        program.push('+');
    }
    program.push_str(".+.");
    let mut engine = BrainFuck::new(1, "", 1000);
    assert_eq!(engine.run(&program), Ok(bytes_as_text(&[255, 0])));
}

#[test]
fn decrement_wraps_from_0_to_255() {
    let mut engine = BrainFuck::new(1, "", 10);
    assert_eq!(engine.run(".-.+."), Ok(bytes_as_text(&[0, 255, 0])));
}

#[test]
fn left_of_first_cell_is_last_cell() {
    // Marks the last of three cells by going left, then reaches it again by
    // going right twice from the first.
    let mut engine = BrainFuck::new(3, "", 100);
    assert_eq!(engine.run("<+++>>>."), Ok(bytes_as_text(&[3])));
    let mut engine = BrainFuck::new(3, "", 100);
    assert_eq!(engine.run("<+++>.>.>."), Ok(bytes_as_text(&[0, 0, 3])));
}

#[test]
fn right_of_last_cell_is_first_cell() {
    let mut engine = BrainFuck::new(3, "", 100);
    assert_eq!(engine.run("+>++>+++>.>.>."), Ok(bytes_as_text(&[1, 2, 3])));
}

#[test]
fn tape_of_one_cell_wraps_onto_itself() {
    let mut engine = BrainFuck::new(1, "", 100);
    assert_eq!(engine.run("+>+<+<+."), Ok(bytes_as_text(&[4])));
}

#[test]
fn input_is_read_byte_by_byte_then_zero() {
    let mut engine = BrainFuck::new(8, "hi", 100);
    assert_eq!(engine.run(",.,.,.+.,."), Ok(bytes_as_text(&[104, 105, 0, 1, 0])));
}

#[test]
fn input_is_read_as_raw_bytes() {
    // U+00E9 is two bytes in UTF-8: 0xC3, 0xA9.
    let mut engine = BrainFuck::new(8, "\u{e9}", 100);
    assert_eq!(engine.run(",.,.,."), Ok(bytes_as_text(&[0xc3, 0xa9, 0])));
}

#[test]
fn output_holds_one_character_per_cell_value() {
    let mut engine = BrainFuck::new(2, "", 100);
    let printed = engine.run("-.").unwrap();
    assert_eq!(printed.chars().count(), 1);
    assert_eq!(printed.chars().next(), Some('\u{ff}'));
    assert_eq!(printed.len(), 2);
}

#[test]
fn loop_is_skipped_on_zero() {
    let mut engine = BrainFuck::new(4, "", 100);
    assert_eq!(engine.run("[+.]+."), Ok(bytes_as_text(&[1])));
}

#[test]
fn skip_goes_to_the_matching_bracket() {
    // The skipped loop holds a loop of its own: the scan has to pass the
    // inner `]` and stop at the outer one.
    let mut engine = BrainFuck::new(4, "", 100);
    assert_eq!(engine.run("[+[.].]++."), Ok(bytes_as_text(&[2])));
}

#[test]
fn loop_repeats_until_zero() {
    let mut engine = BrainFuck::new(4, "", 100);
    assert_eq!(engine.run("+++[.-]."), Ok(bytes_as_text(&[3, 2, 1, 0])));
}

#[test]
fn repeat_goes_to_the_matching_bracket() {
    // Multiplies 3 by 4 with a loop inside a loop.
    let mut engine = BrainFuck::new(4, "", 1000);
    assert_eq!(engine.run("+++[>++++[>+<-]<-]>>."), Ok(bytes_as_text(&[12])));
}

#[test]
fn plus_loop_ends_when_the_cell_wraps_to_zero() {
    // One `+`, one `[`, then 255 rounds of `+` and `]`: 512 instructions.
    let mut engine = BrainFuck::new(1, "", 512);
    assert_eq!(engine.run("+[+]."), Err(limit_message(512)));
    let mut engine = BrainFuck::new(1, "", 513);
    assert_eq!(engine.run("+[+]."), Ok(bytes_as_text(&[0])));
}

#[test]
fn unmatched_open_bracket_on_zero_fails() {
    let mut engine = BrainFuck::new(4, "", 100);
    assert_eq!(engine.run("+.-[++"), Err(String::from(OPEN_MESSAGE)));
}

#[test]
fn unmatched_open_bracket_at_the_end_fails() {
    let mut engine = BrainFuck::new(4, "", 100);
    assert_eq!(engine.run("["), Err(String::from(OPEN_MESSAGE)));
}

#[test]
fn inner_close_does_not_match_outer_open() {
    let mut engine = BrainFuck::new(4, "", 100);
    assert_eq!(engine.run("[[]"), Err(String::from(OPEN_MESSAGE)));
}

#[test]
fn unmatched_open_bracket_on_nonzero_is_not_reached_for() {
    let mut engine = BrainFuck::new(4, "", 100);
    assert_eq!(engine.run("+[."), Ok(bytes_as_text(&[1])));
}

#[test]
fn unmatched_close_bracket_on_nonzero_fails() {
    let mut engine = BrainFuck::new(4, "", 100);
    assert_eq!(engine.run("+.]"), Err(String::from(CLOSE_MESSAGE)));
}

#[test]
fn unmatched_close_bracket_at_the_start_fails() {
    let mut engine = BrainFuck::new(4, "x", 100);
    assert_eq!(engine.run(",]"), Err(String::from(CLOSE_MESSAGE)));
}

#[test]
fn inner_open_does_not_match_outer_close() {
    let mut engine = BrainFuck::new(4, "", 100);
    assert_eq!(engine.run("+>[]<]"), Err(String::from(CLOSE_MESSAGE)));
}

#[test]
fn unmatched_close_bracket_on_zero_is_passed() {
    let mut engine = BrainFuck::new(4, "", 100);
    assert_eq!(engine.run("].]+."), Ok(bytes_as_text(&[0, 1])));
}

#[test]
fn endless_loop_stops_at_the_step_limit() {
    let mut engine = BrainFuck::new(4, "", 10000);
    assert_eq!(engine.run("+[]"), Err(limit_message(10000)));
    let mut engine = BrainFuck::new(4, "", 37);
    assert_eq!(engine.run("+[>+.<]"), Err(limit_message(37)));
}

#[test]
fn step_limit_message_spells_the_budget() {
    let mut engine = BrainFuck::new(1, "", 0);
    assert_eq!(
        engine.run("+"),
        Err(String::from(
            "Exceeded maximum steps (0), the program may be stuck in a loop."
        ))
    );
    let mut engine = BrainFuck::new(1, "", 7);
    assert_eq!(
        engine.run("+[]"),
        Err(String::from(
            "Exceeded maximum steps (7), the program may be stuck in a loop."
        ))
    );
    let mut engine = BrainFuck::new(1, "", 1234567890);
    let mut program = String::from("+[");
    program.push_str("]");
    let mut small = BrainFuck::new(1, "", 120);
    assert_eq!(
        small.run(&program),
        Err(String::from(
            "Exceeded maximum steps (120), the program may be stuck in a loop."
        ))
    );
    // A large budget is spelled in full; the program here ends long before.
    assert_eq!(engine.run("+."), Ok(bytes_as_text(&[1])));
}

#[test]
fn budget_counts_instructions_carried_out() {
    // Five instructions: a budget of five is enough, one of four is not.
    let mut engine = BrainFuck::new(1, "", 5);
    assert_eq!(engine.run("+++.x"), Ok(bytes_as_text(&[3])));
    let mut engine = BrainFuck::new(1, "", 4);
    assert_eq!(engine.run("+++.x"), Err(limit_message(4)));
}

#[test]
fn step_limit_leaves_the_state_after_exactly_the_budget() {
    // Under a budget of 2 the first run carries out `+` and `+` and stops
    // before the `.`; the second run goes on from there with a budget of its
    // own.
    let mut engine = BrainFuck::new(1, "", 2);
    assert_eq!(engine.run("++.+."), Err(limit_message(2)));
    assert_eq!(engine.run("++.+."), Err(limit_message(2)));
    assert_eq!(engine.run("++.+."), Ok(bytes_as_text(&[3])));
}

#[test]
fn step_limit_gives_no_partial_output() {
    let mut engine = BrainFuck::new(1, "", 3);
    let result = engine.run("+.+.+.");
    assert_eq!(result, Err(limit_message(3)));
}

#[test]
fn bracket_failure_gives_no_partial_output() {
    let mut engine = BrainFuck::new(1, "", 100);
    let result = engine.run("+.-.[");
    assert_eq!(result, Err(String::from(OPEN_MESSAGE)));
}

#[test]
fn second_run_of_a_finished_program_is_idle() {
    let mut engine = BrainFuck::new(4, "", 100);
    assert_eq!(engine.run("+++."), Ok(bytes_as_text(&[3])));
    assert_eq!(engine.run("+++."), Ok(String::new()));
}

#[test]
fn state_is_kept_between_runs() {
    // The second, longer program is taken up at the counter where the first
    // run ended, on the tape as the first run left it.
    let mut engine = BrainFuck::new(4, "ab", 100);
    assert_eq!(engine.run("+,"), Ok(String::new()));
    assert_eq!(engine.run("xx.>,.<."), Ok(bytes_as_text(&[97, 98, 97])));
}

#[test]
fn failed_forward_scan_leaves_the_counter_at_the_end() {
    let mut engine = BrainFuck::new(4, "", 100);
    assert_eq!(engine.run("[+"), Err(String::from(OPEN_MESSAGE)));
    // The counter is at 2: a longer program goes on from its third
    // character.
    assert_eq!(engine.run("--+."), Ok(bytes_as_text(&[1])));
}

#[test]
fn failed_backward_scan_leaves_the_counter_at_the_start() {
    let mut engine = BrainFuck::new(4, "", 100);
    assert_eq!(engine.run("+]"), Err(String::from(CLOSE_MESSAGE)));
    // The counter is at 0 and the cell holds 1.
    assert_eq!(engine.run("+."), Ok(bytes_as_text(&[2])));
}

#[test]
fn fresh_engines_agree() {
    let program = "++[>,.<-]>.";
    let mut one = BrainFuck::new(5, "xyz", 100);
    let mut other = BrainFuck::new(5, "xyz", 100);
    let first = one.run(program);
    assert_eq!(first, other.run(program));
    assert_eq!(first, Ok(bytes_as_text(&[120, 121, 121])));
}

#[test]
fn budget_does_not_change_the_output_of_a_run_that_ends() {
    // 3 for the first cell, 1 for `[`, 3 rounds of 6, 2 to print: 24.
    let program = "+++[>++<-]>.";
    let mut tight = BrainFuck::new(3, "", 24);
    let mut loose = BrainFuck::new(3, "", 20000);
    let printed = tight.run(program);
    assert_eq!(printed, Ok(bytes_as_text(&[6])));
    assert_eq!(loose.run(program), printed);
    let mut short = BrainFuck::new(3, "", 23);
    assert_eq!(short.run(program), Err(limit_message(23)));
}

#[test]
fn open_bracket_without_partner_on_a_fresh_tape_fails() {
    let mut engine = BrainFuck::new(256, "", 10000);
    assert_eq!(engine.run("[>+<"), Err(String::from(OPEN_MESSAGE)));
}

#[test]
fn printing_loop_without_exit_stops_at_the_step_limit() {
    let mut engine = BrainFuck::new(256, "", 50);
    assert_eq!(engine.run("+[.]"), Err(limit_message(50)));
}
