use intcode::alarm;
use intcode::amplifiers::{
    amplify_chain, amplify_loop, optimize_feedback_thrusters, optimize_thrusters,
    phase_settings_combinations,
};
use intcode::diagnostics::{boost_keycode, check_diagnostics, process_opcode};
use intcode::intcode::{run_to_end, Error, Instruction, Mode, Program, Step, Stop};

fn run_all(opcodes: Vec<i64>, inputs: &[i64]) -> (Result<(Stop, usize), Error>, Vec<i64>, Program) {
    let mut program = Program::new(opcodes);
    let mut outputs = Vec::new();
    let r = program.run(inputs, &mut outputs, 1_000_000);
    (r, outputs, program)
}

#[test]
fn process() {
    assert_eq!(
        vec![3500, 9, 10, 70, 2, 3, 11, 0, 99, 30, 40, 50],
        alarm::process_opcode(vec![1, 9, 10, 3, 2, 3, 11, 0, 99, 30, 40, 50]).unwrap()
    );
    assert_eq!(vec![2, 0, 0, 0, 99], alarm::process_opcode(vec![1, 0, 0, 0, 99]).unwrap());
    assert_eq!(vec![2, 3, 0, 6, 99], alarm::process_opcode(vec![2, 3, 0, 3, 99]).unwrap());
    assert_eq!(
        vec![2, 4, 4, 5, 99, 9801],
        alarm::process_opcode(vec![2, 4, 4, 5, 99, 0]).unwrap()
    );
    assert_eq!(
        vec![30, 1, 1, 4, 2, 5, 6, 0, 99],
        alarm::process_opcode(vec![1, 1, 1, 4, 99, 5, 6, 0, 99]).unwrap()
    );
}

#[test]
fn alarm_out_of_bounds() {
    assert_eq!(None, alarm::process_opcode(vec![1, 0, 0, 7, 99]));
    assert_eq!(vec![0, 12, 2, 0], alarm::init_opcode(vec![0, 0, 0, 0], 12, 2));
}

#[test]
fn main_process_opcodes() {
    assert_eq!(vec![19], process_opcode(vec![1101, 9, 10, 3, 4, 3], &[]).unwrap());
    assert_eq!(vec![5], process_opcode(vec![1101, 9, 10, 3, 4, 5], &[]).unwrap());
}

#[test]
fn main_process_opcodes_with_tests_and_jumps() {
    assert_eq!(
        vec![0],
        process_opcode(vec![1101, 9, 10, 3, 1008, 3, 3, 3, 4, 3], &[]).unwrap()
    );
}

#[test]
fn diagnostics_checked() {
    assert_eq!(Ok(7), check_diagnostics(vec![0, 0, 7]));
    assert_eq!(Err(3), check_diagnostics(vec![0, 3, 0, 4, 7]));
    assert_eq!(Ok(5), check_diagnostics(vec![5]));
}

#[test]
fn combinations() {
    assert!(phase_settings_combinations(vec![0]).contains(&vec![0]));

    assert!(phase_settings_combinations(vec![0, 1]).contains(&vec![0, 1]));
    assert!(phase_settings_combinations(vec![0, 1]).contains(&vec![1, 0]));

    assert!(phase_settings_combinations(vec![0, 1, 2]).contains(&vec![0, 1, 2]));
    assert!(phase_settings_combinations(vec![0, 1, 2]).contains(&vec![0, 2, 1]));
    assert!(phase_settings_combinations(vec![0, 1, 2]).contains(&vec![1, 0, 2]));
    assert!(phase_settings_combinations(vec![0, 1, 2]).contains(&vec![1, 2, 0]));
    assert!(phase_settings_combinations(vec![0, 1, 2]).contains(&vec![2, 0, 1]));
    assert!(phase_settings_combinations(vec![0, 1, 2]).contains(&vec![2, 1, 0]));
}

#[test]
fn combinations_are_distinct() {
    assert_eq!(120, phase_settings_combinations(vec![5, 6, 7, 8, 9]).len());
    assert_eq!(vec![vec![1, 2]], phase_settings_combinations(vec![1, 1, 2]));
}

#[test]
fn thrusters_in_series() {
    assert_eq!(
        43210,
        optimize_thrusters(vec![3, 15, 3, 16, 1002, 16, 10, 16, 1, 16, 15, 15, 4, 15, 99, 0, 0])
            .unwrap()
    );
    assert_eq!(
        54321,
        optimize_thrusters(vec![
            3, 23, 3, 24, 1002, 24, 10, 24, 1002, 23, -1, 23, 101, 5, 23, 23, 1, 24, 23, 23, 4,
            23, 99, 0, 0
        ])
        .unwrap()
    );
    assert_eq!(
        65210,
        optimize_thrusters(vec![
            3, 31, 3, 32, 1002, 32, 10, 32, 1001, 31, -2, 31, 1007, 31, 0, 33, 1002, 33, 7, 33,
            1, 33, 31, 31, 1, 32, 31, 31, 4, 31, 99, 0, 0, 0
        ])
        .unwrap()
    );
}

#[test]
fn thrusters_in_feedback_loop() {
    let program = vec![
        3, 26, 1001, 26, -4, 26, 3, 27, 1002, 27, 2, 27, 1, 27, 26, 27, 4, 27, 1001, 28, -1, 28,
        1005, 28, 6, 99, 0, 0, 5,
    ];
    assert_eq!(Ok(139629729), amplify_loop(&program, &vec![9, 8, 7, 6, 5]));
    assert_eq!(139629729, optimize_feedback_thrusters(program).unwrap());
    assert_eq!(
        18216,
        optimize_feedback_thrusters(vec![
            3, 52, 1001, 52, -5, 52, 3, 53, 1, 52, 56, 54, 1007, 54, 5, 55, 1005, 55, 26, 1001,
            54, -5, 54, 1105, 1, 12, 1, 53, 54, 53, 1008, 54, 0, 55, 1001, 55, 1, 55, 2, 53, 55,
            53, 4, 53, 1001, 56, -1, 56, 1005, 56, 6, 99, 0, 0, 0, 0, 10
        ])
        .unwrap()
    );
}

#[test]
fn chain_of_one_phase_order() {
    let program = vec![3, 15, 3, 16, 1002, 16, 10, 16, 1, 16, 15, 15, 4, 15, 99, 0, 0];
    assert_eq!(Ok(43210), amplify_chain(&program, &vec![4, 3, 2, 1, 0]));
}

#[test]
fn boost_process_opcodes() {
    assert_eq!(Ok(42), boost_keycode(vec![109, 42, 1001, 1, 0, 42, 204, 0, 99], 1));
}

#[test]
fn add_multiply_memory() {
    let (r, outputs, program) = run_all(vec![1, 9, 10, 3, 2, 3, 11, 0, 99, 30, 40, 50], &[]);
    assert_eq!(Ok((Stop::Halted, 0)), r);
    assert!(outputs.is_empty());
    assert_eq!(&vec![3500, 9, 10, 70, 2, 3, 11, 0, 99, 30, 40, 50], program.memory());
}

#[test]
fn immediate_instruction_writes_destination_only() {
    let mut program = Program::new(vec![11101, 2, 3, 0, 99]);
    assert_eq!(Ok(Step::Continue), program.step(None));
    assert_eq!(&vec![11101, 2, 3, 5, 99], program.memory());
    assert_eq!(4, program.counter());
}

#[test]
fn memory_grows_with_zeros() {
    let (r, outputs, program) = run_all(vec![109, 2000, 109, 19, 204, -34, 99], &[]);
    assert_eq!(Ok((Stop::Halted, 0)), r);
    assert_eq!(vec![0], outputs);
    assert_eq!(1986, program.memory().len());
    let (r, outputs, _) = run_all(vec![4, 50, 99], &[]);
    assert_eq!(Ok((Stop::Halted, 0)), r);
    assert_eq!(vec![0], outputs);
}

#[test]
fn relative_base_quine() {
    let quine = vec![109, 1, 204, -1, 1001, 100, 1, 100, 1008, 100, 16, 101, 1006, 101, 0, 99];
    assert_eq!(Ok(quine.clone()), run_to_end(quine.clone(), &[]));
}

#[test]
fn large_numbers() {
    assert_eq!(
        Ok(vec![1219070632396864]),
        run_to_end(vec![1102, 34915192, 34915192, 7, 4, 7, 99, 0], &[])
    );
    assert_eq!(Ok(vec![1125899906842624]), run_to_end(vec![104, 1125899906842624, 99], &[]));
}

#[test]
fn decoding() {
    assert_eq!(
        Ok(Instruction::Multiply(Mode::Position, Mode::Immediate, Mode::Position)),
        Instruction::decode(1002)
    );
    assert_eq!(Ok(Instruction::Output(Mode::Relative)), Instruction::decode(204));
    assert_eq!(Ok(Instruction::Halt), Instruction::decode(99));
    assert_eq!(Err(Error::InvalidMode(3)), Instruction::decode(302));
    assert_eq!(Err(Error::InvalidMode(5)), Instruction::decode(50001));
}

#[test]
fn unknown_opcodes_are_refused() {
    for code in [0, 10, 11, 12, 50, 98, 100, 1110, 1200, -1, -99] {
        assert_eq!(Err(Error::InvalidInstruction(code)), Instruction::decode(code));
    }
    assert_eq!(Err(Error::InvalidInstruction(42)), run_to_end(vec![42], &[]));
}

#[test]
fn errors_of_a_run() {
    assert_eq!(Err(Error::ProgramEmpty), run_to_end(vec![], &[]));
    assert_eq!(Err(Error::MissingInput), run_to_end(vec![3, 0, 99], &[]));
    assert_eq!(Err(Error::InvalidOffset), run_to_end(vec![1, -1, 0, 0, 99], &[]));
    assert_eq!(Err(Error::InvalidOffset), run_to_end(vec![1105, 1, -3, 99], &[]));
    assert_eq!(Err(Error::InvalidMode(3)), run_to_end(vec![304, 0, 99], &[]));
    assert_eq!(Err(Error::StepLimit), run_to_end(vec![1105, 1, 0], &[]));
}

#[test]
fn input_and_pauses() {
    let mut program = Program::new(vec![3, 0, 4, 0, 99]);
    assert_eq!(Ok(Step::NeedInput), program.step(None));
    assert_eq!(Ok(Step::Consumed), program.step(Some(8)));
    assert_eq!(Ok(Step::Output(8)), program.step(None));
    assert_eq!(Ok(Step::Halted), program.step(None));
    let (r, outputs, program) = run_all(vec![3, 0, 4, 0, 3, 0, 99], &[6]);
    assert_eq!(Ok((Stop::NeedInput, 1)), r);
    assert_eq!(vec![6], outputs);
    assert_eq!(4, program.counter());
    let mut program = Program::new(vec![1101, 1, 1, 0, 99]);
    let mut outputs = Vec::new();
    assert_eq!(Ok((Stop::Paused, 0)), program.run(&[], &mut outputs, 1));
    assert_eq!(Ok((Stop::Halted, 0)), program.run(&[], &mut outputs, 1));
    assert_eq!(0, program.base());
}

#[test]
fn halted_peer_means_missing_input() {
    // The amplifier with phase 5 halts after its first output; the other
    // one then waits for an input that can no longer come.
    let program = vec![3, 100, 3, 101, 4, 101, 1008, 100, 5, 102, 1005, 102, 17, 3, 101, 4, 101, 99];
    assert_eq!(Err(Error::MissingInput), amplify_loop(&program, &vec![5, 6]));
    assert_eq!(Ok(0), amplify_loop(&program, &vec![5, 5]));
}

#[test]
fn parse_program_text() {
    assert_eq!(Some(vec![1, -2, 30]), intcode::intcode::parse_program("1,-2,30\n"));
    assert_eq!(None, intcode::intcode::parse_program("1,,2"));
    assert_eq!(None, intcode::intcode::parse_program("1,x"));
}

#[test]
fn diagnostics_run() {
    assert_eq!(Ok(vec![7, 42]), intcode::diagnostics::run_diagnostics(vec![103, 0, 104, 7, 104, 42, 99], 1));
}

#[test]
fn process_opcodes_with_tests_and_jumps() {
    assert_eq!(
        Ok(vec![0]),
        intcode::diagnostics::run_diagnostics(vec![103, 0, 1101, 9, 10, 3, 1008, 3, 3, 3, 4, 3, 99], 1)
    );
}

#[test]
fn diagnostics_report_faults() {
    assert_eq!(Err(Error::InvalidInstruction(42)), intcode::diagnostics::run_diagnostics(vec![104, 5, 42], 1));
    assert_eq!(Err(Error::ProgramEmpty), intcode::diagnostics::run_diagnostics(vec![], 1));
    assert_eq!(Err(Error::MissingInput), intcode::diagnostics::run_diagnostics(vec![3, 0, 3, 0, 99], 1));
}

#[test]
fn noun_and_verb() {
    let program = vec![1, 0, 0, 0, 99, 5, 7];
    assert_eq!(Some((5, 6)), alarm::find_noun_verb(&program, 12));
    assert_eq!(None, alarm::find_noun_verb(&program, 1000));
}
