use dark_matter_simulator::artifact::NpyData;
use dark_matter_simulator::codec::{decode, try_encode, CodecError};
use dark_matter_simulator::orchestrator::{
    run_model, CanonicalPaths, Command, Event, InferenceError, IoStage, Orchestrator, Phase,
};
use std::collections::HashMap;

fn bits(values: &[f32]) -> Vec<u32> {
    values.iter().map(|v| v.to_bits()).collect()
}

fn two_by_two() -> NpyData {
    NpyData { data: bits(&[1.0, -1.0, 2.5, 0.0]), shape: vec![2, 2] }
}

/// What a stand-in for the inference process does with the input file: its
/// exit code, what it writes to standard error, and its output file.
struct Exit {
    code: Option<i32>,
    stderr: &'static str,
    output: Option<Vec<u8>>,
}

/// The files of a stand-in machine, by path.
struct Machine {
    files: HashMap<String, Vec<u8>>,
    launches: usize,
    output_reads: usize,
}

fn orchestrator() -> Orchestrator {
    Orchestrator::new(CanonicalPaths::simulator())
}

fn run(
    orchestrator: &mut Orchestrator,
    machine: &mut Machine,
    input: &NpyData,
    process: &dyn Fn(&[u8]) -> Exit,
) -> Result<NpyData, InferenceError> {
    let mut command = orchestrator.start(input);
    loop {
        let event = match command {
            Command::WriteInput { path, bytes } => {
                machine.files.insert(path, bytes);
                Event::InputWritten
            }
            Command::Launch => {
                machine.launches += 1;
                let exit = process(&machine.files["user_input.npy"]);
                if let Some(output) = exit.output {
                    machine.files.insert(String::from("output.npy"), output);
                }
                Event::Exited { exit_code: exit.code, stderr: String::from(exit.stderr) }
            }
            Command::ReadOutput { path } => {
                machine.output_reads += 1;
                match machine.files.get(&path) {
                    Some(bytes) => Event::OutputRead(bytes.clone()),
                    None => Event::OutputMissing,
                }
            }
            Command::Finish(result) => {
                assert_eq!(orchestrator.phase(), Phase::Idle);
                return result;
            }
            Command::Rejected(e) => return Err(e),
        };
        command = orchestrator.advance(event);
    }
}

fn machine() -> Machine {
    Machine { files: HashMap::new(), launches: 0, output_reads: 0 }
}

fn doubling(input_file: &[u8]) -> Exit {
    let input = decode(input_file).unwrap();
    let doubled: Vec<u32> = input.data.iter().map(|b| (2.0 * f32::from_bits(*b)).to_bits()).collect();
    let output = try_encode(&NpyData { data: doubled, shape: input.shape }).unwrap();
    Exit { code: Some(0), stderr: "", output: Some(output) }
}

#[test]
fn doubling_process_doubles_every_value() {
    let mut o = orchestrator();
    let mut m = machine();
    let result = run(&mut o, &mut m, &two_by_two(), &doubling);
    assert_eq!(result, Ok(NpyData { data: bits(&[2.0, -2.0, 5.0, 0.0]), shape: vec![2, 2] }));
    assert_eq!(m.files.get("user_input.npy"), try_encode(&two_by_two()).as_ref());
    assert_eq!((m.launches, m.output_reads), (1, 1));
    assert!(!o.is_busy());
}

#[test]
fn exit_status_one_is_a_process_error() {
    let mut o = orchestrator();
    let mut m = machine();
    m.files.insert(String::from("output.npy"), try_encode(&two_by_two()).unwrap());
    let failing = |_: &[u8]| Exit { code: Some(1), stderr: "Traceback: no model", output: None };
    let result = run(&mut o, &mut m, &two_by_two(), &failing);
    assert_eq!(
        result,
        Err(InferenceError::Process { exit_code: Some(1), stderr: String::from("Traceback: no model") })
    );
    assert_eq!((m.launches, m.output_reads), (1, 0));
    assert_eq!(o.phase(), Phase::Idle);
}

#[test]
fn other_exit_codes_are_process_errors() {
    for code in [Some(-1), Some(2), Some(127), Some(i32::MIN), None] {
        let mut o = orchestrator();
        let mut m = machine();
        let failing = move |_: &[u8]| Exit { code, stderr: "", output: None };
        assert_eq!(
            run(&mut o, &mut m, &two_by_two(), &failing),
            Err(InferenceError::Process { exit_code: code, stderr: String::new() })
        );
        assert_eq!(m.output_reads, 0);
    }
}

#[test]
fn missing_output_after_success() {
    let mut o = orchestrator();
    let mut m = machine();
    let silent = |_: &[u8]| Exit { code: Some(0), stderr: "warning", output: None };
    assert_eq!(run(&mut o, &mut m, &two_by_two(), &silent), Err(InferenceError::MissingOutput));
    assert_eq!((m.launches, m.output_reads), (1, 1));
}

#[test]
fn output_that_is_no_array_file() {
    let mut o = orchestrator();
    let mut m = machine();
    let broken = |input: &[u8]| {
        let mut output = input.to_vec();
        output.pop();
        Exit { code: Some(0), stderr: "", output: Some(output) }
    };
    assert_eq!(
        run(&mut o, &mut m, &two_by_two(), &broken),
        Err(InferenceError::Codec(CodecError::LengthMismatch))
    );
    let garbage = |_: &[u8]| Exit { code: Some(0), stderr: "", output: Some(b"<html>".to_vec()) };
    assert_eq!(
        run(&mut o, &mut m, &two_by_two(), &garbage),
        Err(InferenceError::Codec(CodecError::Truncated))
    );
}

#[test]
fn write_failure_ends_the_run() {
    let mut o = orchestrator();
    assert!(matches!(o.start(&two_by_two()), Command::WriteInput { .. }));
    assert_eq!(o.phase(), Phase::WritingInput);
    let command = o.advance(Event::WriteFailed(String::from("disk full")));
    assert_eq!(
        command,
        Command::Finish(Err(InferenceError::Io { stage: IoStage::WriteInput, detail: String::from("disk full") }))
    );
    assert_eq!(o.phase(), Phase::Idle);
}

#[test]
fn launch_failure_ends_the_run() {
    let mut o = orchestrator();
    o.start(&two_by_two());
    assert_eq!(o.advance(Event::InputWritten), Command::Launch);
    assert_eq!(o.phase(), Phase::Running);
    let command = o.advance(Event::LaunchFailed(String::from("no interpreter")));
    assert_eq!(
        command,
        Command::Finish(Err(InferenceError::Io { stage: IoStage::Launch, detail: String::from("no interpreter") }))
    );
    assert!(!o.is_busy());
}

#[test]
fn read_failure_ends_the_run() {
    let mut o = orchestrator();
    o.start(&two_by_two());
    o.advance(Event::InputWritten);
    assert_eq!(
        o.advance(Event::Exited { exit_code: Some(0), stderr: String::new() }),
        Command::ReadOutput { path: String::from("output.npy") }
    );
    assert_eq!(o.phase(), Phase::ReadingOutput);
    let command = o.advance(Event::ReadFailed(String::from("permission denied")));
    assert_eq!(
        command,
        Command::Finish(Err(InferenceError::Io { stage: IoStage::ReadOutput, detail: String::from("permission denied") }))
    );
    assert_eq!(o.phase(), Phase::Idle);
}

#[test]
fn second_run_is_rejected_as_busy() {
    let mut o = orchestrator();
    o.start(&two_by_two());
    assert!(o.is_busy());
    assert_eq!(o.start(&two_by_two()), Command::Rejected(InferenceError::Busy));
    assert_eq!(o.phase(), Phase::WritingInput);
    o.advance(Event::InputWritten);
    assert_eq!(o.start(&two_by_two()), Command::Rejected(InferenceError::Busy));
    assert_eq!(o.phase(), Phase::Running);
    o.advance(Event::Exited { exit_code: Some(3), stderr: String::new() });
    assert!(matches!(o.start(&two_by_two()), Command::WriteInput { .. }));
}

#[test]
fn events_out_of_turn_are_rejected() {
    let mut o = orchestrator();
    assert_eq!(o.advance(Event::InputWritten), Command::Rejected(InferenceError::OutOfOrder));
    assert_eq!(o.phase(), Phase::Idle);
    o.start(&two_by_two());
    assert_eq!(
        o.advance(Event::OutputRead(vec![])),
        Command::Rejected(InferenceError::OutOfOrder)
    );
    assert_eq!(o.advance(Event::OutputMissing), Command::Rejected(InferenceError::OutOfOrder));
    assert_eq!(o.phase(), Phase::WritingInput);
    o.advance(Event::InputWritten);
    assert_eq!(o.advance(Event::InputWritten), Command::Rejected(InferenceError::OutOfOrder));
    assert_eq!(o.phase(), Phase::Running);
}

#[test]
fn input_without_a_file_ends_the_run_at_once() {
    let mut o = orchestrator();
    let input = NpyData { data: bits(&[1.0]), shape: vec![1; 30000] };
    assert_eq!(o.start(&input), Command::Finish(Err(InferenceError::Unencodable)));
    assert_eq!(o.phase(), Phase::Idle);
}

#[test]
fn runs_follow_one_another() {
    let mut o = orchestrator();
    let mut m = machine();
    let first = run(&mut o, &mut m, &two_by_two(), &doubling).unwrap();
    let second = run(&mut o, &mut m, &first, &doubling).unwrap();
    assert_eq!(second.data, bits(&[4.0, -4.0, 10.0, 0.0]));
    assert_eq!(m.launches, 2);
}

#[test]
fn run_model_starts_from_the_bytes_of_a_file() {
    let file = try_encode(&two_by_two()).unwrap();
    let mut o = orchestrator();
    assert_eq!(
        run_model(&mut o, &file),
        Command::WriteInput { path: String::from("user_input.npy"), bytes: file.clone() }
    );
    assert_eq!(o.phase(), Phase::WritingInput);
    assert_eq!(run_model(&mut o, &file), Command::Rejected(InferenceError::Busy));
    assert_eq!(run_model(&mut o, b"junk"), Command::Rejected(InferenceError::Busy));
}

#[test]
fn run_model_on_bytes_that_are_no_file() {
    let mut o = orchestrator();
    assert_eq!(
        run_model(&mut o, b"junk"),
        Command::Finish(Err(InferenceError::Codec(CodecError::Truncated)))
    );
    let mut file = try_encode(&two_by_two()).unwrap();
    file.truncate(file.len() - 3);
    assert_eq!(
        run_model(&mut o, &file),
        Command::Finish(Err(InferenceError::Codec(CodecError::LengthMismatch)))
    );
    assert_eq!(o.phase(), Phase::Idle);
}

#[test]
fn commands_name_the_files_of_their_orchestrator() {
    let paths = CanonicalPaths { input: String::from("/tmp/a/in.npy"), output: String::from("/tmp/a/out.npy") };
    let mut o = Orchestrator::new(paths.clone());
    assert_eq!(o.paths(), &paths);
    match o.start(&two_by_two()) {
        Command::WriteInput { path, bytes } => {
            assert_eq!(path, "/tmp/a/in.npy");
            assert_eq!(Some(bytes), try_encode(&two_by_two()));
        }
        other => panic!("{:?}", other),
    }
    o.advance(Event::InputWritten);
    assert_eq!(
        o.advance(Event::Exited { exit_code: Some(0), stderr: String::new() }),
        Command::ReadOutput { path: String::from("/tmp/a/out.npy") }
    );
}

#[test]
fn two_orchestrators_do_not_meet() {
    let mut m = machine();
    let mut first = orchestrator();
    let mut second = Orchestrator::new(CanonicalPaths {
        input: String::from("other_input.npy"),
        output: String::from("other_output.npy"),
    });
    assert!(matches!(first.start(&two_by_two()), Command::WriteInput { .. }));
    let other = NpyData { data: bits(&[9.0]), shape: vec![1] };
    match second.start(&other) {
        Command::WriteInput { path, bytes } => {
            m.files.insert(path, bytes);
        }
        command => panic!("{:?}", command),
    }
    assert_eq!(m.files.get("other_input.npy"), try_encode(&other).as_ref());
    assert_eq!(m.files.get("user_input.npy"), None);
    assert!(first.is_busy() && second.is_busy());
}

#[test]
fn process_that_ran_out_of_time() {
    let mut o = orchestrator();
    o.start(&two_by_two());
    assert_eq!(o.advance(Event::TimedOut), Command::Rejected(InferenceError::OutOfOrder));
    o.advance(Event::InputWritten);
    assert_eq!(o.advance(Event::TimedOut), Command::Finish(Err(InferenceError::Timeout)));
    assert_eq!(o.phase(), Phase::Idle);
}
