use dark_matter_simulator::artifact::NpyData;
use dark_matter_simulator::cache::{Consume, PrecomputeCache};
use dark_matter_simulator::codec::{decode, try_encode};
use dark_matter_simulator::orchestrator::{
    CanonicalPaths, Command, Event, InferenceError, Orchestrator,
};
use dark_matter_simulator::resolver::{Request, Resolver, Response};

fn bits(values: &[f32]) -> Vec<u32> {
    values.iter().map(|v| v.to_bits()).collect()
}

/// Runs the orchestrator against a process that doubles every value.
fn run_doubling(orchestrator: &mut Orchestrator, input: &NpyData, runs: &mut usize) -> Result<NpyData, InferenceError> {
    let mut input_file: Vec<u8> = Vec::new();
    let mut output_file: Option<Vec<u8>> = None;
    let mut command = orchestrator.start(input);
    loop {
        let event = match command {
            Command::WriteInput { path, bytes } => {
                assert_eq!(path, "user_input.npy");
                input_file = bytes;
                Event::InputWritten
            }
            Command::Launch => {
                *runs += 1;
                let read = decode(&input_file).unwrap();
                let doubled = read.data.iter().map(|b| (2.0 * f32::from_bits(*b)).to_bits()).collect();
                output_file = try_encode(&NpyData { data: doubled, shape: read.shape });
                Event::Exited { exit_code: Some(0), stderr: String::new() }
            }
            Command::ReadOutput { .. } => match output_file.take() {
                Some(bytes) => Event::OutputRead(bytes),
                None => Event::OutputMissing,
            },
            Command::Finish(result) => return result,
            Command::Rejected(e) => return Err(e),
        };
        command = orchestrator.advance(event);
    }
}

#[test]
fn end_to_end() {
    let a = NpyData { data: bits(&[1.0, -1.0, 2.5, 0.0]), shape: vec![2, 2] };
    let encoded = try_encode(&a).unwrap();
    assert_eq!(decode(&encoded), Ok(a.duplicate()));
    let mut orchestrator = Orchestrator::new(CanonicalPaths::simulator());
    let mut runs = 0;
    let result = run_doubling(&mut orchestrator, &a, &mut runs);
    assert_eq!(result, Ok(NpyData { data: bits(&[2.0, -2.0, 5.0, 0.0]), shape: vec![2, 2] }));
    assert_eq!(runs, 1);
}

#[test]
fn resolved_bytes_decode_to_the_artifact() {
    let a = NpyData { data: bits(&[4.0, 5.0, 6.0]), shape: vec![3] };
    let (state, request) = Resolver::start("run0100_dm", "http://localhost:8000/api");
    assert!(matches!(request, Request::ReadLocal(_)));
    let (state, _) = state.advance(Response::LocalFailed(String::from("missing")));
    let (_, request) = state.advance(Response::RemoteAnswered { status: 200, body: try_encode(&a).unwrap() });
    match request {
        Request::Done(Ok(bytes)) => assert_eq!(decode(&bytes), Ok(a)),
        other => panic!("{:?}", other),
    }
}

#[test]
fn session_with_background_run_and_new_input() {
    let mut orchestrator = Orchestrator::new(CanonicalPaths::simulator());
    let mut runs = 0;
    let first = NpyData { data: bits(&[1.0, 2.0]), shape: vec![2] };
    let second = NpyData { data: bits(&[10.0, 20.0]), shape: vec![2] };
    let mut cache = PrecomputeCache::new(first);

    // the background run for the first input ends after the second was submitted
    let ticket = cache.begin_precompute().unwrap();
    cache.submit(second.duplicate());
    let outcome = run_doubling(&mut orchestrator, &ticket.input, &mut runs);
    assert_eq!(outcome.as_ref().unwrap().data, bits(&[2.0, 4.0]));
    assert!(!cache.complete(ticket.generation, outcome));

    // the user asks: a fresh run on the second input
    let shown = match cache.consume_or_trigger() {
        Consume::Trigger(input) => run_doubling(&mut orchestrator, &input, &mut runs).unwrap(),
        other => panic!("{:?}", other),
    };
    assert_eq!(shown.data, bits(&[20.0, 40.0]));
    assert_eq!(runs, 2);

    // a background run for the second input, then the fast path
    let ticket = cache.begin_precompute().unwrap();
    let outcome = run_doubling(&mut orchestrator, &ticket.input, &mut runs);
    assert!(cache.complete(ticket.generation, outcome));
    assert_eq!(
        cache.consume_or_trigger(),
        Consume::Cached(NpyData { data: bits(&[20.0, 40.0]), shape: vec![2] })
    );
    assert_eq!(runs, 3);
}
