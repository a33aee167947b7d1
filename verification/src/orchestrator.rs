//! One inference run as a sequence of decisions. The caller does the outside
//! work (writing the input file, running the process, reading the output
//! file) and reports each outcome; this module decides what comes next and
//! how the run ends.
//!
//! The process reads one fixed file and writes another. The orchestrator
//! owns the two paths and names them in its commands, so that two
//! orchestrators with different paths do not meet.
//!
//! The orchestrator sets no time limit of its own. A caller that sets one
//! stops the process when the time is up and reports that; without such a
//! caller a process that does not exit keeps the orchestrator busy.

use vstd::prelude::*;
use vstd::string::StringExecFns;
use crate::artifact::{ArtifactView, NpyData};
use crate::codec::{decode, decoding, encodable, encoding, try_encode, CodecError};

verus! {

/// The outside step at which an I/O failure happened.
#[derive(Clone, Copy, Debug, PartialEq, Eq, Structural)]
pub enum IoStage {
    /// Writing the input file.
    WriteInput,
    /// Starting the inference process.
    Launch,
    /// Reading the output file.
    ReadOutput,
}

/// Why an inference run gave no result.
#[derive(Clone, Debug, PartialEq, Eq)]
pub enum InferenceError {
    /// The input has no file of the kind the process reads.
    Unencodable,
    /// An outside step failed; `detail` is the caller's description.
    Io { stage: IoStage, detail: String },
    /// The process did not exit with status zero. `exit_code` is `None` where
    /// the process gave none.
    Process { exit_code: Option<i32>, stderr: String },
    /// The process exited with status zero and left no output file.
    MissingOutput,
    /// The output file is no array file.
    Codec(CodecError),
    /// The caller stopped the process because its time was up.
    Timeout,
    /// Another run is in progress.
    Busy,
    /// The reported outcome does not belong to the step that is awaited.
    OutOfOrder,
}

/// Where a run stands.
#[derive(Clone, Copy, Debug, PartialEq, Eq, Structural)]
pub enum Phase {
    /// No run is in progress.
    Idle,
    /// The input file is being written.
    WritingInput,
    /// The process runs.
    Running,
    /// The output file is being read.
    ReadingOutput,
}

/// What the caller reports.
#[derive(Clone, Debug, PartialEq, Eq)]
pub enum Event {
    /// The input file was written.
    InputWritten,
    /// The input file could not be written.
    WriteFailed(String),
    /// The process could not be started.
    LaunchFailed(String),
    /// The process exited; `stderr` is all it wrote to standard error.
    Exited { exit_code: Option<i32>, stderr: String },
    /// The process ran out of time and was stopped.
    TimedOut,
    /// There is no output file.
    OutputMissing,
    /// The output file could not be read.
    ReadFailed(String),
    /// The bytes of the output file.
    OutputRead(Vec<u8>),
}

/// The file that the inference process reads and the file that it writes.
#[derive(Clone, Debug, PartialEq, Eq)]
pub struct CanonicalPaths {
    pub input: String,
    pub output: String,
}

impl CanonicalPaths {
    /// The files of the simulator: `user_input.npy` and `output.npy`.
    pub fn simulator() -> (r: CanonicalPaths)
        ensures
            r.input@ == "user_input.npy"@,
            r.output@ == "output.npy"@,
    {
        CanonicalPaths {
            input: String::from_str("user_input.npy"),
            output: String::from_str("output.npy"),
        }
    }
}

/// What the caller is to do next.
#[derive(Debug, PartialEq, Eq)]
pub enum Command {
    /// Write these bytes to the file at this path, replacing what is there.
    WriteInput { path: String, bytes: Vec<u8> },
    /// Run the inference process without arguments and wait for it.
    Launch,
    /// Read the file at this path, or report that there is none.
    ReadOutput { path: String },
    /// The run is over.
    Finish(Result<NpyData, InferenceError>),
    /// The event was not acted on; the run stands where it stood.
    Rejected(InferenceError),
}

/// Mathematical model of a command.
pub enum CommandView {
    WriteInput { path: String, bytes: Seq<u8> },
    Launch,
    ReadOutput { path: String },
    Finish(Result<ArtifactView, InferenceError>),
    Rejected(InferenceError),
}

impl View for Command {
    type V = CommandView;

    open spec fn view(&self) -> CommandView {
        match self {
            Command::WriteInput { path, bytes } => CommandView::WriteInput {
                path: *path,
                bytes: bytes@,
            },
            Command::Launch => CommandView::Launch,
            Command::ReadOutput { path } => CommandView::ReadOutput { path: *path },
            Command::Finish(Ok(artifact)) => CommandView::Finish(Ok(artifact@)),
            Command::Finish(Err(e)) => CommandView::Finish(Err(*e)),
            Command::Rejected(e) => CommandView::Rejected(*e),
        }
    }
}

/// How a run that has read its output file ends.
pub open spec fn conclusion(output: Seq<u8>) -> Result<ArtifactView, InferenceError> {
    match decoding(output) {
        Ok(artifact) => Ok(artifact),
        Err(e) => Err(InferenceError::Codec(e)),
    }
}

/// The first step of a run on `input`, from phase `phase`.
pub open spec fn first_step(phase: Phase, paths: CanonicalPaths, input: ArtifactView) -> (
    Phase,
    CommandView,
) {
    if phase != Phase::Idle {
        (phase, CommandView::Rejected(InferenceError::Busy))
    } else if !encodable(input) {
        (Phase::Idle, CommandView::Finish(Err(InferenceError::Unencodable)))
    } else {
        (
            Phase::WritingInput,
            CommandView::WriteInput { path: paths.input, bytes: encoding(input) },
        )
    }
}

/// The step that follows `event` in phase `phase`.
pub open spec fn next_step(phase: Phase, paths: CanonicalPaths, event: Event) -> (
    Phase,
    CommandView,
) {
    match (phase, event) {
        (Phase::WritingInput, Event::InputWritten) => (Phase::Running, CommandView::Launch),
        (Phase::WritingInput, Event::WriteFailed(detail)) => (
            Phase::Idle,
            CommandView::Finish(Err(InferenceError::Io { stage: IoStage::WriteInput, detail })),
        ),
        (Phase::Running, Event::LaunchFailed(detail)) => (
            Phase::Idle,
            CommandView::Finish(Err(InferenceError::Io { stage: IoStage::Launch, detail })),
        ),
        (Phase::Running, Event::Exited { exit_code, stderr }) => if exit_code == Some(0i32) {
            (Phase::ReadingOutput, CommandView::ReadOutput { path: paths.output })
        } else {
            (Phase::Idle, CommandView::Finish(Err(InferenceError::Process { exit_code, stderr })))
        },
        (Phase::Running, Event::TimedOut) => (
            Phase::Idle,
            CommandView::Finish(Err(InferenceError::Timeout)),
        ),
        (Phase::ReadingOutput, Event::OutputMissing) => (
            Phase::Idle,
            CommandView::Finish(Err(InferenceError::MissingOutput)),
        ),
        (Phase::ReadingOutput, Event::ReadFailed(detail)) => (
            Phase::Idle,
            CommandView::Finish(Err(InferenceError::Io { stage: IoStage::ReadOutput, detail })),
        ),
        (Phase::ReadingOutput, Event::OutputRead(bytes)) => (
            Phase::Idle,
            CommandView::Finish(conclusion(bytes@)),
        ),
        _ => (phase, CommandView::Rejected(InferenceError::OutOfOrder)),
    }
}

/// The one place through which inference runs go: it admits one run at a
/// time, because every run uses the same input and output file.
pub struct Orchestrator {
    phase: Phase,
    paths: CanonicalPaths,
}

impl Orchestrator {
    /// Where the current run stands.
    pub closed spec fn spec_phase(&self) -> Phase {
        self.phase
    }

    /// The files of the process.
    pub closed spec fn spec_paths(&self) -> CanonicalPaths {
        self.paths
    }

    /// An orchestrator for the process with the given files, with no run in
    /// progress.
    pub fn new(paths: CanonicalPaths) -> (r: Orchestrator)
        ensures
            r.spec_phase() == Phase::Idle,
            r.spec_paths() == paths,
    {
        Orchestrator { phase: Phase::Idle, paths }
    }

    /// The files of the process.
    pub fn paths(&self) -> (r: &CanonicalPaths)
        ensures
            *r == self.spec_paths(),
    {
        &self.paths
    }

    /// Where the current run stands.
    #[verifier::when_used_as_spec(spec_phase)]
    pub fn phase(&self) -> (r: Phase)
        ensures
            r == self.spec_phase(),
    {
        self.phase
    }

    /// Whether a run is in progress.
    pub fn is_busy(&self) -> (r: bool)
        ensures
            r == (self.spec_phase() != Phase::Idle),
    {
        match self.phase {
            Phase::Idle => false,
            _ => true,
        }
    }

    /// Starts a run on `input`. While another run is in progress the call is
    /// rejected as busy and changes nothing. An input that has no file ends
    /// the run at once. Otherwise the caller is told to write the file of the
    /// input.
    pub fn start(&mut self, input: &NpyData) -> (command: Command)
        ensures
            final(self).spec_paths() == old(self).spec_paths(),
            (final(self).spec_phase(), command@) == first_step(
                old(self).spec_phase(),
                old(self).spec_paths(),
                input@,
            ),
    {
        if self.is_busy() {
            return Command::Rejected(InferenceError::Busy);
        }
        match try_encode(input) {
            None => Command::Finish(Err(InferenceError::Unencodable)),
            Some(bytes) => {
                self.phase = Phase::WritingInput;
                Command::WriteInput { path: self.paths.input.clone(), bytes }
            },
        }
    }

    /// Takes the outcome of the step that the last command asked for and
    /// says what comes next.
    pub fn advance(&mut self, event: Event) -> (command: Command)
        ensures
            final(self).spec_paths() == old(self).spec_paths(),
            (final(self).spec_phase(), command@) == next_step(
                old(self).spec_phase(),
                old(self).spec_paths(),
                event,
            ),
    {
        match (self.phase, event) {
            (Phase::WritingInput, Event::InputWritten) => {
                self.phase = Phase::Running;
                Command::Launch
            },
            (Phase::WritingInput, Event::WriteFailed(detail)) => {
                self.phase = Phase::Idle;
                Command::Finish(Err(InferenceError::Io { stage: IoStage::WriteInput, detail }))
            },
            (Phase::Running, Event::LaunchFailed(detail)) => {
                self.phase = Phase::Idle;
                Command::Finish(Err(InferenceError::Io { stage: IoStage::Launch, detail }))
            },
            (Phase::Running, Event::Exited { exit_code, stderr }) => {
                let success = match exit_code {
                    Some(code) => code == 0,
                    None => false,
                };
                if success {
                    self.phase = Phase::ReadingOutput;
                    Command::ReadOutput { path: self.paths.output.clone() }
                } else {
                    self.phase = Phase::Idle;
                    Command::Finish(Err(InferenceError::Process { exit_code, stderr }))
                }
            },
            (Phase::Running, Event::TimedOut) => {
                self.phase = Phase::Idle;
                Command::Finish(Err(InferenceError::Timeout))
            },
            (Phase::ReadingOutput, Event::OutputMissing) => {
                self.phase = Phase::Idle;
                Command::Finish(Err(InferenceError::MissingOutput))
            },
            (Phase::ReadingOutput, Event::ReadFailed(detail)) => {
                self.phase = Phase::Idle;
                Command::Finish(Err(InferenceError::Io { stage: IoStage::ReadOutput, detail }))
            },
            (Phase::ReadingOutput, Event::OutputRead(bytes)) => {
                self.phase = Phase::Idle;
                match decode(bytes.as_slice()) {
                    Ok(artifact) => Command::Finish(Ok(artifact)),
                    Err(e) => Command::Finish(Err(InferenceError::Codec(e))),
                }
            },
            _ => Command::Rejected(InferenceError::OutOfOrder),
        }
    }
}

/// The first step of a run on the artifact that the bytes of an input file
/// denote.
pub open spec fn first_step_on_file(phase: Phase, paths: CanonicalPaths, input_file: Seq<u8>) -> (
    Phase,
    CommandView,
) {
    if phase != Phase::Idle {
        (phase, CommandView::Rejected(InferenceError::Busy))
    } else {
        match decoding(input_file) {
            Ok(input) => first_step(phase, paths, input),
            Err(e) => (phase, CommandView::Finish(Err(InferenceError::Codec(e)))),
        }
    }
}

/// Starts a run of the model on the input that was read from a file. While
/// another run is in progress the call is rejected as busy. Bytes that are
/// no array file end the run at once, with the reason.
pub fn run_model(orchestrator: &mut Orchestrator, input_file: &[u8]) -> (command: Command)
    ensures
        final(orchestrator).spec_paths() == old(orchestrator).spec_paths(),
        (final(orchestrator).spec_phase(), command@) == first_step_on_file(
            old(orchestrator).spec_phase(),
            old(orchestrator).spec_paths(),
            input_file@,
        ),
{
    if orchestrator.is_busy() {
        return Command::Rejected(InferenceError::Busy);
    }
    match decode(input_file) {
        Ok(input) => orchestrator.start(&input),
        Err(e) => Command::Finish(Err(InferenceError::Codec(e))),
    }
}

/// A run whose outside steps all succeed goes through writing, running and
/// reading, and ends idle with what the output file denotes. Where the
/// process wrote the file of a well-formed artifact, that artifact is the
/// result.
pub proof fn lemma_successful_run(
    paths: CanonicalPaths,
    input: ArtifactView,
    stderr: String,
    output: Vec<u8>,
)
    requires
        encodable(input),
    ensures
        first_step(Phase::Idle, paths, input) == (
            Phase::WritingInput,
            CommandView::WriteInput { path: paths.input, bytes: encoding(input) },
        ),
        next_step(Phase::WritingInput, paths, Event::InputWritten) == (
            Phase::Running,
            CommandView::Launch,
        ),
        next_step(Phase::Running, paths, Event::Exited { exit_code: Some(0i32), stderr }) == (
            Phase::ReadingOutput,
            CommandView::ReadOutput { path: paths.output },
        ),
        next_step(Phase::ReadingOutput, paths, Event::OutputRead(output)) == (
            Phase::Idle,
            CommandView::Finish(conclusion(output@)),
        ),
        forall|a: ArtifactView|
            a.wf() && crate::codec::fits_header(a.shape) && output@ == encoding(a) ==> conclusion(
                output@,
            ) == Ok::<ArtifactView, InferenceError>(a),
{
    assert forall|a: ArtifactView|
        a.wf() && crate::codec::fits_header(a.shape) && output@ == encoding(a) implies conclusion(
        output@,
    ) == Ok::<ArtifactView, InferenceError>(a) by {
        crate::codec::lemma_decode_encode(a);
    }
}

/// A process that does not exit with status zero ends the run with its exit
/// code and what it wrote to standard error; the output file is not asked
/// for. A missing output file after status zero ends the run as well, and so
/// does a process that was stopped when its time was up.
pub proof fn lemma_failed_run(paths: CanonicalPaths, exit_code: Option<i32>, stderr: String)
    requires
        exit_code != Some(0i32),
    ensures
        next_step(Phase::Running, paths, Event::Exited { exit_code, stderr }) == (
            Phase::Idle,
            CommandView::Finish(Err(InferenceError::Process { exit_code, stderr })),
        ),
        next_step(Phase::ReadingOutput, paths, Event::OutputMissing) == (
            Phase::Idle,
            CommandView::Finish(Err(InferenceError::MissingOutput)),
        ),
        next_step(Phase::Running, paths, Event::TimedOut) == (
            Phase::Idle,
            CommandView::Finish(Err(InferenceError::Timeout)),
        ),
{
}

/// While a run is in progress no other is admitted, and a run ends only
/// with its last command.
pub proof fn lemma_one_run_at_a_time(
    phase: Phase,
    paths: CanonicalPaths,
    input: ArtifactView,
    event: Event,
)
    requires
        phase != Phase::Idle,
    ensures
        first_step(phase, paths, input) == (phase, CommandView::Rejected(InferenceError::Busy)),
        next_step(phase, paths, event).0 == Phase::Idle <==> next_step(phase, paths, event).1
            is Finish,
{
}

/// The steps keep their order: the process is started only after the input
/// file was written, and the output file is asked for only after the process
/// has exited with status zero.
pub proof fn lemma_steps_in_order(phase: Phase, paths: CanonicalPaths, event: Event)
    ensures
        next_step(phase, paths, event).1 is Launch <==> phase == Phase::WritingInput && event
            is InputWritten,
        next_step(phase, paths, event).1 is ReadOutput <==> phase == Phase::Running && (
        event matches Event::Exited { exit_code, .. } && exit_code == Some(0i32)),
        !(next_step(phase, paths, event).1 is WriteInput),
{
}

} // verus!
