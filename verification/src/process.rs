//! Compiler processes: what is started, and what comes back.
use vstd::prelude::*;

use crate::bstr;
use crate::cache::request;
use crate::cache::request::Pair;
use crate::launcher::admission::ExitState;
use crate::words;

verus! {

broadcast use bstr::lemma_views_push;

/// A command and the process settings used to execute it.
#[derive(Clone, Debug)]
pub struct CompilerCommand {
    pub program: Vec<u8>,
    pub args: Vec<Vec<u8>>,
    pub current_dir: Option<Vec<u8>>,
    /// The complete environment of the process, where it does not inherit one.
    pub environment: Option<Vec<Pair>>,
    /// What the process prints is printed as well as kept.
    pub tee_output: bool,
}

/// The contents of a `CompilerCommand`.
#[verifier::ext_equal]
pub struct Started {
    pub program: Seq<u8>,
    pub args: Seq<Seq<u8>>,
    pub current_dir: Option<Seq<u8>>,
    pub environment: Option<Seq<Pair<Seq<u8>>>>,
    pub tee_output: bool,
}

impl View for CompilerCommand {
    type V = Started;

    open spec fn view(&self) -> Started {
        Started {
            program: self.program@,
            args: bstr::views(self.args@),
            current_dir: bstr::opt_view(self.current_dir),
            environment: match self.environment {
                Some(pairs) => Some(request::pair_views(pairs@)),
                None => None,
            },
            tee_output: self.tee_output,
        }
    }
}

impl CompilerCommand {
    /// A program without arguments, in the directory and the environment of the launcher.
    pub fn new(program: Vec<u8>) -> (command: Self)
        ensures
            command@ == (Started {
                program: program@,
                args: Seq::empty(),
                current_dir: None,
                environment: None,
                tee_output: false,
            }),
    {
        let command = CompilerCommand {
            program,
            args: Vec::new(),
            current_dir: None,
            environment: None,
            tee_output: false,
        };
        assert(command@.args =~= Seq::empty());
        command
    }

    /// One more argument.
    pub fn arg(self, arg: Vec<u8>) -> (command: Self)
        ensures
            command@ == (Started { args: self@.args.push(arg@), ..self@ }),
    {
        let mut command = self;
        command.args.push(arg);
        command
    }

    /// More arguments.
    pub fn args(self, args: &Vec<Vec<u8>>) -> (command: Self)
        ensures
            command@ == (Started { args: self@.args + bstr::views(args@), ..self@ }),
    {
        let mut command = self;
        bstr::append_list(&mut command.args, args);
        command
    }

    /// The directory in which the process starts.
    pub fn current_dir(self, path: Vec<u8>) -> (command: Self)
        ensures
            command@ == (Started { current_dir: Some(path@), ..self@ }),
    {
        CompilerCommand { current_dir: Some(path), ..self }
    }

    /// Set the complete child environment. No ambient variables are inherited.
    pub fn environment(self, environment: Vec<Pair>) -> (command: Self)
        ensures
            command@ == (Started {
                environment: Some(request::pair_views(environment@)),
                ..self@
            }),
    {
        CompilerCommand { environment: Some(environment), ..self }
    }

    /// Whether what the process prints is printed as well as kept.
    pub fn tee_output(self, tee: bool) -> (command: Self)
        ensures
            command@ == (Started { tee_output: tee, ..self@ }),
    {
        CompilerCommand { tee_output: tee, ..self }
    }
}

/// Captured output and completion details for a compiler invocation.
#[derive(Clone, Debug, PartialEq, Eq)]
pub struct CompilerOutput {
    pub status: ExitState,
    pub stdout: Vec<u8>,
    pub stderr: Vec<u8>,
    /// The time that it took, in nanoseconds.
    pub elapsed: u64,
}

impl CompilerOutput {
    /// The process ended of its own accord, with zero.
    pub fn success(&self) -> (yes: bool)
        ensures
            yes == self.status.succeeded(),
    {
        match self.status.code {
            Some(code) => code == 0,
            None => false,
        }
    }
}

/// One of the streams of a process.
#[derive(Clone, Copy, Debug, PartialEq, Eq, Structural)]
pub enum Stream {
    Stdout,
    Stderr,
}

/// Why a process did not do its work.
#[derive(Clone, Debug, PartialEq, Eq)]
pub enum ProcessError {
    Spawn(String),
    Wait(String),
    Read { stream: Stream, source: String },
    TeeWrite { stream: Stream, source: String },
    ReaderPanic,
    MissingPipe(Stream),
}

/// The words of an error.
pub open spec fn error_text(error: ProcessError) -> Seq<char> {
    match error {
        ProcessError::Spawn(source) => "failed to spawn compiler: "@ + source@,
        ProcessError::Wait(source) => "failed waiting for compiler: "@ + source@,
        ProcessError::Read { stream: Stream::Stdout, source } => {
            "failed reading compiler stdout: "@ + source@
        },
        ProcessError::Read { stream: Stream::Stderr, source } => {
            "failed reading compiler stderr: "@ + source@
        },
        ProcessError::TeeWrite { stream: Stream::Stdout, source } => {
            "failed writing compiler stdout to parent: "@ + source@
        },
        ProcessError::TeeWrite { stream: Stream::Stderr, source } => {
            "failed writing compiler stderr to parent: "@ + source@
        },
        ProcessError::ReaderPanic => "compiler output reader thread panicked"@,
        ProcessError::MissingPipe(Stream::Stdout) => "compiler stdout pipe was not available"@,
        ProcessError::MissingPipe(Stream::Stderr) => "compiler stderr pipe was not available"@,
    }
}

impl ProcessError {
    /// The words of the error.
    pub fn message(&self) -> (text: String)
        ensures
            text@ == error_text(*self),
    {
        match self {
            ProcessError::Spawn(source) => words::two(
                "failed to spawn compiler: ",
                source.as_str(),
            ),
            ProcessError::Wait(source) => words::two(
                "failed waiting for compiler: ",
                source.as_str(),
            ),
            ProcessError::Read { stream: Stream::Stdout, source } => words::two(
                "failed reading compiler stdout: ",
                source.as_str(),
            ),
            ProcessError::Read { stream: Stream::Stderr, source } => words::two(
                "failed reading compiler stderr: ",
                source.as_str(),
            ),
            ProcessError::TeeWrite { stream: Stream::Stdout, source } => words::two(
                "failed writing compiler stdout to parent: ",
                source.as_str(),
            ),
            ProcessError::TeeWrite { stream: Stream::Stderr, source } => words::two(
                "failed writing compiler stderr to parent: ",
                source.as_str(),
            ),
            ProcessError::ReaderPanic => "compiler output reader thread panicked".to_owned(),
            ProcessError::MissingPipe(Stream::Stdout) => {
                "compiler stdout pipe was not available".to_owned()
            },
            ProcessError::MissingPipe(Stream::Stderr) => {
                "compiler stderr pipe was not available".to_owned()
            },
        }
    }
}

} // verus!
