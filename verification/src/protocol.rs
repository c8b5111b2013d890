//! The part of the debug adapter protocol that the debugger speaks.
use vstd::prelude::*;

verus! {

/// A source file, as client and debugger name it to each other.
#[derive(Debug)]
pub struct Source {
    pub name: Option<String>,
    pub path: Option<String>,
}

impl Clone for Source {
    fn clone(&self) -> (r: Self)
        ensures
            r == *self,
    {
        Source {
            name: match &self.name {
                Some(name) => Some(name.clone()),
                None => None,
            },
            path: match &self.path {
                Some(path) => Some(path.clone()),
                None => None,
            },
        }
    }
}

/// A line at which the client wants a breakpoint.
#[derive(Debug, Clone, Copy, PartialEq, Eq, Structural)]
pub struct SourceBreakpoint {
    pub line: i64,
}

/// All the breakpoints that the client wants in one source file.
#[derive(Debug)]
pub struct SetBreakpointsArguments {
    pub source: Source,
    pub breakpoints: Option<Vec<SourceBreakpoint>>,
}

/// A request of the client.
#[derive(Debug)]
pub enum Command {
    Attach,
    ConfigurationDone,
    Continue,
    Disconnect,
    Evaluate,
    Initialize,
    Launch,
    Next,
    Pause,
    Scopes { frame_id: i64 },
    SetBreakpoints(SetBreakpointsArguments),
    Source,
    StackTrace { start_frame: Option<i64>, levels: Option<i64> },
    StepIn,
    StepOut,
    Threads,
    Variables { variables_reference: i64, start: Option<i64>, count: Option<i64> },
    /// Any request that the debugger does not know.
    Other,
}

/// A breakpoint that has been set.
#[derive(Debug)]
pub struct Breakpoint {
    pub verified: bool,
    pub source: Option<Source>,
    pub line: Option<i64>,
}

/// What a scope holds.
#[derive(Debug, Clone, Copy, PartialEq, Eq, Structural)]
pub enum ScopePresentationHint {
    Arguments,
    Locals,
}

/// A scope of a frame.
#[derive(Debug)]
pub struct Scope {
    pub name: String,
    pub presentation_hint: Option<ScopePresentationHint>,
    pub variables_reference: i64,
}

/// A frame of the stack.
#[derive(Debug)]
pub struct StackFrame {
    pub id: i64,
    pub name: String,
    pub source: Option<Source>,
    pub line: i64,
}

/// A thread of the game.
#[derive(Debug)]
pub struct Thread {
    pub id: i64,
    pub name: String,
}

/// A variable, with the number of the scope that lists what it consists of, or 0.
#[derive(Debug)]
pub struct Variable {
    pub name: String,
    pub value: String,
    pub variables_reference: i64,
}

/// What a variable says.
pub struct VariableView {
    pub name: Seq<char>,
    pub value: Seq<char>,
    pub variables_reference: int,
}

impl View for Variable {
    type V = VariableView;

    open spec fn view(&self) -> VariableView {
        VariableView {
            name: self.name@,
            value: self.value@,
            variables_reference: self.variables_reference as int,
        }
    }
}

/// The answer to a request.
#[derive(Debug)]
pub enum ResponseBody {
    ConfigurationDone,
    Continue { all_threads_continued: Option<bool> },
    Disconnect,
    Initialize { supports_configuration_done_request: Option<bool> },
    Launch,
    Next,
    Scopes { scopes: Vec<Scope> },
    SetBreakpoints { breakpoints: Vec<Breakpoint> },
    StackTrace { stack_frames: Vec<StackFrame>, total_frames: Option<i64> },
    StepIn,
    StepOut,
    Threads { threads: Vec<Thread> },
    Variables { variables: Vec<Variable> },
}

/// Why the client is told that the game stopped.
#[derive(Debug, Clone, Copy, PartialEq, Eq, Structural)]
pub enum StoppedEventReason {
    Breakpoint,
    Step,
}

/// The message that the game stopped.
#[derive(Debug, Clone, Copy, PartialEq, Eq, Structural)]
pub struct StoppedEvent {
    pub reason: StoppedEventReason,
    pub thread_id: Option<i64>,
    pub all_threads_stopped: Option<bool>,
}

/// What goes wrong in a session.
#[derive(Debug, Clone, Copy, PartialEq, Eq, Structural)]
pub enum Error {
    UnhandledCommand,
    MissingCommand,
    UnexpectedRequest,
    UnkownStackFrame,
    UnknownScope,
}

impl Error {
    /// The error in words.
    pub fn message(&self) -> (r: &'static str)
        ensures
            r@ == (match *self {
                Error::UnhandledCommand => "unhandled command"@,
                Error::MissingCommand => "missing command"@,
                Error::UnexpectedRequest => "unexpected request"@,
                Error::UnkownStackFrame => "unkown stack frame"@,
                Error::UnknownScope => "unkown scope"@,
            }),
    {
        match self {
            Error::UnhandledCommand => "unhandled command",
            Error::MissingCommand => "missing command",
            Error::UnexpectedRequest => "unexpected request",
            Error::UnkownStackFrame => "unkown stack frame",
            Error::UnknownScope => "unkown scope",
        }
    }
}

/// Whether a session goes on after a request.
#[derive(Debug, Clone, Copy, PartialEq, Eq, Structural)]
pub enum Outcome {
    Shutdown,
    Continue,
}

} // verus!
