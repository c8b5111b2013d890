//! A debug session: what each request of the client does and is answered.
use crate::control::{BreakpointKey, DebugControl, StepMode};
use crate::event::{DebugEvent, EventCause};
use crate::frame::StackFramePtr;
use crate::mapping::FunctionId;
use crate::pages::{frames_range, variables_range};
use crate::path::file_name;
use crate::protocol::{
    Breakpoint, Command, Error, Outcome, ResponseBody, ScopePresentationHint, SetBreakpointsArguments,
    Source, SourceBreakpoint, StackFrame, StoppedEvent, StoppedEventReason, Thread,
};
use crate::state::{DebugState, Scope};
use crate::text::text_before;
use crate::value::Snapshot;
use crate::variables::{count_variables, list_variables, ScopeContents};
use vstd::prelude::*;

verus! {

/// What is to be done about a request: let the game go on, then send the answer, then say that
/// the debugger is ready.
#[derive(Debug)]
pub struct Reply {
    /// The stop that ends.
    pub resume: Option<DebugEvent>,
    /// The answer.
    pub body: Option<ResponseBody>,
    /// Whether the debugger says that it is ready for breakpoints.
    pub initialized: bool,
    /// Whether the session goes on.
    pub outcome: Outcome,
}

/// The frames that the client asks for.
#[derive(Debug)]
pub struct FrameQuery {
    pub start: i64,
    pub frames: Vec<StackFramePtr>,
    pub total: i64,
}

impl FrameQuery {
    /// The frames lie within the stack.
    pub open spec fn wf(&self) -> bool {
        &&& 0 <= self.start
        &&& self.start + self.frames@.len() <= self.total
    }
}

/// The variables that the client asks for.
#[derive(Debug, Clone, Copy, PartialEq, Eq, Structural)]
pub struct VariablesQuery {
    pub scope: Scope,
    pub start: Option<i64>,
    pub count: Option<i64>,
}

/// What comes next for a request: it is answered, or something of the game has to be read first.
#[derive(Debug)]
pub enum Step {
    Reply(Reply),
    ReadFrames(FrameQuery),
    ReadScope(VariablesQuery),
}

/// What the game knows of a frame.
#[derive(Debug)]
pub struct FrameInfo {
    /// The line of the static call that the frame is in.
    pub static_line: Option<u16>,
    /// The line of the virtual call that the frame is in.
    pub virtual_line: Option<u16>,
    pub function: FunctionId,
    pub name: String,
    pub class: Option<String>,
}

/// What came in while the session waits for stops of the game.
#[derive(Debug, Clone, Copy, PartialEq, Eq, Structural)]
pub enum Received {
    Event,
    Empty,
    Disconnected,
}

/// What the session does next while it waits for stops.
#[derive(Debug, Clone, Copy, PartialEq, Eq, Structural)]
pub enum Turn {
    /// The session is over.
    Leave,
    /// The session is over, with the result of the thread that answers requests.
    Join,
    /// The session waits on.
    Again,
}

/// A reply that only answers.
pub open spec fn answered(body: ResponseBody) -> Result<Step, Error> {
    Ok(
        Step::Reply(
            Reply {
                resume: None,
                body: Some(body),
                initialized: false,
                outcome: Outcome::Continue,
            },
        ),
    )
}

/// A reply that does nothing at all.
pub open spec fn ignored() -> Result<Step, Error> {
    Ok(
        Step::Reply(
            Reply { resume: None, body: None, initialized: false, outcome: Outcome::Continue },
        ),
    )
}

/// A reply that lets the game go on.
pub open spec fn resumed(ev: DebugEvent, body: ResponseBody) -> Result<Step, Error> {
    Ok(
        Step::Reply(
            Reply {
                resume: Some(ev),
                body: Some(body),
                initialized: false,
                outcome: Outcome::Continue,
            },
        ),
    )
}

/// The answer that a request is given at once.
pub open spec fn body_of(r: Result<Step, Error>) -> Option<ResponseBody> {
    match r {
        Ok(Step::Reply(reply)) => reply.body,
        _ => None,
    }
}

/// The breakpoint that is set for a line of a file: in the function that the line lies in, where
/// there is one. Lines are cut to 16 bits.
pub open spec fn key_for(
    functions: Map<crate::source::Place, FunctionId>,
    path: Seq<char>,
    line: i64,
) -> Option<BreakpointKey> {
    match crate::mapping::function_at(functions, path, (line as u16) as u32) {
        Some(func) => Some(BreakpointKey { func, line: line as u16 }),
        None => None,
    }
}

/// The lines that the client asks for.
pub open spec fn wanted(args: SetBreakpointsArguments) -> Seq<SourceBreakpoint> {
    match args.breakpoints {
        Some(breakpoints) => breakpoints@,
        None => Seq::empty(),
    }
}

/// Those of the lines that lie in a function.
pub open spec fn placeable(
    functions: Map<crate::source::Place, FunctionId>,
    path: Seq<char>,
    lines: Seq<SourceBreakpoint>,
) -> Seq<SourceBreakpoint> {
    lines.filter(|bp: SourceBreakpoint| key_for(functions, path, bp.line) is Some)
}

/// The breakpoints that are set for some lines of a file.
pub open spec fn keys_for(
    functions: Map<crate::source::Place, FunctionId>,
    path: Seq<char>,
    lines: Seq<SourceBreakpoint>,
) -> Set<BreakpointKey> {
    Set::new(
        |key: BreakpointKey|
            exists|i: int|
                0 <= i < lines.len() && key_for(functions, path, (#[trigger] lines[i]).line) == Some(
                    key,
                ),
    )
}

/// The breakpoints once those of the file at `path` have been replaced.
pub open spec fn breakpoints_replaced(
    control: crate::control::ControlView,
    path: Seq<char>,
    lines: Seq<SourceBreakpoint>,
) -> Set<BreakpointKey> {
    let functions = control.functions.functions;
    control.breakpoints.filter(
        |key: BreakpointKey| !crate::mapping::functions_in(functions, path).contains(key.func),
    ).union(keys_for(functions, path, lines))
}

/// The answer to a request for breakpoints: one breakpoint for each line that lies in a function.
pub open spec fn confirms(
    breakpoints: Seq<Breakpoint>,
    source: Source,
    lines: Seq<SourceBreakpoint>,
) -> bool {
    &&& breakpoints.len() == lines.len()
    &&& forall|i: int|
        0 <= i < lines.len() ==> (#[trigger] breakpoints[i]) == (Breakpoint {
            verified: true,
            source: Some(source),
            line: Some(lines[i].line),
        })
}

/// The answer to a request for the scopes of a frame; `first` is the number of its parameters.
pub open spec fn describes_scopes(scopes: Seq<crate::protocol::Scope>, first: nat) -> bool {
    &&& scopes.len() == 2
    &&& scopes[0].name@ == "Arguments"@
    &&& scopes[0].presentation_hint == Some(ScopePresentationHint::Arguments)
    &&& scopes[0].variables_reference == first
    &&& scopes[1].name@ == "Locals"@
    &&& scopes[1].presentation_hint == Some(ScopePresentationHint::Locals)
    &&& scopes[1].variables_reference == first + 1
}

/// Whether a request can be handled: it asks for no frames that are not there, and there is room
/// for the scopes that it opens.
pub open spec fn request_fits(req: Command, state: crate::state::StateView) -> bool {
    match req {
        Command::StackTrace { start_frame, levels } => {
            &&& crate::pages::frames_fit(start_frame, levels, state.frames.len() as int)
            &&& state.frames.len() <= i64::MAX
        },
        Command::Scopes { frame_id } => 0 <= frame_id < state.frames.len() ==> state.scopes.len()
            + 2 <= crate::state::max_scopes(),
        _ => true,
    }
}

/// What a request does to the session (from `s` to `s2`) and to the controls (from `c` to `c2`),
/// and what comes next.
pub open spec fn handles(
    req: Command,
    s: crate::state::StateView,
    c: crate::control::ControlView,
    s2: crate::state::StateView,
    c2: crate::control::ControlView,
    r: Result<Step, Error>,
) -> bool {
    let gone_on = crate::state::StateView { current: None, ..s };
    match req {
        Command::Attach | Command::Pause | Command::Source | Command::Evaluate => {
            s2 == s && c2 == c && r == ignored()
        },
        Command::ConfigurationDone => {
            s2 == s && c2 == c && r == answered(ResponseBody::ConfigurationDone)
        },
        Command::Launch => s2 == s && c2 == c && r == answered(ResponseBody::Launch),
        Command::Initialize => {
            &&& s2 == s && c2 == c
            &&& r == Ok::<Step, Error>(
                Step::Reply(
                    Reply {
                        resume: None,
                        body: Some(
                            ResponseBody::Initialize {
                                supports_configuration_done_request: Some(true),
                            },
                        ),
                        initialized: true,
                        outcome: Outcome::Continue,
                    },
                ),
            )
        },
        Command::Continue => match s.current {
            Some(ev) => s2 == gone_on && c2 == c && r == resumed(
                ev,
                ResponseBody::Continue { all_threads_continued: Some(true) },
            ),
            None => s2 == s && c2 == c && r == Err::<Step, Error>(Error::UnexpectedRequest),
        },
        Command::Next => match s.current {
            Some(ev) => s2 == gone_on && c2 == (crate::control::ControlView {
                step_mode: StepMode::StepOver,
                ..c
            }) && r == resumed(ev, ResponseBody::Next),
            None => s2 == s && c2 == c && r == Err::<Step, Error>(Error::UnexpectedRequest),
        },
        Command::StepIn => match s.current {
            Some(ev) => s2 == gone_on && c2 == (crate::control::ControlView {
                step_mode: StepMode::StepIn,
                ..c
            }) && r == resumed(ev, ResponseBody::StepIn),
            None => s2 == s && c2 == c && r == Err::<Step, Error>(Error::UnexpectedRequest),
        },
        Command::StepOut => match s.current {
            Some(ev) => s2 == gone_on && c2 == (if s.frames.len() > 1 {
                crate::control::ControlView { step_mode: StepMode::StepOut, ..c }
            } else {
                c
            }) && r == resumed(ev, ResponseBody::StepOut),
            None => s2 == s && c2 == c && r == Err::<Step, Error>(Error::UnexpectedRequest),
        },
        Command::Disconnect => {
            &&& s2 == gone_on && c2 == c
            &&& r == Ok::<Step, Error>(
                Step::Reply(
                    Reply {
                        resume: s.current,
                        body: Some(ResponseBody::Disconnect),
                        initialized: false,
                        outcome: Outcome::Shutdown,
                    },
                ),
            )
        },
        Command::Scopes { frame_id } => if 0 <= frame_id < s.frames.len() {
            let frame = s.frames[frame_id as int];
            &&& c2 == c
            &&& s2 == (crate::state::StateView {
                scopes: s.scopes.push(Scope::Params(frame)).push(Scope::Locals(frame)),
                ..s
            })
            &&& body_of(r) matches Some(ResponseBody::Scopes { scopes }) && describes_scopes(
                scopes@,
                s.scopes.len() + 1,
            ) && r == answered(ResponseBody::Scopes { scopes })
        } else {
            s2 == s && c2 == c && r == Err::<Step, Error>(Error::UnkownStackFrame)
        },
        Command::SetBreakpoints(args) => {
            &&& s2 == s
            &&& match args.source.path {
                Some(path) => {
                    &&& c2 == (crate::control::ControlView {
                        breakpoints: breakpoints_replaced(c, path@, wanted(args)),
                        ..c
                    })
                    &&& body_of(r) matches Some(ResponseBody::SetBreakpoints { breakpoints })
                        && confirms(
                        breakpoints@,
                        args.source,
                        placeable(c.functions.functions, path@, wanted(args)),
                    ) && r == answered(ResponseBody::SetBreakpoints { breakpoints })
                },
                None => {
                    &&& c2 == c
                    &&& body_of(r) matches Some(ResponseBody::SetBreakpoints { breakpoints })
                        && breakpoints@.len() == 0 && r == answered(
                        ResponseBody::SetBreakpoints { breakpoints },
                    )
                },
            }
        },
        Command::StackTrace { start_frame, levels } => {
            let start = crate::pages::page_start(start_frame);
            let end = crate::pages::frames_end(start_frame, levels, s.frames.len() as int);
            &&& s2 == s && c2 == c
            &&& r matches Ok(Step::ReadFrames(query)) && query.wf() && query.start == start
                && query.frames@ == s.frames.subrange(start, end) && query.total == s.frames.len()
        },
        Command::Threads => {
            &&& s2 == s && c2 == c
            &&& body_of(r) matches Some(ResponseBody::Threads { threads }) && threads@.len() == 1
                && threads@[0].id == 0 && threads@[0].name@ == "Main"@ && r == answered(
                ResponseBody::Threads { threads },
            )
        },
        Command::Variables { variables_reference, start, count } => {
            &&& s2 == s && c2 == c
            &&& if 1 <= variables_reference <= s.scopes.len() {
                r == Ok::<Step, Error>(
                    Step::ReadScope(
                        VariablesQuery { scope: s.scopes[variables_reference - 1], start, count },
                    ),
                )
            } else {
                r == Err::<Step, Error>(Error::UnknownScope)
            }
        },
        Command::Other => s2 == s && c2 == c && r == Err::<Step, Error>(Error::UnhandledCommand),
    }
}

/// The line that a frame is at, by the call that it is in.
pub open spec fn frame_line(info: FrameInfo) -> Option<u16> {
    match info.static_line {
        Some(line) => Some(line),
        None => info.virtual_line,
    }
}

/// The name that a frame is shown under: the name of the function up to a `;`, behind which the
/// types of its parameters follow, with the name of its class in front.
pub open spec fn frame_name(info: FrameInfo) -> Seq<char> {
    match info.class {
        Some(class) => class@ + "::"@ + crate::text::before(info.name@, ';'),
        None => crate::text::before(info.name@, ';'),
    }
}

/// Whether `source` names the file at `path`.
pub open spec fn names_file(source: Source, path: Seq<char>) -> bool {
    &&& source.path matches Some(p) && p@ == path
    &&& match crate::path::file_name_of(path) {
        Some(file) => source.name matches Some(name) && name@ == file,
        None => source.name is None,
    }
}

/// Whether `frame` shows what `info` says. It has a source and a line where both are known.
pub open spec fn describes_frame(
    frame: StackFrame,
    id: int,
    info: FrameInfo,
    sources: Map<FunctionId, crate::source::Place>,
) -> bool {
    &&& frame.id == id
    &&& frame.name@ == frame_name(info)
    &&& match frame_line(info) {
        Some(line) if sources.contains_key(info.function) => {
            &&& frame.source matches Some(source) && names_file(source, sources[info.function].0)
            &&& frame.line == line
        },
        _ => frame.source is None && frame.line == 0,
    }
}

/// Whether `reply` only answers with these variables.
pub open spec fn lists_variables(reply: Reply, all: Seq<crate::protocol::VariableView>) -> bool {
    &&& reply.resume is None
    &&& !reply.initialized
    &&& reply.outcome == Outcome::Continue
    &&& reply.body matches Some(ResponseBody::Variables { variables }) && variables@.map_values(
        |v: crate::protocol::Variable| v@,
    ) == all
}

/// Whether the variables that are asked for lie within the list of those that there are, and
/// there is room for the scopes that they open.
pub open spec fn variables_query_fits(
    query: VariablesQuery,
    contents: ScopeContents,
    state: crate::state::StateView,
) -> bool {
    &&& crate::pages::variables_fit(
        query.start,
        query.count,
        crate::variables::listed_len(query.scope, contents),
    )
    &&& state.scopes.len() + contents.properties@.len() < crate::state::max_scopes()
}

fn reply(body: ResponseBody) -> (r: Result<Step, Error>)
    ensures
        r == answered(body),
{
    Ok(
        Step::Reply(
            Reply {
                resume: None,
                body: Some(body),
                initialized: false,
                outcome: Outcome::Continue,
            },
        ),
    )
}

fn resume(ev: DebugEvent, body: ResponseBody) -> (r: Result<Step, Error>)
    ensures
        r == resumed(ev, body),
{
    Ok(
        Step::Reply(
            Reply {
                resume: Some(ev),
                body: Some(body),
                initialized: false,
                outcome: Outcome::Continue,
            },
        ),
    )
}

/// Replaces the breakpoints of one file.
fn set_breakpoints(control: &mut DebugControl, args: &SetBreakpointsArguments, path: &String) -> (r: Vec<Breakpoint>)
    requires
        old(control).wf(),
    ensures
        final(control).wf(),
        final(control)@ == (crate::control::ControlView {
            breakpoints: breakpoints_replaced(old(control)@, path@, wanted(*args)),
            ..old(control)@
        }),
        confirms(
            r@,
            args.source,
            placeable(old(control)@.functions.functions, path@, wanted(*args)),
        ),
{
    let ghost before = control@;
    let ghost functions = control@.functions.functions;
    let ghost lines = wanted(*args);
    let ghost pred = |bp: SourceBreakpoint| key_for(functions, path@, bp.line) is Some;
    let mut breakpoints: Vec<Breakpoint> = Vec::new();
    let mut pending: Vec<BreakpointKey> = Vec::new();
    proof {
        reveal(Seq::filter);
    }
    if let Some(asked) = &args.breakpoints {
        let mut i: usize = 0;
        assert(lines.take(0) =~= Seq::<SourceBreakpoint>::empty());
        while i < asked.len()
            invariant
                control.wf(),
                control@ == before,
                functions == before.functions.functions,
                lines == asked@,
                i <= asked@.len(),
                pred == (|bp: SourceBreakpoint| key_for(functions, path@, bp.line) is Some),
                confirms(breakpoints@, args.source, lines.take(i as int).filter(pred)),
                forall|key: BreakpointKey| #[trigger]
                    pending@.contains(key) <==> keys_for(
                        functions,
                        path@,
                        lines.take(i as int),
                    ).contains(key),
            decreases asked@.len() - i,
        {
            let bp = asked[i];
            let ghost head = lines.take(i as int);
            let ghost old_pending = pending@;
            proof {
                reveal(Seq::filter);
                assert(lines.take(i + 1) =~= head.push(bp));
                assert(head.push(bp).drop_last() =~= head);
                lemma_keys_for_push(functions, path@, head, bp);
            }
            let line: u16 = #[verifier::truncate] (bp.line as u16);
            if let Some(func) = control.functions().get_by_loc(path.as_str(), line as u32) {
                let key = BreakpointKey::new(func, line);
                pending.push(key);
                breakpoints.push(
                    Breakpoint {
                        verified: true,
                        source: Some(args.source.clone()),
                        line: Some(bp.line),
                    },
                );
                proof {
                    assert forall|k: BreakpointKey| #[trigger]
                        pending@.contains(k) <==> old_pending.contains(k) || k == key by {
                        vstd::seq_lib::lemma_seq_contains_after_push(old_pending, key, k);
                    }
                }
            }
            i = i + 1;
        }
        assert(lines.take(i as int) =~= lines);
    } else {
        assert(lines =~= Seq::<SourceBreakpoint>::empty());
    }
    let in_file = control.functions().get_by_file(path.as_str());
    proof {
        lemma_listed_functions(functions, path@, in_file@);
    }
    let mut i: usize = 0;
    assert(in_file@.take(0) =~= Seq::<FunctionId>::empty());
    while i < in_file.len()
        invariant
            control.wf(),
            i <= in_file@.len(),
            control@ == (crate::control::ControlView {
                breakpoints: control@.breakpoints,
                ..before
            }),
            forall|key: BreakpointKey| #[trigger]
                control@.breakpoints.contains(key) <==> before.breakpoints.contains(key)
                    && !in_file@.take(i as int).contains(key.func),
        decreases in_file@.len() - i,
    {
        control.breakpoints_mut().unregister_by_fn(in_file[i]);
        proof {
            let head = in_file@.take(i as int);
            assert(in_file@.take(i + 1) =~= head.push(in_file@[i as int]));
            assert forall|f: FunctionId| #[trigger]
                in_file@.take(i + 1).contains(f) == (head.contains(f) || f == in_file@[i as int]) by {
                vstd::seq_lib::lemma_seq_contains_after_push(head, in_file@[i as int], f);
            }
        }
        i = i + 1;
    }
    assert(in_file@.take(i as int) =~= in_file@);
    let ghost kept = control@.breakpoints;
    let mut j: usize = 0;
    assert(pending@.take(0) =~= Seq::<BreakpointKey>::empty());
    while j < pending.len()
        invariant
            control.wf(),
            j <= pending@.len(),
            control@ == (crate::control::ControlView {
                breakpoints: control@.breakpoints,
                ..before
            }),
            forall|key: BreakpointKey| #[trigger]
                control@.breakpoints.contains(key) <==> kept.contains(key) || pending@.take(
                    j as int,
                ).contains(key),
        decreases pending@.len() - j,
    {
        control.breakpoints_mut().add(pending[j]);
        proof {
            let head = pending@.take(j as int);
            assert(pending@.take(j + 1) =~= head.push(pending@[j as int]));
            assert forall|k: BreakpointKey| #[trigger]
                pending@.take(j + 1).contains(k) == (head.contains(k) || k == pending@[j as int]) by {
                vstd::seq_lib::lemma_seq_contains_after_push(head, pending@[j as int], k);
            }
        }
        j = j + 1;
    }
    assert(pending@.take(j as int) =~= pending@);
    assert(control@.breakpoints =~= breakpoints_replaced(before, path@, lines));
    breakpoints
}

proof fn lemma_keys_for_push(
    functions: Map<crate::source::Place, FunctionId>,
    path: Seq<char>,
    lines: Seq<SourceBreakpoint>,
    bp: SourceBreakpoint,
)
    ensures
        keys_for(functions, path, lines.push(bp)) == (match key_for(functions, path, bp.line) {
            Some(key) => keys_for(functions, path, lines).insert(key),
            None => keys_for(functions, path, lines),
        }),
{
    let more = lines.push(bp);
    let expected = match key_for(functions, path, bp.line) {
        Some(key) => keys_for(functions, path, lines).insert(key),
        None => keys_for(functions, path, lines),
    };
    assert forall|key: BreakpointKey|
        keys_for(functions, path, more).contains(key) == expected.contains(key) by {
        if keys_for(functions, path, lines).contains(key) {
            let i = choose|i: int|
                0 <= i < lines.len() && key_for(functions, path, (#[trigger] lines[i]).line) == Some(
                    key,
                );
            assert(more[i] == lines[i]);
        }
        if keys_for(functions, path, more).contains(key) {
            let i = choose|i: int|
                0 <= i < more.len() && key_for(functions, path, (#[trigger] more[i]).line) == Some(
                    key,
                );
            if i < lines.len() {
                assert(more[i] == lines[i]);
            }
        }
        assert(more[lines.len() as int] == bp);
    }
    assert(keys_for(functions, path, more) =~= expected);
}

proof fn lemma_listed_functions(
    functions: Map<crate::source::Place, FunctionId>,
    path: Seq<char>,
    list: Seq<FunctionId>,
)
    requires
        exists|ks: Seq<crate::source::Place>| #[trigger]
            crate::mapping::lists_run(functions, path, u32::MAX, ks) && list == ks.map_values(
                |k: crate::source::Place| functions[k],
            ),
    ensures
        forall|f: FunctionId| #[trigger]
            list.contains(f) <==> crate::mapping::functions_in(functions, path).contains(f),
{
    let ks = choose|ks: Seq<crate::source::Place>| #[trigger]
        crate::mapping::lists_run(functions, path, u32::MAX, ks) && list == ks.map_values(
            |k: crate::source::Place| functions[k],
        );
    assert forall|f: FunctionId| #[trigger]
        list.contains(f) <==> crate::mapping::functions_in(functions, path).contains(f) by {
        if list.contains(f) {
            let i = choose|i: int| 0 <= i < list.len() && list[i] == f;
            assert(ks.contains(ks[i]));
            assert(crate::mapping::in_run(functions, path, u32::MAX, ks[i]));
        }
        if crate::mapping::functions_in(functions, path).contains(f) {
            let k = choose|k: crate::source::Place| #[trigger]
                crate::mapping::in_run(functions, path, u32::MAX, k) && functions[k] == f;
            assert(ks.contains(k));
            let i = choose|i: int| 0 <= i < ks.len() && ks[i] == k;
            assert(list[i] == f);
        }
    }
}

/// A debug session.
#[derive(Debug)]
pub struct DebugSession {
    state: DebugState,
}

impl View for DebugSession {
    type V = crate::state::StateView;

    closed spec fn view(&self) -> crate::state::StateView {
        self.state@
    }
}

impl DebugSession {
    pub closed spec fn wf(&self) -> bool {
        self.state.wf()
    }

    /// A session in which nothing has happened.
    pub fn new() -> (r: Self)
        ensures
            r.wf(),
            r@.scopes == Seq::<Scope>::empty(),
            r@.frames == Seq::<StackFramePtr>::empty(),
            r@.current is None,
            r@.pending == Some(Seq::<SetBreakpointsArguments>::empty()),
    {
        DebugSession { state: DebugState::default() }
    }

    /// Whether `req` can be handled.
    pub fn accepts(&self, req: &Command) -> (r: bool)
        requires
            self.wf(),
        ensures
            r == request_fits(*req, self@),
    {
        match req {
            Command::StackTrace { start_frame, levels } => {
                let len: usize = self.state.frames().len();
                match frames_range(*start_frame, *levels, len) {
                    Some(_) => len as u64 <= i64::MAX as u64,
                    None => false,
                }
            },
            Command::Scopes { frame_id } => {
                *frame_id < 0 || *frame_id as u64 >= self.state.frames().len() as u64
                    || self.state.has_room(2)
            },
            _ => true,
        }
    }

    /// Handles one request.
    pub fn handle_req(&mut self, control: &mut DebugControl, req: &Command) -> (r: Result<Step, Error>)
        requires
            old(self).wf(),
            old(control).wf(),
            request_fits(*req, old(self)@),
        ensures
            final(self).wf(),
            final(control).wf(),
            handles(*req, old(self)@, old(control)@, final(self)@, final(control)@, r),
    {
        match req {
            Command::Attach | Command::Pause | Command::Source | Command::Evaluate => Ok(
                Step::Reply(
                    Reply {
                        resume: None,
                        body: None,
                        initialized: false,
                        outcome: Outcome::Continue,
                    },
                ),
            ),
            Command::ConfigurationDone => reply(ResponseBody::ConfigurationDone),
            Command::Launch => reply(ResponseBody::Launch),
            Command::Initialize => Ok(
                Step::Reply(
                    Reply {
                        resume: None,
                        body: Some(
                            ResponseBody::Initialize {
                                supports_configuration_done_request: Some(true),
                            },
                        ),
                        initialized: true,
                        outcome: Outcome::Continue,
                    },
                ),
            ),
            Command::Continue => {
                match self.state.take_event() {
                    Some(ev) => resume(
                        ev,
                        ResponseBody::Continue { all_threads_continued: Some(true) },
                    ),
                    None => Err(Error::UnexpectedRequest),
                }
            },
            Command::Disconnect => {
                let ev = self.state.take_event();
                Ok(
                    Step::Reply(
                        Reply {
                            resume: ev,
                            body: Some(ResponseBody::Disconnect),
                            initialized: false,
                            outcome: Outcome::Shutdown,
                        },
                    ),
                )
            },
            Command::Next => {
                match self.state.take_event() {
                    Some(ev) => {
                        control.set_step_mode(StepMode::StepOver);
                        resume(ev, ResponseBody::Next)
                    },
                    None => Err(Error::UnexpectedRequest),
                }
            },
            Command::StepIn => {
                match self.state.take_event() {
                    Some(ev) => {
                        control.set_step_mode(StepMode::StepIn);
                        resume(ev, ResponseBody::StepIn)
                    },
                    None => Err(Error::UnexpectedRequest),
                }
            },
            Command::StepOut => {
                match self.state.take_event() {
                    Some(ev) => {
                        // the first frame is that of the stop, the second one its caller
                        if self.state.frames().len() > 1 {
                            control.set_step_mode(StepMode::StepOut);
                        }
                        resume(ev, ResponseBody::StepOut)
                    },
                    None => Err(Error::UnexpectedRequest),
                }
            },
            Command::Scopes { frame_id } => {
                if *frame_id < 0 || *frame_id as u64 >= self.state.frames().len() as u64 {
                    return Err(Error::UnkownStackFrame);
                }
                let frame = self.state.frames()[*frame_id as usize];
                let params: i64 = self.state.add_scope(Scope::Params(frame));
                let locals: i64 = self.state.add_scope(Scope::Locals(frame));
                let mut scopes: Vec<crate::protocol::Scope> = Vec::new();
                scopes.push(
                    crate::protocol::Scope {
                        name: "Arguments".to_owned(),
                        presentation_hint: Some(ScopePresentationHint::Arguments),
                        variables_reference: params,
                    },
                );
                scopes.push(
                    crate::protocol::Scope {
                        name: "Locals".to_owned(),
                        presentation_hint: Some(ScopePresentationHint::Locals),
                        variables_reference: locals,
                    },
                );
                assert(describes_scopes(scopes@, old(self)@.scopes.len() + 1));
                reply(ResponseBody::Scopes { scopes })
            },
            Command::SetBreakpoints(args) => {
                let breakpoints = match &args.source.path {
                    Some(path) => set_breakpoints(control, args, path),
                    None => Vec::new(),
                };
                reply(ResponseBody::SetBreakpoints { breakpoints })
            },
            Command::StackTrace { start_frame, levels } => {
                let frames = self.state.frames();
                match frames_range(*start_frame, *levels, frames.len()) {
                    Some((from, to)) => {
                        let mut part: Vec<StackFramePtr> = Vec::new();
                        let mut i: usize = from;
                        while i < to
                            invariant
                                from <= i <= to <= frames@.len(),
                                part@ == frames@.subrange(from as int, i as int),
                            decreases to - i,
                        {
                            part.push(frames[i]);
                            i = i + 1;
                            assert(part@ =~= frames@.subrange(from as int, i as int));
                        }
                        Ok(
                            Step::ReadFrames(
                                FrameQuery {
                                    start: from as i64,
                                    frames: part,
                                    total: frames.len() as i64,
                                },
                            ),
                        )
                    },
                    None => vstd::pervasive::unreached(),
                }
            },
            Command::Threads => {
                let mut threads: Vec<Thread> = Vec::new();
                threads.push(Thread { id: 0, name: "Main".to_owned() });
                reply(ResponseBody::Threads { threads })
            },
            Command::Variables { variables_reference, start, count } => {
                match self.state.scope(*variables_reference) {
                    Some(scope) => Ok(
                        Step::ReadScope(
                            VariablesQuery { scope: *scope, start: *start, count: *count },
                        ),
                    ),
                    None => Err(Error::UnknownScope),
                }
            },
            Command::Other => Err(Error::UnhandledCommand),
        }
    }

    /// Answers a request for frames, with what the game knows of each of them.
    pub fn stack_trace(control: &DebugControl, query: &FrameQuery, infos: &Vec<FrameInfo>) -> (r: Reply)
        requires
            query.wf(),
            infos@.len() == query.frames@.len(),
        ensures
            r.resume is None,
            !r.initialized,
            r.outcome == Outcome::Continue,
            r.body matches Some(ResponseBody::StackTrace { stack_frames, total_frames })
                && total_frames == Some(query.total) && stack_frames@.len() == infos@.len()
                && forall|i: int|
                0 <= i < infos@.len() ==> describes_frame(
                    #[trigger] stack_frames@[i],
                    query.start + i,
                    infos@[i],
                    control@.functions.sources,
                ),
    {
        let mut stack_frames: Vec<StackFrame> = Vec::new();
        let mut i: usize = 0;
        while i < infos.len()
            invariant
                query.wf(),
                infos@.len() == query.frames@.len(),
                i <= infos@.len(),
                stack_frames@.len() == i,
                forall|j: int|
                    0 <= j < i ==> describes_frame(
                        #[trigger] stack_frames@[j],
                        query.start + j,
                        infos@[j],
                        control@.functions.sources,
                    ),
            decreases infos@.len() - i,
        {
            let frame = Self::stack_frame(control, query.start + i as i64, &infos[i]);
            stack_frames.push(frame);
            i = i + 1;
        }
        Reply {
            resume: None,
            body: Some(ResponseBody::StackTrace { stack_frames, total_frames: Some(query.total) }),
            initialized: false,
            outcome: Outcome::Continue,
        }
    }

    fn stack_frame(control: &DebugControl, id: i64, info: &FrameInfo) -> (r: StackFrame)
        ensures
            describes_frame(r, id as int, *info, control@.functions.sources),
    {
        let line: Option<u16> = match info.static_line {
            Some(line) => Some(line),
            None => info.virtual_line,
        };
        let short = text_before(info.name.as_str(), ';');
        let name = match &info.class {
            Some(class) => {
                let mut name = class.clone();
                name.append("::");
                name.append(short.as_str());
                name
            },
            None => short,
        };
        match (control.functions().get(info.function), line) {
            (Some(place), Some(line)) => {
                let path = place.file_path();
                StackFrame {
                    id,
                    name,
                    source: Some(Source { name: file_name(path), path: Some(path.to_owned()) }),
                    line: line as i64,
                }
            },
            _ => StackFrame { id, name, source: None, line: 0 },
        }
    }

    /// Whether a request for variables can be answered with `contents`.
    pub fn accepts_variables(&self, query: &VariablesQuery, contents: &ScopeContents) -> (r: bool)
        requires
            self.wf(),
        ensures
            r == variables_query_fits(*query, *contents, self@),
    {
        let n: usize = contents.properties.len();
        if n == usize::MAX || !self.state.has_room(n + 1) {
            return false;
        }
        match variables_range(query.start, query.count, count_variables(query.scope, contents)) {
            Some(_) => true,
            None => false,
        }
    }

    /// Answers a request for variables, with what the game has in the scope. If an object is
    /// missing to show them, nothing happens and the object is the error.
    pub fn variables(
        &mut self,
        query: &VariablesQuery,
        contents: &ScopeContents,
        objects: &Snapshot,
    ) -> (r: Result<Reply, usize>)
        requires
            old(self).wf(),
            variables_query_fits(*query, *contents, old(self)@),
        ensures
            final(self).wf(),
            match crate::variables::texts(
                objects@,
                crate::variables::entries(query.scope, contents.properties@),
            ) {
                Ok(texts) => {
                    let all = crate::variables::listed(
                        query.scope,
                        *contents,
                        texts,
                        old(self)@.scopes.len() as int,
                    );
                    let start = crate::pages::page_start(query.start);
                    let end = crate::pages::variables_end(query.start, query.count, all.len() as int);
                    &&& final(self)@ == (crate::state::StateView {
                        scopes: old(self)@.scopes + crate::variables::listed_scopes(
                            query.scope,
                            *contents,
                        ),
                        ..old(self)@
                    })
                    &&& r matches Ok(reply) && lists_variables(reply, all.subrange(start, end))
                },
                Err(id) => final(self)@ == old(self)@ && r == Err::<Reply, usize>(id),
            },
    {
        let mut variables = match list_variables(&mut self.state, query.scope, contents, objects) {
            Err(id) => {
                return Err(id);
            },
            Ok(variables) => variables,
        };
        let ghost all = variables@;
        assert(all.map_values(|v: crate::protocol::Variable| v@).len() == all.len());
        match variables_range(query.start, query.count, variables.len()) {
            None => vstd::pervasive::unreached(),
            Some((from, to)) => {
                variables.truncate(to);
                let part = variables.split_off(from);
                assert(part@ =~= all.subrange(from as int, to as int));
                assert(part@.map_values(|v: crate::protocol::Variable| v@) =~= all.map_values(
                    |v: crate::protocol::Variable| v@,
                ).subrange(from as int, to as int));
                Ok(
                    Reply {
                        resume: None,
                        body: Some(ResponseBody::Variables { variables: part }),
                        initialized: false,
                        outcome: Outcome::Continue,
                    },
                )
            },
        }
    }

    /// Takes up a stop of the game, and returns the message that tells the client; `parents` are
    /// the frames that called the frame of the stop, innermost first.
    pub fn handle_event(&mut self, ev: DebugEvent, parents: &Vec<usize>) -> (r: StoppedEvent)
        ensures
            final(self).wf(),
            final(self)@ == old(self)@.stopped(ev, parents@),
            r == (StoppedEvent {
                reason: match ev.spec_cause() {
                    EventCause::Breakpoint => StoppedEventReason::Breakpoint,
                    EventCause::Step => StoppedEventReason::Step,
                },
                thread_id: Some(0),
                all_threads_stopped: Some(false),
            }),
    {
        let reason = match ev.cause() {
            EventCause::Breakpoint => StoppedEventReason::Breakpoint,
            EventCause::Step => StoppedEventReason::Step,
        };
        self.state.reset(ev, parents);
        StoppedEvent { reason, thread_id: Some(0), all_threads_stopped: Some(false) }
    }

    /// Handles what came in from the client: a request, or the end of its messages.
    pub fn handle_message(&mut self, control: &mut DebugControl, req: Option<&Command>) -> (r: Result<
        Step,
        Error,
    >)
        requires
            old(self).wf(),
            old(control).wf(),
            req matches Some(req) ==> request_fits(*req, old(self)@),
        ensures
            final(self).wf(),
            final(control).wf(),
            match req {
                Some(req) => handles(
                    *req,
                    old(self)@,
                    old(control)@,
                    final(self)@,
                    final(control)@,
                    r,
                ),
                None => {
                    &&& r == Err::<Step, Error>(Error::MissingCommand)
                    &&& final(self)@ == old(self)@
                    &&& final(control)@ == old(control)@
                },
            },
    {
        match req {
            Some(req) => self.handle_req(control, req),
            None => Err(Error::MissingCommand),
        }
    }

    /// Decides what the session does next while it waits for stops. `finished` says whether the
    /// thread that answers requests has ended.
    pub fn next_turn(received: Received, finished: bool) -> (r: Turn)
        ensures
            r == (if received == Received::Disconnected {
                Turn::Leave
            } else if finished {
                Turn::Join
            } else {
                Turn::Again
            }),
    {
        match received {
            Received::Disconnected => Turn::Leave,
            _ => if finished {
                Turn::Join
            } else {
                Turn::Again
            },
        }
    }

    /// Ends the session: the controls are reset, and the stop that the game waits in is returned
    /// to be ended.
    pub fn close(&mut self, control: &mut DebugControl) -> (r: Option<DebugEvent>)
        ensures
            old(self).wf() ==> final(self).wf(),
            old(control).wf() ==> final(control).wf(),
            r == old(self)@.current,
            final(self)@ == (crate::state::StateView { current: None, ..old(self)@ }),
            final(control)@ == (crate::control::ControlView {
                functions: old(control)@.functions,
                breakpoints: Set::<BreakpointKey>::empty(),
                last_break_frame: None,
                step_mode: StepMode::NoStep,
            }),
    {
        control.reset();
        self.state.take_event()
    }
}

/// The name of the file that tells clients the port of the debugger.
pub fn port_file_name(port: u16) -> (r: String)
    ensures
        r@ == "dap."@ + crate::text::digits(port as nat) + ".debug"@,
{
    let mut name = "dap.".to_owned();
    name.append(crate::text::decimal(port as u64).as_str());
    name.append(".debug");
    name
}

} // verus!
