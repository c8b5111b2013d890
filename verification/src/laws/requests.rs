//! What each request does and is answered, and what stops do to a session.
use crate::control::{BreakpointKey, ControlView, DebugControl, StepMode};
use crate::event::{DebugEvent, EventCause};
use crate::frame::StackFramePtr;
use crate::mapping::FunctionId;
use crate::path::file_name;
use crate::protocol::{
    Breakpoint, Command, Error, Outcome, ResponseBody, ScopePresentationHint,
    SetBreakpointsArguments, SourceBreakpoint, StackFrame, StoppedEvent,
};
use crate::session::{DebugSession, FrameInfo, FrameQuery, Received, Reply, Step, Turn};
use crate::source::Place;
use crate::state::{DebugState, Scope, StateView};
use vstd::prelude::*;

verus! {

/// A request that comes in as a message is handled as any request is, and the end of the messages
/// is an error that changes nothing.
pub proof fn law_messages_are_requests(
    session: &mut DebugSession,
    control: &mut DebugControl,
    req: Option<&Command>,
    r: Result<Step, Error>,
)
    requires
        call_ensures(DebugSession::handle_message, (session, control, req), r),
    ensures
        req matches Some(req) ==> crate::session::handles(
            *req,
            old(session)@,
            old(control)@,
            final(session)@,
            final(control)@,
            r,
        ),
        req is None ==> r == Err::<Step, Error>(Error::MissingCommand),
        req is None ==> final(session)@ == old(session)@ && final(control)@ == old(control)@,
{
}

/// A request is handled as the laws on requests say.
pub proof fn law_requests_are_handled(
    session: &mut DebugSession,
    control: &mut DebugControl,
    req: Command,
    r: Result<Step, Error>,
)
    requires
        call_ensures(DebugSession::handle_req, (session, control, &req), r),
    ensures
        crate::session::handles(
            req,
            old(session)@,
            old(control)@,
            final(session)@,
            final(control)@,
            r,
        ),
{
}

/// Whether a request was answered and did nothing else.
pub open spec fn only_answered(r: Result<Step, Error>, body: ResponseBody) -> bool {
    r matches Ok(Step::Reply(reply)) && reply.body == Some(body) && reply.resume is None
        && !reply.initialized && reply.outcome is Continue
}

/// Whether the game goes on from `ev`, with an answer.
pub open spec fn went_on(r: Result<Step, Error>, ev: DebugEvent, body: ResponseBody) -> bool {
    r matches Ok(Step::Reply(reply)) && reply.body == Some(body) && reply.resume == Some(ev)
        && !reply.initialized && reply.outcome is Continue
}

/// Requests to attach, to pause, for a source and for an evaluation do nothing.
pub proof fn law_nothing_done(
    req: Command,
    s: StateView,
    c: ControlView,
    s2: StateView,
    c2: ControlView,
    r: Result<Step, Error>,
)
    requires
        req is Attach || req is Pause || req is Source || req is Evaluate,
        crate::session::handles(req, s, c, s2, c2, r),
    ensures
        s2 == s,
        c2 == c,
        r matches Ok(Step::Reply(reply)) && reply.body is None && reply.resume is None
            && !reply.initialized && reply.outcome is Continue,
{
}

/// The requests of a start are answered, and change nothing. The first one is told that there is a
/// request for the end of the configuration, and that the debugger is ready.
pub proof fn law_start(
    req: Command,
    s: StateView,
    c: ControlView,
    s2: StateView,
    c2: ControlView,
    r: Result<Step, Error>,
)
    requires
        req is Initialize || req is Launch || req is ConfigurationDone,
        crate::session::handles(req, s, c, s2, c2, r),
    ensures
        s2 == s,
        c2 == c,
        req is Launch ==> only_answered(r, ResponseBody::Launch),
        req is ConfigurationDone ==> only_answered(r, ResponseBody::ConfigurationDone),
        req is Initialize ==> (r matches Ok(Step::Reply(reply)) && reply.resume is None
            && reply.initialized && reply.outcome is Continue && reply.body == Some(
            ResponseBody::Initialize { supports_configuration_done_request: Some(true) },
        )),
{
}

/// There is one thread, with the number 0 and the name `Main`.
pub proof fn law_one_thread(
    s: StateView,
    c: ControlView,
    s2: StateView,
    c2: ControlView,
    r: Result<Step, Error>,
)
    requires
        crate::session::handles(Command::Threads, s, c, s2, c2, r),
    ensures
        s2 == s,
        c2 == c,
        r matches Ok(Step::Reply(reply)) && (reply.body matches Some(
            ResponseBody::Threads { threads },
        ) && threads@.len() == 1 && threads@[0].id == 0 && threads@[0].name@ == "Main"@)
            && reply.resume is None && !reply.initialized && reply.outcome is Continue,
{
}

/// A request that the debugger does not know is an error, and changes nothing.
pub proof fn law_unknown_request(
    s: StateView,
    c: ControlView,
    s2: StateView,
    c2: ControlView,
    r: Result<Step, Error>,
)
    requires
        crate::session::handles(Command::Other, s, c, s2, c2, r),
    ensures
        s2 == s,
        c2 == c,
        r == Err::<Step, Error>(Error::UnhandledCommand),
{
}

/// While the game waits in a stop, each request to go on ends the stop, answers in its own way and
/// sets its own mode: none, over, in, or out where the stop has a caller. Frames, scopes and
/// breakpoints stay.
pub proof fn law_going_on(
    req: Command,
    s: StateView,
    c: ControlView,
    s2: StateView,
    c2: ControlView,
    r: Result<Step, Error>,
    ev: DebugEvent,
)
    requires
        s.current == Some(ev),
        crate::session::handles(req, s, c, s2, c2, r),
        req is Continue || req is Next || req is StepIn || req is StepOut,
    ensures
        s2.current is None,
        s2.frames == s.frames && s2.scopes == s.scopes && s2.pending == s.pending,
        c2.functions == c.functions && c2.breakpoints == c.breakpoints && c2.last_break_frame
            == c.last_break_frame,
        req is Continue ==> c2.step_mode == c.step_mode && went_on(
            r,
            ev,
            ResponseBody::Continue { all_threads_continued: Some(true) },
        ),
        req is Next ==> c2.step_mode is StepOver && went_on(r, ev, ResponseBody::Next),
        req is StepIn ==> c2.step_mode is StepIn && went_on(r, ev, ResponseBody::StepIn),
        req is StepOut ==> went_on(r, ev, ResponseBody::StepOut),
        req is StepOut && s.frames.len() >= 2 ==> c2.step_mode is StepOut,
        req is StepOut && s.frames.len() < 2 ==> c2.step_mode == c.step_mode,
{
}

/// To disconnect ends the session and the stop that the game waits in, if there is one, and changes
/// nothing else.
pub proof fn law_disconnecting(
    s: StateView,
    c: ControlView,
    s2: StateView,
    c2: ControlView,
    r: Result<Step, Error>,
)
    requires
        crate::session::handles(Command::Disconnect, s, c, s2, c2, r),
    ensures
        c2 == c,
        s2.current is None,
        s2.frames == s.frames && s2.scopes == s.scopes && s2.pending == s.pending,
        r matches Ok(Step::Reply(reply)) && reply.resume == s.current && reply.body == Some(
            ResponseBody::Disconnect,
        ) && !reply.initialized && reply.outcome is Shutdown,
{
}

/// A frame has two scopes, its arguments and its locals, with two new numbers that lead to them. A
/// frame that is not there is an error, and changes nothing.
pub proof fn law_scopes_of_frame(
    frame_id: i64,
    s: StateView,
    c: ControlView,
    s2: StateView,
    c2: ControlView,
    r: Result<Step, Error>,
)
    requires
        crate::session::handles(Command::Scopes { frame_id }, s, c, s2, c2, r),
    ensures
        c2 == c,
        !(0 <= frame_id < s.frames.len()) ==> s2 == s && r == Err::<Step, Error>(
            Error::UnkownStackFrame,
        ),
        0 <= frame_id < s.frames.len() ==> {
            let frame = s.frames[frame_id as int];
            let n = s.scopes.len() as int;
            &&& s2.frames == s.frames && s2.current == s.current && s2.pending == s.pending
            &&& s2.scopes.len() == n + 2
            &&& forall|id: int| id <= n ==> #[trigger] s2.scope_at(id) == s.scope_at(id)
            &&& s2.scope_at(n + 1) == Some(Scope::Params(frame))
            &&& s2.scope_at(n + 2) == Some(Scope::Locals(frame))
            &&& r matches Ok(Step::Reply(reply)) && (reply.body matches Some(
                ResponseBody::Scopes { scopes },
            ) && scopes@.len() == 2 && scopes@[0].name@ == "Arguments"@ && scopes@[1].name@
                == "Locals"@ && scopes@[0].presentation_hint == Some(
                ScopePresentationHint::Arguments,
            ) && scopes@[1].presentation_hint == Some(ScopePresentationHint::Locals)
                && scopes@[0].variables_reference == n + 1 && scopes@[1].variables_reference == n
                + 2) && reply.resume is None && !reply.initialized && reply.outcome is Continue
        },
{
}

/// A request for variables asks for the scope that its number leads to, and for the same part. A
/// number that leads nowhere is an error. Neither changes anything.
pub proof fn law_variables_asked_for(
    variables_reference: i64,
    start: Option<i64>,
    count: Option<i64>,
    s: StateView,
    c: ControlView,
    s2: StateView,
    c2: ControlView,
    r: Result<Step, Error>,
)
    requires
        crate::session::handles(
            Command::Variables { variables_reference, start, count },
            s,
            c,
            s2,
            c2,
            r,
        ),
    ensures
        s2 == s,
        c2 == c,
        1 <= variables_reference <= s.scopes.len() ==> (r matches Ok(Step::ReadScope(query))
            && query.scope == s.scopes[variables_reference - 1] && query.start == start && query.count
            == count),
        !(1 <= variables_reference <= s.scopes.len()) ==> r == Err::<Step, Error>(
            Error::UnknownScope,
        ),
{
}

/// A request for frames asks for those from the start on, as many as there are or as are asked for,
/// and changes nothing. No levels from the front on, and a negative number of them, stand for all
/// frames.
pub proof fn law_frames_asked_for(
    start_frame: Option<i64>,
    levels: Option<i64>,
    s: StateView,
    c: ControlView,
    s2: StateView,
    c2: ControlView,
    r: Result<Step, Error>,
)
    requires
        start_frame matches Some(start) ==> 0 <= start <= s.frames.len(),
        crate::session::handles(Command::StackTrace { start_frame, levels }, s, c, s2, c2, r),
    ensures
        s2 == s,
        c2 == c,
        ({
            let from: int = match start_frame {
                Some(start) => start as int,
                None => 0,
            };
            let len = s.frames.len() as int;
            r matches Ok(Step::ReadFrames(query)) && query.start == from && query.total == len && (
            match levels {
                Some(levels) => if from == 0 && levels == 0 || levels < 0 || from + levels > len {
                    query.frames@ == s.frames.skip(from)
                } else {
                    query.frames@ == s.frames.subrange(from, from + levels)
                },
                None => query.frames@ == s.frames.skip(from),
            })
        }),
{
    let from: int = match start_frame {
        Some(start) => start as int,
        None => 0,
    };
    assert(s.frames.skip(from) =~= s.frames.subrange(from, s.frames.len() as int));
}

/// A request can be handled unless it asks for frames from behind the last one or for a negative
/// number of them that does not outweigh the start, or for scopes for which there is no room.
pub proof fn law_accepted(session: &DebugSession, req: Command, r: bool)
    requires
        call_ensures(DebugSession::accepts, (session, &req), r),
        session@.frames.len() <= i64::MAX,
    ensures
        !(req is StackTrace) && !(req is Scopes) ==> r,
        req matches Command::StackTrace { start_frame, levels } ==> {
            let from: int = match start_frame {
                Some(start) => start as int,
                None => 0,
            };
            r <==> 0 <= from <= session@.frames.len() && (levels matches Some(levels) ==> levels < 0
                ==> from + levels < 0)
        },
        req matches Command::Scopes { frame_id } ==> (r <==> !(0 <= frame_id < session@.frames.len())
            || session@.scopes.len() + 2 <= crate::state::max_scopes()),
{
}

/// The breakpoints that a request for breakpoints is answered with.
pub open spec fn confirmed(r: Result<Step, Error>) -> Seq<Breakpoint> {
    match r {
        Ok(Step::Reply(reply)) => match reply.body {
            Some(ResponseBody::SetBreakpoints { breakpoints }) => breakpoints@,
            _ => Seq::<Breakpoint>::empty(),
        },
        _ => Seq::<Breakpoint>::empty(),
    }
}

/// The line of a function that a line of the client stands for: lines have 16 bits.
pub open spec fn cut(line: i64) -> u16 {
    line as u16
}

/// Whether some function of `file` starts at `line` or above it.
pub open spec fn lies_in_function(
    functions: Map<Place, FunctionId>,
    file: Seq<char>,
    line: u32,
) -> bool {
    exists|start: u32| start <= line && #[trigger] functions.contains_key((file, start))
}

proof fn lemma_last_start(functions: Map<Place, FunctionId>, file: Seq<char>, line: u32, start: u32)
    requires
        start <= line,
        functions.contains_key((file, start)),
    ensures
        exists|last: u32| #[trigger] crate::laws::places::starts_last(functions, file, last, line),
    decreases line - start,
{
    if exists|other: u32| start < other <= line && #[trigger] functions.contains_key((file, other)) {
        let other = choose|other: u32|
            start < other <= line && #[trigger] functions.contains_key((file, other));
        lemma_last_start(functions, file, line, other);
    } else {
        assert(crate::laws::places::starts_last(functions, file, start, line));
    }
}

proof fn lemma_key(functions: Map<Place, FunctionId>, path: Seq<char>, file: Seq<char>, line: i64)
    requires
        crate::laws::places::lowers_to(path, file),
    ensures
        crate::session::key_for(functions, path, line) is Some <==> lies_in_function(
            functions,
            file,
            cut(line) as u32,
        ),
        forall|start: u32| #[trigger]
            crate::laws::places::starts_last(functions, file, start, cut(line) as u32) ==> crate::session::key_for(
                functions,
                path,
                line,
            ) == Some(BreakpointKey { func: functions[(file, start)], line: cut(line) }),
{
    let at = cut(line) as u32;
    crate::laws::places::lemma_lowers_to(path, file);
    assert forall|start: u32| #[trigger]
        crate::laws::places::starts_last(functions, file, start, at) implies crate::session::key_for(
        functions,
        path,
        line,
    ) == Some(BreakpointKey { func: functions[(file, start)], line: cut(line) }) by {
        crate::laws::places::lemma_starts_last(functions, path, file, start, at);
    }
    if lies_in_function(functions, file, at) {
        let start = choose|start: u32|
            start <= at && #[trigger] functions.contains_key((file, start));
        lemma_last_start(functions, file, at, start);
        let last = choose|last: u32| #[trigger] crate::laws::places::starts_last(functions, file, last, at);
        assert(crate::laws::places::starts_last(functions, file, last, at));
    } else {
        crate::laws::places::lemma_starts_below(functions, path, file, at);
    }
}

/// Where a function of the file starts at a line that is asked for or above it, the answer confirms
/// the line, and the breakpoint of that line in the last such function is set: the game stops
/// there, as soon as no step is under way.
pub proof fn law_line_gets_breakpoint(
    args: SetBreakpointsArguments,
    path: Seq<char>,
    lines: Seq<SourceBreakpoint>,
    i: int,
    file: Seq<char>,
    start: u32,
    s: StateView,
    c: ControlView,
    s2: StateView,
    c2: ControlView,
    r: Result<Step, Error>,
)
    requires
        args.source.path matches Some(p) && p@ == path,
        args.breakpoints matches Some(b) && b@ == lines,
        0 <= i < lines.len(),
        crate::laws::places::found_under(path, file),
        crate::laws::places::starts_last(c.functions.functions, file, start, cut(lines[i].line) as u32),
        crate::session::handles(Command::SetBreakpoints(args), s, c, s2, c2, r),
    ensures
        exists|k: int|
            0 <= k < confirmed(r).len() && (#[trigger] confirmed(r)[k]).line == Some(lines[i].line)
                && confirmed(r)[k].verified && confirmed(r)[k].source == Some(args.source),
        c2.breakpoints.contains(
            (BreakpointKey {
                func: c.functions.functions[(file, start)],
                line: cut(lines[i].line),
            }),
        ),
{
    let functions = c.functions.functions;
    let key = BreakpointKey { func: functions[(file, start)], line: cut(lines[i].line) };
    crate::laws::places::lemma_starts_last(
        functions,
        path,
        file,
        start,
        cut(lines[i].line) as u32,
    );
    assert(crate::session::key_for(functions, path, lines[i].line) == Some(key));
    assert(crate::session::wanted(args) == lines);
    let pred = |bp: SourceBreakpoint| crate::session::key_for(functions, path, bp.line) is Some;
    let placed = lines.filter(pred);
    assert(crate::session::placeable(functions, path, lines) == placed);
    lines.lemma_filter_contains(pred, i);
    assert(placed.contains(lines[i]));
    let k = choose|k: int| 0 <= k < placed.len() && placed[k] == lines[i];
    assert(confirmed(r)[k].line == Some(lines[i].line));
    assert(crate::session::keys_for(functions, path, lines).contains(key));
}

/// Every breakpoint of an answer is verified, in the source of the request, and for a line that was
/// asked for and that lies in a function of the file.
pub proof fn law_confirmed_lines(
    args: SetBreakpointsArguments,
    path: Seq<char>,
    lines: Seq<SourceBreakpoint>,
    file: Seq<char>,
    k: int,
    s: StateView,
    c: ControlView,
    s2: StateView,
    c2: ControlView,
    r: Result<Step, Error>,
)
    requires
        args.source.path matches Some(p) && p@ == path,
        args.breakpoints matches Some(b) && b@ == lines,
        crate::laws::places::lowers_to(path, file),
        crate::session::handles(Command::SetBreakpoints(args), s, c, s2, c2, r),
        0 <= k < confirmed(r).len(),
    ensures
        confirmed(r)[k].verified,
        confirmed(r)[k].source == Some(args.source),
        exists|i: int|
            0 <= i < lines.len() && confirmed(r)[k].line == Some((#[trigger] lines[i]).line)
                && lies_in_function(c.functions.functions, file, cut(lines[i].line) as u32),
{
    let functions = c.functions.functions;
    let pred = |bp: SourceBreakpoint| crate::session::key_for(functions, path, bp.line) is Some;
    let placed = lines.filter(pred);
    assert(crate::session::placeable(functions, path, lines) == placed);
    lines.lemma_filter_pred(pred, k);
    lines.lemma_filter_contains_rev(pred, placed[k]);
    let i = choose|i: int| 0 <= i < lines.len() && lines[i] == placed[k];
    lemma_key(functions, path, file, lines[i].line);
    assert(lines[i] == placed[k]);
}

/// The lines are confirmed in their order: one more line adds its own breakpoint behind those of
/// the others, where it lies in a function, and none where it does not.
pub proof fn law_one_more_line(
    args: SetBreakpointsArguments,
    more: SetBreakpointsArguments,
    path: Seq<char>,
    lines: Seq<SourceBreakpoint>,
    bp: SourceBreakpoint,
    file: Seq<char>,
    s: StateView,
    c: ControlView,
    s2: StateView,
    c2: ControlView,
    r: Result<Step, Error>,
    s3: StateView,
    c3: ControlView,
    r2: Result<Step, Error>,
)
    requires
        args.source.path matches Some(p) && p@ == path,
        args.breakpoints matches Some(b) && b@ == lines,
        more.source == args.source,
        more.breakpoints matches Some(b) && b@ == lines.push(bp),
        crate::laws::places::lowers_to(path, file),
        crate::session::handles(Command::SetBreakpoints(args), s, c, s2, c2, r),
        crate::session::handles(Command::SetBreakpoints(more), s, c, s3, c3, r2),
    ensures
        lies_in_function(c.functions.functions, file, cut(bp.line) as u32) ==> confirmed(r2)
            == confirmed(r).push(
            Breakpoint { verified: true, source: Some(args.source), line: Some(bp.line) },
        ),
        !lies_in_function(c.functions.functions, file, cut(bp.line) as u32) ==> confirmed(r2)
            == confirmed(r),
{
    let functions = c.functions.functions;
    let pred = |b: SourceBreakpoint| crate::session::key_for(functions, path, b.line) is Some;
    lemma_key(functions, path, file, bp.line);
    assert(crate::session::placeable(functions, path, lines) == lines.filter(pred));
    assert(crate::session::placeable(functions, path, lines.push(bp)) == lines.push(bp).filter(pred));
    reveal(Seq::filter);
    assert(lines.push(bp).drop_last() =~= lines);
    if lies_in_function(functions, file, cut(bp.line) as u32) {
        assert(confirmed(r2) =~= confirmed(r).push(
            Breakpoint { verified: true, source: Some(args.source), line: Some(bp.line) },
        ));
    } else {
        assert(confirmed(r2) =~= confirmed(r));
    }
}

/// Where no lines are asked for, or no file is given, none are confirmed. Without a file nothing
/// changes at all.
pub proof fn law_no_lines(
    args: SetBreakpointsArguments,
    s: StateView,
    c: ControlView,
    s2: StateView,
    c2: ControlView,
    r: Result<Step, Error>,
)
    requires
        crate::session::handles(Command::SetBreakpoints(args), s, c, s2, c2, r),
    ensures
        args.source.path is None || args.breakpoints is None || args.breakpoints->0@.len() == 0
            ==> confirmed(r).len() == 0,
        args.source.path is None ==> c2 == c,
        s2 == s,
        c2.functions == c.functions && c2.step_mode == c.step_mode && c2.last_break_frame
            == c.last_break_frame,
        r matches Ok(Step::Reply(reply)) && (reply.body matches Some(
            ResponseBody::SetBreakpoints { .. },
        )) && reply.resume is None && !reply.initialized && reply.outcome is Continue,
{
    reveal(Seq::filter);
}

/// After a request for breakpoints, those of other files are as before, and those of the file are
/// the ones of the lines that were asked for, each in the last function that starts at the line or
/// above it.
pub proof fn law_breakpoints_of_file(
    args: SetBreakpointsArguments,
    path: Seq<char>,
    lines: Seq<SourceBreakpoint>,
    file: Seq<char>,
    key: BreakpointKey,
    s: StateView,
    c: ControlView,
    s2: StateView,
    c2: ControlView,
    r: Result<Step, Error>,
)
    requires
        args.source.path matches Some(p) && p@ == path,
        args.breakpoints matches Some(b) && b@ == lines,
        crate::laws::places::lowers_to(path, file),
        crate::session::handles(Command::SetBreakpoints(args), s, c, s2, c2, r),
    ensures
        c2.breakpoints.contains(key) <==> (if starts_in(c.functions.functions, file, key.func) {
            asked_at(c.functions.functions, file, lines, key)
        } else {
            c.breakpoints.contains(key)
        }),
{
    let functions = c.functions.functions;
    crate::laws::places::lemma_lowers_to(path, file);
    crate::text::law_ascii_lower_idempotent(path);
    crate::laws::law_breakpoints_replaced_by_file(c, path, lines, key);
    let within = crate::mapping::functions_in(functions, path);
    if starts_in(functions, file, key.func) {
        let start = choose|start: u32| #[trigger]
            functions.contains_key((file, start)) && functions[(file, start)] == key.func;
        crate::mapping::law_run_of_file(functions, path, u32::MAX, (file, start));
        assert(within.contains(key.func));
    }
    if within.contains(key.func) {
        let k = choose|k: Place| #[trigger]
            crate::mapping::in_run(functions, path, u32::MAX, k) && functions[k] == key.func;
        crate::mapping::law_run_of_file(functions, path, u32::MAX, k);
        assert(k == (file, k.1));
        assert(starts_in(functions, file, key.func));
    }
    let keys = crate::session::keys_for(functions, path, lines);
    if keys.contains(key) {
        let i = choose|i: int|
            0 <= i < lines.len() && crate::session::key_for(
                functions,
                path,
                (#[trigger] lines[i]).line,
            ) == Some(key);
        lemma_key(functions, path, file, lines[i].line);
        let at = cut(lines[i].line) as u32;
        let low = choose|start: u32|
            start <= at && #[trigger] functions.contains_key((file, start));
        lemma_last_start(functions, file, at, low);
        let last = choose|last: u32| #[trigger] crate::laws::places::starts_last(functions, file, last, at);
        assert(crate::laws::places::starts_last(functions, file, last, at) && functions[(file, last)] == key.func);
        assert(asked_at(functions, file, lines, key));
    }
    if asked_at(functions, file, lines, key) {
        let i = choose|i: int|
            0 <= i < lines.len() && cut((#[trigger] lines[i]).line) == key.line && exists|start: u32| #[trigger]
                crate::laws::places::starts_last(functions, file, start, key.line as u32) && functions[(file, start)]
                    == key.func;
        let start = choose|start: u32| #[trigger]
            crate::laws::places::starts_last(functions, file, start, key.line as u32) && functions[(file, start)]
                == key.func;
        lemma_key(functions, path, file, lines[i].line);
        assert(crate::laws::places::starts_last(functions, file, start, cut(lines[i].line) as u32));
        assert(crate::session::key_for(functions, path, lines[i].line) == Some(key));
        assert(keys.contains(key));
    }
}

/// In a file of which nothing is recorded, in whatever case of its ASCII letters, no line is
/// confirmed, and the breakpoints stay as they are.
pub proof fn law_unknown_file_gets_no_breakpoints(
    args: SetBreakpointsArguments,
    path: Seq<char>,
    s: StateView,
    c: ControlView,
    s2: StateView,
    c2: ControlView,
    r: Result<Step, Error>,
)
    requires
        args.source.path matches Some(p) && p@ == path,
        forall|k: Place| #[trigger]
            c.functions.functions.contains_key(k) ==> !(exists|low: Seq<char>| #[trigger]
                crate::laws::texts::lowers(low, k.0) && crate::laws::texts::lowers(low, path)),
        crate::session::handles(Command::SetBreakpoints(args), s, c, s2, c2, r),
    ensures
        confirmed(r).len() == 0,
        c2 == c,
{
    let functions = c.functions.functions;
    let lines = crate::session::wanted(args);
    crate::laws::texts::lemma_ascii_lowers(path);
    assert forall|k: Place| #[trigger] functions.contains_key(k) implies !crate::mapping::same_file(
        k.0,
        path,
    ) by {
        crate::laws::texts::lemma_ascii_lowers(k.0);
    }
    assert forall|line: i64| (#[trigger] crate::session::key_for(functions, path, line)) is None by {}
    let pred = |bp: SourceBreakpoint| crate::session::key_for(functions, path, bp.line) is Some;
    assert(crate::session::placeable(functions, path, lines) == lines.filter(pred));
    lines.lemma_all_neg_filter_empty(pred);
    assert forall|f: FunctionId| !(#[trigger] crate::mapping::functions_in(functions, path).contains(
        f,
    )) by {
        if crate::mapping::functions_in(functions, path).contains(f) {
            let k = choose|k: Place| #[trigger]
                crate::mapping::in_run(functions, path, u32::MAX, k) && functions[k] == f;
            crate::source::law_place_order_irreflexive(k);
        }
    }
    assert(crate::session::breakpoints_replaced(c, path, lines) =~= c.breakpoints);
}

/// Whether `func` starts somewhere in `file`.
pub open spec fn starts_in(
    functions: Map<Place, FunctionId>,
    file: Seq<char>,
    func: FunctionId,
) -> bool {
    exists|start: u32| #[trigger] functions.contains_key((file, start)) && functions[(file, start)]
        == func
}

/// Whether one of `lines` asks for `key`.
pub open spec fn asked_at(
    functions: Map<Place, FunctionId>,
    file: Seq<char>,
    lines: Seq<SourceBreakpoint>,
    key: BreakpointKey,
) -> bool {
    exists|i: int|
        0 <= i < lines.len() && cut((#[trigger] lines[i]).line) == key.line && exists|start: u32| #[trigger]
            crate::laws::places::starts_last(functions, file, start, key.line as u32) && functions[(file, start)] == key.func
}

/// Whether `reply` is a stack trace of the frames `shown`, and does nothing else.
pub open spec fn is_stack_trace(reply: Reply, shown: Seq<StackFrame>, total: i64) -> bool {
    &&& reply.resume is None
    &&& !reply.initialized
    &&& reply.outcome is Continue
    &&& reply.body matches Some(ResponseBody::StackTrace { stack_frames, total_frames })
        && stack_frames@ == shown && total_frames == Some(total)
}

/// The frames that a stack trace shows.
pub open spec fn shown_frames(reply: Reply) -> Seq<StackFrame> {
    match reply.body {
        Some(ResponseBody::StackTrace { stack_frames, .. }) => stack_frames@,
        _ => Seq::<StackFrame>::empty(),
    }
}

/// A stack trace shows each frame that was asked for, by the number of its place on the stack, and
/// tells how many there are in all.
pub proof fn law_stack_trace(
    control: &DebugControl,
    query: FrameQuery,
    infos: Vec<FrameInfo>,
    reply: Reply,
    i: int,
)
    requires
        call_ensures(DebugSession::stack_trace, (control, &query, &infos), reply),
    ensures
        is_stack_trace(reply, shown_frames(reply), query.total),
        shown_frames(reply).len() == infos@.len(),
        0 <= i < infos@.len() ==> shown_frames(reply)[i].id == query.start + i,
{
    if 0 <= i < infos@.len() {
        assert(crate::session::describes_frame(
            shown_frames(reply)[i],
            query.start + i,
            infos@[i],
            control@.functions.sources,
        ));
    }
}

/// A frame whose function has a place is shown in that file: at the line of the static call that it
/// is in, whether or not a virtual call is known, or else at that of the virtual call. A frame
/// without a place, or in no call, is shown without a file.
pub proof fn law_line_of_frame(
    control: &DebugControl,
    query: FrameQuery,
    infos: Vec<FrameInfo>,
    reply: Reply,
    i: int,
)
    requires
        call_ensures(DebugSession::stack_trace, (control, &query, &infos), reply),
        0 <= i < infos@.len(),
    ensures
        ({
            let info = infos@[i];
            let frame = shown_frames(reply)[i];
            let sources = control@.functions.sources;
            &&& sources.contains_key(info.function) ==> {
                &&& info.static_line matches Some(line) ==> frame.line == line
                &&& info.static_line is None ==> (info.virtual_line matches Some(line) ==> frame.line
                    == line)
                &&& info.static_line is Some || info.virtual_line is Some ==> (frame.source matches Some(
                    source,
                ) && (source.path matches Some(path) && path@ == sources[info.function].0))
            }
            &&& !sources.contains_key(info.function) || (info.static_line is None
                && info.virtual_line is None) ==> frame.source is None && frame.line == 0
        }),
{
    assert(crate::session::describes_frame(
        shown_frames(reply)[i],
        query.start + i,
        infos@[i],
        control@.functions.sources,
    ));
}

/// The file of a frame goes by the name behind the last slash of its path.
pub proof fn law_file_of_frame(
    control: &DebugControl,
    query: FrameQuery,
    infos: Vec<FrameInfo>,
    reply: Reply,
    i: int,
    base: Seq<char>,
    c: char,
    name: Seq<char>,
)
    requires
        call_ensures(DebugSession::stack_trace, (control, &query, &infos), reply),
        0 <= i < infos@.len(),
        control@.functions.sources.contains_key(infos@[i].function),
        infos@[i].static_line is Some || infos@[i].virtual_line is Some,
        crate::laws::paths::slash(c),
        crate::laws::paths::is_name(name),
        control@.functions.sources[infos@[i].function].0 == crate::laws::paths::below(base, c, name),
        !crate::laws::paths::two_slashes(crate::laws::paths::below(base, c, name)),
    ensures
        shown_frames(reply)[i].source matches Some(source) && (source.name matches Some(file) && file@
            == name),
{
    assert(crate::session::describes_frame(
        shown_frames(reply)[i],
        query.start + i,
        infos@[i],
        control@.functions.sources,
    ));
    crate::laws::paths::lemma_file_name(base, c, name);
}

/// The file of a frame goes by the file name of its path, where the path has one.
pub proof fn law_file_name_of_frame(
    control: &DebugControl,
    query: FrameQuery,
    infos: Vec<FrameInfo>,
    reply: Reply,
    i: int,
    path: &str,
    name: Option<String>,
)
    requires
        call_ensures(DebugSession::stack_trace, (control, &query, &infos), reply),
        0 <= i < infos@.len(),
        control@.functions.sources.contains_key(infos@[i].function),
        infos@[i].static_line is Some || infos@[i].virtual_line is Some,
        control@.functions.sources[infos@[i].function].0 == path@,
        call_ensures(file_name, (path,), name),
    ensures
        shown_frames(reply)[i].source matches Some(source) && (source.name is Some <==> name is Some)
            && (name is Some ==> source.name->0@ == name->0@),
{
    assert(crate::session::describes_frame(
        shown_frames(reply)[i],
        query.start + i,
        infos@[i],
        control@.functions.sources,
    ));
}

/// A frame goes by the name of its function in front of the first semicolon, behind the name of its
/// class and two colons where it has one.
pub proof fn law_name_of_frame(
    control: &DebugControl,
    query: FrameQuery,
    infos: Vec<FrameInfo>,
    reply: Reply,
    i: int,
)
    requires
        call_ensures(DebugSession::stack_trace, (control, &query, &infos), reply),
        0 <= i < infos@.len(),
    ensures
        infos@[i].class is None ==> crate::laws::texts::ends_before(
            shown_frames(reply)[i].name@,
            infos@[i].name@,
            ';',
        ),
        infos@[i].class matches Some(class) ==> exists|short: Seq<char>| #[trigger]
            crate::laws::texts::ends_before(short, infos@[i].name@, ';') && shown_frames(reply)[i].name@ == class@ + "::"@
                + short,
{
    assert(crate::session::describes_frame(
        shown_frames(reply)[i],
        query.start + i,
        infos@[i],
        control@.functions.sources,
    ));
    crate::laws::texts::lemma_ends_before(infos@[i].name@, ';');
}

/// A stop is what the game waits in from then on. Its frame is the first, and those that led to it
/// follow in order, each back from its call. There are no scopes yet, and waiting requests wait on.
/// The client is told the reason.
pub proof fn law_stop_taken_up(
    session: &mut DebugSession,
    ev: DebugEvent,
    parents: Vec<usize>,
    r: StoppedEvent,
    i: int,
)
    requires
        call_ensures(DebugSession::handle_event, (session, ev, &parents), r),
    ensures
        final(session)@.current == Some(ev),
        final(session)@.scopes.len() == 0,
        final(session)@.pending == old(session)@.pending,
        final(session)@.frames.len() == parents@.len() + 1,
        final(session)@.frames[0] == ev.spec_frame(),
        0 <= i < parents@.len() ==> final(session)@.frames[i + 1] == StackFramePtr::PostCall(
            parents@[i],
        ),
        ev.spec_cause() is Breakpoint <==> r.reason is Breakpoint,
        ev.spec_cause() is Step <==> r.reason is Step,
        r.thread_id == Some(0i64),
        r.all_threads_stopped == Some(false),
{
}

/// What a stop was made with is what it tells.
pub proof fn law_stop_tells(
    key: BreakpointKey,
    cause: EventCause,
    frame: StackFramePtr,
    made: (DebugEvent, parking::Parker),
    k: BreakpointKey,
    c: EventCause,
    f: StackFramePtr,
)
    requires
        call_ensures(DebugEvent::new, (key, cause, frame), made),
        call_ensures(DebugEvent::key, (&made.0,), k),
        call_ensures(DebugEvent::cause, (&made.0,), c),
        call_ensures(DebugEvent::frame, (&made.0,), f),
    ensures
        k == key,
        c == cause,
        f == frame,
        made.0.wakes(made.1),
{
}

/// A new session has no frames, no scopes and no stop, and keeps requests waiting.
pub proof fn law_new_session(session: DebugSession)
    requires
        call_ensures(DebugSession::new, (), session),
    ensures
        session@.frames.len() == 0,
        session@.scopes.len() == 0,
        session@.current is None,
        session@.pending matches Some(pending) && pending.len() == 0,
{
}

/// The session is over when no more stops can come, or when the requests are done; else it goes on.
pub proof fn law_turns(received: Received, finished: bool, r: Turn)
    requires
        call_ensures(DebugSession::next_turn, (received, finished), r),
    ensures
        r is Leave <==> received is Disconnected,
        r is Join <==> !(received is Disconnected) && finished,
        r is Again <==> !(received is Disconnected) && !finished,
{
}

/// The end of a session hands back the stop that the game waits in, and leaves no breakpoint and no
/// step behind. The functions stay known.
pub proof fn law_session_ends(
    session: &mut DebugSession,
    control: &mut DebugControl,
    r: Option<DebugEvent>,
    key: BreakpointKey,
)
    requires
        call_ensures(DebugSession::close, (session, control), r),
    ensures
        r == old(session)@.current,
        final(session)@.current is None,
        final(session)@.frames == old(session)@.frames,
        final(session)@.scopes == old(session)@.scopes,
        final(session)@.pending == old(session)@.pending,
        final(control)@.step_mode is NoStep,
        final(control)@.last_break_frame is None,
        !final(control)@.breakpoints.contains(key),
        final(control)@.functions == old(control)@.functions,
{
}

/// A new state has no frames, no scopes and no stop, and keeps requests waiting.
pub proof fn law_new_state(state: DebugState)
    requires
        call_ensures(DebugState::default, (), state),
    ensures
        state@.frames.len() == 0,
        state@.scopes.len() == 0,
        state@.current is None,
        state@.pending matches Some(pending) && pending.len() == 0,
{
}

/// A state takes up a stop as its session does.
pub proof fn law_state_takes_up_stop(
    state: &mut DebugState,
    ev: DebugEvent,
    parents: Vec<usize>,
    i: int,
)
    requires
        call_ensures(DebugState::reset, (state, ev, &parents), ()),
    ensures
        final(state)@.current == Some(ev),
        final(state)@.scopes.len() == 0,
        final(state)@.pending == old(state)@.pending,
        final(state)@.frames.len() == parents@.len() + 1,
        final(state)@.frames[0] == ev.spec_frame(),
        0 <= i < parents@.len() ==> final(state)@.frames[i + 1] == StackFramePtr::PostCall(
            parents@[i],
        ),
{
}

/// A number leads to the scope that was handed out for it, and 0 and all others lead nowhere.
pub proof fn law_scope_of_number(state: &DebugState, id: i64, r: Option<&Scope>)
    requires
        call_ensures(DebugState::scope, (state, id), r),
    ensures
        1 <= id <= state@.scopes.len() ==> (r matches Some(scope) && *scope == state@.scopes[id - 1]),
        !(1 <= id <= state@.scopes.len()) ==> r is None,
{
}

/// A scope that is handed out gets the number behind the last, and nothing else changes.
pub proof fn law_scope_handed_out(state: &mut DebugState, scope: Scope, id: i64, i: int)
    requires
        call_ensures(DebugState::add_scope, (state, scope), id),
    ensures
        id == old(state)@.scopes.len() + 1,
        final(state)@.scopes.len() == id,
        final(state)@.scopes[id - 1] == scope,
        0 <= i < id - 1 ==> final(state)@.scopes[i] == old(state)@.scopes[i],
        final(state)@.frames == old(state)@.frames,
        final(state)@.current == old(state)@.current,
        final(state)@.pending == old(state)@.pending,
{
}

/// A stop is taken once, and nothing else changes.
pub proof fn law_stop_taken(state: &mut DebugState, r: Option<DebugEvent>)
    requires
        call_ensures(DebugState::take_event, (state,), r),
    ensures
        r == old(state)@.current,
        final(state)@.current is None,
        final(state)@.frames == old(state)@.frames,
        final(state)@.scopes == old(state)@.scopes,
        final(state)@.pending == old(state)@.pending,
{
}

/// A request that waits is put behind the others; where requests no longer wait, it is handed back.
pub proof fn law_request_waits(
    state: &mut DebugState,
    args: SetBreakpointsArguments,
    r: Option<SetBreakpointsArguments>,
)
    requires
        call_ensures(DebugState::enqueue, (state, args), r),
    ensures
        old(state)@.pending is None ==> r == Some(args) && final(state)@.pending is None,
        old(state)@.pending matches Some(pending) ==> r is None && final(state)@.pending == Some(
            pending.push(args),
        ),
        final(state)@.frames == old(state)@.frames,
        final(state)@.scopes == old(state)@.scopes,
        final(state)@.current == old(state)@.current,
{
}

/// The requests that waited are handed out in order when the waiting ends. A second end makes
/// requests wait again.
pub proof fn law_waiting_ends(state: &mut DebugState, r: Vec<SetBreakpointsArguments>)
    requires
        call_ensures(DebugState::mark_ready, (state,), r),
    ensures
        old(state)@.pending matches Some(pending) ==> r@ == pending && final(state)@.pending is None,
        old(state)@.pending is None ==> r@.len() == 0 && (final(state)@.pending matches Some(pending)
            && pending.len() == 0),
        final(state)@.frames == old(state)@.frames,
        final(state)@.scopes == old(state)@.scopes,
        final(state)@.current == old(state)@.current,
{
}

/// There is room for more scopes up to the largest number of them.
pub proof fn law_room(state: &DebugState, n: usize, r: bool)
    requires
        call_ensures(DebugState::has_room, (state, n), r),
    ensures
        r <==> state@.scopes.len() + n <= isize::MAX / 128,
{
}

/// The frames are those of the last stop.
pub proof fn law_frames_of_state(state: &DebugState, r: &Vec<StackFramePtr>)
    requires
        call_ensures(DebugState::frames, (state,), r),
    ensures
        r@ == state@.frames,
{
}

/// Each error has its own words.
pub proof fn law_words_of_errors(error: Error, r: &'static str)
    requires
        call_ensures(Error::message, (&error,), r),
    ensures
        error is UnhandledCommand ==> r@ == "unhandled command"@,
        error is MissingCommand ==> r@ == "missing command"@,
        error is UnexpectedRequest ==> r@ == "unexpected request"@,
        error is UnkownStackFrame ==> r@ == "unkown stack frame"@,
        error is UnknownScope ==> r@ == "unkown scope"@,
{
}

} // verus!
