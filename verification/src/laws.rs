//! What holds across requests, stops and steps.
use crate::control::{BreakpointKey, ControlView, StepMode};
use crate::event::{DebugEvent, EventCause};
use crate::hooks::FrameLinks;
use crate::protocol::{Command, Error, ResponseBody, SetBreakpointsArguments, SourceBreakpoint};
use crate::session::Step;
use crate::state::{Scope, StateView};
use crate::value::{ObjectReader, Property, Value};
use crate::variables::ScopeContents;
use parking::Parker;
use vstd::prelude::*;

pub mod paths;
pub mod places;
pub mod requests;
pub mod texts;
pub mod values;

verus! {

/// Whether a request lets the game go on.
pub open spec fn lets_go_on(req: Command) -> bool {
    req is Continue || req is Next || req is StepIn || req is StepOut
}

/// A request to go on is refused where the game does not wait in a stop, and then nothing changes.
pub proof fn law_refused_without_stop(
    req: Command,
    s: StateView,
    c: ControlView,
    s2: StateView,
    c2: ControlView,
    r: Result<Step, Error>,
)
    requires
        lets_go_on(req),
        s.current is None,
        crate::session::handles(req, s, c, s2, c2, r),
    ensures
        r == Err::<Step, Error>(Error::UnexpectedRequest),
        s2 == s,
        c2 == c,
{
}

/// A request to go on ends the stop that the game waits in. The next one is refused.
pub proof fn law_stop_ends_once(
    req: Command,
    s: StateView,
    c: ControlView,
    s2: StateView,
    c2: ControlView,
    r: Result<Step, Error>,
    next: Command,
    s3: StateView,
    c3: ControlView,
    r2: Result<Step, Error>,
)
    requires
        lets_go_on(req),
        s.current is Some,
        crate::session::handles(req, s, c, s2, c2, r),
        lets_go_on(next),
        crate::session::handles(next, s2, c2, s3, c3, r2),
    ensures
        r matches Ok(Step::Reply(reply)) && reply.resume == s.current,
        r2 == Err::<Step, Error>(Error::UnexpectedRequest),
{
}

/// The stop that a request to go on or to disconnect hands back wakes the thread that waits in it.
pub proof fn law_resumed_stop_wakes_its_thread(
    req: Command,
    before: StateView,
    ev: DebugEvent,
    parents: Seq<usize>,
    parker: Parker,
    c: ControlView,
    s2: StateView,
    c2: ControlView,
    r: Result<Step, Error>,
)
    requires
        ev.wakes(parker),
        lets_go_on(req) || req is Disconnect,
        crate::session::handles(req, before.stopped(ev, parents), c, s2, c2, r),
    ensures
        r matches Ok(Step::Reply(reply)) && reply.resume == Some(ev) && reply.resume->0.wakes(parker),
{
}

/// No other request than those to go on and to disconnect lets the game go on: a stop stays.
pub proof fn law_other_requests_keep_stop(
    req: Command,
    s: StateView,
    c: ControlView,
    s2: StateView,
    c2: ControlView,
    r: Result<Step, Error>,
)
    requires
        !lets_go_on(req),
        !(req is Disconnect),
        crate::session::handles(req, s, c, s2, c2, r),
    ensures
        s2.current == s.current,
        s2.frames == s.frames,
        r matches Ok(Step::Reply(reply)) ==> reply.resume is None,
{
}

/// Only requests for steps change how execution goes on, and only requests for breakpoints change
/// the breakpoints. No request changes the functions or the frame of the last stop.
pub proof fn law_requests_keep_controls(
    req: Command,
    s: StateView,
    c: ControlView,
    s2: StateView,
    c2: ControlView,
    r: Result<Step, Error>,
)
    requires
        crate::session::handles(req, s, c, s2, c2, r),
    ensures
        !(req is Next || req is StepIn || req is StepOut) ==> c2.step_mode == c.step_mode,
        !(req is SetBreakpoints) ==> c2.breakpoints == c.breakpoints,
        c2.functions == c.functions,
        c2.last_break_frame == c.last_break_frame,
{
}

/// A step out of a frame that nothing called goes on as `Continue` does.
pub proof fn law_step_out_of_outermost(
    s: StateView,
    c: ControlView,
    s2: StateView,
    c2: ControlView,
    r: Result<Step, Error>,
    s3: StateView,
    c3: ControlView,
    r2: Result<Step, Error>,
)
    requires
        s.current is Some,
        s.frames.len() == 1,
        crate::session::handles(Command::StepOut, s, c, s2, c2, r),
        crate::session::handles(Command::Continue, s, c, s3, c3, r2),
    ensures
        s2 == s3,
        c2 == c3,
{
}

/// The numbers that a request for scopes is answered with lead to the parameters and the locals
/// of the frame.
pub proof fn law_scopes_read_back(
    frame_id: i64,
    s: StateView,
    c: ControlView,
    s2: StateView,
    c2: ControlView,
    r: Result<Step, Error>,
)
    requires
        0 <= frame_id < s.frames.len(),
        crate::session::handles(Command::Scopes { frame_id }, s, c, s2, c2, r),
    ensures
        crate::session::body_of(r) matches Some(ResponseBody::Scopes { scopes })
            && s2.scopes[scopes@[0].variables_reference - 1] == Scope::Params(
            s.frames[frame_id as int],
        ) && s2.scopes[scopes@[1].variables_reference - 1] == Scope::Locals(
            s.frames[frame_id as int],
        ) && 1 <= scopes@[0].variables_reference <= s2.scopes.len() && 1
            <= scopes@[1].variables_reference <= s2.scopes.len(),
{
}

/// Numbers that were handed out stay good until the next stop: no request takes one back.
pub proof fn law_scopes_stay(
    req: Command,
    s: StateView,
    c: ControlView,
    s2: StateView,
    c2: ControlView,
    r: Result<Step, Error>,
)
    requires
        crate::session::handles(req, s, c, s2, c2, r),
    ensures
        s.scopes.len() <= s2.scopes.len(),
        forall|i: int| 0 <= i < s.scopes.len() ==> #[trigger] s2.scopes[i] == s.scopes[i],
{
}

/// A new stop makes all numbers of scopes void.
pub proof fn law_stop_voids_scopes(
    s: StateView,
    ev: DebugEvent,
    parents: Seq<usize>,
    c: ControlView,
    variables_reference: i64,
    start: Option<i64>,
    count: Option<i64>,
    s2: StateView,
    c2: ControlView,
    r: Result<Step, Error>,
)
    requires
        crate::session::handles(
            Command::Variables { variables_reference, start, count },
            s.stopped(ev, parents),
            c,
            s2,
            c2,
            r,
        ),
    ensures
        r == Err::<Step, Error>(Error::UnknownScope),
{
}

/// The number that is handed out for a scope is positive, led nowhere before and leads to the
/// scope from then on. All other numbers lead where they did, and 0 leads nowhere.
pub proof fn law_new_number(s: StateView, scope: Scope)
    ensures
        ({
            let id = s.scopes.len() + 1;
            &&& id >= 1
            &&& s.scope_at(id as int) is None
            &&& s.with_scope(scope).scope_at(id as int) == Some(scope)
            &&& forall|j: int|
                j != id ==> #[trigger] s.with_scope(scope).scope_at(j) == s.scope_at(j)
            &&& s.scope_at(0) is None
        }),
{
}

/// Where no numbers have been handed out yet, they are handed out from 1 on without a gap, for as
/// many scopes as there are.
pub proof fn law_numbers_start_at_one(s: StateView, scopes: Seq<Scope>)
    requires
        s.scopes.len() == 0,
    ensures
        s.with_scopes(scopes).scopes == scopes,
        forall|i: int|
            0 <= i < scopes.len() ==> #[trigger] s.with_scopes(scopes).scope_at(i + 1) == Some(
                scopes[i],
            ),
        forall|id: int|
            !(1 <= id <= scopes.len()) ==> #[trigger] s.with_scopes(scopes).scope_at(id) is None,
    decreases scopes.len(),
{
    if scopes.len() > 0 {
        law_numbers_start_at_one(s, scopes.drop_last());
    }
    assert(s.with_scopes(scopes).scopes =~= scopes);
}

/// After a stop no numbers have been handed out yet.
pub proof fn law_stop_starts_numbers(s: StateView, ev: DebugEvent, parents: Seq<usize>)
    ensures
        s.stopped(ev, parents).scopes.len() == 0,
        forall|id: int| #[trigger] s.stopped(ev, parents).scope_at(id) is None,
{
}

/// A request for variables with the number 0 is refused.
pub proof fn law_zero_is_no_scope(
    s: StateView,
    c: ControlView,
    start: Option<i64>,
    count: Option<i64>,
    s2: StateView,
    c2: ControlView,
    r: Result<Step, Error>,
)
    requires
        crate::session::handles(
            Command::Variables { variables_reference: 0, start, count },
            s,
            c,
            s2,
            c2,
            r,
        ),
    ensures
        r == Err::<Step, Error>(Error::UnknownScope),
{
}

proof fn lemma_opened_at(entries: Seq<(Seq<char>, Value)>, i: int)
    requires
        0 <= i < entries.len(),
    ensures
        crate::variables::opened(entries.take(i)).len() <= crate::variables::opened(entries).len(),
        match crate::variables::scope_for(entries[i].1) {
            Some(scope) => {
                let at = crate::variables::opened(entries.take(i)).len() as int;
                &&& at < crate::variables::opened(entries).len()
                &&& crate::variables::opened(entries)[at] == scope
            },
            None => true,
        },
    decreases entries.len(),
{
    if i == entries.len() - 1 {
        assert(entries.drop_last() =~= entries.take(i));
    } else {
        assert(entries.drop_last().take(i) =~= entries.take(i));
        lemma_opened_at(entries.drop_last(), i);
    }
}

/// Each variable that is listed leads to the scope of its own value, and one that consists of
/// nothing leads nowhere.
pub proof fn law_variables_lead_to_their_scopes(
    scope: Scope,
    contents: ScopeContents,
    texts: Seq<Seq<char>>,
    before: Seq<Scope>,
    i: int,
)
    requires
        0 <= i < crate::variables::entries(scope, contents.properties@).len(),
    ensures
        ({
            let entries = crate::variables::entries(scope, contents.properties@);
            let all = crate::variables::listed(scope, contents, texts, before.len() as int);
            let shift: int = if crate::variables::this_scope(scope, contents) is Some {
                1
            } else {
                0
            };
            let after = before + crate::variables::listed_scopes(scope, contents);
            let reference = all[i + shift].variables_reference;
            match crate::variables::scope_for(entries[i].1) {
                Some(own) => 1 <= reference <= after.len() && after[reference - 1] == own,
                None => reference == 0,
            }
        }),
{
    let entries = crate::variables::entries(scope, contents.properties@);
    lemma_opened_at(entries, i);
}

/// Once a reader has nothing left to ask for, every entry whose value leads to a collected object,
/// or to none, can be shown.
pub proof fn law_finished_reader_shows_entries(
    reader: ObjectReader,
    entries: Seq<(Seq<char>, Value)>,
)
    requires
        reader.wf(),
        reader.queue() == Set::<usize>::empty(),
        forall|i: int|
            0 <= i < entries.len() ==> crate::value::leads_into(
                (#[trigger] entries[i]).1,
                reader.objects().dom(),
            ),
    ensures
        crate::variables::texts(reader.objects(), entries) is Ok,
{
    crate::variables::lemma_texts(reader.objects(), entries);
    if crate::variables::texts(reader.objects(), entries) is Err {
        let i = choose|i: int|
            0 <= i < entries.len() && crate::value::format_value(
                reader.objects(),
                (#[trigger] entries[i]).1,
                Set::<usize>::empty(),
            ) is Err;
        reader.law_finished_reader_shows(entries[i].1);
    }
}

/// A reader that was asked for the value of every property of a scope, and has nothing left to ask
/// for, has collected enough to list the whole scope.
pub proof fn law_finished_reader_lists_scope(
    reader: ObjectReader,
    scope: Scope,
    properties: Seq<Property>,
)
    requires
        reader.wf(),
        reader.queue() == Set::<usize>::empty(),
        forall|i: int|
            0 <= i < properties.len() ==> crate::value::leads_into(
                (#[trigger] properties[i]).value,
                reader.objects().dom(),
            ),
    ensures
        crate::variables::texts(
            reader.objects(),
            crate::variables::entries(scope, properties),
        ) is Ok,
{
    let entries = crate::variables::entries(scope, properties);
    let known = reader.objects().dom();
    assert forall|i: int| 0 <= i < entries.len() implies crate::value::leads_into(
        (#[trigger] entries[i]).1,
        known,
    ) by {
        if let Scope::Object(_, _) = scope {
            let held = crate::value::held(properties);
            properties.lemma_filter_contains_rev(|p: Property| p.in_value_holder, held[i]);
            let j = choose|j: int| 0 <= j < properties.len() && properties[j] == held[i];
            assert(crate::value::leads_into(properties[j].value, known));
        } else {
            assert(crate::value::leads_into(properties[i].value, known));
        }
    }
    law_finished_reader_shows_entries(reader, entries);
}

/// `this` leads to the object that the frame runs on.
pub proof fn law_this_leads_to_object(
    scope: Scope,
    contents: ScopeContents,
    texts: Seq<Seq<char>>,
    before: Seq<Scope>,
)
    requires
        crate::variables::this_scope(scope, contents) is Some,
    ensures
        ({
            let all = crate::variables::listed(scope, contents, texts, before.len() as int);
            let after = before + crate::variables::listed_scopes(scope, contents);
            let reference = all[0].variables_reference;
            &&& all[0].name == "this"@
            &&& 1 <= reference <= after.len()
            &&& Some(after[reference - 1]) == crate::variables::this_scope(scope, contents)
        }),
{
}

/// A breakpoint that was asked for stops the game, as soon as no step is under way.
pub proof fn law_breakpoint_is_hit(
    control: ControlView,
    path: Seq<char>,
    lines: Seq<SourceBreakpoint>,
    i: int,
    key: BreakpointKey,
    frame: FrameLinks,
    last_parent: Option<usize>,
)
    requires
        control.step_mode == StepMode::NoStep,
        0 <= i < lines.len(),
        crate::session::key_for(control.functions.functions, path, lines[i].line) == Some(key),
    ensures
        crate::hooks::pre_call_cause(
            (ControlView {
                breakpoints: crate::session::breakpoints_replaced(control, path, lines),
                ..control
            }),
            frame,
            last_parent,
            key,
        ) == Some(EventCause::Breakpoint),
{
    assert(crate::session::keys_for(control.functions.functions, path, lines).contains(key));
}

proof fn lemma_keys_lie_in_file(
    functions: Map<crate::source::Place, crate::mapping::FunctionId>,
    path: Seq<char>,
    lines: Seq<SourceBreakpoint>,
    key: BreakpointKey,
)
    requires
        crate::mapping::same_file(crate::text::lower(path), path),
        crate::session::keys_for(functions, path, lines).contains(key),
    ensures
        crate::mapping::functions_in(functions, path).contains(key.func),
{
    let i = choose|i: int|
        0 <= i < lines.len() && crate::session::key_for(
            functions,
            path,
            (#[trigger] lines[i]).line,
        ) == Some(key);
    crate::mapping::law_function_at_in_file(functions, path, (lines[i].line as u16) as u32);
}

/// A request for breakpoints leaves the breakpoints in other files as they are, and sets in this
/// file exactly those that were asked for. This is so for every path that differs from its lower
/// case in ASCII letters at most.
pub proof fn law_breakpoints_replaced_by_file(
    control: ControlView,
    path: Seq<char>,
    lines: Seq<SourceBreakpoint>,
    key: BreakpointKey,
)
    requires
        crate::mapping::same_file(crate::text::lower(path), path),
    ensures
        ({
            let functions = control.functions.functions;
            crate::session::breakpoints_replaced(control, path, lines).contains(key) == (
            if crate::mapping::functions_in(functions, path).contains(key.func) {
                crate::session::keys_for(functions, path, lines).contains(key)
            } else {
                control.breakpoints.contains(key)
            })
        }),
{
    let functions = control.functions.functions;
    if crate::session::keys_for(functions, path, lines).contains(key) {
        lemma_keys_lie_in_file(functions, path, lines, key);
    }
}

/// Of two requests for breakpoints in one file the last one counts. This is so for every path
/// that differs from its lower case in ASCII letters at most.
pub proof fn law_last_breakpoints_count(
    control: ControlView,
    path: Seq<char>,
    first: Seq<SourceBreakpoint>,
    last: Seq<SourceBreakpoint>,
)
    requires
        crate::mapping::same_file(crate::text::lower(path), path),
    ensures
        crate::session::breakpoints_replaced(
            (ControlView {
                breakpoints: crate::session::breakpoints_replaced(control, path, first),
                ..control
            }),
            path,
            last,
        ) == crate::session::breakpoints_replaced(control, path, last),
{
    let middle = ControlView {
        breakpoints: crate::session::breakpoints_replaced(control, path, first),
        ..control
    };
    assert forall|key: BreakpointKey|
        crate::session::breakpoints_replaced(middle, path, last).contains(key)
            == crate::session::breakpoints_replaced(control, path, last).contains(key) by {
        law_breakpoints_replaced_by_file(control, path, first, key);
        law_breakpoints_replaced_by_file(control, path, last, key);
        law_breakpoints_replaced_by_file(middle, path, last, key);
    }
    assert(crate::session::breakpoints_replaced(middle, path, last)
        =~= crate::session::breakpoints_replaced(control, path, last));
}

/// A step over does not end in a frame that the last one called.
pub proof fn law_step_over_skips_callees(
    last: Option<usize>,
    last_parent: Option<usize>,
    frame: FrameLinks,
)
    requires
        last != Some(frame.addr),
        last_parent != Some(frame.addr),
    ensures
        !crate::hooks::step_ends(StepMode::StepOver, last, last_parent, frame),
{
}

/// Requests for breakpoints that wait are kept in order, and handed out when the waiting ends.
/// From then on requests wait no longer.
pub proof fn law_waiting_requests(
    s: StateView,
    args: SetBreakpointsArguments,
    later: SetBreakpointsArguments,
)
    requires
        s.pending is Some,
    ensures
        s.queued(args).pending == Some(s.pending->0.push(args)),
        s.readied().pending is None,
        s.readied().queued(later) == s.readied(),
{
}

} // verus!
