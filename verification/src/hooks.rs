//! What happens when the game binds a function, and before and after each call it makes.
use crate::control::{BreakpointKey, DebugControl, StepMode};
use crate::event::EventCause;
use crate::frame::StackFramePtr;
use crate::mapping::{FunctionId, SourceFileInfo};
use vstd::prelude::*;

verus! {

/// A frame of the script stack and the frame that called it, by address.
#[derive(Debug, Clone, Copy, PartialEq, Eq, Structural)]
pub struct FrameLinks {
    pub addr: usize,
    pub parent: Option<usize>,
}

/// Whether a step ends before a call that `frame` makes. `last` is the frame of the last stop and
/// `last_parent` its caller. Every step ends back in the caller; a step over ends in the same
/// frame too; a step in ends also in a frame that the last one called.
pub open spec fn step_ends(
    mode: StepMode,
    last: Option<usize>,
    last_parent: Option<usize>,
    frame: FrameLinks,
) -> bool {
    match mode {
        StepMode::NoStep => false,
        StepMode::StepOut => last_parent == Some(frame.addr),
        StepMode::StepOver => last_parent == Some(frame.addr) || last == Some(frame.addr),
        StepMode::StepIn => {
            ||| last_parent == Some(frame.addr)
            ||| last == Some(frame.addr)
            ||| last is Some && frame.parent == last
        },
    }
}

/// Why the game stops before a call at `key` that `frame` makes, if it does. While a step is
/// under way the breakpoints do not count.
pub open spec fn pre_call_cause(
    control: crate::control::ControlView,
    frame: FrameLinks,
    last_parent: Option<usize>,
    key: BreakpointKey,
) -> Option<EventCause> {
    if control.step_mode != StepMode::NoStep {
        if step_ends(control.step_mode, control.last_break_frame, last_parent, frame) {
            Some(EventCause::Step)
        } else {
            None
        }
    } else if control.breakpoints.contains(key) {
        Some(EventCause::Breakpoint)
    } else {
        None
    }
}

/// Why the game stops after a call that the frame at `frame` made, if it does: a step out ends
/// when the call returns to the caller of the last stop.
pub open spec fn post_call_cause(
    control: crate::control::ControlView,
    frame: usize,
    last_parent: Option<usize>,
) -> Option<EventCause> {
    if control.step_mode == StepMode::StepOut && last_parent == Some(frame) {
        Some(EventCause::Step)
    } else {
        None
    }
}

/// The caller of the last stop's frame, where there was a stop.
pub open spec fn parent_of_last(
    control: crate::control::ControlView,
    parent: Option<usize>,
) -> Option<usize> {
    if control.last_break_frame is Some {
        parent
    } else {
        None
    }
}

/// The stop before a call at `line` of `func` that `frame` makes, if there is one.
pub open spec fn pre_call_stop(
    control: crate::control::ControlView,
    frame: FrameLinks,
    last_parent: Option<usize>,
    func: FunctionId,
    line: u16,
) -> Option<(BreakpointKey, EventCause, StackFramePtr)> {
    let key = BreakpointKey { func, line };
    match pre_call_cause(control, frame, last_parent, key) {
        Some(cause) => Some((key, cause, StackFramePtr::PreCall(frame.addr))),
        None => None,
    }
}

/// The stop after a call at `line` of `func` that the frame at `frame` made, if there is one.
pub open spec fn post_call_stop(
    control: crate::control::ControlView,
    frame: usize,
    last_parent: Option<usize>,
    func: FunctionId,
    line: u16,
) -> Option<(BreakpointKey, EventCause, StackFramePtr)> {
    match post_call_cause(control, frame, last_parent) {
        Some(cause) => Some((BreakpointKey { func, line }, cause, StackFramePtr::PostCall(frame))),
        None => None,
    }
}

/// Takes up a function that the game bound. A function without source information is left out.
pub fn on_bind_function(
    control: &mut DebugControl,
    func: Option<FunctionId>,
    source: Option<&SourceFileInfo>,
    exe: Option<&str>,
    line: u32,
)
    requires
        old(control).wf(),
    ensures
        final(control).wf(),
        match (func, source) {
            (Some(id), Some(source)) => {
                let exe = match exe {
                    Some(exe) => Some(exe@),
                    None => None,
                };
                let before = old(control)@.functions;
                let path = before.path_of(source.index, source.path@, exe);
                final(control)@ == (crate::control::ControlView {
                    functions: before.with_path(source.index, path).placed(id, (path, line)),
                    ..old(control)@
                })
            },
            _ => final(control)@ == old(control)@,
        },
{
    if let Some(id) = func {
        if let Some(source) = source {
            control.functions_mut().add(id, source, exe, line);
        }
    }
}

/// Decides whether the game stops before a call at `key` that `frame` makes. `last_parent` is the
/// caller of the frame of the last stop.
pub fn pre_call(
    control: &DebugControl,
    frame: FrameLinks,
    last_parent: Option<usize>,
    key: &BreakpointKey,
) -> (r: Option<EventCause>)
    ensures
        r == pre_call_cause(control@, frame, parent_of_last(control@, last_parent), *key),
{
    let step_mode = control.get_step_mode();
    if step_mode > StepMode::NoStep {
        let last = control.get_last_break_frame();
        let should_break: bool = match last {
            None => false,
            Some(last) => {
                let from_callee: bool = match last_parent {
                    Some(parent) => parent == frame.addr,
                    None => false,
                };
                let from_caller: bool = match frame.parent {
                    Some(parent) => parent == last,
                    None => false,
                };
                from_callee || (step_mode >= StepMode::StepOver && last == frame.addr)
                    || (step_mode == StepMode::StepIn && from_caller)
            },
        };
        if should_break {
            Some(EventCause::Step)
        } else {
            None
        }
    } else {
        match control.breakpoints().get(key) {
            Some(_) => Some(EventCause::Breakpoint),
            None => None,
        }
    }
}

/// Decides whether the game stops after a call that the frame at `frame` made.
pub fn post_call(control: &DebugControl, frame: usize, last_parent: Option<usize>) -> (r: Option<
    EventCause,
>)
    ensures
        r == post_call_cause(control@, frame, parent_of_last(control@, last_parent)),
{
    if control.get_step_mode() == StepMode::StepOut {
        if let Some(_) = control.get_last_break_frame() {
            if let Some(parent) = last_parent {
                if parent == frame {
                    return Some(EventCause::Step);
                }
            }
        }
    }
    None
}

/// The stop before a call at `line` of `func` that `frame` makes, if there is one. `last_parent`
/// is the caller of the frame of the last stop.
pub fn stop_before_call(
    control: &DebugControl,
    frame: FrameLinks,
    last_parent: Option<usize>,
    func: FunctionId,
    line: u16,
) -> (r: Option<(BreakpointKey, EventCause, StackFramePtr)>)
    ensures
        r == pre_call_stop(control@, frame, parent_of_last(control@, last_parent), func, line),
{
    let key = BreakpointKey::new(func, line);
    match pre_call(control, frame, last_parent, &key) {
        Some(cause) => Some((key, cause, StackFramePtr::PreCall(frame.addr))),
        None => None,
    }
}

/// The stop after a call at `line` of `func` that the frame at `frame` made, if there is one.
/// `last_parent` is the caller of the frame of the last stop.
pub fn stop_after_call(
    control: &DebugControl,
    frame: usize,
    last_parent: Option<usize>,
    func: FunctionId,
    line: u16,
) -> (r: Option<(BreakpointKey, EventCause, StackFramePtr)>)
    ensures
        r == post_call_stop(control@, frame, parent_of_last(control@, last_parent), func, line),
{
    match post_call(control, frame, last_parent) {
        Some(cause) => Some((BreakpointKey::new(func, line), cause, StackFramePtr::PostCall(frame))),
        None => None,
    }
}

/// Takes note of a stop in `frame`, where someone was there to be told (`sent`). Returns whether
/// the thread is to wait.
pub fn breakpoint(control: &mut DebugControl, frame: StackFramePtr, sent: bool) -> (r: bool)
    ensures
        old(control).wf() ==> final(control).wf(),
        r == sent,
        final(control)@ == (if sent {
            crate::control::ControlView {
                last_break_frame: if frame.addr() == 0 {
                    None
                } else {
                    Some(frame.addr())
                },
                step_mode: StepMode::NoStep,
                ..old(control)@
            }
        } else {
            old(control)@
        }),
{
    if sent {
        control.set_last_break_frame(frame.as_ptr());
        control.set_step_mode(StepMode::NoStep);
    }
    sent
}

/// A step that stops in fewer places never goes past a stop that it shares: where a step out
/// ends a step over ends too, and where a step over ends a step in ends too.
pub proof fn law_steps_nested(
    last: Option<usize>,
    last_parent: Option<usize>,
    frame: FrameLinks,
)
    ensures
        step_ends(StepMode::StepOut, last, last_parent, frame) ==> step_ends(
            StepMode::StepOver,
            last,
            last_parent,
            frame,
        ),
        step_ends(StepMode::StepOver, last, last_parent, frame) ==> step_ends(
            StepMode::StepIn,
            last,
            last_parent,
            frame,
        ),
{
}

/// Without a step under way the game stops before a call exactly at the breakpoints.
pub proof fn law_breakpoints_stop(
    control: crate::control::ControlView,
    frame: FrameLinks,
    last_parent: Option<usize>,
    key: BreakpointKey,
)
    requires
        control.step_mode == StepMode::NoStep,
    ensures
        pre_call_cause(control, frame, last_parent, key) == (if control.breakpoints.contains(key) {
            Some(EventCause::Breakpoint)
        } else {
            None
        }),
        post_call_cause(control, frame.addr, last_parent) is None,
{
}

/// While no step is under way, the game stops before a call exactly where a breakpoint is set, and
/// never after one.
pub proof fn law_without_step(
    control: &DebugControl,
    frame: FrameLinks,
    last_parent: Option<usize>,
    key: BreakpointKey,
    before: Option<EventCause>,
    after: Option<EventCause>,
)
    requires
        control@.step_mode == StepMode::NoStep,
        call_ensures(pre_call, (control, frame, last_parent, &key), before),
        call_ensures(post_call, (control, frame.addr, last_parent), after),
    ensures
        control@.breakpoints.contains(key) ==> before == Some(EventCause::Breakpoint),
        !control@.breakpoints.contains(key) ==> before is None,
        after is None,
{
}

/// A step over ends before a call if and only if the call is made by the frame of the last stop,
/// whatever called that frame, or by the caller of that frame. Breakpoints do not count, and the
/// step never ends after a call.
pub proof fn law_step_over(
    control: &DebugControl,
    frame: FrameLinks,
    last_parent: Option<usize>,
    key: BreakpointKey,
    last: usize,
    before: Option<EventCause>,
    after: Option<EventCause>,
)
    requires
        control@.step_mode == StepMode::StepOver,
        control@.last_break_frame == Some(last),
        call_ensures(pre_call, (control, frame, last_parent, &key), before),
        call_ensures(post_call, (control, frame.addr, last_parent), after),
    ensures
        frame.addr == last ==> before == Some(EventCause::Step),
        last_parent == Some(frame.addr) ==> before == Some(EventCause::Step),
        frame.addr != last && last_parent != Some(frame.addr) ==> before is None,
        after is None,
{
}

/// A step in ends before a call if and only if the call is made by the frame of the last stop, by
/// the caller of that frame, or by a frame that it called. Breakpoints do not count, and the step
/// never ends after a call.
pub proof fn law_step_in(
    control: &DebugControl,
    frame: FrameLinks,
    last_parent: Option<usize>,
    key: BreakpointKey,
    last: usize,
    before: Option<EventCause>,
    after: Option<EventCause>,
)
    requires
        control@.step_mode == StepMode::StepIn,
        control@.last_break_frame == Some(last),
        call_ensures(pre_call, (control, frame, last_parent, &key), before),
        call_ensures(post_call, (control, frame.addr, last_parent), after),
    ensures
        frame.addr == last ==> before == Some(EventCause::Step),
        last_parent == Some(frame.addr) ==> before == Some(EventCause::Step),
        frame.parent == Some(last) ==> before == Some(EventCause::Step),
        frame.addr != last && last_parent != Some(frame.addr) && frame.parent != Some(last)
            ==> before is None,
        after is None,
{
}

/// A step out ends before or after a call if and only if the call is made by the caller of the
/// frame of the last stop. Breakpoints do not count.
pub proof fn law_step_out(
    control: &DebugControl,
    frame: FrameLinks,
    last_parent: Option<usize>,
    key: BreakpointKey,
    last: usize,
    before: Option<EventCause>,
    after: Option<EventCause>,
)
    requires
        control@.step_mode == StepMode::StepOut,
        control@.last_break_frame == Some(last),
        call_ensures(pre_call, (control, frame, last_parent, &key), before),
        call_ensures(post_call, (control, frame.addr, last_parent), after),
    ensures
        last_parent == Some(frame.addr) ==> before == Some(EventCause::Step) && after == Some(
            EventCause::Step,
        ),
        last_parent != Some(frame.addr) ==> before is None && after is None,
{
}

/// A step that started from no stop never ends, and hides all breakpoints.
pub proof fn law_step_from_nowhere(
    control: &DebugControl,
    frame: FrameLinks,
    last_parent: Option<usize>,
    key: BreakpointKey,
    before: Option<EventCause>,
    after: Option<EventCause>,
)
    requires
        control@.step_mode != StepMode::NoStep,
        control@.last_break_frame is None,
        call_ensures(pre_call, (control, frame, last_parent, &key), before),
        call_ensures(post_call, (control, frame.addr, last_parent), after),
    ensures
        before is None,
        after is None,
{
}

/// The stop before a call is that of the line, the function and the frame of the call, and there
/// is one exactly where there is a cause for it.
pub proof fn law_stop_before_call(
    control: &DebugControl,
    frame: FrameLinks,
    last_parent: Option<usize>,
    func: FunctionId,
    line: u16,
    cause: Option<EventCause>,
    stop: Option<(BreakpointKey, EventCause, StackFramePtr)>,
)
    requires
        call_ensures(
            pre_call,
            (control, frame, last_parent, &(BreakpointKey { func, line })),
            cause,
        ),
        call_ensures(stop_before_call, (control, frame, last_parent, func, line), stop),
    ensures
        stop is Some <==> cause is Some,
        stop matches Some(stop) ==> stop.0.func == func && stop.0.line == line && Some(stop.1)
            == cause && stop.2 == StackFramePtr::PreCall(frame.addr),
{
}

/// The stop after a call is that of the line, the function and the frame of the call, and there is
/// one exactly where there is a cause for it.
pub proof fn law_stop_after_call(
    control: &DebugControl,
    frame: usize,
    last_parent: Option<usize>,
    func: FunctionId,
    line: u16,
    cause: Option<EventCause>,
    stop: Option<(BreakpointKey, EventCause, StackFramePtr)>,
)
    requires
        call_ensures(post_call, (control, frame, last_parent), cause),
        call_ensures(stop_after_call, (control, frame, last_parent, func, line), stop),
    ensures
        stop is Some <==> cause is Some,
        stop matches Some(stop) ==> stop.0.func == func && stop.0.line == line && Some(stop.1)
            == cause && stop.2 == StackFramePtr::PostCall(frame),
{
}

/// A stop that someone was told of ends the step and is remembered; one that no one was told of
/// changes nothing. Neither changes the functions or the breakpoints.
pub proof fn law_stop_noted(control: &mut DebugControl, frame: StackFramePtr, sent: bool, waits: bool)
    requires
        call_ensures(breakpoint, (control, frame, sent), waits),
    ensures
        waits == sent,
        final(control)@.functions == old(control)@.functions,
        final(control)@.breakpoints == old(control)@.breakpoints,
        sent ==> final(control)@.step_mode is NoStep,
        sent ==> (match frame {
            StackFramePtr::PreCall(addr) => addr != 0 ==> final(control)@.last_break_frame == Some(
                addr,
            ),
            StackFramePtr::PostCall(addr) => addr != 0 ==> final(control)@.last_break_frame == Some(
                addr,
            ),
        }),
        !sent ==> final(control)@ == old(control)@,
{
}

} // verus!
