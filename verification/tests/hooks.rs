use redscript_dap::control::{BreakpointKey, DebugControl, StepMode};
use redscript_dap::event::{DebugEvent, EventCause};
use redscript_dap::frame::StackFramePtr;
use redscript_dap::hooks::{
    breakpoint, on_bind_function, post_call, pre_call, stop_after_call, stop_before_call,
    FrameLinks,
};
use redscript_dap::mapping::{FunctionId, SourceFileInfo};

const OUTER: usize = 0x100;
const LAST: usize = 0x200;
const INNER: usize = 0x300;
const DEEPER: usize = 0x400;

fn key() -> BreakpointKey {
    BreakpointKey::new(FunctionId { parent: 1, name: 2 }, 10)
}

fn links(addr: usize) -> FrameLinks {
    let parent = match addr {
        OUTER => None,
        LAST => Some(OUTER),
        INNER => Some(LAST),
        _ => Some(INNER),
    };
    FrameLinks { addr, parent }
}

fn stepping(mode: StepMode) -> DebugControl {
    let mut control = DebugControl::new();
    control.set_step_mode(mode);
    control.set_last_break_frame(LAST);
    control
}

fn stops(mode: StepMode) -> Vec<bool> {
    let control = stepping(mode);
    [OUTER, LAST, INNER, DEEPER]
        .iter()
        .map(|&addr| pre_call(&control, links(addr), Some(OUTER), &key()) == Some(EventCause::Step))
        .collect()
}

#[test]
fn where_steps_end() {
    assert_eq!(stops(StepMode::NoStep), vec![false, false, false, false]);
    assert_eq!(stops(StepMode::StepOut), vec![true, false, false, false]);
    assert_eq!(stops(StepMode::StepOver), vec![true, true, false, false]);
    assert_eq!(stops(StepMode::StepIn), vec![true, true, true, false]);
}

#[test]
fn steps_end_nowhere_without_a_stop() {
    for mode in [StepMode::StepOut, StepMode::StepOver, StepMode::StepIn] {
        let mut control = DebugControl::new();
        control.set_step_mode(mode);
        assert_eq!(pre_call(&control, links(OUTER), Some(OUTER), &key()), None);
        assert_eq!(pre_call(&control, links(OUTER), None, &key()), None);
        assert_eq!(post_call(&control, OUTER, Some(OUTER)), None);
    }
}

#[test]
fn step_in_from_the_outermost_frame() {
    let mut control = DebugControl::new();
    control.set_step_mode(StepMode::StepIn);
    control.set_last_break_frame(OUTER);
    assert_eq!(pre_call(&control, links(LAST), None, &key()), Some(EventCause::Step));
    assert_eq!(pre_call(&control, links(OUTER), None, &key()), Some(EventCause::Step));
    assert_eq!(pre_call(&control, links(INNER), None, &key()), None);
}

#[test]
fn breakpoints_stop_the_game() {
    let mut control = DebugControl::new();
    assert_eq!(pre_call(&control, links(INNER), None, &key()), None);
    control.breakpoints_mut().add(key());
    assert_eq!(
        pre_call(&control, links(INNER), None, &key()),
        Some(EventCause::Breakpoint)
    );
    let other = BreakpointKey::new(FunctionId { parent: 1, name: 2 }, 11);
    assert_eq!(pre_call(&control, links(INNER), None, &other), None);
}

#[test]
fn breakpoints_do_not_count_during_a_step() {
    let mut control = stepping(StepMode::StepOver);
    control.breakpoints_mut().add(key());
    assert_eq!(pre_call(&control, links(INNER), Some(OUTER), &key()), None);
    assert_eq!(
        pre_call(&control, links(LAST), Some(OUTER), &key()),
        Some(EventCause::Step)
    );
}

#[test]
fn step_out_ends_behind_the_call() {
    let control = stepping(StepMode::StepOut);
    assert_eq!(post_call(&control, OUTER, Some(OUTER)), Some(EventCause::Step));
    assert_eq!(post_call(&control, LAST, Some(OUTER)), None);
    assert_eq!(post_call(&control, OUTER, None), None);
    for mode in [StepMode::NoStep, StepMode::StepOver, StepMode::StepIn] {
        assert_eq!(post_call(&stepping(mode), OUTER, Some(OUTER)), None);
    }
}

#[test]
fn stop_ends_the_step() {
    let mut control = stepping(StepMode::StepIn);
    assert!(breakpoint(&mut control, StackFramePtr::PreCall(INNER), true));
    assert_eq!(control.get_step_mode(), StepMode::NoStep);
    assert_eq!(control.get_last_break_frame(), Some(INNER));
}

#[test]
fn stop_without_a_session_changes_nothing() {
    let mut control = stepping(StepMode::StepIn);
    assert!(!breakpoint(&mut control, StackFramePtr::PostCall(INNER), false));
    assert_eq!(control.get_step_mode(), StepMode::StepIn);
    assert_eq!(control.get_last_break_frame(), Some(LAST));
}

#[test]
fn bound_functions_are_taken_up() {
    let mut control = DebugControl::new();
    let func = FunctionId { parent: 1, name: 2 };
    let source = SourceFileInfo {
        index: 3,
        path: "A.reds".to_owned(),
    };
    on_bind_function(&mut control, None, Some(&source), None, 5);
    on_bind_function(&mut control, Some(func), None, None, 5);
    assert_eq!(control.functions().get_by_loc("a.reds", 5), None);
    on_bind_function(&mut control, Some(func), Some(&source), None, 5);
    assert_eq!(control.functions().get_by_loc("a.reds", 5), Some(func));
}

#[test]
fn frames_and_their_calls() {
    assert_eq!(StackFramePtr::PreCall(LAST).as_ptr(), LAST);
    assert_eq!(StackFramePtr::PostCall(INNER).as_ptr(), INNER);
    assert_eq!(StackFramePtr::PreCall(LAST).call_offset(1, 12), -1);
    assert_eq!(StackFramePtr::PostCall(LAST).call_offset(1, 12), -14);
}

#[test]
fn game_waits_until_it_is_woken() {
    let (ev, parker) = DebugEvent::new(key(), EventCause::Step, StackFramePtr::PreCall(LAST));
    assert_eq!(ev.key(), key());
    assert_eq!(ev.cause(), EventCause::Step);
    assert_eq!(ev.frame(), StackFramePtr::PreCall(LAST));
    let moment = std::time::Duration::from_millis(10);
    assert!(!parker.park_timeout(moment));
    ev.unpark();
    parker.park();
    assert!(!parker.park_timeout(moment));
}

#[test]
fn stops_before_calls() {
    let func = FunctionId { parent: 1, name: 2 };
    let mut control = DebugControl::new();
    control.breakpoints_mut().add(key());
    assert_eq!(
        stop_before_call(&control, links(INNER), None, func, 10),
        Some((key(), EventCause::Breakpoint, StackFramePtr::PreCall(INNER)))
    );
    assert_eq!(stop_before_call(&control, links(INNER), None, func, 11), None);
    let control = stepping(StepMode::StepOver);
    assert_eq!(
        stop_before_call(&control, links(OUTER), Some(OUTER), func, 10),
        Some((key(), EventCause::Step, StackFramePtr::PreCall(OUTER)))
    );
}

#[test]
fn stops_after_calls() {
    let func = FunctionId { parent: 1, name: 2 };
    let control = stepping(StepMode::StepOut);
    assert_eq!(
        stop_after_call(&control, OUTER, Some(OUTER), func, 10),
        Some((key(), EventCause::Step, StackFramePtr::PostCall(OUTER)))
    );
    assert_eq!(stop_after_call(&control, LAST, Some(OUTER), func, 10), None);
    let control = stepping(StepMode::StepIn);
    assert_eq!(stop_after_call(&control, OUTER, Some(OUTER), func, 10), None);
}

#[test]
fn stop_keeps_its_half_of_a_pair() {
    let (parker, unparker) = parking::pair();
    let (other, _other_unparker) = parking::pair();
    let pair = (parker, unparker);
    let frame = StackFramePtr::PostCall(INNER);
    let (ev, parker) = DebugEvent::with_pair(key(), EventCause::Breakpoint, frame, pair);
    assert_eq!(ev.key(), key());
    assert_eq!(ev.cause(), EventCause::Breakpoint);
    assert_eq!(ev.frame(), frame);
    ev.unpark();
    parker.park();
    assert!(!other.park_timeout(std::time::Duration::from_millis(10)));
}
