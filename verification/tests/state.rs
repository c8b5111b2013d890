use redscript_dap::control::BreakpointKey;
use redscript_dap::event::{DebugEvent, EventCause};
use redscript_dap::frame::StackFramePtr;
use redscript_dap::mapping::FunctionId;
use redscript_dap::protocol::{SetBreakpointsArguments, Source};
use redscript_dap::state::{DebugState, Scope};

fn event(frame: StackFramePtr) -> DebugEvent {
    let key = BreakpointKey::new(FunctionId { parent: 1, name: 2 }, 10);
    DebugEvent::new(key, EventCause::Breakpoint, frame).0
}

fn request(path: &str) -> SetBreakpointsArguments {
    SetBreakpointsArguments {
        source: Source {
            name: None,
            path: Some(path.to_owned()),
        },
        breakpoints: None,
    }
}

fn paths(requests: Vec<SetBreakpointsArguments>) -> Vec<String> {
    requests.into_iter().flat_map(|r| r.source.path).collect()
}

#[test]
fn scopes_are_numbered_from_one() {
    let mut state = DebugState::default();
    assert!(state.scope(1).is_none());
    assert_eq!(state.add_scope(Scope::Object(0x10, 7)), 1);
    assert_eq!(state.add_scope(Scope::Struct(0x20, 8)), 2);
    assert_eq!(state.add_scope(Scope::Array(0x30, 0x40)), 3);
    assert_eq!(state.scope(1), Some(&Scope::Object(0x10, 7)));
    assert_eq!(state.scope(2), Some(&Scope::Struct(0x20, 8)));
    assert_eq!(state.scope(3), Some(&Scope::Array(0x30, 0x40)));
}

#[test]
fn numbers_that_lead_to_no_scope() {
    let mut state = DebugState::default();
    state.add_scope(Scope::Object(0x10, 7));
    for id in [0, 2, -1, i64::MIN, i64::MAX] {
        assert!(state.scope(id).is_none());
    }
}

#[test]
fn room_for_scopes() {
    let mut state = DebugState::default();
    let max = (isize::MAX / 128) as usize;
    assert!(state.has_room(0));
    assert!(state.has_room(max));
    assert!(!state.has_room(max + 1));
    assert!(!state.has_room(usize::MAX));
    state.add_scope(Scope::Object(0x10, 7));
    assert!(state.has_room(max - 1));
    assert!(!state.has_room(max));
}

#[test]
fn frames_of_a_stop() {
    let mut state = DebugState::default();
    assert!(state.frames().is_empty());
    state.reset(event(StackFramePtr::PreCall(0x30)), &vec![0x20, 0x10]);
    assert_eq!(
        state.frames(),
        &vec![
            StackFramePtr::PreCall(0x30),
            StackFramePtr::PostCall(0x20),
            StackFramePtr::PostCall(0x10),
        ]
    );
    state.reset(event(StackFramePtr::PostCall(0x20)), &vec![]);
    assert_eq!(state.frames(), &vec![StackFramePtr::PostCall(0x20)]);
}

#[test]
fn stop_drops_the_scopes() {
    let mut state = DebugState::default();
    state.add_scope(Scope::Object(0x10, 7));
    state.add_scope(Scope::Object(0x20, 7));
    state.reset(event(StackFramePtr::PreCall(0x30)), &vec![]);
    assert!(state.scope(1).is_none());
    assert!(state.scope(2).is_none());
    assert_eq!(state.add_scope(Scope::Object(0x30, 7)), 1);
    assert_eq!(state.scope(1), Some(&Scope::Object(0x30, 7)));
}

#[test]
fn stop_is_taken_once() {
    let mut state = DebugState::default();
    assert!(state.take_event().is_none());
    state.reset(event(StackFramePtr::PreCall(0x30)), &vec![0x20]);
    let taken = state.take_event().map(|ev| ev.frame());
    assert_eq!(taken, Some(StackFramePtr::PreCall(0x30)));
    assert!(state.take_event().is_none());
    assert_eq!(state.frames().len(), 2);
}

#[test]
fn requests_wait_until_the_game_is_ready() {
    let mut state = DebugState::default();
    assert!(state.enqueue(request("a")).is_none());
    assert!(state.enqueue(request("b")).is_none());
    assert_eq!(paths(state.mark_ready()), vec!["a", "b"]);
    let passed = state.enqueue(request("c"));
    assert_eq!(passed.and_then(|r| r.source.path).as_deref(), Some("c"));
}

#[test]
fn ready_twice_makes_requests_wait_again() {
    let mut state = DebugState::default();
    assert!(paths(state.mark_ready()).is_empty());
    assert!(paths(state.mark_ready()).is_empty());
    assert!(state.enqueue(request("a")).is_none());
    assert_eq!(paths(state.mark_ready()), vec!["a"]);
}

#[test]
fn numbers_have_no_gaps() {
    let mut state = DebugState::default();
    for stop in 0..3 {
        for n in 1..20i64 {
            assert!(state.scope(n).is_none());
            assert_eq!(state.add_scope(Scope::Object(n as usize, stop)), n);
            for earlier in 1..=n {
                assert_eq!(state.scope(earlier), Some(&Scope::Object(earlier as usize, stop)));
            }
            assert!(state.scope(0).is_none());
        }
        state.reset(event(StackFramePtr::PreCall(0x30)), &vec![]);
    }
}
