use redscript_dap::control::{BreakpointKey, Breakpoints, DebugControl, StepMode};
use redscript_dap::mapping::{FunctionId, SourceFileInfo};

fn key(parent: u64, name: u64, line: u16) -> BreakpointKey {
    BreakpointKey::new(FunctionId { parent, name }, line)
}

#[test]
fn codes_of_step_modes() {
    for code in 0..4u8 {
        assert_eq!(StepMode::try_from(code).map(|mode| mode.code()), Ok(code));
    }
    assert_eq!(StepMode::try_from(0), Ok(StepMode::NoStep));
    assert_eq!(StepMode::try_from(1), Ok(StepMode::StepOut));
    assert_eq!(StepMode::try_from(2), Ok(StepMode::StepOver));
    assert_eq!(StepMode::try_from(3), Ok(StepMode::StepIn));
    assert_eq!(StepMode::try_from(4), Err(()));
    assert_eq!(StepMode::try_from(255), Err(()));
    assert_eq!(StepMode::default(), StepMode::NoStep);
    assert!(StepMode::NoStep < StepMode::StepOut);
    assert!(StepMode::StepOut < StepMode::StepOver);
    assert!(StepMode::StepOver < StepMode::StepIn);
}

#[test]
fn breakpoints_are_kept() {
    let mut b = Breakpoints::new();
    assert!(b.get(&key(1, 2, 3)).is_none());
    b.add(key(1, 2, 3));
    b.add(key(1, 2, 3));
    assert!(b.get(&key(1, 2, 3)).is_some());
    assert!(b.get(&key(1, 2, 4)).is_none());
    assert!(b.get(&key(2, 1, 3)).is_none());
    b.clear();
    assert!(b.get(&key(1, 2, 3)).is_none());
}

#[test]
fn breakpoints_of_one_function_are_dropped() {
    let mut b = Breakpoints::new();
    for line in [0, 1, 500, u16::MAX] {
        b.add(key(1, 2, line));
        b.add(key(1, 3, line));
        b.add(key(1, 1, line));
        b.add(key(2, 2, line));
    }
    b.unregister_by_fn(FunctionId { parent: 1, name: 2 });
    for line in [0, 1, 500, u16::MAX] {
        assert!(b.get(&key(1, 2, line)).is_none());
        assert!(b.get(&key(1, 3, line)).is_some());
        assert!(b.get(&key(1, 1, line)).is_some());
        assert!(b.get(&key(2, 2, line)).is_some());
    }
}

#[test]
fn controls_at_first() {
    let control = DebugControl::new();
    assert_eq!(control.get_step_mode(), StepMode::NoStep);
    assert_eq!(control.get_last_break_frame(), None);
    assert!(control.breakpoints().get(&key(1, 1, 1)).is_none());
    assert_eq!(control.functions().get_by_loc("a.reds", 1), None);
}

#[test]
fn controls_are_set_and_reset() {
    let mut control = DebugControl::new();
    let source = SourceFileInfo {
        index: 0,
        path: "a.reds".to_owned(),
    };
    let func = FunctionId { parent: 1, name: 2 };
    control.functions_mut().add(func, &source, None, 5);
    control.breakpoints_mut().add(key(1, 2, 6));
    control.set_step_mode(StepMode::StepIn);
    control.set_last_break_frame(0x1000);
    assert_eq!(control.get_step_mode(), StepMode::StepIn);
    assert_eq!(control.get_last_break_frame(), Some(0x1000));

    control.reset();
    assert_eq!(control.get_step_mode(), StepMode::NoStep);
    assert_eq!(control.get_last_break_frame(), None);
    assert!(control.breakpoints().get(&key(1, 2, 6)).is_none());
    assert_eq!(control.functions().get_by_loc("a.reds", 6), Some(func));
}

#[test]
fn null_frame_is_no_frame() {
    let mut control = DebugControl::new();
    control.set_last_break_frame(0x1000);
    control.set_last_break_frame(0);
    assert_eq!(control.get_last_break_frame(), None);
}

#[test]
fn step_modes_are_in_the_order_of_their_codes() {
    for a in 0..4u8 {
        for b in 0..4u8 {
            let (m, n) = (StepMode::try_from(a).unwrap(), StepMode::try_from(b).unwrap());
            assert_eq!(m < n, a < b);
            assert_eq!(m >= n, a >= b);
            assert_eq!(m == n, a == b);
            assert_eq!(m.cmp(&n), a.cmp(&b));
        }
    }
}
