//! What the debugger is set to do: breakpoints, stepping, and the functions it knows.
use crate::mapping::{FunctionId, FunctionMapping};
use std::collections::BTreeMap;
use vstd::prelude::*;

verus! {

/// How execution goes on after a stop.
#[derive(Debug, Clone, Copy, PartialEq, Eq, Ord, Structural)]
pub enum StepMode {
    NoStep,
    StepOut,
    StepOver,
    StepIn,
}

/// The mode with a given code.
pub open spec fn step_mode_of(code: u8) -> Option<StepMode> {
    if code == 0 {
        Some(StepMode::NoStep)
    } else if code == 1 {
        Some(StepMode::StepOut)
    } else if code == 2 {
        Some(StepMode::StepOver)
    } else if code == 3 {
        Some(StepMode::StepIn)
    } else {
        None
    }
}

impl TryFrom<u8> for StepMode {
    type Error = ();

    fn try_from(value: u8) -> (r: Result<Self, ()>) {
        match value {
            0 => Ok(StepMode::NoStep),
            1 => Ok(StepMode::StepOut),
            2 => Ok(StepMode::StepOver),
            3 => Ok(StepMode::StepIn),
            _ => Err(()),
        }
    }
}

impl vstd::std_specs::convert::TryFromSpecImpl<u8> for StepMode {
    open spec fn obeys_try_from_spec() -> bool {
        true
    }

    open spec fn try_from_spec(v: u8) -> Result<Self, ()> {
        match step_mode_of(v) {
            Some(mode) => Ok(mode),
            None => Err(()),
        }
    }
}

impl Default for StepMode {
    fn default() -> (r: Self)
        ensures
            r == StepMode::NoStep,
    {
        StepMode::NoStep
    }
}

impl StepMode {
    /// The code of a mode. Modes that stop in more places have larger codes.
    pub open spec fn spec_code(self) -> u8 {
        match self {
            StepMode::NoStep => 0,
            StepMode::StepOut => 1,
            StepMode::StepOver => 2,
            StepMode::StepIn => 3,
        }
    }

    /// The code of a mode.
    pub fn code(self) -> (r: u8)
        ensures
            r == self.spec_code(),
    {
        match self {
            StepMode::NoStep => 0,
            StepMode::StepOut => 1,
            StepMode::StepOver => 2,
            StepMode::StepIn => 3,
        }
    }
}

impl PartialOrd for StepMode {
    fn partial_cmp(&self, other: &Self) -> (r: Option<core::cmp::Ordering>) {
        if self.code() < other.code() {
            Some(core::cmp::Ordering::Less)
        } else if self.code() == other.code() {
            Some(core::cmp::Ordering::Equal)
        } else {
            Some(core::cmp::Ordering::Greater)
        }
    }
}

impl vstd::std_specs::cmp::PartialOrdSpecImpl for StepMode {
    open spec fn obeys_partial_cmp_spec() -> bool {
        true
    }

    open spec fn partial_cmp_spec(&self, other: &Self) -> Option<core::cmp::Ordering> {
        if self.spec_code() < other.spec_code() {
            Some(core::cmp::Ordering::Less)
        } else if self.spec_code() == other.spec_code() {
            Some(core::cmp::Ordering::Equal)
        } else {
            Some(core::cmp::Ordering::Greater)
        }
    }
}

/// Whether `a` is less than `b`, as `<` decides it.
pub open spec fn mode_less(a: StepMode, b: StepMode) -> bool {
    vstd::std_specs::cmp::PartialOrdSpec::partial_cmp_spec(&a, &b) == Some(
        core::cmp::Ordering::Less,
    )
}

/// Modes are in the order of their codes: first none, then out, over and in.
pub proof fn law_step_mode_order(a: StepMode, b: StepMode)
    ensures
        mode_less(a, b) <==> a.spec_code() < b.spec_code(),
        mode_less(a, b) || mode_less(b, a) || a == b,
        mode_less(StepMode::NoStep, StepMode::StepOut),
        mode_less(StepMode::StepOut, StepMode::StepOver),
        mode_less(StepMode::StepOver, StepMode::StepIn),
{
}

/// The code of a mode gives the mode back.
pub proof fn law_step_mode_code(mode: StepMode)
    ensures
        step_mode_of(mode.spec_code()) == Some(mode),
{
}

/// No two codes give the same mode.
pub proof fn law_step_mode_of_injective(a: u8, b: u8)
    requires
        step_mode_of(a) is Some,
        step_mode_of(a) == step_mode_of(b),
    ensures
        a == b,
{
}

/// A line of a function.
#[derive(Debug, Clone, Copy, PartialEq, Eq, PartialOrd, Ord, Structural)]
pub struct BreakpointKey {
    pub func: FunctionId,
    pub line: u16,
}

impl BreakpointKey {
    pub fn new(func: FunctionId, line: u16) -> (r: Self)
        ensures
            r == (BreakpointKey { func, line }),
    {
        Self { func, line }
    }

    spec fn tuple(self) -> ((u64, u64), u16) {
        ((self.func.parent, self.func.name), self.line)
    }
}

/// What is known of a breakpoint beyond its place: nothing.
#[derive(Debug, Clone, Copy, PartialEq, Eq, Structural)]
pub struct Breakpoint {}

/// The breakpoints that are set.
#[derive(Debug)]
pub struct Breakpoints {
    breakpoints: BTreeMap<((u64, u64), u16), Breakpoint>,
}

impl View for Breakpoints {
    type V = Set<BreakpointKey>;

    closed spec fn view(&self) -> Set<BreakpointKey> {
        Set::new(|k: BreakpointKey| self.breakpoints@.contains_key(k.tuple()))
    }
}

impl Breakpoints {
    /// No breakpoints.
    pub fn new() -> (r: Self)
        ensures
            r@ == Set::<BreakpointKey>::empty(),
    {
        let r = Breakpoints { breakpoints: BTreeMap::new() };
        assert(r@ =~= Set::<BreakpointKey>::empty());
        r
    }

    /// The breakpoint at `key`.
    pub fn get(&self, key: &BreakpointKey) -> (r: Option<Breakpoint>)
        ensures
            r == (if self@.contains(*key) {
                Some(Breakpoint {  })
            } else {
                None
            }),
    {
        match self.breakpoints.get(&((key.func.parent, key.func.name), key.line)) {
            Some(breakpoint) => Some(*breakpoint),
            None => None,
        }
    }

    /// Sets a breakpoint at `key`.
    pub fn add(&mut self, key: BreakpointKey)
        ensures
            final(self)@ == old(self)@.insert(key),
    {
        let ghost before = self@;
        self.breakpoints.insert(((key.func.parent, key.func.name), key.line), Breakpoint {  });
        proof {
            assert forall|k: BreakpointKey| self@.contains(k) == before.insert(key).contains(k) by {
                assert(k.tuple() == key.tuple() ==> k == key);
            }
            assert(self@ =~= before.insert(key));
        }
    }

    /// Drops all breakpoints in the function `func`.
    pub fn unregister_by_fn(&mut self, func: FunctionId)
        ensures
            final(self)@ == old(self)@.filter(|k: BreakpointKey| k.func != func),
    {
        let ghost before = *self;
        let mut keys: Vec<((u64, u64), u16)> = Vec::new();
        for key in it: self.breakpoints.keys()
            invariant
                forall|i: int|
                    0 <= i < it.index() ==> ((*#[trigger] it.seq()[i]).0 == (func.parent, func.name)
                        ==> keys@.contains(*it.seq()[i])),
                forall|i: int|
                    0 <= i < keys@.len() ==> (#[trigger] keys@[i]).0 == (func.parent, func.name),
        {
            if key.0.0 == func.parent && key.0.1 == func.name {
                let ghost old_keys = keys@;
                keys.push(*key);
                assert(keys@.last() == *key);
                assert forall|k: ((u64, u64), u16)| old_keys.contains(k) implies keys@.contains(k) by {
                    let i = choose|i: int| 0 <= i < old_keys.len() && old_keys[i] == k;
                    assert(keys@[i] == k);
                }
            }
        }
        let mut i: usize = 0;
        while i < keys.len()
            invariant
                i <= keys@.len(),
                forall|k: ((u64, u64), u16)|
                    #![trigger self.breakpoints@.contains_key(k)]
                    self.breakpoints@.contains_key(k) <==> before.breakpoints@.contains_key(k)
                        && !keys@.take(i as int).contains(k),
            decreases keys@.len() - i,
        {
            self.breakpoints.remove(&keys[i]);
            proof {
                let done = keys@.take(i as int);
                assert(keys@.take(i + 1) =~= done.push(keys@[i as int]));
                assert forall|k: ((u64, u64), u16)|
                    keys@.take(i + 1).contains(k) == (done.contains(k) || k == keys@[i as int]) by {
                    vstd::seq_lib::lemma_seq_contains_after_push(done, keys@[i as int], k);
                }
            }
            i = i + 1;
        }
        assert(keys@.take(i as int) =~= keys@);
        assert(self@ =~= before@.filter(|k: BreakpointKey| k.func != func));
    }

    /// Drops all breakpoints.
    pub fn clear(&mut self)
        ensures
            final(self)@ == Set::<BreakpointKey>::empty(),
    {
        self.breakpoints.clear();
        assert(self@ =~= Set::<BreakpointKey>::empty());
    }
}

/// What the controls are set to.
pub struct ControlView {
    pub functions: crate::mapping::MappingView,
    pub breakpoints: Set<BreakpointKey>,
    pub last_break_frame: Option<usize>,
    pub step_mode: StepMode,
}

/// The controls of the debugger.
#[derive(Debug)]
pub struct DebugControl {
    functions: FunctionMapping,
    breakpoints: Breakpoints,
    last_break_frame: usize,
    step_mode: u8,
}

impl View for DebugControl {
    type V = ControlView;

    closed spec fn view(&self) -> ControlView {
        ControlView {
            functions: self.functions@,
            breakpoints: self.breakpoints@,
            last_break_frame: if self.last_break_frame == 0 {
                None
            } else {
                Some(self.last_break_frame)
            },
            step_mode: match step_mode_of(self.step_mode) {
                Some(mode) => mode,
                None => StepMode::NoStep,
            },
        }
    }
}

impl DebugControl {
    pub closed spec fn wf(&self) -> bool {
        self.functions.wf()
    }

    /// Controls with nothing set.
    pub fn new() -> (r: Self)
        ensures
            r.wf(),
            r@.functions.functions == Map::<crate::source::Place, FunctionId>::empty(),
            r@.functions.sources == Map::<FunctionId, crate::source::Place>::empty(),
            r@.functions.paths == Map::<u32, Seq<char>>::empty(),
            r@.breakpoints == Set::<BreakpointKey>::empty(),
            r@.last_break_frame is None,
            r@.step_mode == StepMode::NoStep,
    {
        Self {
            functions: FunctionMapping::new(),
            breakpoints: Breakpoints::new(),
            last_break_frame: 0,
            step_mode: StepMode::NoStep.code(),
        }
    }

    /// The functions that are known.
    pub fn functions(&self) -> (r: &FunctionMapping)
        ensures
            r@ == self@.functions,
            self.wf() ==> r.wf(),
    {
        &self.functions
    }

    /// The functions that are known, to change.
    pub fn functions_mut(&mut self) -> (r: &mut FunctionMapping)
        ensures
            r@ == old(self)@.functions,
            old(self).wf() ==> r.wf(),
            final(r).wf() ==> final(self).wf(),
            final(self)@ == (ControlView { functions: final(r)@, ..old(self)@ }),
    {
        &mut self.functions
    }

    /// The breakpoints that are set.
    pub fn breakpoints(&self) -> (r: &Breakpoints)
        ensures
            r@ == self@.breakpoints,
    {
        &self.breakpoints
    }

    /// The breakpoints that are set, to change.
    pub fn breakpoints_mut(&mut self) -> (r: &mut Breakpoints)
        ensures
            r@ == old(self)@.breakpoints,
            old(self).wf() ==> final(self).wf(),
            final(self)@ == (ControlView { breakpoints: final(r)@, ..old(self)@ }),
    {
        &mut self.breakpoints
    }

    /// How execution goes on.
    pub fn get_step_mode(&self) -> (r: StepMode)
        ensures
            r == self@.step_mode,
    {
        match StepMode::try_from(self.step_mode) {
            Ok(mode) => mode,
            Err(_) => StepMode::default(),
        }
    }

    /// Sets how execution goes on.
    pub fn set_step_mode(&mut self, mode: StepMode)
        ensures
            old(self).wf() ==> final(self).wf(),
            final(self)@ == (ControlView { step_mode: mode, ..old(self)@ }),
    {
        self.step_mode = mode.code();
    }

    /// The address of the frame of the last stop.
    pub fn get_last_break_frame(&self) -> (r: Option<usize>)
        ensures
            r == self@.last_break_frame,
    {
        if self.last_break_frame == 0 {
            None
        } else {
            Some(self.last_break_frame)
        }
    }

    /// Sets the address of the frame of the last stop; 0 stands for none.
    pub fn set_last_break_frame(&mut self, frame: usize)
        ensures
            old(self).wf() ==> final(self).wf(),
            final(self)@ == (ControlView {
                last_break_frame: if frame == 0 {
                    None
                } else {
                    Some(frame)
                },
                ..old(self)@
            }),
    {
        self.last_break_frame = frame;
    }

    /// Forgets the stepping and all breakpoints, but none of the functions.
    pub fn reset(&mut self)
        ensures
            old(self).wf() ==> final(self).wf(),
            final(self)@ == (ControlView {
                functions: old(self)@.functions,
                breakpoints: Set::<BreakpointKey>::empty(),
                last_break_frame: None,
                step_mode: StepMode::NoStep,
            }),
    {
        self.set_step_mode(StepMode::NoStep);
        self.last_break_frame = 0;
        self.breakpoints_mut().clear();
    }
}

} // verus!
