//! Stops of the game, each with the means to let the stopped thread go on.
use crate::control::BreakpointKey;
use crate::frame::StackFramePtr;
use parking::{Parker, Unparker};
use vstd::prelude::*;

verus! {

/// `parking::Parker`, on which the stopped thread waits. Nothing is known of its inside.
#[verifier::external_type_specification]
#[verifier::external_body]
pub struct ExParker(parking::Parker);

/// `parking::Unparker`, which ends that wait. Nothing is known of its inside.
#[verifier::external_type_specification]
#[verifier::external_body]
pub struct ExUnparker(parking::Unparker);

/// `parking::pair`: a new parker and its unparker. Nothing is stated of the two values themselves;
/// that they come from one call, and so belong together, is spoken of as `from_one_pair`.
pub assume_specification[ parking::pair ]() -> (r: (Parker, Unparker))
;

/// `Unparker::unpark`: wakes the parker. The result says whether this call was the first to do
/// so, which rests on what other threads do; nothing is stated of it.
pub assume_specification[ parking::Unparker::unpark ](unparker: &Unparker) -> (r: bool)
;

/// Whether `parker` and `unparker` are what one call of `parking::pair` returns, so that the one
/// waits until the other wakes it.
pub open spec fn from_one_pair(parker: Parker, unparker: Unparker) -> bool {
    call_ensures(parking::pair, (), (parker, unparker))
}

/// What one call of `make` returns.
fn made<F: FnOnce() -> (Parker, Unparker)>(make: F) -> (r: (Parker, Unparker))
    requires
        call_requires(make, ()),
    ensures
        call_ensures(make, (), r),
{
    make()
}

/// Why the game stopped.
#[derive(Debug, Clone, Copy, PartialEq, Eq, Structural)]
pub enum EventCause {
    Breakpoint,
    Step,
}

/// A stop of the game.
#[derive(Debug)]
pub struct DebugEvent {
    key: BreakpointKey,
    cause: EventCause,
    frame: StackFramePtr,
    unparker: Unparker,
}

impl DebugEvent {
    /// The line of the stop.
    pub closed spec fn spec_key(&self) -> BreakpointKey {
        self.key
    }

    /// The cause of the stop.
    pub closed spec fn spec_cause(&self) -> EventCause {
        self.cause
    }

    /// The frame of the stop.
    pub closed spec fn spec_frame(&self) -> StackFramePtr {
        self.frame
    }

    /// What ends the wait of the stopped thread.
    pub closed spec fn spec_unparker(&self) -> Unparker {
        self.unparker
    }

    /// Whether this stop wakes a thread that waits on `parker`.
    pub open spec fn wakes(&self, parker: Parker) -> bool {
        from_one_pair(parker, self.spec_unparker())
    }

    /// A stop at `key`, and the parker on which the stopped thread waits until this stop wakes it.
    pub fn new(key: BreakpointKey, cause: EventCause, frame: StackFramePtr) -> (r: (Self, Parker))
        ensures
            r.0.spec_key() == key,
            r.0.spec_cause() == cause,
            r.0.spec_frame() == frame,
            r.0.wakes(r.1),
    {
        Self::with_pair(key, cause, frame, made(parking::pair))
    }

    /// A stop at `key` that keeps the unparker of `pair`, and the parker of `pair`.
    pub fn with_pair(
        key: BreakpointKey,
        cause: EventCause,
        frame: StackFramePtr,
        pair: (Parker, Unparker),
    ) -> (r: (Self, Parker))
        ensures
            r.0.spec_key() == key,
            r.0.spec_cause() == cause,
            r.0.spec_frame() == frame,
            r.0.spec_unparker() == pair.1,
            r.1 == pair.0,
    {
        let (parker, unparker) = pair;
        (Self { key, cause, frame, unparker }, parker)
    }

    /// The line of the stop.
    pub fn key(&self) -> (r: BreakpointKey)
        ensures
            r == self.spec_key(),
    {
        self.key
    }

    /// The cause of the stop.
    pub fn cause(&self) -> (r: EventCause)
        ensures
            r == self.spec_cause(),
    {
        self.cause
    }

    /// The frame of the stop.
    pub fn frame(&self) -> (r: StackFramePtr)
        ensures
            r == self.spec_frame(),
    {
        self.frame
    }

    /// Lets the stopped thread go on.
    pub fn unpark(&self) {
        self.unparker.unpark();
    }
}

} // verus!
