//! What the debugger remembers of a stop: the frames, and the scopes that the client may ask for.
use crate::event::DebugEvent;
use crate::frame::StackFramePtr;
use crate::protocol::SetBreakpointsArguments;
use slab::Slab;
use vstd::prelude::*;

verus! {

/// Something whose variables can be listed. Values of the game are known by their addresses,
/// classes by the hashes of their names.
#[derive(Debug, Clone, Copy, PartialEq, Eq, Structural)]
pub enum Scope {
    /// The locals of a frame.
    Locals(StackFramePtr),
    /// The parameters of a frame.
    Params(StackFramePtr),
    /// The fields of an object, and its class.
    Object(usize, u64),
    /// The fields of a struct, and its class.
    Struct(usize, u64),
    /// The elements of an array, and its type.
    Array(usize, usize),
}

/// `slab::Slab`, which keeps the scopes by number.
#[verifier::external_type_specification]
#[verifier::external_body]
#[verifier::reject_recursive_types(T)]
pub struct ExSlab<T>(slab::Slab<T>);

/// The slots of a slab, from key 0 on; a vacant slot is `None`.
pub uninterp spec fn slab_slots(slab: Slab<Scope>) -> Seq<Option<Scope>>;

/// Whether every slot of a slab is taken.
pub open spec fn slab_is_full(slab: Slab<Scope>) -> bool {
    forall|i: int| 0 <= i < slab_slots(slab).len() ==> (#[trigger] slab_slots(slab)[i]) is Some
}

/// `Slab::new`: a slab without slots.
#[verifier::external_body]
fn slab_new() -> (r: Slab<Scope>)
    ensures
        slab_slots(r).len() == 0,
{
    Slab::new()
}

/// `Slab::insert`: takes a vacant slot, or adds one behind the last where none is vacant, and
/// returns its key. It panics where its storage would exceed `isize::MAX` bytes, which a slot
/// of at most 32 bytes and a storage that doubles at most keep far from the bound required here.
#[verifier::external_body]
fn slab_insert(slab: &mut Slab<Scope>, scope: Scope) -> (r: usize)
    requires
        slab_slots(*old(slab)).len() < isize::MAX / 128,
    ensures
        if slab_is_full(*old(slab)) {
            r == slab_slots(*old(slab)).len() && slab_slots(*final(slab)) == slab_slots(
                *old(slab),
            ).push(Some(scope))
        } else {
            r < slab_slots(*old(slab)).len() && slab_slots(*old(slab))[r as int] is None
                && slab_slots(*final(slab)) == slab_slots(*old(slab)).update(r as int, Some(scope))
        },
{
    slab.insert(scope)
}

/// `Slab::get`: what is in the slot with this key, if there is one and it is taken.
#[verifier::external_body]
fn slab_get(slab: &Slab<Scope>, key: usize) -> (r: Option<&Scope>)
    ensures
        r == (if key < slab_slots(*slab).len() && slab_slots(*slab)[key as int] is Some {
            Some(&slab_slots(*slab)[key as int]->0)
        } else {
            None
        }),
{
    slab.get(key)
}

/// `Slab::len`: the number of slots that are taken.
#[verifier::external_body]
fn slab_len(slab: &Slab<Scope>) -> (r: usize)
    ensures
        r == slab_slots(*slab).filter(|slot: Option<Scope>| slot is Some).len(),
{
    slab.len()
}

/// `Slab::clear`: drops all slots.
#[verifier::external_body]
fn slab_clear(slab: &mut Slab<Scope>)
    ensures
        slab_slots(*final(slab)).len() == 0,
{
    slab.clear()
}

/// Whether the functions of the game are known. Before that, requests for breakpoints wait.
#[derive(Debug)]
pub enum UninitializedState {
    Uninitialized(Vec<SetBreakpointsArguments>),
    Initialized,
}

impl Default for UninitializedState {
    fn default() -> (r: Self)
        ensures
            r matches UninitializedState::Uninitialized(pending) && pending@.len() == 0,
    {
        UninitializedState::Uninitialized(Vec::new())
    }
}

/// What the state of a debug session holds.
pub struct StateView {
    /// The scopes that were handed out since the last stop; the first has the number 1.
    pub scopes: Seq<Scope>,
    /// The frames of the last stop, from the innermost on.
    pub frames: Seq<StackFramePtr>,
    /// The stop that the game waits in.
    pub current: Option<DebugEvent>,
    /// The requests that wait, or `None` where requests no longer wait.
    pub pending: Option<Seq<SetBreakpointsArguments>>,
}

impl StateView {
    /// The scope with the number `id`; 0 never leads to one.
    pub open spec fn scope_at(self, id: int) -> Option<Scope> {
        if 1 <= id <= self.scopes.len() {
            Some(self.scopes[id - 1])
        } else {
            None
        }
    }

    /// The state once a number has been handed out for `scope`.
    pub open spec fn with_scope(self, scope: Scope) -> StateView {
        StateView { scopes: self.scopes.push(scope), ..self }
    }

    /// The state once numbers have been handed out for `scopes`, one after the other.
    pub open spec fn with_scopes(self, scopes: Seq<Scope>) -> StateView
        decreases scopes.len(),
    {
        if scopes.len() == 0 {
            self
        } else {
            self.with_scopes(scopes.drop_last()).with_scope(scopes.last())
        }
    }

    /// While the game waits in a stop, the first frame is that of the stop.
    pub open spec fn first_frame_stopped(self) -> bool {
        match self.current {
            Some(ev) => self.frames.len() > 0 && self.frames[0] == ev.spec_frame(),
            None => true,
        }
    }

    /// The state once the waiting of requests has ended. Where they did not wait, they wait again.
    pub open spec fn readied(self) -> StateView {
        StateView {
            pending: match self.pending {
                Some(_) => None,
                None => Some(Seq::<SetBreakpointsArguments>::empty()),
            },
            ..self
        }
    }

    /// The state once a request has come in for breakpoints.
    pub open spec fn queued(self, args: SetBreakpointsArguments) -> StateView {
        StateView {
            pending: match self.pending {
                Some(pending) => Some(pending.push(args)),
                None => None,
            },
            ..self
        }
    }

    /// The state at the stop `ev` of a frame that `parents` called.
    pub open spec fn stopped(self, ev: DebugEvent, parents: Seq<usize>) -> StateView {
        StateView {
            scopes: Seq::<Scope>::empty(),
            frames: seq![ev.spec_frame()] + parents.map_values(
                |addr: usize| StackFramePtr::PostCall(addr),
            ),
            current: Some(ev),
            pending: self.pending,
        }
    }
}

/// The largest number of scopes that can be handed out within one stop.
pub open spec fn max_scopes() -> int {
    isize::MAX / 128
}

/// The state of a debug session.
#[derive(Debug)]
pub struct DebugState {
    scopes: Slab<Scope>,
    frames: Vec<StackFramePtr>,
    current: Option<DebugEvent>,
    uninitialized: UninitializedState,
}

impl View for DebugState {
    type V = StateView;

    closed spec fn view(&self) -> StateView {
        StateView {
            scopes: Seq::new(slab_slots(self.scopes).len(), |i: int| slab_slots(self.scopes)[i]->0),
            frames: self.frames@,
            current: self.current,
            pending: match self.uninitialized {
                UninitializedState::Uninitialized(pending) => Some(pending@),
                UninitializedState::Initialized => None,
            },
        }
    }
}

impl Default for DebugState {
    fn default() -> (r: Self)
        ensures
            r.wf(),
            r@.scopes == Seq::<Scope>::empty(),
            r@.frames == Seq::<StackFramePtr>::empty(),
            r@.current is None,
            r@.pending == Some(Seq::<SetBreakpointsArguments>::empty()),
    {
        let uninitialized = UninitializedState::default();
        let r = DebugState { scopes: slab_new(), frames: Vec::new(), current: None, uninitialized };
        assert(r@.pending->0 =~= Seq::<SetBreakpointsArguments>::empty());
        r
    }
}

impl DebugState {
    /// No scope is ever dropped alone, and there are not too many of them. While the game waits
    /// in a stop, the first frame is that of the stop.
    pub closed spec fn wf(&self) -> bool {
        &&& slab_is_full(self.scopes)
        &&& self@.scopes.len() <= max_scopes()
        &&& self@.first_frame_stopped()
    }

    /// The scope with the number `id`. Numbers start at 1: 0 means to the client that there is
    /// nothing to list.
    pub fn scope(&self, id: i64) -> (r: Option<&Scope>)
        requires
            self.wf(),
        ensures
            r == (match self@.scope_at(id as int) {
                Some(scope) => Some(&scope),
                None => None,
            }),
    {
        if id < 1 || (id - 1) as u64 > usize::MAX as u64 {
            return None;
        }
        slab_get(&self.scopes, (id - 1) as usize)
    }

    /// The frames of the last stop.
    pub fn frames(&self) -> (r: &Vec<StackFramePtr>)
        ensures
            r@ == self@.frames,
    {
        &self.frames
    }

    /// Whether `n` more scopes can be handed out.
    pub fn has_room(&self, n: usize) -> (r: bool)
        requires
            self.wf(),
        ensures
            r == (self@.scopes.len() + n <= max_scopes()),
    {
        proof {
            let slots = slab_slots(self.scopes);
            lemma_all_taken(slots);
        }
        let len: usize = slab_len(&self.scopes);
        let most: usize = (isize::MAX / 128) as usize;
        len <= most && n <= most - len
    }

    /// Hands out a number for `scope`.
    pub fn add_scope(&mut self, scope: Scope) -> (r: i64)
        requires
            old(self).wf(),
            old(self)@.scopes.len() < max_scopes(),
        ensures
            final(self).wf(),
            r == old(self)@.scopes.len() + 1,
            final(self)@ == old(self)@.with_scope(scope),
            old(self)@.scope_at(r as int) is None,
            final(self)@.scope_at(r as int) == Some(scope),
            forall|j: int|
                j != r ==> #[trigger] final(self)@.scope_at(j) == old(self)@.scope_at(j),
    {
        let ghost before = self@;
        let key: usize = slab_insert(&mut self.scopes, scope);
        assert(self@.scopes =~= before.scopes.push(scope));
        key as i64 + 1
    }

    /// The stop that the game waits in, which is then forgotten.
    pub fn take_event(&mut self) -> (r: Option<DebugEvent>)
        ensures
            old(self).wf() ==> final(self).wf(),
            r == old(self)@.current,
            final(self)@ == (StateView { current: None, ..old(self)@ }),
    {
        self.current.take()
    }

    /// Takes up the stop `ev`; `parents` are the frames that called its frame, innermost first.
    /// The scopes of the last stop are gone.
    pub fn reset(&mut self, ev: DebugEvent, parents: &Vec<usize>)
        ensures
            final(self).wf(),
            final(self)@ == old(self)@.stopped(ev, parents@),
    {
        let frame = ev.frame();
        slab_clear(&mut self.scopes);
        let mut frames: Vec<StackFramePtr> = Vec::new();
        frames.push(frame);
        let mut i: usize = 0;
        while i < parents.len()
            invariant
                i <= parents@.len(),
                frames@ == seq![frame] + parents@.take(i as int).map_values(
                    |addr: usize| StackFramePtr::PostCall(addr),
                ),
            decreases parents@.len() - i,
        {
            frames.push(StackFramePtr::PostCall(parents[i]));
            i = i + 1;
            assert(frames@ =~= seq![frame] + parents@.take(i as int).map_values(
                |addr: usize| StackFramePtr::PostCall(addr),
            ));
        }
        assert(parents@.take(i as int) =~= parents@);
        self.frames = frames;
        self.current = Some(ev);
        assert(self@.scopes =~= Seq::<Scope>::empty());
    }

    /// Ends the waiting of requests, and returns those that waited. Called where requests no
    /// longer wait, it makes them wait again.
    pub fn mark_ready(&mut self) -> (r: Vec<SetBreakpointsArguments>)
        ensures
            old(self).wf() ==> final(self).wf(),
            r@ == (match old(self)@.pending {
                Some(pending) => pending,
                None => Seq::<SetBreakpointsArguments>::empty(),
            }),
            final(self)@ == old(self)@.readied(),
    {
        let mut taken = UninitializedState::default();
        std::mem::swap(&mut taken, &mut self.uninitialized);
        match taken {
            UninitializedState::Uninitialized(pending) => {
                self.uninitialized = UninitializedState::Initialized;
                pending
            },
            UninitializedState::Initialized => {
                assert(self@.pending->0 =~= Seq::<SetBreakpointsArguments>::empty());
                Vec::new()
            },
        }
    }

    /// Makes the request `args` wait, or hands it back where requests no longer wait.
    pub fn enqueue(&mut self, args: SetBreakpointsArguments) -> (r: Option<SetBreakpointsArguments>)
        ensures
            old(self).wf() ==> final(self).wf(),
            r == (match old(self)@.pending {
                Some(_) => None,
                None => Some(args),
            }),
            final(self)@ == old(self)@.queued(args),
    {
        match &mut self.uninitialized {
            UninitializedState::Uninitialized(queue) => {
                queue.push(args);
                None
            },
            UninitializedState::Initialized => Some(args),
        }
    }
}

proof fn lemma_all_taken(slots: Seq<Option<Scope>>)
    requires
        forall|i: int| 0 <= i < slots.len() ==> (#[trigger] slots[i]) is Some,
    ensures
        slots.filter(|slot: Option<Scope>| slot is Some).len() == slots.len(),
    decreases slots.len(),
{
    reveal(Seq::filter);
    if slots.len() > 0 {
        lemma_all_taken(slots.drop_last());
    }
}

} // verus!
