//! Interrupt lines and the per-CPU interrupt lock.
use vstd::prelude::*;

verus! {

/// The outcome of one interrupt handler.
#[derive(PartialEq, Eq, Structural, Clone, Copy, Debug)]
pub enum Status {
    /// Interrupt was not handled (NACK).
    Ignored,
    /// Interrupt was handled (ACK).
    Handled,
}

#[derive(PartialEq, Eq, Structural, Clone, Copy, Debug)]
/// The polarity of an interrupt line.
pub enum Polarity {
    Low,
    High,
}

#[derive(PartialEq, Eq, Structural, Clone, Copy, Debug)]
/// How an interrupt line triggers.
pub enum TriggerMode {
    Edge,
    Level,
}

/// Interrupt mode bit: an end of interrupt is signalled to the controller.
pub const IRQ_MODE_END_OF_INTERRUPT: u8 = 1;
/// Interrupt mode bit: the interrupt can be masked.
pub const IRQ_MODE_MASKABLE: u8 = 2;

/// The configuration of an interrupt line.
pub struct IrqConfig {}

/// A handler attached to an interrupt line.
pub trait IrqHandler: Sized {
    /// What the handler answers when raised now.
    spec fn outcome(&self) -> Status;

    /// The handler after it has been raised.
    spec fn raised(&self) -> Self;

    /// Handles an interrupt when it happens.
    fn raise(&mut self) -> (r: Status)
        ensures
            r == old(self).outcome(),
            *final(self) == old(self).raised(),
    ;
}

/// The state every interrupt line keeps: whether it is being handled, its
/// handlers and its mode bits.
pub struct IrqLineState<H> {
    pub is_busy: bool,
    pub handlers: Vec<H>,
    pub mode: u8,
}

impl<H> IrqLineState<H> {
    pub fn new() -> (r: Self)
        ensures
            !r.is_busy,
            r.handlers@.len() == 0,
            r.mode == 0,
    {
        IrqLineState { is_busy: false, handlers: Vec::new(), mode: 0 }
    }
}

/// An interrupt line of an interrupt controller.
pub trait IrqLine {
    /// The modes the line can report once configured with `trigger` and
    /// `polarity`.
    spec fn reports_mode(&self, trigger: TriggerMode, polarity: Polarity, mode: u8) -> bool;

    /// Changes the current configuration and returns the resulting mode.
    /// It is called with interrupts locked, which `guard` shows.
    fn set_config(&self, guard: &IrqGuard, trigger: TriggerMode, polarity: Polarity) -> (r: u8)
        ensures
            self.reports_mode(trigger, polarity, r),
    ;

    /// Masks this line.
    fn mask(&self);

    /// Unmasks this line.
    fn unmask(&self);

    /// Called to signal the end of an interrupt.
    fn end_of_interrupt(&self);
}

/// An interrupt line that is signalled by a message.
pub trait MsiLine: IrqLine {
    fn msg_addr(&self) -> usize;

    fn msg_data(&self) -> u32;
}

/// A pin that signals interrupts by messages.
pub trait MsiPin {
    fn get_msg_addr() -> usize;

    fn get_msg_data() -> u32;
}

/// What raising an interrupt amounted to.
#[derive(Clone, Copy, Debug, PartialEq, Eq, Structural)]
pub struct RaiseOutcome {
    /// Some handler handled it; otherwise it was spurious.
    pub claimed: bool,
    /// An end of interrupt was signalled.
    pub end_of_interrupt: bool,
}

pub open spec fn any_handled(statuses: Seq<Status>) -> bool {
    exists|i: int| 0 <= i < statuses.len() && statuses[i] == Status::Handled
}

/// The outcome for the handlers' results and the line's mode.
pub fn raise_outcome(statuses: &Vec<Status>, mode: u8) -> (r: RaiseOutcome)
    ensures
        r.claimed == any_handled(statuses@),
        r.end_of_interrupt == (mode & IRQ_MODE_END_OF_INTERRUPT != 0),
{
    let mut claimed = false;
    let mut i: usize = 0;
    while i < statuses.len()
        invariant
            i <= statuses@.len(),
            claimed == exists|k: int| 0 <= k < i && statuses@[k] == Status::Handled,
        decreases statuses.len() - i,
    {
        match statuses[i] {
            Status::Ignored => {},
            Status::Handled => {
                claimed = true;
            },
        }
        i = i + 1;
    }
    RaiseOutcome { claimed, end_of_interrupt: mode & IRQ_MODE_END_OF_INTERRUPT != 0 }
}

/// Applies a new configuration, if one is given, and keeps the mode the
/// controller reports. The interrupt lock `irq` is held while the
/// controller is programmed, and is as before afterwards.
pub fn program<L: IrqLine, H>(
    line: &L,
    state: &mut IrqLineState<H>,
    irq: &mut IrqLock,
    cfg: Option<(TriggerMode, Polarity)>,
)
    ensures
        cfg.is_none() ==> final(state).mode == old(state).mode,
        cfg matches Some((t, p)) ==> line.reports_mode(t, p, final(state).mode),
        final(state).handlers@ == old(state).handlers@,
        final(state).is_busy == old(state).is_busy,
        *final(irq) == *old(irq),
{
    let (guard, _) = irq.lock();
    if let Some((trigger, polarity)) = cfg {
        state.mode = line.set_config(&guard, trigger, polarity);
    }
    irq.release(guard);
}

/// The handlers' answers, in order.
pub open spec fn outcomes<H: IrqHandler>(handlers: Seq<H>) -> Seq<Status> {
    handlers.map_values(|h: H| h.outcome())
}

/// The handlers after each has been raised once.
pub open spec fn all_raised<H: IrqHandler>(handlers: Seq<H>) -> Seq<H> {
    handlers.map_values(|h: H| h.raised())
}

/// Raises an interrupt on a line, with the interrupt lock `irq` held:
/// every handler is raised once, in the order they were attached; the
/// interrupt is claimed when some handler handled it; the end of the
/// interrupt is signalled where the mode asks for it.
pub fn raise<L: IrqLine, H: IrqHandler>(line: &L, state: &mut IrqLineState<H>, irq: &mut IrqLock) -> (r: RaiseOutcome)
    ensures
        r.claimed == any_handled(outcomes(old(state).handlers@)),
        r.end_of_interrupt == (old(state).mode & IRQ_MODE_END_OF_INTERRUPT != 0),
        final(state).handlers@ == all_raised(old(state).handlers@),
        final(state).mode == old(state).mode,
        !final(state).is_busy,
        *final(irq) == *old(irq),
{
    let (guard, _) = irq.lock();
    state.is_busy = true;
    let mode = state.mode;
    let mut statuses: Vec<Status> = Vec::new();
    let mut i: usize = 0;
    let ghost hs = old(state).handlers@;
    while i < state.handlers.len()
        invariant
            i <= state.handlers@.len(),
            state.handlers@.len() == hs.len(),
            hs == old(state).handlers@,
            state.mode == mode,
            mode == old(state).mode,
            statuses@ == outcomes(hs).take(i as int),
            forall|k: int| 0 <= k < i ==> #[trigger] state.handlers@[k] == hs[k].raised(),
            forall|k: int| i <= k < hs.len() ==> #[trigger] state.handlers@[k] == hs[k],
        decreases state.handlers.len() - i,
    {
        let ghost before = state.handlers@;
        let s = state.handlers[i].raise();
        proof {
            assert(outcomes(hs).take(i + 1) =~= outcomes(hs).take(i as int).push(s));
        }
        statuses.push(s);
        i = i + 1;
    }
    proof {
        assert(outcomes(hs).take(hs.len() as int) =~= outcomes(hs));
        assert(state.handlers@ =~= all_raised(hs));
    }
    let outcome = raise_outcome(&statuses, mode);
    if outcome.end_of_interrupt {
        line.end_of_interrupt();
    }
    state.is_busy = false;
    irq.release(guard);
    outcome
}

/// Attaches a new handler to a line.
pub fn attach<H>(state: &mut IrqLineState<H>, handler: H)
    ensures
        final(state).handlers@ == old(state).handlers@.push(handler),
        final(state).mode == old(state).mode,
        final(state).is_busy == old(state).is_busy,
{
    state.handlers.push(handler);
}

/// The per-CPU interrupt lock: a nesting depth, and whether the CPU is
/// handling an interrupt (in which case locking does nothing).
pub struct IrqLock {
    pub depth: usize,
    pub in_interrupt: bool,
}

/// Held while interrupts are locked; given back to release the lock.
pub struct IrqGuard {
    held: (),
}

/// The depth after locking: counted only outside an interrupt, wrapping.
pub open spec fn depth_after_lock(depth: usize, in_interrupt: bool) -> usize {
    if in_interrupt {
        depth
    } else if depth == usize::MAX {
        0
    } else {
        (depth + 1) as usize
    }
}

/// The depth after releasing: counted only outside an interrupt, wrapping.
pub open spec fn depth_after_release(depth: usize, in_interrupt: bool) -> usize {
    if in_interrupt {
        depth
    } else if depth == 0 {
        usize::MAX
    } else {
        (depth - 1) as usize
    }
}

/// Whether releasing enables interrupts again.
pub open spec fn release_enables(depth: usize, in_interrupt: bool) -> bool {
    !in_interrupt && depth == 1
}

impl IrqLock {
    pub fn new() -> (r: Self)
        ensures
            r.depth == 0,
            !r.in_interrupt,
    {
        IrqLock { depth: 0, in_interrupt: false }
    }

    /// Locks: outside an interrupt, interrupts get disabled (the returned
    /// flag says so) and the depth grows by one.
    pub fn lock(&mut self) -> (r: (IrqGuard, bool))
        ensures
            r.1 == !old(self).in_interrupt,
            final(self).in_interrupt == old(self).in_interrupt,
            final(self).depth == depth_after_lock(old(self).depth, old(self).in_interrupt),
    {
        let disable = !self.in_interrupt;
        if disable {
            self.depth = self.depth.wrapping_add(1);
        }
        (IrqGuard { held: () }, disable)
    }

    /// Releases a guard: outside an interrupt, the depth shrinks by one,
    /// and interrupts are enabled again (the returned flag says so) when
    /// it reaches zero.
    pub fn release(&mut self, guard: IrqGuard) -> (r: bool)
        ensures
            r == release_enables(old(self).depth, old(self).in_interrupt),
            final(self).in_interrupt == old(self).in_interrupt,
            final(self).depth == depth_after_release(old(self).depth, old(self).in_interrupt),
    {
        if !self.in_interrupt {
            let old_depth = self.depth;
            self.depth = self.depth.wrapping_sub(1);
            old_depth == 1
        } else {
            false
        }
    }

    /// Sets whether the CPU is handling an interrupt and gives the former
    /// value.
    pub fn set_interrupted(&mut self, value: bool) -> (r: bool)
        ensures
            r == old(self).in_interrupt,
            final(self).in_interrupt == value,
            final(self).depth == old(self).depth,
    {
        let old = self.in_interrupt;
        self.in_interrupt = value;
        old
    }
}

/// A per-CPU lock that always disables interrupts and counts its depth.
pub struct IrqMutex {
    pub depth: usize,
}

impl IrqMutex {
    pub fn new() -> (r: Self)
        ensures
            r.depth == 0,
    {
        IrqMutex { depth: 0 }
    }

    /// Disables interrupts and grows the depth by one.
    pub fn lock(&mut self) -> (r: IrqGuard)
        ensures
            final(self).depth == depth_after_lock(old(self).depth, false),
    {
        self.depth = self.depth.wrapping_add(1);
        IrqGuard { held: () }
    }

    /// Shrinks the depth by one; interrupts are enabled again (the returned
    /// flag says so) when it reaches zero.
    pub fn release(&mut self, guard: IrqGuard) -> (r: bool)
        ensures
            r == (old(self).depth == 1),
            final(self).depth == depth_after_release(old(self).depth, false),
    {
        let old_depth = self.depth;
        self.depth = self.depth.wrapping_sub(1);
        old_depth == 1
    }
}

/// Locking and releasing again leaves the lock as it was, and interrupts
/// come back on exactly when no other guard was held outside an interrupt.
pub proof fn lemma_lock_release(depth: usize, in_interrupt: bool)
    requires
        depth < usize::MAX,
    ensures
        depth_after_release(depth_after_lock(depth, in_interrupt), in_interrupt) == depth,
        release_enables(depth_after_lock(depth, in_interrupt), in_interrupt) == (!in_interrupt && depth == 0),
{
}

} // verus!
