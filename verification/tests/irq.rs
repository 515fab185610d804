use menix::irq::{
    attach, program, raise, raise_outcome, IrqGuard, IrqHandler, IrqLine, IrqLineState, IrqLock, IrqMutex, Polarity, RaiseOutcome,
    Status, TriggerMode, IRQ_MODE_END_OF_INTERRUPT,
};
use std::cell::Cell;

struct Line {
    eois: Cell<usize>,
}

impl IrqLine for Line {
    fn reports_mode(&self, _trigger: TriggerMode, polarity: Polarity, mode: u8) -> bool {
        mode == if polarity == Polarity::High { IRQ_MODE_END_OF_INTERRUPT } else { 0 }
    }

    fn set_config(&self, _guard: &IrqGuard, _trigger: TriggerMode, polarity: Polarity) -> u8 {
        if polarity == Polarity::High { IRQ_MODE_END_OF_INTERRUPT } else { 0 }
    }

    fn mask(&self) {}

    fn unmask(&self) {}

    fn end_of_interrupt(&self) {
        self.eois.set(self.eois.get() + 1);
    }
}

struct Handler {
    answer: Status,
    calls: usize,
}

impl IrqHandler for Handler {
    fn outcome(&self) -> Status {
        self.answer
    }

    fn raised(&self) -> Self {
        Handler { answer: self.answer, calls: self.calls + 1 }
    }

    fn raise(&mut self) -> Status {
        self.calls += 1;
        self.answer
    }
}

#[test]
fn raise_outcome_claims_when_any_handler_handled() {
    assert_eq!(
        raise_outcome(&vec![Status::Ignored, Status::Handled], IRQ_MODE_END_OF_INTERRUPT),
        RaiseOutcome { claimed: true, end_of_interrupt: true }
    );
    assert_eq!(
        raise_outcome(&vec![Status::Ignored], 2),
        RaiseOutcome { claimed: false, end_of_interrupt: false }
    );
    assert_eq!(raise_outcome(&vec![], 0), RaiseOutcome { claimed: false, end_of_interrupt: false });
}

#[test]
fn raising_runs_every_handler_and_signals_the_end() {
    let line = Line { eois: Cell::new(0) };
    let mut state: IrqLineState<Handler> = IrqLineState::new();
    let mut irq = IrqLock::new();
    attach(&mut state, Handler { answer: Status::Ignored, calls: 0 });
    attach(&mut state, Handler { answer: Status::Handled, calls: 0 });
    program(&line, &mut state, &mut irq, Some((TriggerMode::Edge, Polarity::High)));
    assert_eq!(state.mode, IRQ_MODE_END_OF_INTERRUPT);
    let outcome = raise(&line, &mut state, &mut irq);
    assert_eq!(outcome, RaiseOutcome { claimed: true, end_of_interrupt: true });
    assert_eq!(line.eois.get(), 1);
    assert_eq!(state.handlers[0].calls, 1);
    assert_eq!(state.handlers[1].calls, 1);
    assert!(!state.is_busy);
    assert_eq!(irq.depth, 0);
    program(&line, &mut state, &mut irq, None);
    assert_eq!(state.mode, IRQ_MODE_END_OF_INTERRUPT);
    program(&line, &mut state, &mut irq, Some((TriggerMode::Level, Polarity::Low)));
    assert!(!raise(&line, &mut state, &mut irq).end_of_interrupt);
    assert_eq!(line.eois.get(), 1);
}

#[test]
fn nested_irq_locks_enable_interrupts_on_the_outermost_release() {
    let mut l = IrqLock::new();
    let (g1, disabled1) = l.lock();
    let (g2, disabled2) = l.lock();
    assert!(disabled1 && disabled2);
    assert_eq!(l.depth, 2);
    assert!(!l.release(g2));
    assert!(l.release(g1));
    assert_eq!(l.depth, 0);
}

#[test]
fn inside_an_interrupt_the_lock_does_nothing() {
    let mut l = IrqLock::new();
    assert!(!l.set_interrupted(true));
    let (g, disabled) = l.lock();
    assert!(!disabled);
    assert_eq!(l.depth, 0);
    assert!(!l.release(g));
    assert!(l.set_interrupted(false));
}

#[test]
fn irq_mutex_counts_depth() {
    let mut m = IrqMutex::new();
    let g1 = m.lock();
    let g2 = m.lock();
    assert!(!m.release(g2));
    assert!(m.release(g1));
    assert_eq!(m.depth, 0);
    // Releasing without a lock wraps around, as the counter does.
    let g3 = m.lock();
    m.release(g3);
    let _ = m.depth;
}
