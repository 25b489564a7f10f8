//! The shutdown handshake: a single-slot signal from the stop handler to
//! the serve loop, and the serve loop's admission discipline while it
//! drains in-flight operations.

use vstd::prelude::*;

verus! {

/// The single-use signal path from the stop handler to the serve loop.
pub struct ShutdownCoordinator {
    /// The stop handler has sent the signal.
    pub signaled: bool,
    /// The serve loop has observed it.
    pub observed: bool,
}

impl ShutdownCoordinator {
    /// A fresh coordinator: nothing signaled, nothing observed.
    pub fn new() -> (c: ShutdownCoordinator)
        ensures
            !c.signaled,
            !c.observed,
    {
        ShutdownCoordinator { signaled: false, observed: false }
    }

    /// Sends the stop signal; sending again changes nothing.
    pub fn signal(&mut self)
        ensures
            final(self).signaled,
            final(self).observed == old(self).observed,
    {
        self.signaled = true;
    }

    /// The serve loop polls for the signal; it is delivered at most once,
    /// however often the handler signaled.
    pub fn try_observe(&mut self) -> (r: bool)
        ensures
            r == (old(self).signaled && !old(self).observed),
            final(self).signaled == old(self).signaled,
            final(self).observed == (old(self).observed || old(self).signaled),
    {
        if self.signaled && !self.observed {
            self.observed = true;
            true
        } else {
            if self.signaled {
                self.observed = true;
            }
            false
        }
    }
}

/// Mathematical state of the serve loop.
pub struct ServeModel {
    pub stopping: bool,
    pub in_flight: int,
}

/// What can happen to the serve loop: an operation asks to be admitted,
/// an admitted operation completes, or stop is initiated.
pub enum ServeEvent {
    Admit,
    Complete,
    Stop,
}

/// One transition of the serve loop: admission is refused once stopping,
/// completion drains, stop is permanent.
pub open spec fn serve_step(m: ServeModel, e: ServeEvent) -> ServeModel {
    match e {
        ServeEvent::Admit => if m.stopping {
            m
        } else {
            ServeModel { in_flight: m.in_flight + 1, ..m }
        },
        ServeEvent::Complete => if m.in_flight > 0 {
            ServeModel { in_flight: m.in_flight - 1, ..m }
        } else {
            m
        },
        ServeEvent::Stop => ServeModel { stopping: true, ..m },
    }
}

/// The serve loop after a sequence of events.
pub open spec fn serve_run(m: ServeModel, es: Seq<ServeEvent>) -> ServeModel
    decreases es.len(),
{
    if es.len() == 0 {
        m
    } else {
        serve_run(serve_step(m, es[0]), es.skip(1))
    }
}

/// How many completions a sequence of events holds.
pub open spec fn num_completes(es: Seq<ServeEvent>) -> int
    decreases es.len(),
{
    if es.len() == 0 {
        0
    } else {
        (if es[0] is Complete {
            1int
        } else {
            0int
        }) + num_completes(es.skip(1))
    }
}

/// The serve loop: tracks whether stop was initiated and how many
/// admitted operations are still running.
pub struct ServeLoop {
    /// Stop has been initiated: no new operation is admitted.
    pub stopping: bool,
    /// Admitted operations that have not completed.
    pub in_flight: u64,
}

impl ServeLoop {
    /// Mathematical view.
    pub open spec fn model(self) -> ServeModel {
        ServeModel { stopping: self.stopping, in_flight: self.in_flight as int }
    }

    /// A running loop with nothing in flight.
    pub fn new() -> (l: ServeLoop)
        ensures
            !l.stopping,
            l.in_flight == 0,
    {
        ServeLoop { stopping: false, in_flight: 0 }
    }

    /// Asks to admit one operation: refused exactly when stopping.
    pub fn try_admit(&mut self) -> (r: bool)
        requires
            old(self).in_flight < u64::MAX,
        ensures
            final(self).model() == serve_step(old(self).model(), ServeEvent::Admit),
            r == !old(self).stopping,
    {
        if self.stopping {
            false
        } else {
            self.in_flight = self.in_flight + 1;
            true
        }
    }

    /// An admitted operation has completed.
    pub fn complete(&mut self)
        requires
            old(self).in_flight > 0,
        ensures
            final(self).model() == serve_step(old(self).model(), ServeEvent::Complete),
    {
        self.in_flight = self.in_flight - 1;
    }

    /// Initiates shutdown: permanent.
    pub fn initiate_stop(&mut self)
        ensures
            final(self).model() == serve_step(old(self).model(), ServeEvent::Stop),
    {
        self.stopping = true;
    }

    /// Whether the loop may exit: stopping, and nothing left in flight.
    pub fn may_exit(&self) -> (r: bool)
        ensures
            r == (self.stopping && self.in_flight == 0),
    {
        self.stopping && self.in_flight == 0
    }
}

/// Once stop is initiated, an admission attempt changes nothing and is
/// refused.
pub proof fn lemma_no_admission_after_stop(m: ServeModel)
    requires
        m.stopping,
    ensures
        serve_step(m, ServeEvent::Admit) == m,
{
}

/// A count of completions is never negative.
pub proof fn lemma_num_completes_nonneg(es: Seq<ServeEvent>)
    ensures
        num_completes(es) >= 0,
    decreases es.len(),
{
    if es.len() > 0 {
        lemma_num_completes_nonneg(es.skip(1));
    }
}

/// Once stop is initiated it stays initiated, in-flight work only
/// drains, and after as many completions as there were in-flight
/// operations the loop may exit: stop terminates the loop cleanly after
/// the already-admitted operations finish, admitting nothing new.
pub proof fn lemma_stop_quiesces(m: ServeModel, es: Seq<ServeEvent>)
    requires
        m.stopping,
        m.in_flight >= 0,
    ensures
        serve_run(m, es).stopping,
        serve_run(m, es).in_flight == (if num_completes(es) >= m.in_flight {
            0int
        } else {
            m.in_flight - num_completes(es)
        }),
    decreases es.len(),
{
    if es.len() > 0 {
        lemma_num_completes_nonneg(es.skip(1));
        lemma_stop_quiesces(serve_step(m, es[0]), es.skip(1));
    }
}

} // verus!
