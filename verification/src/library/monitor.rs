//! The library monitor's decisions: what each message from the file-system
//! watcher does, and how a burst of events is gathered before it is applied.
use vstd::prelude::*;

verus! {

/// A message the monitor's worker receives, or the end of a wait.
pub enum MonitorInput {
    /// A file-system event other than an access, with its paths.
    Changed(Vec<String>),
    /// An access event: nothing changed.
    Accessed,
    /// The watcher reported an error.
    Failed,
    /// A request to reconcile every root.
    ReconcileAll,
    /// A request to stop.
    Stop,
    /// The wait for the next message timed out.
    Quiet,
    /// Every sender is gone.
    Closed,
}

/// What the worker does with a message it was waiting for.
pub enum WorkerStep {
    Exit,
    Reconcile,
    Burst(Vec<String>),
    Idle,
}

/// The events gathered so far, and whether a full reconcile or a stop was asked.
pub struct Burst {
    pub paths: Vec<String>,
    pub reconcile: bool,
    pub stop: bool,
}

/// The worker's step for a message: stop or a closed channel ends it; a
/// watcher error or a request reconciles every root; a change starts a
/// burst; anything else is ignored.
pub fn worker_step(input: MonitorInput) -> (r: WorkerStep)
    ensures
        match input {
            MonitorInput::Stop | MonitorInput::Closed => r is Exit,
            MonitorInput::ReconcileAll | MonitorInput::Failed => r is Reconcile,
            MonitorInput::Changed(ps) => r is Burst && r->Burst_0 == ps,
            MonitorInput::Accessed | MonitorInput::Quiet => r is Idle,
        },
{
    match input {
        MonitorInput::Stop | MonitorInput::Closed => WorkerStep::Exit,
        MonitorInput::ReconcileAll | MonitorInput::Failed => WorkerStep::Reconcile,
        MonitorInput::Changed(ps) => WorkerStep::Burst(ps),
        MonitorInput::Accessed | MonitorInput::Quiet => WorkerStep::Idle,
    }
}

impl Burst {
    /// A burst that starts with the paths of one change.
    pub fn new(paths: Vec<String>) -> (r: Burst)
        ensures
            r.paths == paths,
            !r.reconcile,
            !r.stop,
    {
        Burst { paths, reconcile: false, stop: false }
    }

    /// Takes the next message into the burst, and says whether to keep
    /// gathering: changes add their paths, errors and requests ask for a
    /// reconcile, a stop or a closed channel ends the burst and the worker,
    /// a quiet wait ends the burst.
    pub fn step(&mut self, input: MonitorInput) -> (more: bool)
        ensures
            match input {
                MonitorInput::Changed(ps) => more && final(self).paths@ == old(self).paths@ + ps@
                    && final(self).reconcile == old(self).reconcile && final(self).stop == old(
                    self,
                ).stop,
                MonitorInput::Failed | MonitorInput::ReconcileAll => more && final(self).reconcile
                    && final(self).paths == old(self).paths && final(self).stop == old(self).stop,
                MonitorInput::Stop | MonitorInput::Closed => !more && final(self).stop
                    && final(self).paths == old(self).paths && final(self).reconcile == old(
                    self,
                ).reconcile,
                MonitorInput::Accessed => more && *final(self) == *old(self),
                MonitorInput::Quiet => !more && *final(self) == *old(self),
            },
    {
        match input {
            MonitorInput::Changed(ps) => {
                let mut ps = ps;
                self.paths.append(&mut ps);
                true
            },
            MonitorInput::Failed | MonitorInput::ReconcileAll => {
                self.reconcile = true;
                true
            },
            MonitorInput::Stop | MonitorInput::Closed => {
                self.stop = true;
                false
            },
            MonitorInput::Accessed => true,
            MonitorInput::Quiet => false,
        }
    }
}

} // verus!
