//! Coordination machinery for a dynamic collection of independently rendered
//! windows sharing one process-wide event loop: futures aggregation keyed by
//! unique handles, a typestate rendering-context holder, per-window lifecycle
//! decisions, and the orchestrator's shutdown policy.
//!
//! Everything that decides -- handle assignment, poll-turn bookkeeping,
//! context-state transitions, surface clamping, viewport reconciliation,
//! window classification -- lives here, verified. The host process supplies
//! what cannot be decided from values alone: the windowing system, the task
//! executor that polls the registered operations, and the draw calls.

use vstd::prelude::*;

pub mod future_set;
pub mod multi_window;
pub mod tracked_window;

verus! {

/// Represents the events the orchestrator cares about: one completion
/// future per live window task, split by shutdown role.
pub struct Events<F> {
    /// For root windows: the process exits the moment every future here
    /// has completed.
    pub window_close: future_set::FuturesHashSetAll<F, ()>,
    /// For non-root windows: drained as a stream and discarded; these
    /// never gate shutdown.
    pub non_root_windows: future_set::FuturesHashSet<F, ()>,
}

impl<F> Events<F> {
    /// Construct a new event handler with both aggregators empty.
    pub fn new() -> (r: Self)
        ensures
            r.window_close.inner().wf(),
            r.window_close.inner().entries() == Seq::<(u32, F)>::empty(),
            r.window_close.inner().gathered() == Seq::<()>::empty(),
            r.non_root_windows.inner().wf(),
            r.non_root_windows.inner().entries() == Seq::<(u32, F)>::empty(),
            r.non_root_windows.inner().gathered() == Seq::<()>::empty(),
    {
        Self {
            window_close: future_set::FuturesHashSetAll::new(),
            non_root_windows: future_set::FuturesHashSet::new(),
        }
    }

    /// Register one window task's completion future under the policy its
    /// root-ness selects: a root window's future goes into the
    /// all-aggregator, so it gates shutdown; any other window's future
    /// goes into the stream, whose results are drained and discarded.
    pub fn register_window_task(&mut self, is_root: bool, task: F) -> (h: u32)
        requires
            old(self).window_close.inner().wf(),
            old(self).non_root_windows.inner().wf(),
            old(self).window_close.inner().entries().len() < 0x1_0000_0000,
            old(self).non_root_windows.inner().entries().len() < 0x1_0000_0000,
        ensures
            final(self).window_close.inner().wf(),
            final(self).non_root_windows.inner().wf(),
            is_root ==> final(self).window_close.inner().entries() == old(
                self,
            ).window_close.inner().entries().push((h, task)) && !old(
                self,
            ).window_close.inner().live_handles().contains(h) && final(self).non_root_windows == old(
                self,
            ).non_root_windows,
            !is_root ==> final(self).non_root_windows.inner().entries() == old(
                self,
            ).non_root_windows.inner().entries().push((h, task)) && !old(
                self,
            ).non_root_windows.inner().live_handles().contains(h) && final(self).window_close == old(
                self,
            ).window_close,
            final(self).window_close.inner().gathered() == old(
                self,
            ).window_close.inner().gathered(),
            final(self).non_root_windows.inner().gathered() == old(
                self,
            ).non_root_windows.inner().gathered(),
    {
        if is_root {
            self.window_close.get().add_future(task)
        } else {
            self.non_root_windows.get().add_future(task)
        }
    }
}

} // verus!
