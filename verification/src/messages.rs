//! The messages exchanged with whoever drives a simulation: the request
//! that starts a run and the tagged responses that report on it.

use crate::population::Checkpoint;
use crate::species::Species;
use vstd::prelude::*;

verus! {

/// The request: the species to simulate and the horizon to run to.
#[derive(Clone, Debug)]
pub struct WorkerMessageReceived {
    pub species_list: Vec<Species>,
    pub max_t: u64,
}

/// The status that tags a response.
#[allow(non_camel_case_types)]
#[derive(Clone, Copy, Debug, PartialEq, Eq, Structural)]
pub enum WorkerStatus {
    /// The engine is ready.
    INITIALIZED,
    /// Checkpoints accumulated since the last flush.
    PENDING,
    /// The run is over.
    COMPLETE,
}

/// A response: its status and the checkpoints it carries.
#[derive(Clone, Debug)]
pub struct WorkerResponse {
    pub status: WorkerStatus,
    pub checkpoints: Vec<Checkpoint>,
}

impl WorkerResponse {
    /// Only a pending response carries checkpoints, and it carries at least
    /// one.
    pub open spec fn wf(&self) -> bool {
        self.status == WorkerStatus::PENDING <==> self.checkpoints@.len() > 0
    }

    /// The response that announces a ready engine.
    pub fn initialized() -> (r: WorkerResponse)
        ensures
            r.status == WorkerStatus::INITIALIZED,
            r.checkpoints@.len() == 0,
            r.wf(),
    {
        WorkerResponse { status: WorkerStatus::INITIALIZED, checkpoints: Vec::new() }
    }

    /// The response that flushes the checkpoints accumulated so far; there
    /// is none to send where nothing has accumulated.
    pub fn pending(checkpoints: Vec<Checkpoint>) -> (r: Option<WorkerResponse>)
        ensures
            r is None <==> checkpoints@.len() == 0,
            r matches Some(response) ==> response.status == WorkerStatus::PENDING
                && response.checkpoints@ == checkpoints@ && response.wf(),
    {
        if checkpoints.len() == 0 {
            None
        } else {
            Some(WorkerResponse { status: WorkerStatus::PENDING, checkpoints })
        }
    }

    /// The response that ends a run.
    pub fn complete() -> (r: WorkerResponse)
        ensures
            r.status == WorkerStatus::COMPLETE,
            r.checkpoints@.len() == 0,
            r.wf(),
    {
        WorkerResponse { status: WorkerStatus::COMPLETE, checkpoints: Vec::new() }
    }
}

} // verus!
