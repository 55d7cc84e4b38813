//! Background jobs on the metadata store, handed to a worker thread.
use vstd::prelude::*;
use std::sync::mpsc::Sender;

verus! {

/// A job for the worker.
#[derive(Debug)]
pub enum Job {
    CacheMetadataForImages(Vec<String>),
    ClearMovedFiles(Vec<String>),
}

/// A message the worker leaves for the display.
pub enum WorkerMessage {
    Log(String),
    Done,
}

#[verifier::external_type_specification]
#[verifier::external_body]
#[verifier::reject_recursive_types(T)]
pub struct ExSender<T>(Sender<T>);

/// Relies on `Sender::send`: true where the job reached the channel, false
/// where the receiving side is gone.
#[verifier::external_body]
fn send(tx: &Sender<Job>, job: Job) -> (r: bool) {
    tx.send(job).is_ok()
}

/// The sending side of the worker's job channel.
pub struct Worker {
    job_tx: Sender<Job>,
}

impl Worker {
    pub fn from_sender(job_tx: Sender<Job>) -> (r: Worker) {
        Worker { job_tx }
    }

    /// Hands a job to the worker; false where the worker has stopped.
    pub fn send_job(&self, job: Job) -> (r: bool) {
        send(&self.job_tx, job)
    }
}

} // verus!
