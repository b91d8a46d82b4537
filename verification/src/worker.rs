//! The SDK worker's identity and the endpoints it talks to.

use vstd::prelude::*;

verus! {

/// Where the worker reaches the runner.
#[derive(Debug)]
pub struct WorkerEndpoints {
    pub control_endpoint_url: Option<String>,
}

impl WorkerEndpoints {
    pub fn new(control_endpoint_url: Option<String>) -> (r: Self)
        ensures
            r.control_endpoint_url == control_endpoint_url,
    {
        WorkerEndpoints { control_endpoint_url }
    }
}

/// An SDK worker: its id, endpoints and options.
#[derive(Debug)]
pub struct Worker {
    pub id: String,
    pub endpoints: WorkerEndpoints,
    pub options: Vec<(String, String)>,
}

impl Worker {
    /// A worker without options.
    pub fn new(id: String, endpoints: WorkerEndpoints) -> (r: Self)
        ensures
            r.id == id,
            r.endpoints == endpoints,
            r.options@.len() == 0,
    {
        Worker { id, endpoints, options: Vec::new() }
    }
}

} // verus!
