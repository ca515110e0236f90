//! The messages between the coordinator of a distributed computation and
//! its workers.

use vstd::prelude::*;

verus! {

/// What the coordinator asks of a worker.
#[derive(Clone, Debug)]
pub enum CoordReq<J, M, T> {
    CurrentJob,
    ScheduleJob { job: J, mapper: M },
    Setup { dht: T },
}

/// What a worker answers the coordinator.
#[derive(Debug)]
pub enum CoordResp<J> {
    CurrentJob(Option<J>),
    ScheduleJob(()),
    Setup(()),
}

/// A request to a worker: from the coordinator, or from a user.
#[derive(Clone, Debug)]
pub enum Req<J, M, R, T> {
    Coordinator(CoordReq<J, M, T>),
    User(R),
}

/// The answer of a worker: to the coordinator, or to a user.
#[derive(Debug)]
pub enum Resp<J, R> {
    Coordinator(CoordResp<J>),
    User(R),
}

} // verus!
