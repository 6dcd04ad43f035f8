//! The bridge: how a command from outside becomes a job for the portal,
//! and how the state of a job is looked up.

use vstd::prelude::*;
use crate::agent::{first_of, Peer, Registry, Type};
use crate::board::Board;
use crate::job::{created_job, parse_command, Job};

verus! {

/// What can go wrong at the bridge.
#[derive(Debug, PartialEq, Eq)]
pub enum Error {
    /// The command is no valid job.
    Job(crate::job::Error),
    /// No board is kept for the portal.
    State(String),
    /// The board does not hold the job.
    Board(crate::board::Error),
    /// No portal is known.
    NoPortal(String),
}

/// The job of identifier `job` as the board of the portal holds it.
/// Refused with `NoPortal` where no portal is known, with `State` where
/// no board is kept for it, with `Board` where the board holds no such
/// job.
pub fn status(agents: &Registry, board: Option<&Board>, job: u128) -> (r: Result<Job, Error>)
    ensures
        match (first_of(agents@, Type::Portal), board) {
            (None, _) => r matches Err(Error::NoPortal(_)),
            (Some(_), None) => r matches Err(Error::State(_)),
            (Some(_), Some(b)) => if b@.jobs.dom().contains(job) {
                r matches Ok(j) && j@ == b@.jobs[job]
            } else {
                r matches Err(Error::Board(crate::board::Error::NotFound(_)))
            },
        },
{
    match agents.portal() {
        Some(_) => match board {
            Some(board) => match board.get(job) {
                Ok(job) => Ok(job),
                Err(e) => Err(Error::Board(e)),
            },
            None => Err(Error::State("No board is kept for the portal".to_owned())),
        },
        None => Err(
            Error::NoPortal(
                "Cannot get the job status because there is no portal agent".to_owned(),
            ),
        ),
    }
}

/// The job for `command` and the portal to put it to. Refused with
/// `NoPortal` where no portal is known, with `Job` where the command is
/// not valid.
pub fn run(agents: &Registry, command: &str) -> (r: Result<(Peer, Job), Error>)
    ensures
        match first_of(agents@, Type::Portal) {
            None => r matches Err(Error::NoPortal(_)),
            Some(portal) => if parse_command(command@).is_valid() {
                r matches Ok(pair) && pair.0@ == portal && pair.1@ == created_job(
                    pair.1@.id,
                    pair.1@.created,
                    command@,
                )
            } else {
                r matches Err(Error::Job(crate::job::Error::Parse(_)))
            },
        },
{
    match agents.portal() {
        Some(portal) => match Job::parse(command) {
            Ok(job) => Ok((portal, job)),
            Err(e) => Err(Error::Job(e)),
        },
        None => Err(
            Error::NoPortal("Cannot run the job because there is no portal agent".to_owned()),
        ),
    }
}

} // verus!
