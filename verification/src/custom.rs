//! Running an agent with a handler of its own.

use vstd::prelude::*;
use crate::config::ServiceConfig;
use crate::error::Error;
use crate::eventloop::{task_views, tasks, Task};

verus! {

/// What the agent starts when it runs. Refused with `Misconfigured` where
/// the service has no name.
pub fn run(config: &ServiceConfig) -> (r: Result<Vec<Task>, Error>)
    ensures
        config@.name.len() == 0 ==> r matches Err(Error::Misconfigured(_)),
        config@.name.len() > 0 ==> (r matches Ok(t) && task_views(t@) == tasks(config@)),
{
    if config.name().as_str().unicode_len() == 0 {
        return Err(Error::Misconfigured("Service name is empty".to_owned()));
    }
    Ok(crate::eventloop::run(config))
}

} // verus!
