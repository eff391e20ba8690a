//! The common shape of the machines that run a script.
use vstd::prelude::*;

use crate::error::SchedulerServiceError;
use crate::protocol::{Reply, Request};
#[allow(unused_imports)]
use crate::script::{awaits, settles, told, Script};

verus! {

/// A state of a machine that has made a request and waits for the reply.
pub trait Scripted: Sized {
    /// What is left of the operation, from the open request on.
    spec fn script(&self) -> Script;

    /// The states that a run of the machine can come to.
    spec fn well_formed(&self) -> bool;
}

/// What a machine does next.
#[derive(Debug)]
pub enum Step<M> {
    /// It makes a request, and goes on from this state when the reply is there.
    Ask(Request, M),
    /// It has ended.
    Done(Result<(), SchedulerServiceError>),
}

impl<M: Scripted> Step<M> {
    /// What is left of the operation.
    pub open spec fn script(&self) -> Script {
        match self {
            Step::Ask(_, machine) => machine.script(),
            Step::Done(result) => Script::Done(*result),
        }
    }

    /// The request is the one that the script makes next.
    pub open spec fn well_formed(&self) -> bool {
        match self {
            Step::Ask(request, machine) => {
                &&& machine.well_formed()
                &&& machine.script() is Ask
                &&& machine.script()->Ask_0 == *request
            },
            Step::Done(_) => true,
        }
    }
}

/// A machine that runs a script, one reply at a time.
pub trait Dialogue: Scripted {
    /// Takes the reply to the open request and goes on as the script says, up to the next
    /// request or the end. On the way, the clock is read wherever the script reads it, each time
    /// anew and for the node that is looked at.
    fn resume(self, reply: Reply) -> (step: Step<Self>)
        requires
            self.well_formed(),
            awaits(self.script(), reply),
        ensures
            step.well_formed(),
            settles(told(self.script(), reply), reply, step.script()),
            told(self.script(), reply) !is Clock ==> step.script() == told(self.script(), reply),
    ;
}

} // verus!
