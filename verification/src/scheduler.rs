//! The whole of it: a server that is started with one coroutine.
use crate::model::{ServerView, Step};
use crate::server::Server;
use vstd::prelude::*;

verus! {

/// Mioco struct
pub struct Mioco {
    /// What decides which coroutine runs
    pub server: Server,
}

impl Mioco {
    /// Create new `Mioco` instance
    pub fn new() -> (r: Mioco)
        ensures
            r.server.wf(),
            r.server@ == ServerView::initial(),
    {
        Mioco { server: Server::new() }
    }

    /// Start mioco handling
    ///
    /// There is one coroutine now, which is to be resumed.
    ///
    /// See `MiocoHandle::spawn()`.
    pub fn start(&mut self) -> (step: Step)
        requires
            old(self).server.wf(),
            old(self).server@.phase is Idle,
            old(self).server@.next_id < u64::MAX,
        ensures
            final(self).server.wf(),
            final(self).server@ == old(self).server@.started().server,
            step == old(self).server@.started().step,
    {
        self.server.start()
    }

    /// Whether there are coroutines left to run the event loop for.
    pub fn is_needed(&self) -> (r: bool)
        ensures
            r == (self.server@.coroutines_no > 0),
    {
        self.server.coroutines_no() > 0
    }
}

/// Shorthand for creating new `Mioco` instance and starting it right away.
pub fn start() -> (r: (Mioco, Step))
    ensures
        r.0.server.wf(),
        r.0.server@ == ServerView::initial().started().server,
        r.1 == ServerView::initial().started().step,
{
    let mut mioco = Mioco::new();
    let step = mioco.start();
    (mioco, step)
}

} // verus!
