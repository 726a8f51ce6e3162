//! The signal emitter: it tells the host that work is waiting.
//!
//! The host binds one handler. The emitter calls it on the calling thread,
//! and the host decides how to react: pump a flush at once, or hand the
//! signal over to another thread. A later binding replaces an earlier one.
use vstd::prelude::*;

verus! {

/// What the core tells its host.
#[derive(Clone, Copy, Debug, PartialEq, Eq, Structural)]
pub enum MistySignal {
    /// A continuation was scheduled and waits for a flush.
    Schedule,
}

/// The host's reaction to a signal.
pub trait MistySignalHandler: Send + Sync {
    fn on_signal(&self, signal: MistySignal);
}

pub struct SignalEmitter {
    handler: Option<Box<dyn MistySignalHandler>>,
}

impl SignalEmitter {
    /// Whether the host has bound a handler.
    pub closed spec fn is_bound(&self) -> bool {
        self.handler is Some
    }

    /// An emitter without a handler: its signals reach nobody.
    pub fn new() -> (r: Self)
        ensures
            !r.is_bound(),
    {
        SignalEmitter { handler: None }
    }

    /// Binds `f`, in place of the handler that was bound before.
    pub fn set<F: MistySignalHandler + 'static>(&mut self, f: F)
        ensures
            final(self).is_bound(),
    {
        let handler: Box<dyn MistySignalHandler> = Box::new(f);
        self.handler = Some(handler);
    }

    pub fn bound(&self) -> (b: bool)
        ensures
            b == self.is_bound(),
    {
        self.handler.is_some()
    }

    /// Hands `signal` to the bound handler. Returns whether there was one.
    pub fn emit(&self, signal: MistySignal) -> (delivered: bool)
        ensures
            delivered == self.is_bound(),
    {
        match &self.handler {
            Some(handler) => {
                handler.on_signal(signal);
                true
            },
            None => false,
        }
    }
}

} // verus!
