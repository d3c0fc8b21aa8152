//! The connection supervisor: a bounded number of attempts with a fixed
//! pause between them.
use vstd::prelude::*;

verus! {

/// What follows a failed connection attempt.
#[derive(Debug, PartialEq, Eq, Structural)]
pub enum ConnectStep {
    /// Sleep this many seconds, then try again.
    Wait(u64),
    /// No attempt is left: the run cannot connect.
    GiveUp,
}

/// The state of a series of connection attempts.
pub struct Connector {
    /// How many attempts may be made; at least one.
    pub budget: u32,
    /// The fixed pause between two attempts, in seconds.
    pub backoff: u64,
    /// How many attempts have failed so far.
    pub failed: u32,
}

/// The connector that a run starts with: a budget of zero attempts still
/// makes one.
pub open spec fn connector_spec(attempts: u32, backoff: u64) -> Connector {
    Connector { budget: if attempts == 0 { 1 } else { attempts }, backoff, failed: 0 }
}

/// The connector after one more failed attempt, and what follows.
pub open spec fn fail_spec(c: Connector) -> (Connector, ConnectStep) {
    let next = Connector { budget: c.budget, backoff: c.backoff, failed: (c.failed + 1) as u32 };
    if next.failed < c.budget {
        (next, ConnectStep::Wait(c.backoff))
    } else {
        (next, ConnectStep::GiveUp)
    }
}

impl Connector {
    pub open spec fn wf(&self) -> bool {
        1 <= self.budget && self.failed <= self.budget
    }

    /// Whether another attempt may be made.
    pub open spec fn open_spec(&self) -> bool {
        self.failed < self.budget
    }

    /// A fresh series of at most `attempts` attempts (at least one), with
    /// `backoff` seconds between two of them.
    pub fn new(attempts: u32, backoff: u64) -> (r: Connector)
        ensures
            r == connector_spec(attempts, backoff),
            r.wf(),
            r.open_spec(),
    {
        Connector { budget: if attempts == 0 { 1 } else { attempts }, backoff, failed: 0 }
    }

    /// The number of the next attempt, counting from one.
    pub fn attempt_number(&self) -> (r: u32)
        requires
            self.wf(),
            self.open_spec(),
        ensures
            r == self.failed + 1,
    {
        self.failed + 1
    }

    /// Records a failed attempt and says what follows: a pause before the
    /// next attempt while one is left, and giving up after the last.
    pub fn attempt_failed(&mut self) -> (r: ConnectStep)
        requires
            old(self).wf(),
            old(self).open_spec(),
        ensures
            (*final(self), r) == fail_spec(*old(self)),
            final(self).wf(),
            final(self).failed == old(self).failed + 1,
            r == (if final(self).failed < final(self).budget {
                ConnectStep::Wait(old(self).backoff)
            } else {
                ConnectStep::GiveUp
            }),
    {
        self.failed = self.failed + 1;
        if self.failed < self.budget {
            ConnectStep::Wait(self.backoff)
        } else {
            ConnectStep::GiveUp
        }
    }
}

/// What a series of attempts shows: attempts made, failures warned of,
/// pauses slept, and whether a connection was made.
pub struct ConnectTrace {
    pub attempts: nat,
    pub warnings: nat,
    pub waits: nat,
    pub connected: bool,
}

/// The trace of a series driven by `Connector` against a server that refuses
/// the first `refusals` attempts and accepts the next one.
pub open spec fn trace_spec(c: Connector, refusals: nat) -> ConnectTrace
    decreases c.budget - c.failed, refusals,
{
    if !(c.wf() && c.open_spec()) {
        ConnectTrace { attempts: 0, warnings: 0, waits: 0, connected: false }
    } else if refusals == 0 {
        ConnectTrace { attempts: 1, warnings: 0, waits: 0, connected: true }
    } else {
        let (next, step) = fail_spec(c);
        match step {
            ConnectStep::Wait(_) => {
                let t = trace_spec(next, (refusals - 1) as nat);
                ConnectTrace {
                    attempts: t.attempts + 1,
                    warnings: t.warnings + 1,
                    waits: t.waits + 1,
                    connected: t.connected,
                }
            },
            ConnectStep::GiveUp => ConnectTrace {
                attempts: 1,
                warnings: 1,
                waits: 0,
                connected: false,
            },
        }
    }
}

proof fn lemma_trace(c: Connector, refusals: nat)
    requires
        c.wf(),
        c.open_spec(),
    ensures
        refusals < c.budget - c.failed ==> trace_spec(c, refusals) == (ConnectTrace {
            attempts: refusals + 1,
            warnings: refusals,
            waits: refusals,
            connected: true,
        }),
        refusals >= c.budget - c.failed ==> trace_spec(c, refusals) == (ConnectTrace {
            attempts: (c.budget - c.failed) as nat,
            warnings: (c.budget - c.failed) as nat,
            waits: (c.budget - c.failed - 1) as nat,
            connected: false,
        }),
    decreases c.budget - c.failed,
{
    if refusals > 0 {
        let (next, step) = fail_spec(c);
        if next.failed < c.budget {
            lemma_trace(next, (refusals - 1) as nat);
        }
    }
}

/// With a budget of `n` attempts (a budget of zero counts as one), a server
/// that refuses fewer than `n` attempts and then accepts is reached, after
/// one warning and one pause per refusal; a server that refuses `n` attempts
/// or more is given up on after exactly `n` attempts, with `n - 1` pauses.
pub proof fn lemma_connection_retry(attempts: u32, backoff: u64, refusals: nat)
    ensures
        ({
            let n = connector_spec(attempts, backoff).budget as nat;
            let t = trace_spec(connector_spec(attempts, backoff), refusals);
            &&& refusals < n ==> t.connected && t.attempts == refusals + 1 && t.warnings
                == refusals && t.waits == refusals
            &&& refusals >= n ==> !t.connected && t.attempts == n && t.warnings == n && t.waits
                == n - 1
        }),
{
    lemma_trace(connector_spec(attempts, backoff), refusals);
}

} // verus!
