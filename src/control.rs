//! Cooperative termination, progress figures and the batching of derived
//! accounts for a batching oracle.

use vstd::prelude::*;

use crate::oracle::Account;

verus! {

/// A run-wide stop signal. It starts lowered, and once raised it stays
/// raised: no operation lowers it.
pub struct TerminationFlag {
    raised: bool,
}

impl TerminationFlag {
    pub closed spec fn is_raised(&self) -> bool {
        self.raised
    }

    /// A lowered flag.
    pub fn new() -> (r: TerminationFlag)
        ensures
            !r.is_raised(),
    {
        TerminationFlag { raised: false }
    }

    /// Whether the flag is raised.
    pub fn raised(&self) -> (r: bool)
        ensures
            r == self.is_raised(),
    {
        self.raised
    }

    /// Raises the flag; the result says whether this call was the one that
    /// raised it.
    pub fn raise(&mut self) -> (first: bool)
        ensures
            final(self).is_raised(),
            first == !old(self).is_raised(),
    {
        let first = !self.raised;
        self.raised = true;
        first
    }
}

/// Progress in hundredths of a percent: `10000 * tested / complexity`,
/// rounded down.
pub fn percent_hundredths(tested: u64, complexity: u64) -> (r: u128)
    requires
        complexity > 0,
    ensures
        r == (10000 * tested) / (complexity as int),
{
    (tested as u128 * 10000) / (complexity as u128)
}

/// Candidates per second after `elapsed_millis` milliseconds, rounded down;
/// nothing before the first millisecond.
pub fn rate_per_second(tested: u64, elapsed_millis: u64) -> (r: Option<u128>)
    ensures
        elapsed_millis == 0 ==> r is None,
        elapsed_millis > 0 ==> r == Some(((1000 * tested) / (elapsed_millis as int)) as u128),
{
    if elapsed_millis == 0 {
        return None;
    }
    Some((tested as u128 * 1000) / (elapsed_millis as u128))
}

/// What to do after an account joins the batch.
pub enum BatchStep {
    /// The batch is not full yet.
    Continue,
    /// The batch is full: send it to the oracle.
    Dispatch(Vec<Account>),
    /// The batch is full but the run is stopping: send nothing more.
    Stop,
}

/// Gathers derived accounts into batches of a fixed size. The stop signal
/// is consulted only when a batch is full.
pub struct Batcher {
    size: usize,
    pending: Vec<Account>,
}

impl Batcher {
    /// The accounts waiting for the batch to fill.
    pub closed spec fn pending(&self) -> Seq<Account> {
        self.pending@
    }

    /// The size of a full batch.
    pub closed spec fn batch_size(&self) -> nat {
        self.size as nat
    }

    /// A batch holds at least one account, and fewer are waiting than make
    /// a full batch.
    pub open spec fn wf(&self) -> bool {
        self.batch_size() > 0 && self.pending().len() < self.batch_size()
    }

    /// An empty batcher for batches of `size` accounts.
    pub fn new(size: usize) -> (r: Batcher)
        requires
            size > 0,
        ensures
            r.wf(),
            r.batch_size() == size,
            r.pending().len() == 0,
    {
        Batcher { size, pending: Vec::new() }
    }

    /// Adds an account. A batch that is now full is handed out to be sent,
    /// or dropped where the stop signal is raised.
    pub fn push(&mut self, account: Account, terminated: bool) -> (r: BatchStep)
        requires
            old(self).wf(),
        ensures
            final(self).wf(),
            final(self).batch_size() == old(self).batch_size(),
            old(self).pending().len() + 1 < old(self).batch_size() ==> r is Continue
                && final(self).pending() == old(self).pending().push(account),
            old(self).pending().len() + 1 == old(self).batch_size() ==> final(self).pending().len()
                == 0,
            old(self).pending().len() + 1 == old(self).batch_size() && terminated ==> r is Stop,
            old(self).pending().len() + 1 == old(self).batch_size() && !terminated ==> r is Dispatch
                && r->Dispatch_0@ == old(self).pending().push(account),
    {
        self.pending.push(account);
        if self.pending.len() < self.size {
            return BatchStep::Continue;
        }
        let full = self.pending.split_off(0);
        if terminated {
            BatchStep::Stop
        } else {
            BatchStep::Dispatch(full)
        }
    }

    /// The last, partial batch once enumeration has ended: handed out where
    /// it is not empty and the stop signal is lowered.
    pub fn finish(self, terminated: bool) -> (r: Option<Vec<Account>>)
        ensures
            r is Some <==> self.pending().len() > 0 && !terminated,
            r is Some ==> r->Some_0@ == self.pending(),
    {
        if self.pending.len() > 0 && !terminated {
            Some(self.pending)
        } else {
            None
        }
    }
}

} // verus!
