//! Bookkeeping of the uptime proofs: an average is reported after every
//! batch of proofs.
use vstd::prelude::*;

verus! {

/// Number of proofs in a batch.
pub const PROOFS_PER_REPORT: u64 = 10;

/// The proofs produced since the last report.
pub struct UptimeTally {
    count: u64,
}

impl UptimeTally {
    #[verifier::type_invariant]
    spec fn within_batch(self) -> bool {
        self.count < PROOFS_PER_REPORT
    }

    /// The number of proofs counted in the current batch.
    pub closed spec fn counted(self) -> nat {
        self.count as nat
    }

    /// A tally with no proofs counted.
    pub fn new() -> (t: Self)
        ensures
            t.counted() == 0,
    {
        UptimeTally { count: 0 }
    }

    /// The number of proofs counted in the current batch.
    pub fn count(&self) -> (r: u64)
        ensures
            r == self.counted(),
    {
        self.count
    }

    /// Counts one more proof. Returns whether it completes a batch, in
    /// which case a report is due and the tally starts over.
    pub fn record_proof(&mut self) -> (report: bool)
        ensures
            report == (old(self).counted() + 1 == PROOFS_PER_REPORT),
            final(self).counted() == if report {
                0
            } else {
                old(self).counted() + 1
            },
            final(self).counted() < PROOFS_PER_REPORT,
    {
        proof {
            use_type_invariant(&*self);
        }
        let next = self.count + 1;
        if next % PROOFS_PER_REPORT == 0 {
            self.count = 0;
            true
        } else {
            self.count = next;
            false
        }
    }
}

} // verus!
