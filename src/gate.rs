use vstd::prelude::*;

verus! {

/// A counting gate shared by every operation of one client: an operation
/// enters only while fewer than `limit` are in flight, and leaves when done.
#[derive(Debug)]
pub struct ConcurrencyGate {
    limit: usize,
    in_flight: usize,
}

/// Something that happens to a `ConcurrencyGate`.
#[derive(Clone, Copy, Debug, PartialEq, Eq)]
pub enum GateOp {
    Acquire,
    Release,
}

/// The number in flight after a sequence of events, starting from none.
pub open spec fn in_flight_after(limit: nat, ops: Seq<GateOp>) -> nat
    decreases ops.len(),
{
    if ops.len() == 0 {
        0
    } else {
        let n = in_flight_after(limit, ops.drop_last());
        match ops.last() {
            GateOp::Acquire => if n < limit { n + 1 } else { n },
            GateOp::Release => if n > 0 { (n - 1) as nat } else { n },
        }
    }
}

impl ConcurrencyGate {
    pub closed spec fn limit_spec(&self) -> nat {
        self.limit as nat
    }

    pub closed spec fn in_flight_spec(&self) -> nat {
        self.in_flight as nat
    }

    pub open spec fn wf(&self) -> bool {
        self.in_flight_spec() <= self.limit_spec()
    }

    /// A gate that lets `limit` operations in at once.
    pub fn new(limit: usize) -> (g: ConcurrencyGate)
        ensures
            g.wf(),
            g.limit_spec() == limit,
            g.in_flight_spec() == 0,
    {
        ConcurrencyGate { limit, in_flight: 0 }
    }

    pub fn limit(&self) -> (r: usize)
        ensures
            r == self.limit_spec(),
    {
        self.limit
    }

    pub fn in_flight(&self) -> (r: usize)
        ensures
            r == self.in_flight_spec(),
    {
        self.in_flight
    }

    /// Lets an operation in where there is room; `false` means it must wait.
    pub fn try_acquire(&mut self) -> (granted: bool)
        requires
            old(self).wf(),
        ensures
            final(self).wf(),
            final(self).limit_spec() == old(self).limit_spec(),
            granted == (old(self).in_flight_spec() < old(self).limit_spec()),
            final(self).in_flight_spec() == if granted {
                old(self).in_flight_spec() + 1
            } else {
                old(self).in_flight_spec()
            },
    {
        if self.in_flight < self.limit {
            self.in_flight = self.in_flight + 1;
            true
        } else {
            false
        }
    }

    /// An operation has finished; `false` where none was in flight.
    pub fn release(&mut self) -> (released: bool)
        requires
            old(self).wf(),
        ensures
            final(self).wf(),
            final(self).limit_spec() == old(self).limit_spec(),
            released == (old(self).in_flight_spec() > 0),
            final(self).in_flight_spec() == if released {
                (old(self).in_flight_spec() - 1) as nat
            } else {
                old(self).in_flight_spec()
            },
    {
        if self.in_flight > 0 {
            self.in_flight = self.in_flight - 1;
            true
        } else {
            false
        }
    }

    /// Applies a sequence of events to a new gate and reports how many are in
    /// flight after each.
    pub fn replay(limit: usize, ops: &Vec<GateOp>) -> (r: Vec<usize>)
        ensures
            r@.len() == ops@.len(),
            forall|k: int| 0 <= k < r@.len() ==> #[trigger] r@[k] as nat == in_flight_after(
                limit as nat,
                ops@.take(k + 1),
            ),
    {
        let mut g = ConcurrencyGate::new(limit);
        let mut out: Vec<usize> = Vec::new();
        let mut k: usize = 0;
        while k < ops.len()
            invariant
                k <= ops@.len(),
                g.wf(),
                g.limit_spec() == limit,
                g.in_flight_spec() == in_flight_after(limit as nat, ops@.take(k as int)),
                out@.len() == k,
                forall|j: int| 0 <= j < k ==> #[trigger] out@[j] as nat == in_flight_after(
                    limit as nat,
                    ops@.take(j + 1),
                ),
            decreases ops@.len() - k,
        {
            assert(ops@.take(k + 1).drop_last() =~= ops@.take(k as int));
            match ops[k] {
                GateOp::Acquire => {
                    g.try_acquire();
                },
                GateOp::Release => {
                    g.release();
                },
            }
            out.push(g.in_flight());
            k = k + 1;
        }
        out
    }
}

/// Whatever operations arrive and leave, and in whatever order, a `ConcurrencyGate`
/// never has more than its limit in flight.
pub proof fn law_gate_bound(limit: nat, ops: Seq<GateOp>)
    ensures
        in_flight_after(limit, ops) <= limit,
    decreases ops.len(),
{
    if ops.len() > 0 {
        law_gate_bound(limit, ops.drop_last());
    }
}

} // verus!
