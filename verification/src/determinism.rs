use crate::circuit::Circuit;
use crate::types::EdgeKind;
use vstd::prelude::*;

verus! {

impl Circuit {
    /// Whether element `target` has the same kind and the same wiring in
    /// both networks.
    pub open spec fn same_element(self, other: Circuit, target: int) -> bool {
        &&& self.edge_types[target] == other.edge_types[target]
        &&& self.edges[target] == other.edges[target]
    }

    /// Whether two networks agree in everything that a tick reads: the
    /// values, the declared OR-type count, and the kind and the wiring of
    /// every element from index 2 onward.
    pub open spec fn agrees_with(self, other: Circuit) -> bool {
        &&& self.values == other.values
        &&& self.positive_edges_len == other.positive_edges_len
        &&& forall|target: int|
            2 <= target < self.len() ==> #[trigger] self.same_element(other, target)
    }

    /// Sweeps over networks that agree leave networks that agree, and
    /// report the same events.
    proof fn lemma_sweep_agrees(self, other: Circuit, kind: EdgeKind, upto: nat)
        requires
            self.agrees_with(other),
            upto <= self.len(),
        ensures
            self.sweep(kind, upto).agrees_with(other.sweep(kind, upto)),
            self.sweep_trace(kind, upto) == other.sweep_trace(kind, upto),
        decreases upto,
    {
        if upto > 2 {
            let target = upto - 1;
            self.lemma_sweep_agrees(other, kind, target as nat);
            self.lemma_sweep_frame(kind, target as nat);
            other.lemma_sweep_frame(kind, target as nat);
            let mine = self.sweep(kind, target as nat);
            let theirs = other.sweep(kind, target as nat);
            let next = mine.step(kind, target);
            let their_next = theirs.step(kind, target);
            assert(mine.same_element(theirs, target));
            assert(next.values == their_next.values);
            assert forall|at: int| 2 <= at < next.len() implies #[trigger] next.same_element(
                their_next,
                at,
            ) by {
                assert(mine.same_element(theirs, at));
            }
        }
    }

    /// First phases of networks that agree leave networks that agree, and
    /// report the same events.
    proof fn lemma_or_phase_agrees(self, other: Circuit, budget: nat)
        requires
            self.agrees_with(other),
        ensures
            self.or_phase(budget).agrees_with(other.or_phase(budget)),
            self.or_phase_trace(budget) == other.or_phase_trace(budget),
        decreases budget,
    {
        self.lemma_sweep_agrees(other, EdgeKind::Positive, self.len());
        if budget != 0 && self.pass_changes(EdgeKind::Positive) {
            self.pass(EdgeKind::Positive).lemma_or_phase_agrees(
                other.pass(EdgeKind::Positive),
                (budget - 1) as nat,
            );
        }
    }

    /// The entries at 0 and 1 of the kind buffer and of the wiring buffer
    /// are never read: ticks of two networks that differ in nothing else
    /// leave the same values, report the same events and return the same
    /// flag.
    pub proof fn lemma_reserved_entries_unread(self, other: Circuit)
        requires
            self.agrees_with(other),
        ensures
            self.tick().values == other.tick().values,
            self.tick_changes() == other.tick_changes(),
            self.tick_trace() == other.tick_trace(),
    {
        self.lemma_sweep_agrees(other, EdgeKind::Positive, self.len());
        self.lemma_or_phase_agrees(other, self.positive_edges_len + 1);
        self.settle().lemma_sweep_agrees(other.settle(), EdgeKind::Negative, self.settle().len());
    }

    /// A tick is a function of the buffers and the declared OR-type count:
    /// two ticks that start from equal buffers and equal counts leave equal
    /// buffers, report the same events and return the same flag.
    pub proof fn lemma_tick_deterministic(self, other: Circuit)
        requires
            self.values == other.values,
            self.edge_types == other.edge_types,
            self.edges == other.edges,
            self.positive_edges_len == other.positive_edges_len,
        ensures
            self.tick() == other.tick(),
            self.tick_changes() == other.tick_changes(),
            self.tick_trace() == other.tick_trace(),
    {
        assert(self =~= other);
    }
}

} // verus!
