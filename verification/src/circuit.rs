use crate::types::{Edge, EdgeKind, TraceEvent};
use vstd::prelude::*;

verus! {

/// The mathematical model of a network: what the three buffers hold, and the
/// declared number of OR-type elements.
#[verifier::ext_equal]
pub ghost struct Circuit {
    /// The value of each element.
    pub values: Seq<bool>,
    /// The kind of each element; the entries at 0 and 1 are never read.
    pub edge_types: Seq<EdgeKind>,
    /// The four sources of each element; the entries at 0 and 1 are never
    /// read.
    pub edges: Seq<Edge>,
    /// The declared number of OR-type elements, which bounds the number of
    /// OR-type passes of a tick.
    pub positive_edges_len: nat,
}

/// Whether all four sources of a wiring tuple are below `len`.
pub open spec fn edge_in_range(sources: Edge, len: nat) -> bool {
    &&& sources.0 < len
    &&& sources.1 < len
    &&& sources.2 < len
    &&& sources.3 < len
}

impl Circuit {
    /// The number of elements.
    pub open spec fn len(self) -> nat {
        self.values.len()
    }

    /// The invariants of a network: the three buffers have one length, which
    /// is at least two; the declared OR-type count does not exceed it; and
    /// every element from index 2 onward names four existing sources.
    pub open spec fn wf(self) -> bool {
        &&& self.len() >= 2
        &&& self.edge_types.len() == self.len()
        &&& self.edges.len() == self.len()
        &&& self.positive_edges_len <= self.len()
        &&& forall|target: int|
            2 <= target < self.len() ==> edge_in_range(#[trigger] self.edges[target], self.len())
    }

    /// The same network with other values.
    pub open spec fn with_values(self, values: Seq<bool>) -> Circuit {
        Circuit { values, ..self }
    }

    /// Whether a pass over `kind` recomputes element `target`: the elements
    /// at 0 and 1 are constants, and the others are recomputed by the pass
    /// over their own kind.
    pub open spec fn evaluated(self, kind: EdgeKind, target: int) -> bool {
        2 <= target < self.len() && self.edge_types[target] == kind
    }

    /// Whether at least one of the four sources of `target` is true.
    pub open spec fn any_source(self, target: int) -> bool {
        let sources = self.edges[target];
        ||| self.values[sources.0 as int]
        ||| self.values[sources.1 as int]
        ||| self.values[sources.2 as int]
        ||| self.values[sources.3 as int]
    }

    /// The output of `target` under the polarity of `kind`, computed from
    /// the current values of its sources: their OR for
    /// [`EdgeKind::Positive`], their NOR for [`EdgeKind::Negative`].
    pub open spec fn gate(self, kind: EdgeKind, target: int) -> bool {
        self.any_source(target) != (kind == EdgeKind::Negative)
    }

    /// The network after a pass over `kind` has visited `target`: an element
    /// of that kind takes the output of its gate, any other stays.
    pub open spec fn step(self, kind: EdgeKind, target: int) -> Circuit {
        if self.edge_types[target] == kind {
            self.with_values(self.values.update(target, self.gate(kind, target)))
        } else {
            self
        }
    }

    /// The event that the visit of `target` reports: none when the element
    /// is of another kind or keeps its value, else one event with the new
    /// value.
    pub open spec fn step_trace(self, kind: EdgeKind, target: int) -> Seq<TraceEvent> {
        if self.edge_types[target] == kind && self.gate(kind, target) != self.values[target] {
            seq![
                TraceEvent {
                    kind: kind.symbol(),
                    target: target as usize,
                    sources: self.edges[target],
                    value: self.gate(kind, target),
                },
            ]
        } else {
            Seq::empty()
        }
    }

    /// The network after a pass over `kind` has visited the elements from 2
    /// up to, but not including, `upto`, in ascending order. Each visit
    /// reads the values that the visits before it have left.
    pub open spec fn sweep(self, kind: EdgeKind, upto: nat) -> Circuit
        decreases upto,
    {
        if upto <= 2 {
            self
        } else {
            self.sweep(kind, (upto - 1) as nat).step(kind, upto - 1)
        }
    }

    /// The events that the visits of [`Circuit::sweep`] report, in order.
    pub open spec fn sweep_trace(self, kind: EdgeKind, upto: nat) -> Seq<TraceEvent>
        decreases upto,
    {
        if upto <= 2 {
            Seq::empty()
        } else {
            self.sweep_trace(kind, (upto - 1) as nat) + self.sweep(
                kind,
                (upto - 1) as nat,
            ).step_trace(kind, upto - 1)
        }
    }

    /// The network as the visit of `target` finds it in a pass that starts
    /// from `self` and ends with the values `after`: the elements below
    /// `target` hold their final values already, the others still hold the
    /// values from before the pass.
    pub open spec fn seen_at(self, after: Seq<bool>, target: int) -> Circuit {
        self.with_values(
            Seq::new(
                self.len(),
                |source: int|
                    if source < target {
                        after[source]
                    } else {
                        self.values[source]
                    },
            ),
        )
    }

    /// The value that the rule of a pass over `kind` gives element `target`
    /// when the pass starts from `self` and ends with the values `after`: an
    /// element of that kind from index 2 onward holds the output of its gate
    /// as its visit finds the network, any other element keeps its value.
    pub open spec fn rule_at(self, kind: EdgeKind, after: Seq<bool>, target: int) -> bool {
        if self.evaluated(kind, target) {
            self.seen_at(after, target).gate(kind, target)
        } else {
            self.values[target]
        }
    }

    /// Whether the values `after` obey the rule of a pass over `kind` that
    /// starts from `self`, in every element.
    pub open spec fn pass_rule(self, kind: EdgeKind, after: Seq<bool>) -> bool {
        &&& after.len() == self.len()
        &&& forall|target: int|
            0 <= target < self.len() ==> #[trigger] after[target] == self.rule_at(
                kind,
                after,
                target,
            )
    }

    /// The network after one full pass over the elements of `kind`.
    pub open spec fn pass(self, kind: EdgeKind) -> Circuit {
        self.sweep(kind, self.len())
    }

    /// Whether a full pass over `kind` changes any value.
    pub open spec fn pass_changes(self, kind: EdgeKind) -> bool {
        self.pass(kind).values != self.values
    }

    /// The events that one full pass over `kind` reports.
    pub open spec fn pass_trace(self, kind: EdgeKind) -> Seq<TraceEvent> {
        self.sweep_trace(kind, self.len())
    }

    /// The network after the first phase of a tick with at most `budget`
    /// OR-type passes: passes repeat until one changes nothing or the budget
    /// is spent.
    pub open spec fn or_phase(self, budget: nat) -> Circuit
        decreases budget,
    {
        if budget == 0 || !self.pass_changes(EdgeKind::Positive) {
            self
        } else {
            self.pass(EdgeKind::Positive).or_phase((budget - 1) as nat)
        }
    }

    /// The events that [`Circuit::or_phase`] reports, in order.
    pub open spec fn or_phase_trace(self, budget: nat) -> Seq<TraceEvent>
        decreases budget,
    {
        if budget == 0 {
            Seq::empty()
        } else if !self.pass_changes(EdgeKind::Positive) {
            self.pass_trace(EdgeKind::Positive)
        } else {
            self.pass_trace(EdgeKind::Positive) + self.pass(EdgeKind::Positive).or_phase_trace(
                (budget - 1) as nat,
            )
        }
    }

    /// The network after the first phase of a tick: at most one OR-type pass
    /// more than the declared OR-type count.
    pub open spec fn settle(self) -> Circuit {
        self.or_phase(self.positive_edges_len + 1)
    }

    /// The network after one tick: the first phase, then exactly one
    /// NOR-type pass.
    pub open spec fn tick(self) -> Circuit {
        self.settle().pass(EdgeKind::Negative)
    }

    /// Whether any pass of the tick changes a value. The first phase changes
    /// one exactly when its first pass does.
    pub open spec fn tick_changes(self) -> bool {
        self.pass_changes(EdgeKind::Positive) || self.settle().pass_changes(EdgeKind::Negative)
    }

    /// The events that one tick reports: those of the first phase, then
    /// those of the NOR-type pass.
    pub open spec fn tick_trace(self) -> Seq<TraceEvent> {
        self.or_phase_trace(self.positive_edges_len + 1) + self.settle().pass_trace(
            EdgeKind::Negative,
        )
    }

    /// A sweep writes values only: the kinds, the wiring, the declared
    /// OR-type count and the number of elements stay, and so does every
    /// value that the sweep has not visited.
    pub proof fn lemma_sweep_frame(self, kind: EdgeKind, upto: nat)
        requires
            upto <= self.len(),
        ensures
            self.sweep(kind, upto) == self.with_values(self.sweep(kind, upto).values),
            self.sweep(kind, upto).len() == self.len(),
            forall|i: int|
                0 <= i < self.len() && (i < 2 || upto <= i) ==> self.sweep(kind, upto).values[i]
                    == self.values[i],
        decreases upto,
    {
        if upto > 2 {
            self.lemma_sweep_frame(kind, (upto - 1) as nat);
        }
    }

    /// A sweep over `kind` leaves an element of another kind as it was.
    pub proof fn lemma_sweep_skips(self, kind: EdgeKind, upto: nat, i: int)
        requires
            upto <= self.len(),
            0 <= i < self.len(),
            !self.evaluated(kind, i),
        ensures
            self.sweep(kind, upto).values[i] == self.values[i],
        decreases upto,
    {
        if upto > 2 {
            self.lemma_sweep_frame(kind, (upto - 1) as nat);
            self.lemma_sweep_skips(kind, (upto - 1) as nat, i);
        }
    }

    /// Once a sweep has visited an element, the rest of the sweep leaves its
    /// value alone.
    pub proof fn lemma_sweep_settled(self, kind: EdgeKind, upto: nat, later: nat, i: int)
        requires
            0 <= i < upto <= later <= self.len(),
        ensures
            self.sweep(kind, later).values[i] == self.sweep(kind, upto).values[i],
        decreases later,
    {
        if later > upto {
            self.lemma_sweep_frame(kind, (later - 1) as nat);
            self.lemma_sweep_settled(kind, upto, (later - 1) as nat, i);
        }
    }

    /// In the middle of a pass the elements already visited hold their
    /// final values and the others their values from before the pass.
    pub proof fn lemma_sweep_seen(self, kind: EdgeKind, upto: nat)
        requires
            upto <= self.len(),
        ensures
            self.sweep(kind, upto) == self.seen_at(self.pass(kind).values, upto as int),
    {
        self.lemma_sweep_frame(kind, upto);
        let partial = self.sweep(kind, upto);
        let mixed = self.seen_at(self.pass(kind).values, upto as int);
        assert forall|i: int| 0 <= i < self.len() implies partial.values[i] == mixed.values[i] by {
            if i < upto {
                self.lemma_sweep_settled(kind, upto, self.len(), i);
            }
        }
        assert(partial.values =~= mixed.values);
    }

    /// A pass writes values only, and never those of the elements at 0 and
    /// 1 or of an element of another kind; a well-formed network stays
    /// well-formed.
    pub proof fn lemma_pass_frame(self, kind: EdgeKind)
        ensures
            self.pass(kind) == self.with_values(self.pass(kind).values),
            self.pass(kind).len() == self.len(),
            self.wf() ==> self.pass(kind).wf(),
            forall|i: int|
                0 <= i < self.len() && !self.evaluated(kind, i) ==> self.pass(kind).values[i]
                    == self.values[i],
    {
        self.lemma_sweep_frame(kind, self.len());
        assert forall|i: int| 0 <= i < self.len() && !self.evaluated(kind, i) implies self.pass(
            kind,
        ).values[i] == self.values[i] by {
            self.lemma_sweep_skips(kind, self.len(), i);
        }
    }

    /// The first phase writes values only, and never those of the elements
    /// at 0 and 1 or of a NOR-type element; a well-formed network stays
    /// well-formed.
    pub proof fn lemma_or_phase_frame(self, budget: nat)
        ensures
            self.or_phase(budget) == self.with_values(self.or_phase(budget).values),
            self.or_phase(budget).len() == self.len(),
            self.wf() ==> self.or_phase(budget).wf(),
            forall|i: int|
                0 <= i < self.len() && !self.evaluated(EdgeKind::Positive, i) ==> self.or_phase(
                    budget,
                ).values[i] == self.values[i],
        decreases budget,
    {
        if budget != 0 && self.pass_changes(EdgeKind::Positive) {
            self.lemma_pass_frame(EdgeKind::Positive);
            self.pass(EdgeKind::Positive).lemma_or_phase_frame((budget - 1) as nat);
        }
    }

    /// [`Circuit::lemma_or_phase_frame`] for the budget of a tick.
    pub proof fn lemma_settle_frame(self)
        ensures
            self.settle() == self.with_values(self.settle().values),
            self.settle().len() == self.len(),
            self.wf() ==> self.settle().wf(),
            forall|i: int|
                0 <= i < self.len() && !self.evaluated(EdgeKind::Positive, i)
                    ==> self.settle().values[i] == self.values[i],
    {
        self.lemma_or_phase_frame(self.positive_edges_len + 1);
    }

    /// A tick writes values only, and never those of the elements at 0 and
    /// 1; a well-formed network stays well-formed.
    pub proof fn lemma_tick_frame(self)
        ensures
            self.tick() == self.with_values(self.tick().values),
            self.tick().len() == self.len(),
            self.wf() ==> self.tick().wf(),
            self.len() >= 2 ==> self.tick().values[0] == self.values[0] && self.tick().values[1]
                == self.values[1],
    {
        self.lemma_settle_frame();
        self.settle().lemma_pass_frame(EdgeKind::Negative);
    }
}

} // verus!
