use crate::circuit::{edge_in_range, Circuit};
use crate::hint::assert_unchecked;
use crate::log::{print_edge, TraceSink};
use crate::types::{ContractViolation, Edge, EdgeKind};
use vstd::prelude::*;

verus! {

/// A validated handle on the three buffers of a network.
///
/// The buffers stay where the caller keeps them: the handle borrows the
/// values for writing and the kinds and the wiring for reading. Every handle
/// that exists describes a well-formed network, so the passes over it index
/// the buffers without checking again.
pub struct State<'data> {
    values: &'data mut [bool],
    edge_types: &'data [EdgeKind],
    edges: &'data [Edge],
    vertices_len: usize,
    positive_edges_len: usize,
}

impl<'data> View for State<'data> {
    type V = Circuit;

    closed spec fn view(&self) -> Circuit {
        Circuit {
            values: self.values@,
            edge_types: self.edge_types@,
            edges: self.edges@,
            positive_edges_len: self.positive_edges_len as nat,
        }
    }
}

/// The first invariant, in the order in which [`State::new`] checks them,
/// that the given buffers and counts break, if there is one.
pub open spec fn violation(
    values: Seq<bool>,
    edge_types: Seq<EdgeKind>,
    edges: Seq<Edge>,
    vertices_len: usize,
    positive_edges_len: usize,
) -> Option<ContractViolation> {
    if values.len() != vertices_len || edge_types.len() != vertices_len || edges.len()
        != vertices_len {
        Some(ContractViolation::LengthMismatch)
    } else if vertices_len < 2 {
        Some(ContractViolation::TooFewElements)
    } else if positive_edges_len > vertices_len {
        Some(ContractViolation::PositiveCountTooLarge)
    } else if exists|target: int|
        2 <= target < vertices_len && !edge_in_range(
            #[trigger] edges[target],
            vertices_len as nat,
        ) {
        Some(ContractViolation::WiringOutOfRange)
    } else {
        None
    }
}

/// Buffers and counts break no invariant exactly when they describe a
/// well-formed network of `vertices_len` elements.
pub proof fn lemma_no_violation_iff_wf(
    values: Seq<bool>,
    edge_types: Seq<EdgeKind>,
    edges: Seq<Edge>,
    vertices_len: usize,
    positive_edges_len: usize,
)
    ensures
        violation(values, edge_types, edges, vertices_len, positive_edges_len) is None <==> {
            &&& values.len() == vertices_len
            &&& (Circuit {
                values,
                edge_types,
                edges,
                positive_edges_len: positive_edges_len as nat,
            }).wf()
        },
{
    let circuit = Circuit { values, edge_types, edges, positive_edges_len: positive_edges_len as nat };
    if circuit.wf() && values.len() == vertices_len {
        assert forall|target: int| 2 <= target < vertices_len implies edge_in_range(
            #[trigger] edges[target],
            vertices_len as nat,
        ) by {
            assert(edge_in_range(circuit.edges[target], circuit.len()));
        }
    }
}

impl<'data> State<'data> {
    #[verifier::type_invariant]
    spec fn valid(self) -> bool {
        &&& self@.wf()
        &&& self.vertices_len == self@.len()
    }

    /// The borrow of the value buffer that the handle holds. What the
    /// buffer holds once the borrow has ended is `final(state.buffer())@`.
    pub closed spec fn buffer(self) -> &'data mut [bool] {
        self.values
    }

    /// Once the handle is no longer used, the buffer that it borrowed holds
    /// the values that the handle showed last.
    pub proof fn lemma_released(self)
        requires
            has_resolved(self),
        ensures
            final(self.buffer())@ == self@.values,
    {
    }

    /// Wraps the three buffers of a network of `vertices_len` elements, of
    /// which `positive_edges_len` are declared to be OR-type.
    ///
    /// The handle is made exactly when the buffers and counts break no
    /// invariant of a network; it then shows the buffers as they are and
    /// writes into `values`. Otherwise the first broken invariant is
    /// returned and nothing has been written.
    pub fn new(
        values: &'data mut [bool],
        edge_types: &'data [EdgeKind],
        edges: &'data [Edge],
        vertices_len: usize,
        positive_edges_len: usize,
    ) -> (made: Result<State<'data>, ContractViolation>)
        ensures
            match made {
                Ok(state) => {
                    &&& violation(
                        old(values)@,
                        edge_types@,
                        edges@,
                        vertices_len,
                        positive_edges_len,
                    ) is None
                    &&& state@ == (Circuit {
                        values: old(values)@,
                        edge_types: edge_types@,
                        edges: edges@,
                        positive_edges_len: positive_edges_len as nat,
                    })
                    &&& final(state.buffer())@ == final(values)@
                },
                Err(broken) => {
                    &&& violation(
                        old(values)@,
                        edge_types@,
                        edges@,
                        vertices_len,
                        positive_edges_len,
                    ) == Some(broken)
                    &&& final(values)@ == old(values)@
                },
            },
    {
        if values.len() != vertices_len || edge_types.len() != vertices_len || edges.len()
            != vertices_len {
            return Err(ContractViolation::LengthMismatch);
        }
        if vertices_len < 2 {
            return Err(ContractViolation::TooFewElements);
        }
        if positive_edges_len > vertices_len {
            return Err(ContractViolation::PositiveCountTooLarge);
        }
        for i in 2..vertices_len
            invariant
                values@ == old(values)@,
                values@.len() == vertices_len,
                edge_types@.len() == vertices_len,
                edges@.len() == vertices_len,
                positive_edges_len <= vertices_len,
                forall|target: int|
                    2 <= target < i ==> edge_in_range(
                        #[trigger] edges@[target],
                        vertices_len as nat,
                    ),
        {
            if !Self::check_edge(&edges[i], vertices_len) {
                return Err(ContractViolation::WiringOutOfRange);
            }
        }
        Ok(State { values, edge_types, edges, vertices_len, positive_edges_len })
    }

    /// Whether all four sources of `sources` are below `vertices_len`.
    fn check_edge(sources: &Edge, vertices_len: usize) -> (in_range: bool)
        ensures
            in_range == edge_in_range(*sources, vertices_len as nat),
    {
        sources.0 < vertices_len && sources.1 < vertices_len && sources.2 < vertices_len
            && sources.3 < vertices_len
    }

    /// Recalls the invariants of the network, which hold of every handle
    /// since [`State::new`] checked them.
    pub fn assert_valid_state(&self)
        ensures
            self@.wf(),
    {
        proof {
            use_type_invariant(self);
        }
        assert_unchecked(self.values.len() == self.vertices_len);
        assert_unchecked(self.edge_types.len() == self.vertices_len);
        assert_unchecked(self.edges.len() == self.vertices_len);
        assert_unchecked(self.vertices_len >= 2);
        assert_unchecked(self.positive_edges_len <= self.vertices_len);
    }

    /// Recalls that the wiring of an element from index 2 onward names four
    /// existing sources.
    pub fn assert_valid_edge(&self, sources: &Edge)
        requires
            exists|target: int| 2 <= target < self@.len() && self@.edges[target] == *sources,
        ensures
            edge_in_range(*sources, self@.len()),
    {
        proof {
            use_type_invariant(self);
        }
        assert_unchecked(sources.0 < self.vertices_len);
        assert_unchecked(sources.1 < self.vertices_len);
        assert_unchecked(sources.2 < self.vertices_len);
        assert_unchecked(sources.3 < self.vertices_len);
    }
}

/// Runs one pass over the elements of `kind`: visits the elements from
/// index 2 upward and gives each one of that kind the output of its gate,
/// computed from the values that the buffer holds at that moment. Every
/// element that takes a new value is reported to `sink`. Returns whether any
/// element changed. The handle goes on writing into the buffer that it
/// borrowed.
///
/// An element of `kind` ends as the OR of its four sources, negated for
/// [`EdgeKind::Negative`], where a source below the element is read as the
/// pass leaves it and any other source as the pass found it. Every other
/// element keeps its value.
pub fn process_edges<T: TraceSink>(state: &mut State, kind: EdgeKind, sink: &mut T) -> (updated:
    bool)
    ensures
        final(state)@ == old(state)@.pass(kind),
        final(state)@ == old(state)@.with_values(final(state)@.values),
        old(state)@.pass_rule(kind, final(state)@.values),
        updated == old(state)@.pass_changes(kind),
        final(sink).history() == old(sink).history() + old(state)@.pass_trace(kind),
        final(final(state).buffer())@ == final(old(state).buffer())@,
{
    let mut updated = false;
    let is_negative = kind == EdgeKind::Negative;
    let symbol = if is_negative {
        '-'
    } else {
        '+'
    };

    state.assert_valid_state();

    let ghost before = state@;
    let ghost heard = sink.history();
    let vertices_len: usize = state.vertices_len;
    proof {
        use_type_invariant(&*state);
    }

    for target in 2..vertices_len
        invariant
            vertices_len == before.len(),
            before.wf(),
            is_negative == (kind == EdgeKind::Negative),
            symbol == kind.symbol(),
            state@ == before.sweep(kind, target as nat),
            state@.len() == before.len(),
            final(state.buffer())@ == final(old(state).buffer())@,
            updated == (state@.values != before.values),
            forall|i: int| target <= i < vertices_len ==> state@.values[i] == before.values[i],
            sink.history() == heard + before.sweep_trace(kind, target as nat),
    {
        proof {
            use_type_invariant(&*state);
        }
        let ghost current = state@;
        if state.edge_types[target] == kind {
            let sources = &state.edges[target];
            state.assert_valid_edge(sources);

            let value = (state.values[sources.0] || state.values[sources.1]
                || state.values[sources.2] || state.values[sources.3]) ^ is_negative;

            if value != state.values[target] {
                print_edge(sink, symbol, target, sources, value);
                state.values[target] = value;
                updated = true;
                assert(state@.values[target as int] != before.values[target as int]);
            }
        }
        assert(state@ =~= current.step(kind, target as int));
        assert(sink.history() =~= heard + before.sweep_trace(kind, (target + 1) as nat));
    }

    proof {
        before.lemma_pass_frame(kind);
        before.lemma_pass_polarity(kind);
    }
    updated
}

/// Advances the network by one tick.
///
/// The first phase repeats the pass over the OR-type elements until a pass
/// changes nothing, for at most one pass more than the declared OR-type
/// count. The second phase runs the pass over the NOR-type elements once.
/// Every element that takes a new value is reported to `sink`. Returns
/// whether any pass changed an element, which is the case exactly when the
/// network was not at a fixed point; a tick that returns `false` has left
/// every value as it was. The handle goes on writing into the buffer that it
/// borrowed.
pub fn next_frame<T: TraceSink>(state: &mut State, sink: &mut T) -> (anything_updated: bool)
    ensures
        final(state)@ == old(state)@.tick(),
        final(state)@ == old(state)@.with_values(final(state)@.values),
        anything_updated == old(state)@.tick_changes(),
        anything_updated == !old(state)@.stable(),
        !anything_updated ==> final(state)@ == old(state)@,
        final(sink).history() == old(sink).history() + old(state)@.tick_trace(),
        final(final(state).buffer())@ == final(old(state).buffer())@,
{
    let mut anything_updated = false;

    state.assert_valid_state();

    let ghost before = state@;
    let ghost heard = sink.history();

    // The first pass always runs; `spare` counts the passes that may follow
    // the next one.
    let mut spare: usize = state.positive_edges_len;

    loop
        invariant_except_break
            before.settle() == state@.or_phase((spare + 1) as nat),
            heard + before.or_phase_trace(before.positive_edges_len + 1) == sink.history()
                + state@.or_phase_trace((spare + 1) as nat),
            anything_updated ==> before.pass_changes(EdgeKind::Positive),
            !anything_updated ==> state@ == before,
        invariant
            final(state.buffer())@ == final(old(state).buffer())@,
        ensures
            state@ == before.settle(),
            sink.history() == heard + before.or_phase_trace(before.positive_edges_len + 1),
            anything_updated == before.pass_changes(EdgeKind::Positive),
        decreases spare,
    {
        let ghost current = state@;
        let ghost told = sink.history();
        if !process_edges(state, EdgeKind::Positive, sink) {
            proof {
                current.lemma_pass_frame(EdgeKind::Positive);
                assert(state@ =~= current);
            }
            break ;
        }
        anything_updated = true;
        proof {
            let rest = state@.or_phase_trace(spare as nat);
            assert(current.or_phase_trace((spare + 1) as nat) == current.pass_trace(
                EdgeKind::Positive,
            ) + rest);
            assert(told + (current.pass_trace(EdgeKind::Positive) + rest) =~= sink.history()
                + rest);
            assert(current.or_phase((spare + 1) as nat) == state@.or_phase(spare as nat));
        }
        if spare == 0 {
            assert(sink.history() + state@.or_phase_trace(0) =~= sink.history());
            break ;
        }
        spare -= 1;
    }

    if process_edges(state, EdgeKind::Negative, sink) {
        anything_updated = true;
    }

    proof {
        before.lemma_tick_frame();
        before.lemma_tick_changes_iff_unstable();
    }
    anything_updated
}

} // verus!
