use crate::circuit::{edge_in_range, Circuit};
use crate::types::EdgeKind;
use vstd::prelude::*;
use vstd::set_lib::{lemma_int_range, lemma_len_subset, set_int_range};

verus! {

impl Circuit {
    /// Whether `source` is one of the four sources of `target`.
    pub open spec fn reads(self, target: int, source: int) -> bool {
        let sources = self.edges[target];
        ||| sources.0 == source
        ||| sources.1 == source
        ||| sources.2 == source
        ||| sources.3 == source
    }

    /// Whether `chain` lists OR-type elements from index 2 onward of which
    /// each is read by the one after it.
    pub open spec fn or_chain(self, chain: Seq<int>) -> bool {
        &&& forall|i: int| 0 <= i < chain.len() ==> self.evaluated(EdgeKind::Positive, chain[i])
        &&& forall|i: int|
            0 <= i < chain.len() - 1 ==> self.reads(chain[i + 1], #[trigger] chain[i])
    }

    /// Whether the OR-type elements form no feedback cycle: no chain of two
    /// or more of them ends in the element in which it starts. An element
    /// that reads itself is such a cycle.
    pub open spec fn or_acyclic(self) -> bool {
        forall|chain: Seq<int>| #[trigger]
            self.or_chain(chain) && chain.len() >= 2 ==> chain.first() != chain.last()
    }

    /// The OR-type elements from index 2 onward.
    pub open spec fn or_elements(self) -> Set<int> {
        Set::new(|target: int| self.evaluated(EdgeKind::Positive, target))
    }

    /// The number of OR-type elements from index 2 onward.
    pub open spec fn or_count(self) -> nat {
        self.or_elements().len()
    }

    /// Whether every chain of OR-type elements that ends in `target` has at
    /// most `bound` elements.
    pub open spec fn or_depth_le(self, target: int, bound: nat) -> bool {
        forall|chain: Seq<int>| #[trigger]
            self.or_chain(chain) && chain.len() > 0 && chain.last() == target ==> chain.len()
                <= bound
    }

    /// The network after `times` passes over `kind`, whether or not they
    /// change anything.
    pub open spec fn repeat(self, kind: EdgeKind, times: nat) -> Circuit
        decreases times,
    {
        if times == 0 {
            self
        } else {
            self.repeat(kind, (times - 1) as nat).pass(kind)
        }
    }

    /// Repeated passes write values only, and a well-formed network stays
    /// well-formed.
    pub proof fn lemma_repeat_frame(self, kind: EdgeKind, times: nat)
        ensures
            self.repeat(kind, times) == self.with_values(self.repeat(kind, times).values),
            self.repeat(kind, times).len() == self.len(),
            self.wf() ==> self.repeat(kind, times).wf(),
        decreases times,
    {
        if times > 0 {
            self.lemma_repeat_frame(kind, (times - 1) as nat);
            self.repeat(kind, (times - 1) as nat).lemma_pass_frame(kind);
        }
    }

    /// Passes may be counted from either end: `times + 1` passes are one
    /// pass followed by `times` passes.
    pub proof fn lemma_repeat_front(self, kind: EdgeKind, times: nat)
        ensures
            self.repeat(kind, times + 1) == self.pass(kind).repeat(kind, times),
        decreases times,
    {
        assert(self.repeat(kind, times + 1) == self.repeat(kind, times).pass(kind));
        if times > 0 {
            self.lemma_repeat_front(kind, (times - 1) as nat);
            assert(self.pass(kind).repeat(kind, times) == self.pass(kind).repeat(
                kind,
                (times - 1) as nat,
            ).pass(kind));
        }
    }

    /// Passes over values that a pass does not change leave them as they
    /// are, however many there are.
    pub proof fn lemma_repeat_fixed(self, kind: EdgeKind, times: nat)
        requires
            !self.pass_changes(kind),
        ensures
            self.repeat(kind, times) == self,
        decreases times,
    {
        if times > 0 {
            self.lemma_repeat_fixed(kind, (times - 1) as nat);
            self.lemma_pass_frame(kind);
            assert(self.pass(kind) =~= self);
        }
    }

    /// Stopping at the first pass that changes nothing loses nothing: the
    /// first phase with a budget of `budget` passes ends where `budget`
    /// OR-type passes end.
    pub proof fn lemma_or_phase_repeats(self, budget: nat)
        ensures
            self.or_phase(budget) == self.repeat(EdgeKind::Positive, budget),
        decreases budget,
    {
        if budget != 0 {
            if self.pass_changes(EdgeKind::Positive) {
                self.pass(EdgeKind::Positive).lemma_or_phase_repeats((budget - 1) as nat);
                self.lemma_repeat_front(EdgeKind::Positive, (budget - 1) as nat);
            } else {
                self.lemma_repeat_fixed(EdgeKind::Positive, budget);
            }
        }
    }

    /// A chain stays a chain when an OR-type element that reads its last
    /// element is appended.
    proof fn lemma_chain_push(self, chain: Seq<int>, target: int)
        requires
            self.or_chain(chain),
            chain.len() > 0,
            self.evaluated(EdgeKind::Positive, target),
            self.reads(target, chain.last()),
        ensures
            self.or_chain(chain.push(target)),
    {
        let longer = chain.push(target);
        assert forall|i: int| 0 <= i < longer.len() - 1 implies self.reads(
            longer[i + 1],
            #[trigger] longer[i],
        ) by {
            assert(longer[i] == chain[i]);
            if i + 1 < chain.len() {
                assert(longer[i + 1] == chain[i + 1]);
            }
        }
    }

    /// An OR-type source of an element lies one step less deep than the
    /// element.
    proof fn lemma_source_depth(self, target: int, source: int, bound: nat)
        requires
            self.evaluated(EdgeKind::Positive, target),
            self.evaluated(EdgeKind::Positive, source),
            self.reads(target, source),
            self.or_depth_le(target, bound),
        ensures
            bound >= 1,
            self.or_depth_le(source, (bound - 1) as nat),
    {
        let alone = seq![target];
        assert(self.or_chain(alone));
        assert(alone.last() == target);
        assert forall|chain: Seq<int>| #[trigger]
            self.or_chain(chain) && chain.len() > 0 && chain.last() == source implies chain.len()
            <= bound - 1 by {
            self.lemma_chain_push(chain, target);
            let longer = chain.push(target);
            assert(longer.last() == target);
        }
    }

    /// Without a feedback cycle no chain of OR-type elements is longer than
    /// the number of OR-type elements.
    pub proof fn lemma_depth_bounded(self, target: int)
        requires
            self.wf(),
            self.or_acyclic(),
        ensures
            self.or_depth_le(target, self.or_count()),
    {
        let all = self.or_elements();
        let range = set_int_range(2, self.len() as int);
        lemma_int_range(2, self.len() as int);
        assert(all.subset_of(range));
        lemma_len_subset(all, range);
        assert forall|chain: Seq<int>| #[trigger]
            self.or_chain(chain) && chain.len() > 0 && chain.last() == target implies chain.len()
            <= self.or_count() by {
            assert forall|i: int, j: int| 0 <= i < j < chain.len() implies chain[i] != chain[j] by {
                let cycle = chain.subrange(i, j + 1);
                assert(self.or_chain(cycle)) by {
                    assert forall|k: int| 0 <= k < cycle.len() implies self.evaluated(
                        EdgeKind::Positive,
                        cycle[k],
                    ) by {
                        assert(cycle[k] == chain[i + k]);
                    }
                    assert forall|k: int| 0 <= k < cycle.len() - 1 implies self.reads(
                        cycle[k + 1],
                        #[trigger] cycle[k],
                    ) by {
                        assert(cycle[k] == chain[i + k]);
                        assert(cycle[k + 1] == chain[i + k + 1]);
                    }
                }
                assert(cycle.first() == chain[i]);
                assert(cycle.last() == chain[j]);
            }
            assert(chain.no_duplicates());
            chain.unique_seq_to_set();
            assert(chain.to_set().subset_of(all)) by {
                assert forall|x: int| chain.to_set().contains(x) implies all.contains(x) by {
                    let k = choose|k: int| 0 <= k < chain.len() && chain[k] == x;
                    assert(self.evaluated(EdgeKind::Positive, chain[k]));
                }
            }
            lemma_len_subset(chain.to_set(), all);
        }
    }

    /// An element whose chains have at most `depth` elements keeps its value
    /// from the pass numbered `depth` onward: pass `rounds + 1` leaves it
    /// what pass `rounds` left it.
    pub proof fn lemma_settled_after(self, target: int, depth: nat, rounds: nat)
        requires
            self.wf(),
            0 <= target < self.len(),
            self.evaluated(EdgeKind::Positive, target) ==> self.or_depth_le(target, depth),
            rounds >= depth,
        ensures
            self.repeat(EdgeKind::Positive, rounds + 1).values[target] == self.repeat(
                EdgeKind::Positive,
                rounds,
            ).values[target],
        decreases depth, 1nat,
    {
        let kind = EdgeKind::Positive;
        let now = self.repeat(kind, rounds);
        let next = self.repeat(kind, rounds + 1);
        self.lemma_repeat_frame(kind, rounds);
        now.lemma_pass_frame(kind);
        assert(next == now.pass(kind));
        if self.evaluated(kind, target) {
            let sources = self.edges[target];
            self.lemma_source_settled(target, sources.0 as int, depth, rounds);
            self.lemma_source_settled(target, sources.1 as int, depth, rounds);
            self.lemma_source_settled(target, sources.2 as int, depth, rounds);
            self.lemma_source_settled(target, sources.3 as int, depth, rounds);
            let earlier = self.repeat(kind, (rounds - 1) as nat);
            self.lemma_repeat_frame(kind, (rounds - 1) as nat);
            assert(now == earlier.pass(kind));
            earlier.lemma_pass_polarity(kind);
            now.lemma_pass_polarity(kind);
            assert(now.values[target] == earlier.rule_at(kind, now.values, target));
            assert(next.values[target] == now.rule_at(kind, next.values, target));
        }
    }

    /// What [`Circuit::lemma_settled_after`] needs of one source of an
    /// OR-type element: three passes in a row leave the source one value.
    proof fn lemma_source_settled(self, target: int, source: int, depth: nat, rounds: nat)
        requires
            self.wf(),
            self.evaluated(EdgeKind::Positive, target),
            self.reads(target, source),
            self.or_depth_le(target, depth),
            rounds >= depth,
        ensures
            rounds >= 1,
            self.repeat(EdgeKind::Positive, rounds + 1).values[source] == self.repeat(
                EdgeKind::Positive,
                rounds,
            ).values[source],
            self.repeat(EdgeKind::Positive, rounds).values[source] == self.repeat(
                EdgeKind::Positive,
                (rounds - 1) as nat,
            ).values[source],
        decreases depth, 0nat,
    {
        assert(edge_in_range(self.edges[target], self.len()));
        let alone = seq![target];
        assert(self.or_chain(alone));
        assert(alone.last() == target);
        if self.evaluated(EdgeKind::Positive, source) {
            self.lemma_source_depth(target, source, depth);
        }
        self.lemma_settled_after(source, (depth - 1) as nat, rounds);
        self.lemma_settled_after(source, (depth - 1) as nat, (rounds - 1) as nat);
    }

    /// Bound of the first phase: in a network whose OR-type elements form
    /// no feedback cycle, as many OR-type passes as there are OR-type
    /// elements reach values that a further OR-type pass does not change.
    /// Every OR-type element then holds the OR of its four sources.
    pub proof fn lemma_or_phase_converges(self, budget: nat)
        requires
            self.wf(),
            self.or_acyclic(),
            budget >= self.or_count(),
        ensures
            self.or_phase(budget).stable_for(EdgeKind::Positive),
            !self.or_phase(budget).pass_changes(EdgeKind::Positive),
    {
        let kind = EdgeKind::Positive;
        let last = self.or_phase(budget);
        let next = self.repeat(kind, budget + 1);
        self.lemma_or_phase_frame(budget);
        self.lemma_or_phase_repeats(budget);
        last.lemma_pass_frame(kind);
        assert(next == last.pass(kind));
        assert forall|target: int| 0 <= target < self.len() implies next.values[target]
            == last.values[target] by {
            self.lemma_depth_bounded(target);
            self.lemma_settled_after(target, self.or_count(), budget);
        }
        assert(next.values =~= last.values);
        last.lemma_pass_changes_iff_unstable(kind);
    }

    /// The bound for a tick: where the OR-type elements form no feedback
    /// cycle and the declared OR-type count is not below their number, the
    /// first phase of the tick ends at values that a further OR-type pass
    /// would not change.
    pub proof fn lemma_settle_converges(self)
        requires
            self.wf(),
            self.or_acyclic(),
            self.or_count() <= self.positive_edges_len,
        ensures
            self.settle().stable_for(EdgeKind::Positive),
            !self.settle().pass_changes(EdgeKind::Positive),
    {
        self.lemma_or_phase_converges(self.positive_edges_len + 1);
    }
}

} // verus!
