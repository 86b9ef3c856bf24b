use crate::circuit::Circuit;
use crate::types::EdgeKind;
use vstd::prelude::*;

verus! {

impl Circuit {
    /// Whether every element that a pass over `kind` recomputes already
    /// holds the output of its gate.
    pub open spec fn stable_for(self, kind: EdgeKind) -> bool {
        forall|target: int| #[trigger]
            self.evaluated(kind, target) ==> self.values[target] == self.gate(kind, target)
    }

    /// Whether the network is at a fixed point: every element from index 2
    /// onward holds the output of its own gate.
    pub open spec fn stable(self) -> bool {
        self.stable_for(EdgeKind::Positive) && self.stable_for(EdgeKind::Negative)
    }

    /// Whether no NOR-type element has a NOR-type element from index 2
    /// onward, itself included, among its sources.
    pub open spec fn nor_isolated(self) -> bool {
        forall|target: int| #[trigger]
            self.evaluated(EdgeKind::Negative, target) ==> {
                let sources = self.edges[target];
                &&& !self.evaluated(EdgeKind::Negative, sources.0 as int)
                &&& !self.evaluated(EdgeKind::Negative, sources.1 as int)
                &&& !self.evaluated(EdgeKind::Negative, sources.2 as int)
                &&& !self.evaluated(EdgeKind::Negative, sources.3 as int)
            }
    }

    /// Polarity of a pass: the values that a pass leaves obey its rule. An
    /// element of the pass's kind holds the OR of its four sources, negated
    /// for a NOR-type pass, where a source below the element is read as the
    /// pass left it and any other source as it was before the pass. Every
    /// other element keeps its value.
    pub proof fn lemma_pass_polarity(self, kind: EdgeKind)
        requires
            self.wf(),
        ensures
            self.pass_rule(kind, self.pass(kind).values),
    {
        self.lemma_pass_frame(kind);
        let after = self.pass(kind).values;
        assert forall|target: int| 0 <= target < self.len() implies #[trigger] after[target]
            == self.rule_at(kind, after, target) by {
            if self.evaluated(kind, target) {
                let upto = target as nat;
                self.lemma_sweep_frame(kind, upto);
                self.lemma_sweep_seen(kind, upto);
                self.lemma_sweep_settled(kind, upto + 1, self.len(), target);
                assert(self.sweep(kind, upto + 1) == self.sweep(kind, upto).step(kind, target));
            }
        }
    }

    /// The rule of a pass has one solution only: values that obey it are
    /// the values that the pass leaves.
    pub proof fn lemma_pass_unique(self, kind: EdgeKind, after: Seq<bool>)
        requires
            self.wf(),
            self.pass_rule(kind, after),
        ensures
            after == self.pass(kind).values,
    {
        self.lemma_pass_frame(kind);
        self.lemma_agree_below(kind, after, self.len());
        assert(after =~= self.pass(kind).values);
    }

    /// Values that obey the rule of a pass agree with the values that the
    /// pass leaves on every element below `upto`.
    proof fn lemma_agree_below(self, kind: EdgeKind, after: Seq<bool>, upto: nat)
        requires
            self.wf(),
            upto <= self.len(),
            self.pass_rule(kind, after),
        ensures
            forall|i: int| 0 <= i < upto ==> after[i] == self.pass(kind).values[i],
        decreases upto,
    {
        if upto > 0 {
            let target = upto - 1;
            let left = self.pass(kind).values;
            self.lemma_agree_below(kind, after, target as nat);
            self.lemma_pass_polarity(kind);
            self.lemma_pass_frame(kind);
            assert(after[target] == self.rule_at(kind, after, target));
            assert(left[target] == self.rule_at(kind, left, target));
            if self.evaluated(kind, target) {
                assert(self.seen_at(after, target).values =~= self.seen_at(left, target).values);
            }
        }
    }

    /// A pass over `kind` changes nothing exactly when every element of
    /// that kind already holds the output of its gate.
    pub proof fn lemma_pass_changes_iff_unstable(self, kind: EdgeKind)
        requires
            self.wf(),
        ensures
            self.pass_changes(kind) <==> !self.stable_for(kind),
            !self.pass_changes(kind) ==> self.pass(kind) == self,
    {
        self.lemma_pass_frame(kind);
        if self.stable_for(kind) {
            assert forall|target: int|
                0 <= target < self.len() implies #[trigger] self.values[target] == self.rule_at(
                kind,
                self.values,
                target,
            ) by {
                assert(self.seen_at(self.values, target) =~= self);
            }
            self.lemma_pass_unique(kind, self.values);
        }
        if !self.pass_changes(kind) {
            assert(self.pass(kind) =~= self);
            self.lemma_pass_polarity(kind);
            assert forall|target: int| #[trigger]
                self.evaluated(kind, target) implies self.values[target] == self.gate(
                kind,
                target,
            ) by {
                assert(self.values[target] == self.rule_at(kind, self.values, target));
                assert(self.seen_at(self.values, target) =~= self);
            }
        }
    }

    /// A tick changes nothing exactly when the network is at a fixed point,
    /// and it then leaves the network as it was.
    pub proof fn lemma_tick_changes_iff_unstable(self)
        requires
            self.wf(),
        ensures
            self.tick_changes() <==> !self.stable(),
            !self.tick_changes() ==> self.tick() == self,
    {
        self.lemma_pass_changes_iff_unstable(EdgeKind::Positive);
        self.lemma_pass_changes_iff_unstable(EdgeKind::Negative);
        if !self.pass_changes(EdgeKind::Positive) {
            assert(self.settle() == self);
        }
    }

    /// A tick that reports no change is followed by ticks that report no
    /// change and leave every value as it is.
    pub proof fn lemma_tick_idempotent(self)
        requires
            self.wf(),
            !self.tick_changes(),
        ensures
            self.tick() == self,
            !self.tick().tick_changes(),
            self.tick().tick() == self,
    {
        self.lemma_tick_changes_iff_unstable();
    }

    /// Where no NOR-type element reads a NOR-type element, one NOR-type
    /// pass brings every NOR-type element to the NOR of its sources as they
    /// are after the pass, so a second pass would change nothing.
    pub proof fn lemma_nor_pass_suffices(self)
        requires
            self.wf(),
            self.nor_isolated(),
        ensures
            self.pass(EdgeKind::Negative).stable_for(EdgeKind::Negative),
            !self.pass(EdgeKind::Negative).pass_changes(EdgeKind::Negative),
    {
        let kind = EdgeKind::Negative;
        let after = self.pass(kind);
        self.lemma_pass_frame(kind);
        self.lemma_pass_polarity(kind);
        assert forall|target: int| #[trigger]
            after.evaluated(kind, target) implies after.values[target] == after.gate(
            kind,
            target,
        ) by {
            assert(self.evaluated(kind, target));
            assert(after.values[target] == self.rule_at(kind, after.values, target));
            let sources = self.edges[target];
            let seen = self.seen_at(after.values, target);
            assert(seen.values[sources.0 as int] == after.values[sources.0 as int]);
            assert(seen.values[sources.1 as int] == after.values[sources.1 as int]);
            assert(seen.values[sources.2 as int] == after.values[sources.2 as int]);
            assert(seen.values[sources.3 as int] == after.values[sources.3 as int]);
        }
        after.lemma_pass_changes_iff_unstable(kind);
    }

    /// Where no NOR-type element reads a NOR-type element, every NOR-type
    /// element holds the NOR of its sources when a tick ends.
    pub proof fn lemma_tick_settles_nor(self)
        requires
            self.wf(),
            self.nor_isolated(),
        ensures
            self.tick().stable_for(EdgeKind::Negative),
    {
        self.lemma_settle_frame();
        let settled = self.settle();
        assert forall|target: int| #[trigger]
            settled.evaluated(EdgeKind::Negative, target) implies {
            let sources = settled.edges[target];
            &&& !settled.evaluated(EdgeKind::Negative, sources.0 as int)
            &&& !settled.evaluated(EdgeKind::Negative, sources.1 as int)
            &&& !settled.evaluated(EdgeKind::Negative, sources.2 as int)
            &&& !settled.evaluated(EdgeKind::Negative, sources.3 as int)
        } by {
            assert(self.evaluated(EdgeKind::Negative, target));
        }
        settled.lemma_nor_pass_suffices();
    }
}

} // verus!
