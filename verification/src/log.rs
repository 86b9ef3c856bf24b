use crate::circuit::Circuit;
use crate::types::{Edge, EdgeKind, TraceEvent};
use vstd::prelude::*;

verus! {

/// An observer of the mutations that a pass makes.
///
/// The kernel hands every mutation to the sink it was given. Which sink that
/// is, is chosen where the kernel is called, so a build that wants no trace
/// passes [`NoTrace`] and pays nothing for it.
pub trait TraceSink {
    /// Every event that this sink has been handed, oldest first.
    spec fn history(&self) -> Seq<TraceEvent>;

    /// Takes one event.
    fn record(&mut self, event: TraceEvent)
        ensures
            final(self).history() == old(self).history().push(event),
    ;
}

/// A sink that keeps every event in the order in which it came.
impl TraceSink for Vec<TraceEvent> {
    open spec fn history(&self) -> Seq<TraceEvent> {
        self@
    }

    fn record(&mut self, event: TraceEvent) {
        self.push(event);
    }
}

/// A sink that drops every event. What it was handed is known to proofs
/// only and takes no space when the program runs.
pub struct NoTrace {
    offered: Ghost<Seq<TraceEvent>>,
}

impl NoTrace {
    /// A sink that has been handed nothing yet.
    pub fn new() -> (sink: NoTrace)
        ensures
            sink.history() == Seq::<TraceEvent>::empty(),
    {
        NoTrace { offered: Ghost(Seq::empty()) }
    }
}

impl TraceSink for NoTrace {
    closed spec fn history(&self) -> Seq<TraceEvent> {
        self.offered@
    }

    fn record(&mut self, event: TraceEvent) {
        self.offered = Ghost(self.offered@.push(event));
    }
}

/// Reports to `sink` that element `target`, whose kind has the symbol
/// `kind` and whose sources are `edge`, now holds `value`.
pub fn print_edge<T: TraceSink>(sink: &mut T, kind: char, target: usize, edge: &Edge, value: bool)
    ensures
        final(sink).history() == old(sink).history().push(
            (TraceEvent { kind, target, sources: *edge, value }),
        ),
{
    sink.record(TraceEvent { kind, target, sources: *edge, value });
}

impl Circuit {
    /// Whether `events` reports every mutation among the elements below
    /// `upto` that leads from the values of `self` to `after`: once each, in
    /// ascending order of the elements, each with the symbol of `kind`, the
    /// wiring of the element and the value that it took.
    pub open spec fn reports(
        self,
        kind: EdgeKind,
        after: Seq<bool>,
        upto: int,
        events: Seq<TraceEvent>,
    ) -> bool {
        &&& forall|i: int|
            0 <= i < events.len() ==> {
                let target = (#[trigger] events[i]).target as int;
                &&& 2 <= target < upto
                &&& after[target] != self.values[target]
                &&& events[i] == (TraceEvent {
                    kind: kind.symbol(),
                    target: target as usize,
                    sources: self.edges[target],
                    value: after[target],
                })
            }
        &&& forall|i: int, j: int|
            0 <= i < j < events.len() ==> (#[trigger] events[i]).target < (
            #[trigger] events[j]).target
        &&& forall|target: int|
            0 <= target < upto && #[trigger] after[target] != self.values[target] ==> exists|
                i: int,
            |
                0 <= i < events.len() && (#[trigger] events[i]).target == target
    }

    /// The events of a sweep report the mutations that the sweep has made.
    proof fn lemma_sweep_reports(self, kind: EdgeKind, upto: nat)
        requires
            upto <= self.len() <= usize::MAX,
        ensures
            self.reports(
                kind,
                self.sweep(kind, upto).values,
                upto as int,
                self.sweep_trace(kind, upto),
            ),
        decreases upto,
    {
        if upto > 2 {
            let target = upto - 1;
            let current = self.sweep(kind, target as nat);
            let heard = self.sweep_trace(kind, target as nat);
            let next = self.sweep(kind, upto);
            let events = self.sweep_trace(kind, upto);
            self.lemma_sweep_reports(kind, target as nat);
            self.lemma_sweep_frame(kind, target as nat);
            self.lemma_sweep_frame(kind, upto);
            assert(next == current.step(kind, target));
            assert(events == heard + current.step_trace(kind, target));
            assert forall|i: int| 0 <= i < heard.len() implies events[i] == heard[i] && (
            #[trigger] heard[i]).target < target by {}
            if current.step_trace(kind, target).len() == 0 {
                assert(events =~= heard);
                assert(next.values =~= current.values);
            } else {
                let last = current.step_trace(kind, target)[0];
                assert(events =~= heard.push(last));
                assert(events[heard.len() as int] == last);
                assert forall|i: int| 0 <= i < events.len() implies {
                    let at = (#[trigger] events[i]).target as int;
                    &&& 2 <= at < upto
                    &&& next.values[at] != self.values[at]
                    &&& events[i] == (TraceEvent {
                        kind: kind.symbol(),
                        target: at as usize,
                        sources: self.edges[at],
                        value: next.values[at],
                    })
                } by {
                    if i < heard.len() {
                        assert(events[i] == heard[i]);
                    }
                }
                assert forall|at: int|
                    0 <= at < upto && #[trigger] next.values[at] != self.values[at] implies exists|
                    i: int,
                |
                    0 <= i < events.len() && (#[trigger] events[i]).target == at by {
                    if at < target {
                        assert(current.values[at] != self.values[at]);
                        let i = choose|i: int|
                            0 <= i < heard.len() && (#[trigger] heard[i]).target == at;
                        assert(events[i].target == at);
                    } else {
                        assert(events[heard.len() as int].target == at);
                    }
                }
            }
        }
    }

    /// A pass reports every element that it changes: once each, in ascending
    /// order, with the value that the element holds when the pass ends. It
    /// reports nothing exactly when it changes nothing.
    pub proof fn lemma_pass_reports(self, kind: EdgeKind)
        requires
            self.len() <= usize::MAX,
        ensures
            self.reports(kind, self.pass(kind).values, self.len() as int, self.pass_trace(kind)),
            self.pass_changes(kind) <==> self.pass_trace(kind).len() > 0,
    {
        self.lemma_sweep_reports(kind, self.len());
        self.lemma_pass_frame(kind);
        let after = self.pass(kind).values;
        let events = self.pass_trace(kind);
        if events.len() > 0 {
            let target = events[0].target as int;
            assert(after[target] != self.values[target]);
        }
        if self.pass_changes(kind) {
            assert(!(after =~= self.values));
            let target = choose|target: int|
                0 <= target < self.len() && after[target] != self.values[target];
            assert(after[target] != self.values[target]);
        }
    }
}

} // verus!
