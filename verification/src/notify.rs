//! Observation of a running scan: progress marks and findings, in the order
//! in which the engine produces them.

use crate::engine::{Finding, FindingModel};
use vstd::prelude::*;

verus! {

/// The phases a scan goes through.
#[derive(Clone, Copy, Debug, PartialEq, Eq, Structural)]
pub enum Stage {
    Packages,
    Processes,
    Done,
}

/// One thing reported during a scan.
#[derive(Clone, Debug)]
pub enum ScanEvent {
    /// The scan enters a stage; `detail` counts what the stage works on
    /// (packages, processes, or, when done, findings).
    Progress { stage: Stage, detail: usize },
    Finding(Finding),
}

/// An event as the contracts see it.
pub enum EventModel {
    Progress { stage: Stage, detail: usize },
    Finding(FindingModel),
}

impl View for ScanEvent {
    type V = EventModel;

    open spec fn view(&self) -> EventModel {
        match *self {
            ScanEvent::Progress { stage, detail } => EventModel::Progress { stage, detail },
            ScanEvent::Finding(f) => EventModel::Finding(f@),
        }
    }
}

/// The events of a list as the contracts see them, in order.
pub open spec fn event_models(v: Seq<ScanEvent>) -> Seq<EventModel> {
    v.map_values(|e: ScanEvent| e@)
}

/// The events that report the given findings, one each, in order.
pub open spec fn finding_events(fs: Seq<FindingModel>) -> Seq<EventModel> {
    fs.map_values(|f: FindingModel| EventModel::Finding(f))
}

/// Where the reports of a scan go: nowhere, or into a buffer that the caller
/// reads afterwards.
#[derive(Clone, Debug)]
pub enum ScanNotifier {
    Null,
    Buffer(Vec<ScanEvent>),
}

/// `after` is `before` with `events` delivered to it: a null sink stays a
/// null sink, a buffer has them appended in order.
pub open spec fn delivered(before: ScanNotifier, after: ScanNotifier, events: Seq<EventModel>) -> bool {
    match before {
        ScanNotifier::Null => after is Null,
        ScanNotifier::Buffer(_) => after is Buffer && after.log() == before.log() + events,
    }
}

impl ScanNotifier {
    /// What the sink has recorded so far; a null sink records nothing.
    pub open spec fn log(&self) -> Seq<EventModel> {
        match *self {
            ScanNotifier::Null => Seq::empty(),
            ScanNotifier::Buffer(v) => event_models(v@),
        }
    }

    /// A sink that records.
    pub fn buffer() -> (n: ScanNotifier)
        ensures
            n is Buffer,
            n.log() == Seq::<EventModel>::empty(),
    {
        let n = ScanNotifier::Buffer(Vec::new());
        assert(n.log() =~= Seq::<EventModel>::empty());
        n
    }

    fn deliver(&mut self, e: ScanEvent)
        ensures
            delivered(*old(self), *final(self), seq![e@]),
    {
        match self {
            ScanNotifier::Null => {},
            ScanNotifier::Buffer(v) => {
                let ghost before = v@;
                v.push(e);
                assert(event_models(v@) =~= event_models(before) + seq![e@]);
            },
        }
    }

    /// Reports that the scan enters a stage.
    pub fn on_progress(&mut self, stage: Stage, detail: usize)
        ensures
            delivered(*old(self), *final(self), seq![EventModel::Progress { stage, detail }]),
    {
        self.deliver(ScanEvent::Progress { stage, detail });
    }

    /// Reports one finding.
    pub fn on_finding(&mut self, f: &Finding)
        ensures
            delivered(*old(self), *final(self), seq![EventModel::Finding(f@)]),
    {
        self.deliver(ScanEvent::Finding(f.duplicate()));
    }

    /// The recorded events, or none for a null sink.
    pub fn recorded(&self) -> (r: Option<&Vec<ScanEvent>>)
        ensures
            r is Some <==> self is Buffer,
            r is Some ==> event_models(r->Some_0@) == self.log(),
    {
        match self {
            ScanNotifier::Buffer(v) => Some(v),
            ScanNotifier::Null => None,
        }
    }
}

/// Deliveries compose: first `e1`, then `e2`, is the delivery of both in order.
pub proof fn lemma_delivered_twice(
    a: ScanNotifier,
    b: ScanNotifier,
    c: ScanNotifier,
    e1: Seq<EventModel>,
    e2: Seq<EventModel>,
)
    requires
        delivered(a, b, e1),
        delivered(b, c, e2),
    ensures
        delivered(a, c, e1 + e2),
{
    if a is Buffer {
        assert(c.log() =~= a.log() + (e1 + e2));
    }
}

} // verus!
