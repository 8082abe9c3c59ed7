//! The refresh pipeline: the one walk over the source's catalog that fills
//! the cache.
//!
//! The pipeline decides; its driver acts. The driver performs the action
//! that the pipeline waits for, hands back what came of it as an event, and
//! gets the next action. A service reaches the cache only when every one of
//! its attributes has been resolved, together with the time it took.

use crate::pricing::{attribute, outlines, resolved_values, services, ServiceRecord, ServiceRecordView};
use crate::state::{LoadDuration, State, StateView};
use crate::types::{Attribute, AttributeView, Service, ServiceView};
use vstd::prelude::*;

verus! {

/// Where the pipeline stands.
#[derive(Clone, Copy, Debug, PartialEq, Eq, Structural)]
pub enum Phase {
    /// The catalog has not been listed yet.
    Listing,
    /// The current service has attributes whose values are not fetched yet.
    Resolving,
    /// Every attribute of the current service is resolved; the service waits
    /// to be written.
    Committing,
    /// Every listed service has been written.
    Done,
}

/// What the driver is to do next.
#[derive(Debug, PartialEq, Eq)]
pub enum RefreshAction {
    /// List the services of the source, then start the clock.
    ListServices,
    /// Fetch the values of one attribute of one service.
    FetchValues { code: String, attribute: String },
    /// Read the clock for the current service, then start it anew.
    Commit,
    /// Nothing: the walk is over.
    Done,
}

/// What came of an action.
#[derive(Debug)]
pub enum RefreshEvent {
    /// The listing, or nothing where it failed.
    Listed(Option<Vec<ServiceRecord>>),
    /// The entries of a fetch, or nothing where it failed.
    Values(Option<Vec<Option<String>>>),
    /// The time spent on the current service.
    Elapsed(LoadDuration),
}

/// What an action is, as text.
pub enum RefreshActionView {
    ListServices,
    FetchValues { code: Seq<char>, attribute: Seq<char> },
    Commit,
    Done,
}

/// What an event is, as text.
pub enum RefreshEventView {
    Listed(Option<Seq<ServiceRecordView>>),
    Values(Option<Seq<Option<Seq<char>>>>),
    Elapsed(LoadDuration),
}

impl View for RefreshAction {
    type V = RefreshActionView;

    open spec fn view(&self) -> RefreshActionView {
        match self {
            RefreshAction::ListServices => RefreshActionView::ListServices,
            RefreshAction::FetchValues { code, attribute } => RefreshActionView::FetchValues {
                code: code@,
                attribute: attribute@,
            },
            RefreshAction::Commit => RefreshActionView::Commit,
            RefreshAction::Done => RefreshActionView::Done,
        }
    }
}

impl View for RefreshEvent {
    type V = RefreshEventView;

    open spec fn view(&self) -> RefreshEventView {
        match self {
            RefreshEvent::Listed(listing) => RefreshEventView::Listed(listing.deep_view()),
            RefreshEvent::Values(fetched) => RefreshEventView::Values(fetched.deep_view()),
            RefreshEvent::Elapsed(elapsed) => RefreshEventView::Elapsed(*elapsed),
        }
    }
}

/// What a pipeline is: its phase, the catalog as it was listed, how many of
/// its services are written, and the attributes of the current service that
/// are resolved so far.
pub struct PipelineView {
    pub phase: Phase,
    pub listing: Seq<ServiceView>,
    pub position: int,
    pub resolved: Seq<AttributeView>,
}

impl PipelineView {
    /// The pipeline before anything was listed.
    pub open spec fn fresh() -> PipelineView {
        PipelineView {
            phase: Phase::Listing,
            listing: Seq::empty(),
            position: 0,
            resolved: Seq::empty(),
        }
    }

    /// The service that the pipeline works on.
    pub open spec fn current(self) -> ServiceView {
        self.listing[self.position]
    }

    /// The resolved attributes bear the names of the current service's first
    /// attributes, in order.
    pub open spec fn names_agree(self) -> bool {
        forall|i: int|
            0 <= i < self.resolved.len() ==> (#[trigger] self.resolved[i]).name
                == self.current().attributes[i].name
    }

    /// The parts fit the phase.
    pub open spec fn wf(self) -> bool {
        match self.phase {
            Phase::Listing => self.listing.len() == 0 && self.position == 0
                && self.resolved.len() == 0,
            Phase::Resolving => 0 <= self.position < self.listing.len() && self.resolved.len()
                < self.current().attributes.len() && self.names_agree(),
            Phase::Committing => 0 <= self.position < self.listing.len() && self.resolved.len()
                == self.current().attributes.len() && self.names_agree(),
            Phase::Done => self.position == self.listing.len() && self.resolved.len() == 0,
        }
    }

    /// The action that the pipeline waits for.
    pub open spec fn pending(self) -> RefreshActionView {
        match self.phase {
            Phase::Listing => RefreshActionView::ListServices,
            Phase::Resolving => RefreshActionView::FetchValues {
                code: self.current().code,
                attribute: self.current().attributes[self.resolved.len() as int].name,
            },
            Phase::Committing => RefreshActionView::Commit,
            Phase::Done => RefreshActionView::Done,
        }
    }

    /// The pipeline as it takes up the service at `position`: done where the
    /// listing has no such service, ready to write where the service has no
    /// attributes, and resolving otherwise.
    pub open spec fn enter(listing: Seq<ServiceView>, position: int) -> PipelineView {
        PipelineView {
            phase: if position >= listing.len() {
                Phase::Done
            } else if listing[position].attributes.len() == 0 {
                Phase::Committing
            } else {
                Phase::Resolving
            },
            listing,
            position,
            resolved: Seq::empty(),
        }
    }

    /// The service that is written once the current one is resolved: the
    /// current code with the resolved attributes.
    pub open spec fn completed(self) -> ServiceView {
        ServiceView { code: self.current().code, attributes: self.resolved }
    }

    /// The pipeline and the cache after `event`.
    ///
    /// A listing is taken where none was taken yet; a failed one counts as
    /// empty. Fetched values resolve the attribute that was asked for; a
    /// failed fetch resolves it without values. An elapsed time writes the
    /// completed service with that time and takes up the next service. Any
    /// other event changes nothing. The cache changes only when a service is
    /// written.
    pub open spec fn step(self, cache: StateView, event: RefreshEventView) -> (
        PipelineView,
        StateView,
    ) {
        match (self.phase, event) {
            (Phase::Listing, RefreshEventView::Listed(listing)) => (
                PipelineView::enter(outlines(listing), 0),
                cache,
            ),
            (Phase::Resolving, RefreshEventView::Values(fetched)) => {
                let resolved = self.resolved.push(
                    AttributeView {
                        name: self.current().attributes[self.resolved.len() as int].name,
                        values: resolved_values(fetched),
                    },
                );
                (
                    PipelineView {
                        phase: if resolved.len() == self.current().attributes.len() {
                            Phase::Committing
                        } else {
                            Phase::Resolving
                        },
                        resolved,
                        ..self
                    },
                    cache,
                )
            },
            (Phase::Committing, RefreshEventView::Elapsed(elapsed)) => (
                PipelineView::enter(self.listing, self.position + 1),
                cache.put(self.completed(), elapsed),
            ),
            _ => (self, cache),
        }
    }
}

/// The refresh pipeline.
pub struct RefreshPipeline {
    phase: Phase,
    listing: Vec<Service>,
    position: usize,
    resolved: Vec<Attribute>,
}

/// The pipeline that four parts stand for together.
spec fn model(
    phase: Phase,
    listing: Seq<ServiceView>,
    position: usize,
    resolved: Seq<AttributeView>,
) -> PipelineView {
    PipelineView { phase, listing, position: position as int, resolved }
}

impl View for RefreshPipeline {
    type V = PipelineView;

    closed spec fn view(&self) -> PipelineView {
        model(self.phase, self.listing.deep_view(), self.position, self.resolved.deep_view())
    }
}

impl RefreshPipeline {
    /// Holds of every pipeline.
    #[verifier::type_invariant]
    pub open spec fn wf(&self) -> bool {
        self@.wf()
    }

    /// A pipeline that waits for the catalog to be listed.
    pub fn new() -> (pipeline: Self)
        ensures
            pipeline@ == PipelineView::fresh(),
    {
        let listing: Vec<Service> = Vec::new();
        let resolved: Vec<Attribute> = Vec::new();
        assert(listing.deep_view() =~= Seq::empty());
        assert(resolved.deep_view() =~= Seq::empty());
        RefreshPipeline { phase: Phase::Listing, listing, position: 0, resolved }
    }

    /// Where the pipeline stands.
    pub fn phase(&self) -> (phase: Phase)
        ensures
            phase == self@.phase,
    {
        self.phase
    }

    /// The action that the pipeline waits for.
    pub fn pending(&self) -> (action: RefreshAction)
        ensures
            action@ == self@.pending(),
    {
        proof {
            use_type_invariant(self);
        }
        match self.phase {
            Phase::Listing => RefreshAction::ListServices,
            Phase::Resolving => {
                let service = &self.listing[self.position];
                RefreshAction::FetchValues {
                    code: service.code.clone(),
                    attribute: service.attributes[self.resolved.len()].name.clone(),
                }
            },
            Phase::Committing => RefreshAction::Commit,
            Phase::Done => RefreshAction::Done,
        }
    }

    /// Takes up the service at `position`.
    fn enter(listing: Vec<Service>, position: usize) -> (pipeline: Self)
        requires
            position <= listing.len(),
        ensures
            pipeline@ == PipelineView::enter(listing.deep_view(), position as int),
    {
        let resolved: Vec<Attribute> = Vec::new();
        assert(resolved.deep_view() =~= Seq::empty());
        let phase = if position >= listing.len() {
            Phase::Done
        } else if listing[position].attributes.len() == 0 {
            Phase::Committing
        } else {
            Phase::Resolving
        };
        RefreshPipeline { phase, listing, position, resolved }
    }

    /// Takes `event` and says what to do next. A completed service is
    /// written to `cache`; nothing else touches it.
    pub fn step(self, cache: &mut State, event: RefreshEvent) -> (next: (Self, RefreshAction))
        ensures
            (next.0@, final(cache)@) == self@.step(old(cache)@, event@),
            next.1@ == next.0@.pending(),
            final(cache)@.wf(),
    {
        proof {
            use_type_invariant(&self);
        }
        let RefreshPipeline { phase, listing, position, resolved } = self;
        let pipeline = match (phase, event) {
            (Phase::Listing, RefreshEvent::Listed(records)) => {
                RefreshPipeline::enter(services(records), 0)
            },
            (Phase::Resolving, RefreshEvent::Values(fetched)) => {
                let mut resolved = resolved;
                let ghost before = resolved.deep_view();
                let name = listing[position].attributes[resolved.len()].name.clone();
                let fresh = attribute(name, fetched);
                resolved.push(fresh);
                assert(resolved.deep_view() =~= before.push(fresh@));
                let phase = if resolved.len() == listing[position].attributes.len() {
                    Phase::Committing
                } else {
                    Phase::Resolving
                };
                RefreshPipeline { phase, listing, position, resolved }
            },
            (Phase::Committing, RefreshEvent::Elapsed(elapsed)) => {
                assert(listing.deep_view().len() == listing.len());
                let service = Service { code: listing[position].code.clone(), attributes: resolved };
                cache.put(service, elapsed);
                RefreshPipeline::enter(listing, position + 1)
            },
            (phase, _) => RefreshPipeline { phase, listing, position, resolved },
        };
        proof {
            use_type_invariant(&*cache);
        }
        let action = pipeline.pending();
        (pipeline, action)
    }
}

} // verus!
