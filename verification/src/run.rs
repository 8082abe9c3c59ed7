//! A whole walk of the refresh pipeline, against a source that answers the
//! same way whenever it is asked.
//!
//! The walk is the pipeline's own steps, each answered by the source. What
//! it leaves in the cache is stated once more without the steps, as one
//! write per listed service, and the two are proved to agree. From there
//! follow the facts that hold of every walk.

use crate::pricing::{outlines, resolved_values, ServiceRecordView};
use crate::refresh::{Phase, PipelineView, RefreshActionView, RefreshEventView};
use crate::state::{lemma_put_keeps_wf, LoadDuration, StateView};
use crate::types::{AttributeView, ServiceView};
use vstd::prelude::*;

verus! {

/// A pricing source that does not change: its catalog, or none where
/// listing fails, and the entries of each attribute of each service, with no
/// entry for a fetch that fails.
pub struct Source {
    pub catalog: Option<Seq<ServiceRecordView>>,
    pub values: Map<(Seq<char>, Seq<char>), Seq<Option<Seq<char>>>>,
}

impl Source {
    /// The catalog as the pipeline takes it.
    pub open spec fn listing(self) -> Seq<ServiceView> {
        outlines(self.catalog)
    }

    /// What a fetch of the values of `attribute` of `code` brings.
    pub open spec fn fetch(self, code: Seq<char>, attribute: Seq<char>) -> Option<
        Seq<Option<Seq<char>>>,
    > {
        if self.values.contains_key((code, attribute)) {
            Some(self.values[(code, attribute)])
        } else {
            None
        }
    }

    /// The service of that outline with every attribute resolved: each
    /// keeps its name and has the values that the source brings for it, or
    /// none where the fetch fails.
    pub open spec fn resolved(self, outline: ServiceView) -> ServiceView {
        ServiceView {
            code: outline.code,
            attributes: outline.attributes.map_values(
                |attribute: AttributeView|
                    AttributeView {
                        name: attribute.name,
                        values: resolved_values(self.fetch(outline.code, attribute.name)),
                    },
            ),
        }
    }

    /// The event with which the source, and a clock that reads `elapsed`,
    /// answer the action that `pipeline` waits for.
    pub open spec fn reply(self, pipeline: PipelineView, elapsed: LoadDuration) -> RefreshEventView {
        match pipeline.pending() {
            RefreshActionView::ListServices => RefreshEventView::Listed(self.catalog),
            RefreshActionView::FetchValues { code, attribute } => RefreshEventView::Values(
                self.fetch(code, attribute),
            ),
            RefreshActionView::Commit => RefreshEventView::Elapsed(elapsed),
            RefreshActionView::Done => RefreshEventView::Elapsed(elapsed),
        }
    }

    /// What `pipeline` holds came from this source: the listing is the
    /// source's, and the attributes resolved so far are the first of the
    /// current service as the source resolves it.
    pub open spec fn feeds(self, pipeline: PipelineView) -> bool {
        pipeline.phase != Phase::Listing ==> {
            &&& pipeline.listing == self.listing()
            &&& pipeline.phase != Phase::Done ==> pipeline.resolved == self.resolved(
                pipeline.current(),
            ).attributes.take(pipeline.resolved.len() as int)
        }
    }
}

/// The steps that the services from `from` on still take: one for each
/// attribute and one for the write.
pub open spec fn remaining(listing: Seq<ServiceView>, from: int) -> nat
    decreases listing.len() - from,
{
    if 0 <= from < listing.len() {
        listing[from].attributes.len() + 1 + remaining(listing, from + 1)
    } else {
        0
    }
}

/// The steps that `pipeline` still takes against `source`.
pub open spec fn work_left(pipeline: PipelineView, source: Source) -> nat {
    match pipeline.phase {
        Phase::Listing => 1 + remaining(source.listing(), 0),
        Phase::Resolving | Phase::Committing => (remaining(pipeline.listing, pipeline.position)
            - pipeline.resolved.len()) as nat,
        Phase::Done => 0,
    }
}

/// The cache after `pipeline` has walked to its end against `source`, where
/// the clock reads `clock(i)` for the service at position `i`.
pub open spec fn run(
    pipeline: PipelineView,
    cache: StateView,
    source: Source,
    clock: spec_fn(int) -> LoadDuration,
) -> StateView
    decreases work_left(pipeline, source),
    via run_ends
{
    if pipeline.phase == Phase::Done || !pipeline.wf() {
        cache
    } else {
        let (next, written) = pipeline.step(cache, source.reply(pipeline, clock(pipeline.position)));
        run(next, written, source, clock)
    }
}

#[via_fn]
proof fn run_ends(
    pipeline: PipelineView,
    cache: StateView,
    source: Source,
    clock: spec_fn(int) -> LoadDuration,
) {
    if pipeline.phase != Phase::Done && pipeline.wf() {
        lemma_step_advances(pipeline, cache, source, clock(pipeline.position));
    }
}

/// A step that the source answers leaves a pipeline whose parts fit, and
/// less work.
pub proof fn lemma_step_advances(
    pipeline: PipelineView,
    cache: StateView,
    source: Source,
    elapsed: LoadDuration,
)
    requires
        pipeline.wf(),
        pipeline.phase != Phase::Done,
    ensures
        pipeline.step(cache, source.reply(pipeline, elapsed)).0.wf(),
        work_left(pipeline.step(cache, source.reply(pipeline, elapsed)).0, source) < work_left(
            pipeline,
            source,
        ),
{
    let next = pipeline.step(cache, source.reply(pipeline, elapsed)).0;
    match pipeline.phase {
        Phase::Listing => {
            assert(next == PipelineView::enter(source.listing(), 0));
        },
        Phase::Resolving => {
            assert(next.resolved.len() == pipeline.resolved.len() + 1);
            assert(next.names_agree()) by {
                assert forall|i: int| 0 <= i < next.resolved.len() implies (
                #[trigger] next.resolved[i]).name == next.current().attributes[i].name by {
                    if i < pipeline.resolved.len() {
                        assert(next.resolved[i] == pipeline.resolved[i]);
                    }
                }
            }
        },
        Phase::Committing => {
            assert(next == PipelineView::enter(pipeline.listing, pipeline.position + 1));
        },
        Phase::Done => {},
    }
}

/// The cache after one write for each listed service from `from` on: the
/// service as the source resolves it, with the time the clock reads for it.
pub open spec fn refresh_from(
    cache: StateView,
    listing: Seq<ServiceView>,
    source: Source,
    clock: spec_fn(int) -> LoadDuration,
    from: int,
) -> StateView
    decreases listing.len() - from,
{
    if 0 <= from < listing.len() {
        refresh_from(
            cache.put(source.resolved(listing[from]), clock(from)),
            listing,
            source,
            clock,
            from + 1,
        )
    } else {
        cache
    }
}

/// The cache after one write for each service that the source lists.
pub open spec fn refreshed(
    cache: StateView,
    source: Source,
    clock: spec_fn(int) -> LoadDuration,
) -> StateView {
    refresh_from(cache, source.listing(), source, clock, 0)
}

/// The services that the writes from `from` on leave under their codes: of
/// two listed services with one code, the later one.
pub open spec fn written(listing: Seq<ServiceView>, source: Source, from: int) -> Map<
    Seq<char>,
    ServiceView,
>
    decreases listing.len() - from,
{
    if 0 <= from < listing.len() {
        Map::<Seq<char>, ServiceView>::empty().insert(
            listing[from].code,
            source.resolved(listing[from]),
        ).union_prefer_right(written(listing, source, from + 1))
    } else {
        Map::empty()
    }
}

/// A step that the source answers keeps what the pipeline holds the
/// source's own.
pub proof fn lemma_step_keeps_feeding(
    pipeline: PipelineView,
    cache: StateView,
    source: Source,
    elapsed: LoadDuration,
)
    requires
        pipeline.wf(),
        source.feeds(pipeline),
    ensures
        source.feeds(pipeline.step(cache, source.reply(pipeline, elapsed)).0),
{
    let next = pipeline.step(cache, source.reply(pipeline, elapsed)).0;
    match pipeline.phase {
        Phase::Listing => {
            assert(next.resolved =~= source.resolved(next.current()).attributes.take(0));
        },
        Phase::Resolving => {
            let whole = source.resolved(pipeline.current()).attributes;
            let k = pipeline.resolved.len() as int;
            assert(next.resolved =~= whole.take(k + 1));
        },
        Phase::Committing => {
            assert(next.resolved =~= source.resolved(next.current()).attributes.take(0));
        },
        Phase::Done => {},
    }
}

/// When every attribute is resolved from the source, the service that the
/// pipeline writes is the current one as the source resolves it.
pub proof fn lemma_completed_is_resolved(pipeline: PipelineView, source: Source)
    requires
        pipeline.wf(),
        source.feeds(pipeline),
        pipeline.phase == Phase::Committing,
    ensures
        pipeline.completed() == source.resolved(pipeline.current()),
{
    let whole = source.resolved(pipeline.current()).attributes;
    assert(whole.take(whole.len() as int) =~= whole);
}

/// A walk leaves what one write for each service still to come leaves.
pub proof fn lemma_run_writes_each_service(
    pipeline: PipelineView,
    cache: StateView,
    source: Source,
    clock: spec_fn(int) -> LoadDuration,
)
    requires
        pipeline.wf(),
        source.feeds(pipeline),
        pipeline.phase != Phase::Listing,
    ensures
        run(pipeline, cache, source, clock) == refresh_from(
            cache,
            pipeline.listing,
            source,
            clock,
            pipeline.position,
        ),
    decreases work_left(pipeline, source),
{
    if pipeline.phase != Phase::Done {
        let elapsed = clock(pipeline.position);
        let (next, after) = pipeline.step(cache, source.reply(pipeline, elapsed));
        lemma_step_advances(pipeline, cache, source, elapsed);
        lemma_step_keeps_feeding(pipeline, cache, source, elapsed);
        lemma_run_writes_each_service(next, after, source, clock);
        if pipeline.phase == Phase::Committing {
            lemma_completed_is_resolved(pipeline, source);
        }
    }
}

/// A walk from the start leaves what one write for each listed service
/// leaves.
pub proof fn lemma_run_is_refresh(
    cache: StateView,
    source: Source,
    clock: spec_fn(int) -> LoadDuration,
)
    ensures
        run(PipelineView::fresh(), cache, source, clock) == refreshed(cache, source, clock),
{
    let fresh = PipelineView::fresh();
    let elapsed = clock(fresh.position);
    let (next, after) = fresh.step(cache, source.reply(fresh, elapsed));
    lemma_step_advances(fresh, cache, source, elapsed);
    lemma_step_keeps_feeding(fresh, cache, source, elapsed);
    lemma_run_writes_each_service(next, after, source, clock);
}

/// The writes put the written services over those of the cache, and touch
/// nothing else.
pub proof fn lemma_refresh_overlays(
    cache: StateView,
    listing: Seq<ServiceView>,
    source: Source,
    clock: spec_fn(int) -> LoadDuration,
    from: int,
)
    ensures
        refresh_from(cache, listing, source, clock, from).services
            == cache.services.union_prefer_right(written(listing, source, from)),
    decreases listing.len() - from,
{
    if 0 <= from < listing.len() {
        let first = source.resolved(listing[from]);
        let rest = written(listing, source, from + 1);
        lemma_refresh_overlays(cache.put(first, clock(from)), listing, source, clock, from + 1);
        assert(cache.services.insert(first.code, first).union_prefer_right(rest)
            =~= cache.services.union_prefer_right(
            Map::<Seq<char>, ServiceView>::empty().insert(first.code, first).union_prefer_right(
                rest,
            ),
        ));
    } else {
        assert(cache.services.union_prefer_right(Map::empty()) =~= cache.services);
    }
}

/// Every service listed from `from` on is written under its code, and what
/// is written under a code is a listed service of that code as the source
/// resolves it.
pub proof fn lemma_written_entries(listing: Seq<ServiceView>, source: Source, from: int)
    requires
        0 <= from,
    ensures
        forall|i: int|
            from <= i < listing.len() ==> written(listing, source, from).contains_key(
                #[trigger] listing[i].code,
            ),
        forall|code: Seq<char>| #[trigger]
            written(listing, source, from).contains_key(code) ==> exists|i: int|
                from <= i < listing.len() && listing[i].code == code && written(
                    listing,
                    source,
                    from,
                )[code] == source.resolved(#[trigger] listing[i]),
    decreases listing.len() - from,
{
    if from < listing.len() {
        lemma_written_entries(listing, source, from + 1);
        let here = written(listing, source, from);
        let rest = written(listing, source, from + 1);
        assert forall|code: Seq<char>| #[trigger] here.contains_key(code) implies exists|i: int|
            from <= i < listing.len() && listing[i].code == code && here[code] == source.resolved(
                #[trigger] listing[i],
            ) by {
            if rest.contains_key(code) {
                let i = choose|i: int|
                    from + 1 <= i < listing.len() && listing[i].code == code && rest[code]
                        == source.resolved(#[trigger] listing[i]);
                assert(from <= i < listing.len() && listing[i].code == code && here[code]
                    == source.resolved(listing[i]));
            } else {
                assert(listing[from].code == code && here[code] == source.resolved(listing[from]));
            }
        }
    }
}

/// The writes add a code only where the cache has none of it: where the
/// cache holds every code that is still to be written, its codes stay as
/// they are.
pub proof fn lemma_refresh_keeps_known_codes(
    cache: StateView,
    listing: Seq<ServiceView>,
    source: Source,
    clock: spec_fn(int) -> LoadDuration,
    from: int,
)
    requires
        0 <= from,
        forall|i: int|
            from <= i < listing.len() ==> cache.services.contains_key(#[trigger] listing[i].code),
    ensures
        refresh_from(cache, listing, source, clock, from).codes == cache.codes,
    decreases listing.len() - from,
{
    if from < listing.len() {
        let first = source.resolved(listing[from]);
        assert(cache.services.contains_key(listing[from].code));
        let next = cache.put(first, clock(from));
        assert forall|i: int| from + 1 <= i < listing.len() implies next.services.contains_key(
            #[trigger] listing[i].code,
        ) by {
            assert(cache.services.contains_key(listing[i].code));
        }
        lemma_refresh_keeps_known_codes(next, listing, source, clock, from + 1);
    }
}

/// A second walk against an unchanged source leaves the services of the
/// cache, and the order of their codes, as the first walk left them,
/// whatever the cache held before and whatever the clock read.
pub proof fn lemma_second_run_changes_nothing(
    cache: StateView,
    source: Source,
    first: spec_fn(int) -> LoadDuration,
    second: spec_fn(int) -> LoadDuration,
)
    ensures
        ({
            let once = run(PipelineView::fresh(), cache, source, first);
            let twice = run(PipelineView::fresh(), once, source, second);
            &&& twice.services == once.services
            &&& twice.codes == once.codes
            &&& twice.list() == once.list()
        }),
{
    let listing = source.listing();
    let once = run(PipelineView::fresh(), cache, source, first);
    let twice = run(PipelineView::fresh(), once, source, second);
    lemma_run_is_refresh(cache, source, first);
    lemma_run_is_refresh(once, source, second);
    lemma_refresh_overlays(cache, listing, source, first, 0);
    lemma_refresh_overlays(once, listing, source, second, 0);
    let over = written(listing, source, 0);
    assert(cache.services.union_prefer_right(over).union_prefer_right(over)
        =~= cache.services.union_prefer_right(over));
    lemma_written_entries(listing, source, 0);
    assert forall|i: int| 0 <= i < listing.len() implies once.services.contains_key(
        #[trigger] listing[i].code,
    ) by {
        assert(over.contains_key(listing[i].code));
    }
    lemma_refresh_keeps_known_codes(once, listing, source, second, 0);
}

/// Whether `service` is a listed service of the source with every one of
/// its attributes resolved.
pub open spec fn fully_resolved(service: ServiceView, source: Source) -> bool {
    exists|i: int|
        0 <= i < source.listing().len() && service == source.resolved(
            #[trigger] source.listing()[i],
        )
}

/// Whether every service of `cache` is one that `initial` held under the
/// same code, or a listed service with every attribute resolved.
pub open spec fn complete(cache: StateView, initial: StateView, source: Source) -> bool {
    forall|code: Seq<char>| #[trigger]
        cache.services.contains_key(code) ==> {
            ||| initial.services.contains_key(code) && initial.services[code]
                == cache.services[code]
            ||| fully_resolved(cache.services[code], source)
        }
}

/// No step makes a half-built service visible: where every service of the
/// cache is complete before a step that the source answers, every service
/// is complete after it.
pub proof fn lemma_step_keeps_complete(
    pipeline: PipelineView,
    cache: StateView,
    initial: StateView,
    source: Source,
    elapsed: LoadDuration,
)
    requires
        pipeline.wf(),
        source.feeds(pipeline),
        complete(cache, initial, source),
    ensures
        complete(pipeline.step(cache, source.reply(pipeline, elapsed)).1, initial, source),
{
    if pipeline.phase == Phase::Committing {
        lemma_completed_is_resolved(pipeline, source);
        let after = pipeline.step(cache, source.reply(pipeline, elapsed)).1;
        let service = source.resolved(source.listing()[pipeline.position]);
        assert(fully_resolved(service, source));
        assert forall|code: Seq<char>| #[trigger] after.services.contains_key(code) implies {
            ||| initial.services.contains_key(code) && initial.services[code]
                == after.services[code]
            ||| fully_resolved(after.services[code], source)
        } by {
            if code != service.code {
                assert(cache.services.contains_key(code));
            }
        }
    }
}

/// A walk leaves every service complete: each is one that the cache held
/// before, or a listed service with every attribute resolved.
pub proof fn lemma_run_leaves_complete(
    cache: StateView,
    source: Source,
    clock: spec_fn(int) -> LoadDuration,
)
    ensures
        complete(run(PipelineView::fresh(), cache, source, clock), cache, source),
{
    let listing = source.listing();
    let after = run(PipelineView::fresh(), cache, source, clock);
    lemma_run_is_refresh(cache, source, clock);
    lemma_refresh_overlays(cache, listing, source, clock, 0);
    lemma_written_entries(listing, source, 0);
    let over = written(listing, source, 0);
    assert forall|code: Seq<char>| #[trigger] after.services.contains_key(code) implies {
        ||| cache.services.contains_key(code) && cache.services[code] == after.services[code]
        ||| fully_resolved(after.services[code], source)
    } by {
        if over.contains_key(code) {
            let i = choose|i: int|
                0 <= i < listing.len() && listing[i].code == code && over[code]
                    == source.resolved(#[trigger] listing[i]);
            assert(after.services[code] == source.resolved(source.listing()[i]));
        }
    }
}

/// Every step keeps the cache well formed, whatever the event.
pub proof fn lemma_step_keeps_wf(pipeline: PipelineView, cache: StateView, event: RefreshEventView)
    requires
        cache.wf(),
    ensures
        pipeline.step(cache, event).1.wf(),
{
    match (pipeline.phase, event) {
        (Phase::Committing, RefreshEventView::Elapsed(elapsed)) => {
            lemma_put_keeps_wf(cache, pipeline.completed(), elapsed);
        },
        _ => {},
    }
}

/// A walk keeps the cache well formed.
pub proof fn lemma_run_keeps_wf(
    pipeline: PipelineView,
    cache: StateView,
    source: Source,
    clock: spec_fn(int) -> LoadDuration,
)
    requires
        cache.wf(),
    ensures
        run(pipeline, cache, source, clock).wf(),
    decreases work_left(pipeline, source),
{
    if pipeline.phase != Phase::Done && pipeline.wf() {
        let elapsed = clock(pipeline.position);
        let (next, after) = pipeline.step(cache, source.reply(pipeline, elapsed));
        lemma_step_advances(pipeline, cache, source, elapsed);
        lemma_step_keeps_wf(pipeline, cache, source.reply(pipeline, elapsed));
        lemma_run_keeps_wf(next, after, source, clock);
    }
}

} // verus!
