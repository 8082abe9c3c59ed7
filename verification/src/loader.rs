//! The batched loader: one window of lookups by service code.
//!
//! Callers join a window with the code they ask for. When the window is
//! resolved, each code is looked up once, however many callers asked for
//! it: first in the cache, and only what the cache lacks is left for the
//! source. Every caller then gets what was found for its code.

use crate::state::{State, StateView};
use crate::types::{Service, ServiceView};
use vstd::prelude::*;

verus! {

/// The codes of `requests`, each once, in the order in which they were first
/// asked for.
pub open spec fn distinct(requests: Seq<Seq<char>>) -> Seq<Seq<char>>
    decreases requests.len(),
{
    if requests.len() == 0 {
        Seq::empty()
    } else {
        let earlier = distinct(requests.drop_last());
        if earlier.contains(requests.last()) {
            earlier
        } else {
            earlier.push(requests.last())
        }
    }
}

/// The first service that `entries` hold under `code`, if they hold one.
pub open spec fn lookup(entries: Seq<(Seq<char>, ServiceView)>, code: Seq<char>) -> Option<
    ServiceView,
>
    decreases entries.len(),
{
    if entries.len() == 0 {
        None
    } else if entries.first().0 == code {
        Some(entries.first().1)
    } else {
        lookup(entries.drop_first(), code)
    }
}

/// What the source brought for the codes it was asked for: each code with
/// its service, where the answer at the code's place holds one. A code
/// without an answer, or with an empty one, is left out.
pub open spec fn found(misses: Seq<Seq<char>>, fetched: Seq<Option<ServiceView>>) -> Seq<
    (Seq<char>, ServiceView),
>
    decreases fetched.len(),
{
    if fetched.len() == 0 {
        Seq::empty()
    } else {
        let earlier = found(misses, fetched.drop_last());
        let place = fetched.len() - 1;
        match fetched.last() {
            Some(service) if place < misses.len() => earlier.push((misses[place], service)),
            _ => earlier,
        }
    }
}

/// What each caller of a window gets: the service under its code among the
/// resolved entries, or nothing where there is none or the window could not
/// be resolved at all.
pub open spec fn delivered(
    requests: Seq<Seq<char>>,
    resolved: Option<Seq<(Seq<char>, ServiceView)>>,
) -> Seq<Option<ServiceView>> {
    requests.map_values(
        |code: Seq<char>|
            match resolved {
                Some(entries) => lookup(entries, code),
                None => None,
            },
    )
}

/// The first pass over a window's codes: what the cache holds, and what is
/// left to ask the source for.
#[derive(Debug, PartialEq, Eq)]
pub struct BatchPlan {
    /// The codes that the cache holds, each with its service.
    pub hits: Vec<(String, Service)>,
    /// The codes that the cache lacks.
    pub misses: Vec<String>,
}

/// What a plan is, as text.
pub struct BatchPlanView {
    pub hits: Seq<(Seq<char>, ServiceView)>,
    pub misses: Seq<Seq<char>>,
}

impl View for BatchPlan {
    type V = BatchPlanView;

    open spec fn view(&self) -> BatchPlanView {
        BatchPlanView { hits: self.hits.deep_view(), misses: self.misses.deep_view() }
    }
}

/// Whether the cache holds a service under a code.
pub open spec fn held(cache: StateView) -> spec_fn(Seq<char>) -> bool {
    |code: Seq<char>| cache.services.contains_key(code)
}

/// Whether the cache holds no service under a code.
pub open spec fn lacking(cache: StateView) -> spec_fn(Seq<char>) -> bool {
    |code: Seq<char>| !cache.services.contains_key(code)
}

/// A code with the service that the cache holds under it.
pub open spec fn entry(cache: StateView) -> spec_fn(Seq<char>) -> (Seq<char>, ServiceView) {
    |code: Seq<char>| (code, cache.services[code])
}

impl BatchPlanView {
    /// The plan for `codes` against `cache`: the codes that the cache holds
    /// with their services, and the codes that it lacks, both in the order
    /// of `codes`.
    pub open spec fn of(codes: Seq<Seq<char>>, cache: StateView) -> BatchPlanView {
        BatchPlanView {
            hits: codes.filter(held(cache)).map_values(entry(cache)),
            misses: codes.filter(lacking(cache)),
        }
    }

    /// The entries that the plan resolves to once the source has answered
    /// for its misses, place by place.
    pub open spec fn complete(self, fetched: Seq<Option<ServiceView>>) -> Seq<
        (Seq<char>, ServiceView),
    > {
        self.hits + found(self.misses, fetched)
    }
}

/// One window of the batched loader: the codes asked for, one for each
/// caller, in the order in which the callers came.
#[derive(Debug)]
pub struct PricingLoader {
    requests: Vec<String>,
}

impl View for PricingLoader {
    type V = Seq<Seq<char>>;

    closed spec fn view(&self) -> Seq<Seq<char>> {
        self.requests.deep_view()
    }
}

impl PricingLoader {
    /// An empty window.
    pub fn new() -> (loader: Self)
        ensures
            loader@ == Seq::<Seq<char>>::empty(),
    {
        let requests: Vec<String> = Vec::new();
        assert(requests.deep_view() =~= Seq::empty());
        PricingLoader { requests }
    }

    /// Joins the window with a request for `code`. The ticket is the
    /// caller's place among the results.
    pub fn load(&mut self, code: String) -> (ticket: usize)
        ensures
            final(self)@ == old(self)@.push(code@),
            ticket == old(self)@.len(),
    {
        let ticket: usize = self.requests.len();
        self.requests.push(code);
        assert(self.requests.deep_view() =~= old(self).requests.deep_view().push(code@));
        ticket
    }

    /// How many callers have joined the window.
    pub fn len(&self) -> (callers: usize)
        ensures
            callers == self@.len(),
    {
        self.requests.len()
    }

    /// The codes to resolve: each code of the window once.
    pub fn keys(&self) -> (codes: Vec<String>)
        ensures
            codes.deep_view() == distinct(self@),
    {
        let mut codes: Vec<String> = Vec::new();
        assert(codes.deep_view() =~= distinct(self@.take(0)));
        let mut i: usize = 0;
        while i < self.requests.len()
            invariant
                i <= self.requests.len(),
                codes.deep_view() == distinct(self@.take(i as int)),
            decreases self.requests.len() - i,
        {
            let code = &self.requests[i];
            let ghost earlier = codes.deep_view();
            let mut seen = false;
            let mut j: usize = 0;
            while j < codes.len()
                invariant
                    j <= codes.len(),
                    earlier == codes.deep_view(),
                    seen == earlier.take(j as int).contains(code@),
                decreases codes.len() - j,
            {
                if codes[j] == *code {
                    seen = true;
                }
                proof {
                    let upto = earlier.take(j as int);
                    let next = earlier.take(j as int + 1);
                    assert(next =~= upto.push(earlier[j as int]));
                    if upto.contains(code@) {
                        let at = choose|at: int| 0 <= at < upto.len() && upto[at] == code@;
                        assert(next[at] == code@);
                    }
                    if earlier[j as int] == code@ {
                        assert(next[j as int] == code@);
                    }
                }
                j += 1;
            }
            assert(earlier.take(earlier.len() as int) =~= earlier);
            proof {
                assert(self@.take(i as int + 1).drop_last() =~= self@.take(i as int));
                assert(self@.take(i as int + 1).last() == code@);
            }
            if !seen {
                codes.push(code.clone());
                assert(codes.deep_view() =~= earlier.push(code@));
            }
            i += 1;
        }
        assert(self@.take(self@.len() as int) =~= self@);
        codes
    }

    /// Looks each code of the window up in the cache, once.
    pub fn plan(&self, cache: &State) -> (plan: BatchPlan)
        ensures
            plan@ == BatchPlanView::of(distinct(self@), cache@),
    {
        let codes = self.keys();
        let ghost all = codes.deep_view();
        let mut hits: Vec<(String, Service)> = Vec::new();
        let mut misses: Vec<String> = Vec::new();
        proof {
            reveal(Seq::filter);
            assert(hits.deep_view() =~= all.take(0).filter(held(cache@)).map_values(entry(cache@)));
            assert(misses.deep_view() =~= all.take(0).filter(lacking(cache@)));
        }
        for code in it: codes
            invariant
                it.seq().len() == all.len(),
                forall|j: int| 0 <= j < all.len() ==> it.seq()[j]@ == all[j],
                hits.deep_view() == all.take(it.index() as int).filter(held(cache@)).map_values(
                    entry(cache@),
                ),
                misses.deep_view() == all.take(it.index() as int).filter(lacking(cache@)),
        {
            let ghost upto = all.take(it.index() as int);
            proof {
                assert(all.take(it.index() as int + 1) =~= upto.push(code@));
                upto.lemma_filter_push(code@, held(cache@));
                upto.lemma_filter_push(code@, lacking(cache@));
            }
            match cache.get_service(code.as_str()) {
                Some(service) => {
                    let ghost before = hits.deep_view();
                    hits.push((code, service));
                    proof {
                        assert(hits.deep_view() =~= before.push((code@, service@)));
                        upto.filter(held(cache@)).lemma_push_map_commute(entry(cache@), code@);
                    }
                },
                None => {
                    let ghost before = misses.deep_view();
                    misses.push(code);
                    assert(misses.deep_view() =~= before.push(code@));
                },
            }
        }
        assert(all.take(all.len() as int) =~= all);
        BatchPlan { hits, misses }
    }

    /// Hands every caller of the window what was resolved for its code, in
    /// the order of the tickets. Where the window could not be resolved at
    /// all, every caller gets nothing.
    pub fn deliver(&self, resolved: Option<&Vec<(String, Service)>>) -> (results: Vec<
        Option<Service>,
    >)
        ensures
            results.deep_view() == delivered(self@, resolved.deep_view()),
    {
        let mut results: Vec<Option<Service>> = Vec::with_capacity(self.requests.len());
        let mut i: usize = 0;
        while i < self.requests.len()
            invariant
                i <= self.requests.len(),
                results.len() == i,
                forall|j: int|
                    0 <= j < i ==> results[j].deep_view() == delivered(
                        self@,
                        resolved.deep_view(),
                    )[j],
            decreases self.requests.len() - i,
        {
            let result = match resolved {
                Some(entries) => find(entries, &self.requests[i]),
                None => None,
            };
            results.push(result);
            i += 1;
        }
        assert(results.deep_view() =~= delivered(self@, resolved.deep_view()));
        results
    }
}

/// The first service that `entries` hold under `code`, if they hold one.
fn find(entries: &Vec<(String, Service)>, code: &String) -> (service: Option<Service>)
    ensures
        service.deep_view() == lookup(entries.deep_view(), code@),
{
    let ghost all = entries.deep_view();
    assert(all.skip(0) =~= all);
    let mut i: usize = 0;
    while i < entries.len()
        invariant
            i <= entries.len(),
            all == entries.deep_view(),
            lookup(all, code@) == lookup(all.skip(i as int), code@),
        decreases entries.len() - i,
    {
        assert(all.skip(i as int).first() == entries[i as int].deep_view());
        assert(all.skip(i as int).drop_first() =~= all.skip(i as int + 1));
        if entries[i].0 == *code {
            return Some(entries[i].1.clone());
        }
        i += 1;
    }
    None
}

impl BatchPlan {
    /// The entries that the window resolves to: what the cache held, and
    /// what the source brought for the misses. `fetched` answers the misses
    /// place by place; an empty answer, or none, leaves the code out.
    pub fn complete(self, fetched: Vec<Option<Service>>) -> (resolved: Vec<(String, Service)>)
        ensures
            resolved.deep_view() == self@.complete(fetched.deep_view()),
    {
        let BatchPlan { hits, misses } = self;
        let mut resolved = hits;
        let ghost kept = resolved.deep_view();
        let ghost wanted = misses.deep_view();
        let ghost answers = fetched.deep_view();
        let ghost raw = fetched@;
        assert(raw.len() == fetched.len());
        assert(resolved.deep_view() =~= kept + found(wanted, answers.take(0)));
        let mut place: usize = 0;
        for answer in it: fetched
            invariant
                it.seq() == raw,
                raw.len() <= usize::MAX,
                answers.len() == raw.len(),
                forall|j: int| 0 <= j < raw.len() ==> answers[j] == raw[j].deep_view(),
                wanted == misses.deep_view(),
                place == it.index(),
                resolved.deep_view() == kept + found(wanted, answers.take(it.index() as int)),
        {
            proof {
                assert(answers.take(place as int + 1).drop_last() =~= answers.take(place as int));
                assert(answers.take(place as int + 1).last() == answer.deep_view());
            }
            match answer {
                Some(service) => {
                    if place < misses.len() {
                        let ghost before = resolved.deep_view();
                        let code = misses[place].clone();
                        resolved.push((code, service));
                        assert(resolved.deep_view() =~= before.push((code@, service@)));
                    }
                },
                None => {},
            }
            place += 1;
        }
        assert(answers.take(answers.len() as int) =~= answers);
        resolved
    }
}

/// The answer to a query for one code: what the lookup found, alone in a
/// list, or the empty list where it found nothing. A lookup that failed
/// counts as one that found nothing.
pub fn answer<T, E>(outcome: Result<Option<T>, E>) -> (found: Vec<T>)
    ensures
        found@ == match outcome {
            Ok(Some(value)) => seq![value],
            _ => Seq::<T>::empty(),
        },
{
    let mut found: Vec<T> = Vec::new();
    match outcome {
        Ok(Some(value)) => {
            found.push(value);
            assert(found@ =~= seq![value]);
        },
        _ => {},
    }
    found
}

/// What a caller that asked for `code` is owed: the service that the cache
/// holds under the code; where it holds none, what the source answered at
/// the code's place among the misses; and nothing where the source gave no
/// answer there.
pub open spec fn owed(
    cache: StateView,
    misses: Seq<Seq<char>>,
    fetched: Seq<Option<ServiceView>>,
    code: Seq<char>,
) -> Option<ServiceView> {
    if cache.services.contains_key(code) {
        Some(cache.services[code])
    } else if misses.contains(code) && misses.index_of(code) < fetched.len() {
        fetched[misses.index_of(code)]
    } else {
        None
    }
}

/// The distinct codes of a window are its codes, each once.
pub proof fn lemma_distinct_is_exact(requests: Seq<Seq<char>>)
    ensures
        distinct(requests).no_duplicates(),
        distinct(requests).to_set() == requests.to_set(),
        distinct(requests).len() <= requests.len(),
    decreases requests.len(),
{
    if requests.len() == 0 {
        assert(distinct(requests).to_set() =~= requests.to_set());
    } else {
        let before = requests.drop_last();
        let earlier = distinct(before);
        lemma_distinct_is_exact(before);
        assert(requests =~= before.push(requests.last()));
        before.lemma_push_to_set_commute(requests.last());
        if earlier.contains(requests.last()) {
            assert(earlier.to_set().contains(requests.last()));
            assert(earlier.to_set().insert(requests.last()) =~= earlier.to_set());
        } else {
            earlier.lemma_push_to_set_commute(requests.last());
        }
    }
}

/// A plan leaves each code that the cache lacks to the source once, and no
/// code that the cache holds.
pub proof fn lemma_misses_are_exact(codes: Seq<Seq<char>>, cache: StateView)
    requires
        codes.no_duplicates(),
    ensures
        BatchPlanView::of(codes, cache).misses.no_duplicates(),
        BatchPlanView::of(codes, cache).misses.len() <= codes.len(),
        forall|code: Seq<char>| #[trigger]
            BatchPlanView::of(codes, cache).misses.contains(code) ==> codes.contains(code)
                && !cache.services.contains_key(code),
        forall|code: Seq<char>| #[trigger]
            codes.contains(code) && !cache.services.contains_key(code) ==> BatchPlanView::of(
                codes,
                cache,
            ).misses.contains(code),
    decreases codes.len(),
{
    let misses = codes.filter(lacking(cache));
    reveal(Seq::filter);
    if codes.len() > 0 {
        let before = codes.drop_last();
        lemma_misses_are_exact(before, cache);
        let earlier = before.filter(lacking(cache));
        assert(codes =~= before.push(codes.last()));
        assert forall|code: Seq<char>| #[trigger] misses.contains(code) implies codes.contains(code)
            && !cache.services.contains_key(code) by {
            let at = choose|at: int| 0 <= at < misses.len() && misses[at] == code;
            if at < earlier.len() {
                assert(earlier[at] == code);
                assert(earlier.contains(code));
                let place = choose|place: int| 0 <= place < before.len() && before[place] == code;
                assert(codes[place] == code);
            } else {
                assert(codes[codes.len() - 1] == code);
            }
        }
        assert forall|code: Seq<char>| #[trigger]
            codes.contains(code) && !cache.services.contains_key(code) implies misses.contains(
            code,
        ) by {
            let place = choose|place: int| 0 <= place < codes.len() && codes[place] == code;
            if place < before.len() {
                assert(before[place] == code);
                assert(before.contains(code));
                assert(earlier.contains(code));
                let at = choose|at: int| 0 <= at < earlier.len() && earlier[at] == code;
                assert(misses[at] == code);
            } else {
                assert(misses[misses.len() - 1] == code);
            }
        }
        if !cache.services.contains_key(codes.last()) {
            assert(!earlier.contains(codes.last())) by {
                if earlier.contains(codes.last()) {
                    let place = choose|place: int|
                        0 <= place < before.len() && before[place] == codes.last();
                    assert(codes[place] == codes[codes.len() - 1]);
                }
            }
        }
    }
}

/// Looking a code up in entries that follow others finds what the first
/// entries hold under it, and what the later ones hold where the first
/// hold nothing.
pub proof fn lemma_lookup_in_joined(
    first: Seq<(Seq<char>, ServiceView)>,
    second: Seq<(Seq<char>, ServiceView)>,
    code: Seq<char>,
)
    ensures
        lookup(first + second, code) == match lookup(first, code) {
            Some(service) => Some(service),
            None => lookup(second, code),
        },
    decreases first.len(),
{
    if first.len() == 0 {
        assert(first + second =~= second);
    } else {
        assert((first + second).first() == first.first());
        assert((first + second).drop_first() =~= first.drop_first() + second);
        lemma_lookup_in_joined(first.drop_first(), second, code);
    }
}

/// Among the hits of a plan, a code is found with the service that the
/// cache holds under it, and only if the cache holds one.
pub proof fn lemma_lookup_in_hits(codes: Seq<Seq<char>>, cache: StateView, code: Seq<char>)
    ensures
        lookup(BatchPlanView::of(codes, cache).hits, code) == if codes.contains(code)
            && cache.services.contains_key(code) {
            Some(cache.services[code])
        } else {
            None
        },
    decreases codes.len(),
{
    let hits = codes.filter(held(cache)).map_values(entry(cache));
    reveal(Seq::filter);
    if codes.len() > 0 {
        let before = codes.drop_last();
        let earlier = before.filter(held(cache)).map_values(entry(cache));
        lemma_lookup_in_hits(before, cache, code);
        assert(codes =~= before.push(codes.last()));
        if cache.services.contains_key(codes.last()) {
            let last = seq![(codes.last(), cache.services[codes.last()])];
            assert(hits =~= earlier + last);
            lemma_lookup_in_joined(earlier, last, code);
            assert(last.drop_first() =~= Seq::empty());
            assert(lookup(last.drop_first(), code) == None::<ServiceView>);
        }
        if codes.contains(code) {
            let place = choose|place: int| 0 <= place < codes.len() && codes[place] == code;
            if place < before.len() {
                assert(before[place] == code);
            }
        }
        if before.contains(code) {
            let place = choose|place: int| 0 <= place < before.len() && before[place] == code;
            assert(codes[place] == code);
        }
        if codes.last() == code {
            assert(codes[codes.len() - 1] == code);
        }
    }
}

/// Among what the source brought, a code is found with the answer at its
/// place among the misses.
pub proof fn lemma_lookup_in_found(
    misses: Seq<Seq<char>>,
    fetched: Seq<Option<ServiceView>>,
    code: Seq<char>,
)
    requires
        misses.no_duplicates(),
    ensures
        lookup(found(misses, fetched), code) == if misses.contains(code) && misses.index_of(code)
            < fetched.len() {
            fetched[misses.index_of(code)]
        } else {
            None
        },
    decreases fetched.len(),
{
    if fetched.len() > 0 {
        let before = fetched.drop_last();
        let earlier = found(misses, before);
        let place = fetched.len() - 1;
        lemma_lookup_in_found(misses, before, code);
        if misses.contains(code) {
            let at = misses.index_of(code);
            assert(0 <= at < misses.len() && misses[at] == code);
            if at < before.len() {
                assert(before[at] == fetched[at]);
            }
        }
        match fetched.last() {
            Some(service) => {
                if place < misses.len() {
                    let last = seq![(misses[place], service)];
                    assert(found(misses, fetched) =~= earlier + last);
                    lemma_lookup_in_joined(earlier, last, code);
                    assert(last.drop_first() =~= Seq::empty());
                    assert(lookup(last.drop_first(), code) == None::<ServiceView>);
                    if misses[place] == code {
                        assert(misses.contains(code));
                    }
                }
            },
            None => {},
        }
    }
}

/// One window, resolved: the source is asked for no code twice and for no
/// code that the cache holds, and every caller gets what is owed for its
/// code, so that callers of one code get one and the same result.
pub proof fn lemma_window_resolves_each_code_once(
    requests: Seq<Seq<char>>,
    cache: StateView,
    fetched: Seq<Option<ServiceView>>,
)
    ensures
        ({
            let plan = BatchPlanView::of(distinct(requests), cache);
            let results = delivered(requests, Some(plan.complete(fetched)));
            &&& plan.misses.no_duplicates()
            &&& plan.misses.len() <= requests.to_set().len()
            &&& forall|code: Seq<char>| #[trigger]
                plan.misses.contains(code) <==> requests.contains(code)
                    && !cache.services.contains_key(code)
            &&& results.len() == requests.len()
            &&& forall|i: int|
                0 <= i < requests.len() ==> #[trigger] results[i] == owed(
                    cache,
                    plan.misses,
                    fetched,
                    requests[i],
                )
            &&& forall|i: int, j: int|
                0 <= i < requests.len() && 0 <= j < requests.len() && requests[i] == requests[j]
                    ==> results[i] == results[j]
        }),
{
    let codes = distinct(requests);
    let plan = BatchPlanView::of(codes, cache);
    let results = delivered(requests, Some(plan.complete(fetched)));
    lemma_distinct_is_exact(requests);
    lemma_misses_are_exact(codes, cache);
    codes.unique_seq_to_set();
    assert forall|code: Seq<char>| #[trigger]
        plan.misses.contains(code) <==> requests.contains(code) && !cache.services.contains_key(
            code,
        ) by {
        assert(codes.contains(code) <==> codes.to_set().contains(code));
        assert(requests.contains(code) <==> requests.to_set().contains(code));
    }
    assert forall|i: int| 0 <= i < requests.len() implies #[trigger] results[i] == owed(
        cache,
        plan.misses,
        fetched,
        requests[i],
    ) by {
        let code = requests[i];
        assert(requests.contains(code));
        assert(codes.to_set().contains(code));
        assert(codes.contains(code));
        lemma_lookup_in_joined(plan.hits, found(plan.misses, fetched), code);
        lemma_lookup_in_hits(codes, cache, code);
        lemma_lookup_in_found(plan.misses, fetched, code);
    }
}

} // verus!
