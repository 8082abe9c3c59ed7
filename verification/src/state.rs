//! The catalog cache: the services resolved so far, with the time each took
//! to load.

use crate::types::{Attribute, AttributeView, Service, ServiceView};
use vstd::hash_map::StringHashMap;
use vstd::prelude::*;

verus! {

/// The text that `std::fmt::Debug` writes for a `std::time::Duration` of
/// `secs` whole seconds and `nanos` further nanoseconds.
pub uninterp spec fn duration_debug_text(secs: u64, nanos: u32) -> Seq<char>;

/// Formats a `std::time::Duration` through its `Debug` impl. The text is
/// taken on trust to be a function of the duration alone, which the
/// contract names; nothing is said of its shape.
#[verifier::external_body]
fn debug_text(secs: u64, nanos: u32) -> (text: String)
    requires
        nanos < 1_000_000_000,
    ensures
        text@ == duration_debug_text(secs, nanos),
{
    format!("{:?}", std::time::Duration::new(secs, nanos))
}

/// How long one service took to load: whole seconds and the nanoseconds
/// beyond them, which stay below one second.
#[derive(Clone, Copy, Debug, PartialEq, Eq)]
pub struct LoadDuration {
    secs: u64,
    nanos: u32,
}

impl LoadDuration {
    #[verifier::type_invariant]
    spec fn normal(self) -> bool {
        self.nanos < 1_000_000_000
    }

    /// The whole seconds of the duration.
    pub closed spec fn whole_secs(self) -> u64 {
        self.secs
    }

    /// The nanoseconds beyond the whole seconds.
    pub closed spec fn fraction_nanos(self) -> u32 {
        self.nanos
    }

    /// The duration of `secs` seconds and `nanos` nanoseconds, where the
    /// nanoseconds stay below one second.
    pub fn new(secs: u64, nanos: u32) -> (duration: Option<Self>)
        ensures
            duration.is_some() == (nanos < 1_000_000_000),
            duration matches Some(d) ==> d.whole_secs() == secs && d.fraction_nanos() == nanos,
    {
        if nanos < 1_000_000_000 {
            Some(LoadDuration { secs, nanos })
        } else {
            None
        }
    }

    pub fn as_secs(&self) -> (secs: u64)
        ensures
            secs == self.whole_secs(),
    {
        self.secs
    }

    pub fn subsec_nanos(&self) -> (nanos: u32)
        ensures
            nanos == self.fraction_nanos(),
            nanos < 1_000_000_000,
    {
        proof {
            use_type_invariant(self);
        }
        self.nanos
    }

    /// The duration as text, in the form that `std::time::Duration` has
    /// under `{:?}`.
    pub fn to_text(&self) -> (text: String)
        ensures
            text@ == duration_debug_text(self.whole_secs(), self.fraction_nanos()),
    {
        proof {
            use_type_invariant(self);
        }
        debug_text(self.secs, self.nanos)
    }
}

impl View for LoadDuration {
    type V = LoadDuration;

    open spec fn view(&self) -> LoadDuration {
        *self
    }
}

impl DeepView for LoadDuration {
    type V = LoadDuration;

    open spec fn deep_view(&self) -> LoadDuration {
        *self
    }
}

/// The first attribute of that name, if there is one.
pub open spec fn find_attribute(attributes: Seq<AttributeView>, name: Seq<char>) -> Option<
    AttributeView,
>
    decreases attributes.len(),
{
    if attributes.len() == 0 {
        None
    } else if attributes.first().name == name {
        Some(attributes.first())
    } else {
        find_attribute(attributes.drop_first(), name)
    }
}

/// What the cache holds: the codes in the order in which they first came,
/// the service under each code, and the time each took to load.
pub struct StateView {
    pub codes: Seq<Seq<char>>,
    pub services: Map<Seq<char>, ServiceView>,
    pub stats: Map<Seq<char>, LoadDuration>,
}

impl StateView {
    /// The empty cache.
    pub open spec fn empty() -> StateView {
        StateView { codes: Seq::empty(), services: Map::empty(), stats: Map::empty() }
    }

    /// Every code occurs once, has a service that bears it, and has a load
    /// time; nothing else has either.
    pub open spec fn wf(self) -> bool {
        &&& self.codes.no_duplicates()
        &&& self.services.dom() == self.codes.to_set()
        &&& self.stats.dom() == self.codes.to_set()
        &&& forall|code: Seq<char>| #[trigger]
            self.services.contains_key(code) ==> self.services[code].code == code
    }

    /// The cache after `service` is written under its code, with the time it
    /// took: the entry of that code is replaced, or a new one is added.
    pub open spec fn put(self, service: ServiceView, elapsed: LoadDuration) -> StateView {
        StateView {
            codes: if self.services.contains_key(service.code) {
                self.codes
            } else {
                self.codes.push(service.code)
            },
            services: self.services.insert(service.code, service),
            stats: self.stats.insert(service.code, elapsed),
        }
    }

    /// The service under `code`, if there is one.
    pub open spec fn get(self, code: Seq<char>) -> Option<ServiceView> {
        if self.services.contains_key(code) {
            Some(self.services[code])
        } else {
            None
        }
    }

    /// The services in the order of their codes.
    pub open spec fn list(self) -> Seq<ServiceView> {
        self.codes.map_values(|code: Seq<char>| self.services[code])
    }

    /// Each code with the names of its service's attributes.
    pub open spec fn code_table(self) -> Seq<(Seq<char>, Seq<Seq<char>>)> {
        self.codes.map_values(|code: Seq<char>| (code, self.services[code].attrs()))
    }

    /// Each code with the time its service took to load.
    pub open spec fn stat_table(self) -> Seq<(Seq<char>, LoadDuration)> {
        self.codes.map_values(|code: Seq<char>| (code, self.stats[code]))
    }

    /// The attribute `name` of the service under `code` as far as the cache
    /// knows it: the first attribute of that name, or, where the cache has
    /// no such service or the service no such attribute, the name without
    /// values.
    pub open spec fn attribute(self, code: Seq<char>, name: Seq<char>) -> AttributeView {
        match self.get(code) {
            Some(service) => match find_attribute(service.attributes, name) {
                Some(attribute) => attribute,
                None => AttributeView::unresolved(name),
            },
            None => AttributeView::unresolved(name),
        }
    }
}

/// The codes of a table, as a set.
pub open spec fn table_keys<V>(table: Seq<(Seq<char>, V)>) -> Set<Seq<char>> {
    table.map_values(|entry: (Seq<char>, V)| entry.0).to_set()
}

/// A write keeps the cache well formed.
pub proof fn lemma_put_keeps_wf(cache: StateView, service: ServiceView, elapsed: LoadDuration)
    requires
        cache.wf(),
    ensures
        cache.put(service, elapsed).wf(),
{
    let after = cache.put(service, elapsed);
    if cache.services.contains_key(service.code) {
        assert(cache.codes.to_set().contains(service.code));
    } else {
        cache.codes.lemma_push_to_set_commute(service.code);
        assert(!cache.codes.to_set().contains(service.code));
        assert(!cache.codes.contains(service.code));
    }
    assert(after.codes.to_set() =~= cache.codes.to_set().insert(service.code));
    assert(after.services.dom() =~= after.codes.to_set());
    assert(after.stats.dom() =~= after.codes.to_set());
}

/// The codes that have a load time are the codes that have a service: at
/// no moment does the table of load times hold a code that the table of
/// codes lacks, nor the other way round.
pub proof fn lemma_stats_keys_are_codes(cache: StateView)
    requires
        cache.wf(),
    ensures
        table_keys(cache.stat_table()) == table_keys(cache.code_table()),
        table_keys(cache.stat_table()).subset_of(table_keys(cache.code_table())),
        table_keys(cache.code_table()) == cache.services.dom(),
        table_keys(cache.stat_table()) == cache.stats.dom(),
{
    let of_stats = cache.stat_table().map_values(|entry: (Seq<char>, LoadDuration)| entry.0);
    let of_codes = cache.code_table().map_values(|entry: (Seq<char>, Seq<Seq<char>>)| entry.0);
    assert(of_stats =~= cache.codes);
    assert(of_codes =~= cache.codes);
}

/// The catalog cache.
pub struct State {
    services: StringHashMap<Service>,
    load_stats: StringHashMap<LoadDuration>,
    codes: Vec<String>,
}

/// The cache that three stores stand for together.
spec fn model(
    services: Map<Seq<char>, Service>,
    stats: Map<Seq<char>, LoadDuration>,
    codes: Seq<Seq<char>>,
) -> StateView {
    StateView { codes, services: services.map_values(|service: Service| service@), stats }
}

impl View for State {
    type V = StateView;

    closed spec fn view(&self) -> StateView {
        model(self.services@, self.load_stats@, self.codes.deep_view())
    }
}

impl State {
    /// Holds of every cache.
    #[verifier::type_invariant]
    pub open spec fn wf(&self) -> bool {
        self@.wf()
    }

    /// The empty cache.
    pub fn new() -> (state: Self)
        ensures
            state@ == StateView::empty(),
    {
        let services: StringHashMap<Service> = StringHashMap::new();
        let load_stats: StringHashMap<LoadDuration> = StringHashMap::new();
        let codes: Vec<String> = Vec::new();
        proof {
            let empty = model(services@, load_stats@, codes.deep_view());
            assert(empty.codes =~= Seq::empty());
            assert(empty.services =~= Map::empty());
            assert(empty.codes.to_set() =~= Set::empty());
        }
        State { services, load_stats, codes }
    }

    /// Writes `service` under its code together with the time it took to
    /// load, in one step.
    pub fn put(&mut self, service: Service, elapsed: LoadDuration)
        ensures
            final(self)@ == old(self)@.put(service@, elapsed),
            final(self)@.wf(),
    {
        let mut taken = State::new();
        core::mem::swap(self, &mut taken);
        proof {
            use_type_invariant(&taken);
        }
        let State { mut services, mut load_stats, mut codes } = taken;
        let code = service.code.clone();
        if !services.contains_key(code.as_str()) {
            codes.push(code.clone());
        }
        load_stats.insert(code.clone(), elapsed);
        services.insert(code, service);
        proof {
            let before = old(self)@;
            let after = model(services@, load_stats@, codes.deep_view());
            assert(after.services =~= before.services.insert(service@.code, service@));
            assert(after.codes =~= before.put(service@, elapsed).codes);
            if before.services.contains_key(service@.code) {
                assert(before.codes.to_set().contains(service@.code));
            } else {
                before.codes.lemma_push_to_set_commute(service@.code);
            }
            assert(after.codes.to_set() =~= before.codes.to_set().insert(service@.code));
            assert(after == before.put(service@, elapsed));
        }
        *self = State { services, load_stats, codes };
    }
}

impl State {
    /// The service under `code`, if the cache has one.
    pub fn get_service(&self, code: &str) -> (service: Option<Service>)
        ensures
            service.deep_view() == self@.get(code@),
    {
        match self.services.get(code) {
            Some(found) => Some(found.clone()),
            None => None,
        }
    }

    /// A snapshot of every service resolved so far, in the order in which
    /// their codes first came.
    pub fn get_all_services(&self) -> (services: Vec<Service>)
        ensures
            services.deep_view() == self@.list(),
    {
        proof {
            use_type_invariant(self);
        }
        let mut services: Vec<Service> = Vec::with_capacity(self.codes.len());
        let mut i: usize = 0;
        while i < self.codes.len()
            invariant
                self@.wf(),
                i <= self.codes.len(),
                services.len() == i,
                forall|j: int| 0 <= j < i ==> services[j]@ == self@.services[self.codes[j]@],
            decreases self.codes.len() - i,
        {
            assert(self@.codes.to_set().contains(self@.codes[i as int]));
            match self.services.get(self.codes[i].as_str()) {
                Some(found) => {
                    services.push(found.clone());
                },
                None => {},
            }
            i += 1;
        }
        assert(services.deep_view() =~= self@.list());
        services
    }

    /// Each code with the names of its service's attributes, in the order in
    /// which the codes first came.
    pub fn codes(&self) -> (table: Vec<(String, Vec<String>)>)
        ensures
            table.deep_view() == self@.code_table(),
    {
        proof {
            use_type_invariant(self);
        }
        let mut table: Vec<(String, Vec<String>)> = Vec::with_capacity(self.codes.len());
        let mut i: usize = 0;
        while i < self.codes.len()
            invariant
                self@.wf(),
                i <= self.codes.len(),
                table.len() == i,
                forall|j: int|
                    0 <= j < i ==> table[j].deep_view() == (
                        self.codes[j]@,
                        self@.services[self.codes[j]@].attrs(),
                    ),
            decreases self.codes.len() - i,
        {
            assert(self@.codes.to_set().contains(self@.codes[i as int]));
            match self.services.get(self.codes[i].as_str()) {
                Some(found) => {
                    table.push((self.codes[i].clone(), found.attrs()));
                },
                None => {},
            }
            i += 1;
        }
        assert(table.deep_view() =~= self@.code_table());
        table
    }

    /// Each code with the time its service took to load, in the order in
    /// which the codes first came.
    pub fn stats(&self) -> (table: Vec<(String, LoadDuration)>)
        ensures
            table.deep_view() == self@.stat_table(),
    {
        proof {
            use_type_invariant(self);
        }
        let mut table: Vec<(String, LoadDuration)> = Vec::with_capacity(self.codes.len());
        let mut i: usize = 0;
        while i < self.codes.len()
            invariant
                self@.wf(),
                i <= self.codes.len(),
                table.len() == i,
                forall|j: int|
                    0 <= j < i ==> table[j].deep_view() == (
                        self.codes[j]@,
                        self@.stats[self.codes[j]@],
                    ),
            decreases self.codes.len() - i,
        {
            assert(self@.codes.to_set().contains(self@.codes[i as int]));
            match self.load_stats.get(self.codes[i].as_str()) {
                Some(elapsed) => {
                    table.push((self.codes[i].clone(), *elapsed));
                },
                None => {},
            }
            i += 1;
        }
        assert(table.deep_view() =~= self@.stat_table());
        table
    }

    /// The attribute `attribute` of the service under `code`, as far as the
    /// cache knows it.
    pub fn attribute(&self, code: &str, attribute: &str) -> (found: Attribute)
        ensures
            found@ == self@.attribute(code@, attribute@),
    {
        let name = attribute.to_owned();
        match self.services.get(code) {
            Some(service) => {
                let mut i: usize = 0;
                assert(service@.attributes.skip(0) =~= service@.attributes);
                while i < service.attributes.len()
                    invariant
                        i <= service.attributes.len(),
                        name@ == attribute@,
                        self@.get(code@) == Some(service@),
                        find_attribute(service@.attributes, name@) == find_attribute(
                            service@.attributes.skip(i as int),
                            name@,
                        ),
                    decreases service.attributes.len() - i,
                {
                    assert(service@.attributes.skip(i as int).first()
                        == service.attributes[i as int]@);
                    assert(service@.attributes.skip(i as int).drop_first()
                        =~= service@.attributes.skip(i as int + 1));
                    if service.attributes[i].name == name {
                        return service.attributes[i].clone();
                    }
                    i += 1;
                }
                Attribute::new(name)
            },
            None => Attribute::new(name),
        }
    }
}

} // verus!
