use pricer::pricing::ServiceRecord;
use pricer::refresh::{Phase, RefreshAction, RefreshEvent, RefreshPipeline};
use pricer::state::{LoadDuration, State};
use pricer::types::{Attribute, Service};

fn text(value: &str) -> String {
    value.to_string()
}

fn record(code: &str, names: &[&str]) -> ServiceRecord {
    ServiceRecord {
        service_code: Some(text(code)),
        attribute_names: Some(names.iter().map(|name| text(name)).collect()),
    }
}

fn attribute(name: &str, values: &[&str]) -> Attribute {
    Attribute { name: text(name), values: values.iter().map(|value| text(value)).collect() }
}

fn keys<V>(table: &[(String, V)]) -> Vec<String> {
    table.iter().map(|entry| entry.0.clone()).collect()
}

/// A source that answers from fixed data and counts what it is asked.
struct Source {
    catalog: Option<Vec<ServiceRecord>>,
    values: Vec<((&'static str, &'static str), Vec<Option<&'static str>>)>,
    listings: usize,
    fetches: usize,
    clock: u32,
}

impl Source {
    fn new(
        catalog: Option<Vec<ServiceRecord>>,
        values: Vec<((&'static str, &'static str), Vec<Option<&'static str>>)>,
    ) -> Self {
        Source { catalog, values, listings: 0, fetches: 0, clock: 0 }
    }

    fn two_services() -> Self {
        Source::new(
            Some(vec![record("EC2", &["instanceType"]), record("S3", &[])]),
            vec![(("EC2", "instanceType"), vec![Some("t2.micro"), Some("m5.large")])],
        )
    }

    fn reply(&mut self, action: &RefreshAction) -> Option<RefreshEvent> {
        match action {
            RefreshAction::ListServices => {
                self.listings += 1;
                Some(RefreshEvent::Listed(self.catalog.clone()))
            }
            RefreshAction::FetchValues { code, attribute } => {
                self.fetches += 1;
                let found = self
                    .values
                    .iter()
                    .find(|entry| entry.0 .0 == code.as_str() && entry.0 .1 == attribute.as_str());
                Some(RefreshEvent::Values(found.map(|entry| {
                    entry.1.iter().map(|value| value.map(|value| text(value))).collect()
                })))
            }
            RefreshAction::Commit => {
                self.clock += 1;
                Some(RefreshEvent::Elapsed(LoadDuration::new(0, self.clock).unwrap()))
            }
            RefreshAction::Done => None,
        }
    }
}

/// Walks a new pipeline to its end and calls `observe` on the cache after
/// every step.
fn refresh(state: &mut State, source: &mut Source, observe: &mut dyn FnMut(&State)) -> Vec<RefreshAction> {
    let mut pipeline = RefreshPipeline::new();
    let mut action = pipeline.pending();
    let mut actions = Vec::new();
    while let Some(event) = source.reply(&action) {
        actions.push(action);
        let (next, following) = pipeline.step(state, event);
        pipeline = next;
        action = following;
        observe(state);
    }
    assert_eq!(pipeline.phase(), Phase::Done);
    assert_eq!(action, RefreshAction::Done);
    actions
}

#[test]
fn new_pipeline_waits_for_the_listing() {
    let pipeline = RefreshPipeline::new();
    assert_eq!(pipeline.phase(), Phase::Listing);
    assert_eq!(pipeline.pending(), RefreshAction::ListServices);
}

#[test]
fn refresh_of_two_services_fills_the_cache() {
    let mut state = State::new();
    let mut source = Source::two_services();
    refresh(&mut state, &mut source, &mut |_| {});
    assert_eq!(
        state.get_all_services(),
        vec![
            Service { code: text("EC2"), attributes: vec![attribute("instanceType", &["t2.micro", "m5.large"])] },
            Service { code: text("S3"), attributes: vec![] },
        ]
    );
    assert_eq!(
        state.attribute("EC2", "instanceType"),
        attribute("instanceType", &["t2.micro", "m5.large"])
    );
    assert_eq!(state.get_service("S3"), Some(Service { code: text("S3"), attributes: vec![] }));
    assert_eq!(
        state.stats(),
        vec![
            (text("EC2"), LoadDuration::new(0, 1).unwrap()),
            (text("S3"), LoadDuration::new(0, 2).unwrap())
        ]
    );
}

#[test]
fn refresh_asks_for_each_thing_once_and_in_order() {
    let mut state = State::new();
    let mut source = Source::two_services();
    let actions = refresh(&mut state, &mut source, &mut |_| {});
    assert_eq!(
        actions,
        vec![
            RefreshAction::ListServices,
            RefreshAction::FetchValues { code: text("EC2"), attribute: text("instanceType") },
            RefreshAction::Commit,
            RefreshAction::Commit,
        ]
    );
    assert_eq!(source.listings, 1);
    assert_eq!(source.fetches, 1);
}

#[test]
fn failed_fetch_leaves_the_attribute_without_values() {
    let mut state = State::new();
    let mut source = Source::new(
        Some(vec![record("EC2", &["instanceType", "location", "tenancy"])]),
        vec![
            (("EC2", "instanceType"), vec![Some("t2.micro")]),
            (("EC2", "tenancy"), vec![Some("Shared"), None, Some("Dedicated")]),
        ],
    );
    refresh(&mut state, &mut source, &mut |_| {});
    assert_eq!(
        state.get_service("EC2"),
        Some(Service {
            code: text("EC2"),
            attributes: vec![
                attribute("instanceType", &["t2.micro"]),
                attribute("location", &[]),
                attribute("tenancy", &["Shared", "Dedicated"]),
            ],
        })
    );
    assert_eq!(source.fetches, 3);
}

#[test]
fn failed_listing_leaves_the_catalog_empty() {
    let mut state = State::new();
    let mut source = Source::new(None, vec![]);
    let actions = refresh(&mut state, &mut source, &mut |_| {});
    assert_eq!(actions, vec![RefreshAction::ListServices]);
    assert!(state.get_all_services().is_empty());
    assert!(state.stats().is_empty());
}

#[test]
fn empty_listing_ends_the_walk() {
    let mut state = State::new();
    let mut source = Source::new(Some(vec![]), vec![]);
    let actions = refresh(&mut state, &mut source, &mut |_| {});
    assert_eq!(actions, vec![RefreshAction::ListServices]);
    assert!(state.get_all_services().is_empty());
}

#[test]
fn failed_listing_leaves_an_earlier_catalog_as_it_was() {
    let mut state = State::new();
    refresh(&mut state, &mut Source::two_services(), &mut |_| {});
    let before = state.get_all_services();
    refresh(&mut state, &mut Source::new(None, vec![]), &mut |_| {});
    assert_eq!(state.get_all_services(), before);
}

#[test]
fn second_refresh_leaves_the_same_catalog() {
    let mut once = State::new();
    refresh(&mut once, &mut Source::two_services(), &mut |_| {});
    let mut twice = State::new();
    refresh(&mut twice, &mut Source::two_services(), &mut |_| {});
    refresh(&mut twice, &mut Source::two_services(), &mut |_| {});
    assert_eq!(twice.get_all_services(), once.get_all_services());
    assert_eq!(twice.codes(), once.codes());
    assert_eq!(keys(&twice.stats()), keys(&once.stats()));
}

#[test]
fn second_refresh_over_a_catalog_with_a_repeated_code_changes_nothing() {
    let catalog = || {
        Source::new(
            Some(vec![record("EC2", &["instanceType"]), record("S3", &[]), record("EC2", &["location"])]),
            vec![
                (("EC2", "instanceType"), vec![Some("t2.micro")]),
                (("EC2", "location"), vec![Some("US East")]),
            ],
        )
    };
    let mut state = State::new();
    refresh(&mut state, &mut catalog(), &mut |_| {});
    let once = state.get_all_services();
    assert_eq!(
        once,
        vec![
            Service { code: text("EC2"), attributes: vec![attribute("location", &["US East"])] },
            Service { code: text("S3"), attributes: vec![] },
        ]
    );
    refresh(&mut state, &mut catalog(), &mut |_| {});
    assert_eq!(state.get_all_services(), once);
}

#[test]
fn no_half_built_service_is_ever_visible() {
    let mut state = State::new();
    let mut source = Source::new(
        Some(vec![record("EC2", &["instanceType", "location"]), record("S3", &["storageClass"])]),
        vec![
            (("EC2", "instanceType"), vec![Some("t2.micro")]),
            (("EC2", "location"), vec![Some("US East")]),
            (("S3", "storageClass"), vec![Some("Standard")]),
        ],
    );
    let mut observations = 0;
    refresh(&mut state, &mut source, &mut |state| {
        observations += 1;
        for service in state.get_all_services() {
            let complete = match service.code.as_str() {
                "EC2" => vec![
                    attribute("instanceType", &["t2.micro"]),
                    attribute("location", &["US East"]),
                ],
                "S3" => vec![attribute("storageClass", &["Standard"])],
                other => panic!("unlisted service {other}"),
            };
            assert_eq!(service.attributes, complete);
        }
    });
    assert_eq!(observations, 6);
    assert_eq!(state.get_all_services().len(), 2);
}

#[test]
fn cache_changes_only_when_a_service_is_written() {
    let mut state = State::new();
    let pipeline = RefreshPipeline::new();
    let (pipeline, action) = pipeline.step(
        &mut state,
        RefreshEvent::Listed(Some(vec![record("EC2", &["instanceType", "location"])])),
    );
    assert_eq!(pipeline.phase(), Phase::Resolving);
    assert_eq!(action, RefreshAction::FetchValues { code: text("EC2"), attribute: text("instanceType") });
    assert!(state.get_all_services().is_empty());
    let (pipeline, action) =
        pipeline.step(&mut state, RefreshEvent::Values(Some(vec![Some(text("t2.micro"))])));
    assert_eq!(pipeline.phase(), Phase::Resolving);
    assert_eq!(action, RefreshAction::FetchValues { code: text("EC2"), attribute: text("location") });
    assert_eq!(state.get_service("EC2"), None);
    let (pipeline, action) = pipeline.step(&mut state, RefreshEvent::Values(None));
    assert_eq!(pipeline.phase(), Phase::Committing);
    assert_eq!(action, RefreshAction::Commit);
    assert_eq!(state.get_service("EC2"), None);
    assert!(state.stats().is_empty());
    let (pipeline, action) =
        pipeline.step(&mut state, RefreshEvent::Elapsed(LoadDuration::new(2, 5).unwrap()));
    assert_eq!(pipeline.phase(), Phase::Done);
    assert_eq!(action, RefreshAction::Done);
    assert_eq!(
        state.get_service("EC2"),
        Some(Service {
            code: text("EC2"),
            attributes: vec![attribute("instanceType", &["t2.micro"]), attribute("location", &[])],
        })
    );
    assert_eq!(state.stats(), vec![(text("EC2"), LoadDuration::new(2, 5).unwrap())]);
}

#[test]
fn stats_never_name_a_code_that_the_catalog_lacks() {
    let mut state = State::new();
    let mut source = Source::two_services();
    refresh(&mut state, &mut source, &mut |state| {
        let codes = keys(&state.codes());
        for code in keys(&state.stats()) {
            assert!(codes.contains(&code));
        }
    });
    assert_eq!(keys(&state.stats()), keys(&state.codes()));
    assert_eq!(keys(&state.stats()), vec![text("EC2"), text("S3")]);
}

#[test]
fn event_that_was_not_asked_for_changes_nothing() {
    let mut state = State::new();
    let pipeline = RefreshPipeline::new();
    let (pipeline, action) =
        pipeline.step(&mut state, RefreshEvent::Elapsed(LoadDuration::new(1, 0).unwrap()));
    assert_eq!(pipeline.phase(), Phase::Listing);
    assert_eq!(action, RefreshAction::ListServices);
    let (pipeline, action) = pipeline.step(&mut state, RefreshEvent::Values(Some(vec![])));
    assert_eq!(pipeline.phase(), Phase::Listing);
    assert_eq!(action, RefreshAction::ListServices);
    let (pipeline, action) =
        pipeline.step(&mut state, RefreshEvent::Listed(Some(vec![record("S3", &[])])));
    assert_eq!(pipeline.phase(), Phase::Committing);
    assert_eq!(action, RefreshAction::Commit);
    let (pipeline, action) = pipeline.step(&mut state, RefreshEvent::Listed(Some(vec![])));
    assert_eq!(pipeline.phase(), Phase::Committing);
    assert_eq!(action, RefreshAction::Commit);
    let (pipeline, action) = pipeline.step(&mut state, RefreshEvent::Values(None));
    assert_eq!(pipeline.phase(), Phase::Committing);
    assert_eq!(action, RefreshAction::Commit);
    assert!(state.get_all_services().is_empty());
    let (pipeline, _) =
        pipeline.step(&mut state, RefreshEvent::Elapsed(LoadDuration::new(1, 0).unwrap()));
    assert_eq!(pipeline.phase(), Phase::Done);
    let (pipeline, action) =
        pipeline.step(&mut state, RefreshEvent::Listed(Some(vec![record("EC2", &[])])));
    assert_eq!(pipeline.phase(), Phase::Done);
    assert_eq!(action, RefreshAction::Done);
    assert_eq!(state.get_all_services(), vec![Service { code: text("S3"), attributes: vec![] }]);
}

#[test]
fn record_without_a_code_is_written_under_the_empty_code() {
    let mut state = State::new();
    let mut source = Source::new(
        Some(vec![ServiceRecord { service_code: None, attribute_names: None }]),
        vec![],
    );
    refresh(&mut state, &mut source, &mut |_| {});
    assert_eq!(state.get_service(""), Some(Service { code: text(""), attributes: vec![] }));
}
