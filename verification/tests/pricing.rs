use pricer::pricing::{attribute, flatten_pages, keep_document, products, service, services, ServiceRecord};
use pricer::types::{Attribute, Service};

fn text(value: &str) -> String {
    value.to_string()
}

fn record(code: &str, names: &[&str]) -> ServiceRecord {
    ServiceRecord {
        service_code: Some(text(code)),
        attribute_names: Some(names.iter().map(|name| text(name)).collect()),
    }
}

fn outline(code: &str, names: &[&str]) -> Service {
    Service {
        code: text(code),
        attributes: names.iter().map(|name| Attribute::new(text(name))).collect(),
    }
}

fn json(source: &str) -> serde_json::Value {
    serde_json::from_str(source).unwrap()
}

#[test]
fn record_becomes_a_service_without_values() {
    assert_eq!(
        Service::from_record(record("EC2", &["instanceType", "location"])),
        outline("EC2", &["instanceType", "location"])
    );
}

#[test]
fn record_without_code_or_names_becomes_an_empty_service() {
    assert_eq!(
        Service::from_record(ServiceRecord { service_code: None, attribute_names: None }),
        outline("", &[])
    );
    assert_eq!(
        Service::from_record(ServiceRecord { service_code: Some(text("S3")), attribute_names: None }),
        outline("S3", &[])
    );
    assert_eq!(
        Service::from_record(ServiceRecord {
            service_code: None,
            attribute_names: Some(vec![text("location")]),
        }),
        outline("", &["location"])
    );
}

#[test]
fn pages_are_joined_in_order() {
    let pages = vec![Some(vec![1, 2]), None, Some(vec![]), Some(vec![3]), None, Some(vec![4, 5, 6])];
    assert_eq!(flatten_pages(pages), vec![1, 2, 3, 4, 5, 6]);
}

#[test]
fn no_pages_give_no_items() {
    assert_eq!(flatten_pages(Vec::<Option<Vec<String>>>::new()), Vec::<String>::new());
    assert_eq!(flatten_pages(vec![None, None, Some(Vec::<u8>::new())]), Vec::<u8>::new());
}

#[test]
fn pages_of_records_are_joined() {
    let pages = vec![Some(vec![record("EC2", &["instanceType"])]), Some(vec![record("S3", &[])])];
    assert_eq!(flatten_pages(pages), vec![record("EC2", &["instanceType"]), record("S3", &[])]);
}

#[test]
fn listing_becomes_services_in_order() {
    let listing = Some(vec![record("EC2", &["instanceType"]), record("S3", &[])]);
    assert_eq!(services(listing), vec![outline("EC2", &["instanceType"]), outline("S3", &[])]);
}

#[test]
fn failed_listing_gives_no_services() {
    assert_eq!(services(None), Vec::<Service>::new());
    assert_eq!(services(Some(vec![])), Vec::<Service>::new());
}

#[test]
fn filtered_listing_stands_for_its_last_record() {
    let listing = Some(vec![record("EC2", &["instanceType"]), record("EC2", &["location"])]);
    assert_eq!(service(listing), Some(outline("EC2", &["location"])));
    assert_eq!(service(Some(vec![record("S3", &[])])), Some(outline("S3", &[])));
}

#[test]
fn failed_or_empty_filtered_listing_stands_for_nothing() {
    assert_eq!(service(None), None);
    assert_eq!(service(Some(vec![])), None);
}

#[test]
fn attribute_takes_the_values_that_were_fetched() {
    let fetched = Some(vec![Some(text("t2.micro")), None, Some(text("m5.large")), None]);
    assert_eq!(
        attribute(text("instanceType"), fetched),
        Attribute { name: text("instanceType"), values: vec![text("t2.micro"), text("m5.large")] }
    );
}

#[test]
fn attribute_of_a_failed_fetch_has_no_values() {
    assert_eq!(attribute(text("instanceType"), None), Attribute::new(text("instanceType")));
    assert_eq!(attribute(text("instanceType"), Some(vec![])), Attribute::new(text("instanceType")));
    assert_eq!(
        attribute(text("instanceType"), Some(vec![None, None])),
        Attribute::new(text("instanceType"))
    );
}

#[test]
fn products_drop_what_is_no_document() {
    let texts = Some(vec![
        text("{\"sku\": \"A1\", \"price\": 3}"),
        text("{not a document"),
        text("[1, 2, 3]"),
        text(""),
        text("\"plain\""),
        text("{\"sku\": \"B2\"} trailing"),
    ]);
    assert_eq!(
        products(texts),
        vec![json("{\"sku\": \"A1\", \"price\": 3}"), json("[1, 2, 3]"), json("\"plain\"")]
    );
}

#[test]
fn products_read_the_document_and_do_not_echo_the_text() {
    let documents = products(Some(vec![text("{\"sku\": \"A1\"}")]));
    assert_eq!(documents.len(), 1);
    assert!(documents[0].is_object());
    assert_eq!(documents[0].get("sku").and_then(|sku| sku.as_str()), Some("A1"));
    assert_ne!(documents[0], serde_json::Value::String(text("{\"sku\": \"A1\"}")));
}

#[test]
fn products_of_a_failed_fetch_are_none() {
    assert_eq!(products(None), Vec::<serde_json::Value>::new());
    assert_eq!(products(Some(vec![])), Vec::<serde_json::Value>::new());
}

#[test]
fn a_parsed_document_is_kept_and_a_failure_is_not() {
    let mut documents = vec![json("1")];
    keep_document(&mut documents, serde_json::from_str("{\"a\": true}"));
    assert_eq!(documents, vec![json("1"), json("{\"a\": true}")]);
    keep_document(&mut documents, serde_json::from_str("{\"a\": "));
    assert_eq!(documents, vec![json("1"), json("{\"a\": true}")]);
}
