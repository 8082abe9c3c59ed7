use pricer::params::{ContentType, Params};

#[test]
fn default_params_ask_for_html() {
    let params = Params::default();
    assert!(params.is_html());
    assert!(!params.is_json());
    assert_eq!(ContentType::default(), ContentType::Html);
}

#[test]
fn query_without_content_asks_for_html() {
    assert_eq!(Params::from_query(None), Some(Params { content: ContentType::Html }));
}

#[test]
fn query_names_a_rendering_in_lower_case() {
    assert_eq!(Params::from_query(Some("json")), Some(Params { content: ContentType::Json }));
    assert_eq!(Params::from_query(Some("html")), Some(Params { content: ContentType::Html }));
    assert_eq!(ContentType::from_name("json"), Some(ContentType::Json));
    assert_eq!(ContentType::from_name("html"), Some(ContentType::Html));
}

#[test]
fn query_with_an_unknown_rendering_is_refused() {
    assert_eq!(Params::from_query(Some("xml")), None);
    assert_eq!(Params::from_query(Some("JSON")), None);
    assert_eq!(Params::from_query(Some("Html")), None);
    assert_eq!(Params::from_query(Some("")), None);
    assert_eq!(Params::from_query(Some(" json")), None);
}

#[test]
fn json_and_html_exclude_each_other() {
    let json = Params { content: ContentType::Json };
    assert!(json.is_json());
    assert!(!json.is_html());
    let html = Params { content: ContentType::Html };
    assert!(html.is_html());
    assert!(!html.is_json());
}
