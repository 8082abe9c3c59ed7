//! What the pricing source hands over, and what the catalog makes of it.
//!
//! The source answers in pages and optional fields, and any answer may fail.
//! The functions here turn such answers into catalog records: a failed
//! answer counts as an empty one, and what is missing or malformed is left
//! out.

use crate::types::{Attribute, AttributeView, Service, ServiceView};
use vstd::prelude::*;

verus! {

#[verifier::external_type_specification]
#[verifier::external_body]
pub struct ExJsonValue(serde_json::Value);

#[verifier::external_type_specification]
#[verifier::external_body]
pub struct ExJsonError(serde_json::Error);

/// The document that `serde_json::from_str` reads from `text`, where it
/// reads one.
pub uninterp spec fn parsed_document(text: Seq<char>) -> Option<serde_json::Value>;

/// `serde_json::from_str` at the type `serde_json::Value`. Taken on trust:
/// whether a text parses, and to which document, depends on the text alone.
#[verifier::external_body]
fn parse_document(text: &str) -> (parsed: Result<serde_json::Value, serde_json::Error>)
    ensures
        parsed_document(text@) == match parsed {
            Ok(document) => Some(document),
            Err(_) => None,
        },
{
    serde_json::from_str(text)
}

/// One service as the source lists it: a code and the names of its
/// attributes, either of which may be missing.
#[derive(Debug, PartialEq, Eq)]
pub struct ServiceRecord {
    pub service_code: Option<String>,
    pub attribute_names: Option<Vec<String>>,
}

/// What a listed service is, as text.
pub struct ServiceRecordView {
    pub service_code: Option<Seq<char>>,
    pub attribute_names: Option<Seq<Seq<char>>>,
}

impl View for ServiceRecord {
    type V = ServiceRecordView;

    open spec fn view(&self) -> ServiceRecordView {
        ServiceRecordView {
            service_code: self.service_code.deep_view(),
            attribute_names: self.attribute_names.deep_view(),
        }
    }
}

impl DeepView for ServiceRecord {
    type V = ServiceRecordView;

    open spec fn deep_view(&self) -> ServiceRecordView {
        self@
    }
}

impl Clone for ServiceRecord {
    fn clone(&self) -> (copy: Self)
        ensures
            copy@ == self@,
    {
        let service_code = match &self.service_code {
            Some(code) => Some(code.clone()),
            None => None,
        };
        let attribute_names = match &self.attribute_names {
            Some(names) => {
                let copy = names.clone();
                assert(copy.deep_view() =~= names.deep_view());
                Some(copy)
            },
            None => None,
        };
        ServiceRecord { service_code, attribute_names }
    }
}

impl ServiceRecordView {
    /// The code of the record; the empty code where it has none.
    pub open spec fn code(self) -> Seq<char> {
        match self.service_code {
            Some(code) => code,
            None => Seq::empty(),
        }
    }

    /// The attribute names of the record; none where it has none.
    pub open spec fn names(self) -> Seq<Seq<char>> {
        match self.attribute_names {
            Some(names) => names,
            None => Seq::empty(),
        }
    }

    /// The service that the record outlines: its code, and each of its
    /// attributes by name, without values.
    pub open spec fn outline(self) -> ServiceView {
        ServiceView {
            code: self.code(),
            attributes: self.names().map_values(|name: Seq<char>| AttributeView::unresolved(name)),
        }
    }
}

/// The services that a listing outlines; none where the listing failed.
pub open spec fn outlines(listing: Option<Seq<ServiceRecordView>>) -> Seq<ServiceView> {
    match listing {
        Some(records) => records.map_values(|record: ServiceRecordView| record.outline()),
        None => Seq::empty(),
    }
}

/// The values that a fetch brought; none where the fetch failed. An entry
/// without a value is left out.
pub open spec fn resolved_values(fetched: Option<Seq<Option<Seq<char>>>>) -> Seq<Seq<char>> {
    match fetched {
        Some(entries) => entries.filter_map(|entry: Option<Seq<char>>| entry),
        None => Seq::empty(),
    }
}

/// The items of a page; none where the page has no list.
pub open spec fn page_items<T>(page: Option<Vec<T>>) -> Seq<T> {
    match page {
        Some(items) => items@,
        None => Seq::empty(),
    }
}

impl Service {
    /// The service that a listed record outlines. Its attributes have no
    /// values yet.
    pub fn from_record(record: ServiceRecord) -> (service: Service)
        ensures
            service@ == record@.outline(),
    {
        let code = match record.service_code {
            Some(code) => code,
            None => String::new(),
        };
        let names = match record.attribute_names {
            Some(names) => names,
            None => Vec::new(),
        };
        let ghost wanted = record@.outline().attributes;
        let ghost all = names@;
        assert(names.deep_view() =~= record@.names());
        assert(forall|j: int| 0 <= j < all.len() ==> names.deep_view()[j] == all[j]@);
        let mut attributes: Vec<Attribute> = Vec::with_capacity(names.len());
        for name in it: names
            invariant
                it.seq() == all,
                wanted.len() == all.len(),
                forall|j: int|
                    0 <= j < all.len() ==> wanted[j] == AttributeView::unresolved(all[j]@),
                attributes.deep_view() =~= wanted.take(it.index() as int),
        {
            let ghost before = attributes.deep_view();
            let attribute = Attribute::new(name);
            attributes.push(attribute);
            assert(attributes.deep_view() =~= before.push(attribute@));
        }
        assert(attributes.deep_view() =~= wanted);
        Service { code, attributes }
    }
}

/// Joins the pages of a listing, in order. A page without a list adds
/// nothing.
pub fn flatten_pages<T>(pages: Vec<Option<Vec<T>>>) -> (items: Vec<T>)
    ensures
        items@ == pages@.flat_map(|page: Option<Vec<T>>| page_items(page)),
{
    let ghost per_page = |page: Option<Vec<T>>| page_items(page);
    let ghost all = pages@;
    let mut items: Vec<T> = Vec::new();
    assert(all.take(0).flat_map(per_page) =~= Seq::empty()) by {
        reveal_with_fuel(Seq::flatten, 1);
    }
    for page in it: pages
        invariant
            it.seq() == all,
            per_page == |page: Option<Vec<T>>| page_items(page),
            items@ == all.take(it.index() as int).flat_map(per_page),
    {
        proof {
            all.lemma_flat_map_take_append(per_page, it.index() as int);
        }
        match page {
            Some(mut list) => {
                items.append(&mut list);
            },
            None => {},
        }
    }
    assert(all.take(all.len() as int) =~= all);
    items
}

/// The services of a listing, each as the record outlines it. A listing
/// that failed gives none.
pub fn services(listing: Option<Vec<ServiceRecord>>) -> (listed: Vec<Service>)
    ensures
        listed.deep_view() == outlines(listing.deep_view()),
{
    match listing {
        Some(records) => {
            let ghost wanted = outlines(Some(records.deep_view()));
            let ghost all = records@;
            let mut listed: Vec<Service> = Vec::with_capacity(records.len());
            for record in it: records
                invariant
                    it.seq() == all,
                    wanted.len() == all.len(),
                    forall|j: int| 0 <= j < all.len() ==> wanted[j] == all[j]@.outline(),
                    listed.deep_view() =~= wanted.take(it.index() as int),
            {
                let ghost before = listed.deep_view();
                let service = Service::from_record(record);
                listed.push(service);
                assert(listed.deep_view() =~= before.push(service@));
            }
            assert(listed.deep_view() =~= wanted);
            listed
        },
        None => {
            let listed: Vec<Service> = Vec::new();
            assert(listed.deep_view() =~= Seq::empty());
            listed
        },
    }
}

/// The one service that a listing filtered by code stands for: the last
/// record of the listing. A listing that failed or is empty stands for none.
pub fn service(listing: Option<Vec<ServiceRecord>>) -> (found: Option<Service>)
    ensures
        found.deep_view() == match listing.deep_view() {
            Some(records) => if records.len() > 0 {
                Some(records.last().outline())
            } else {
                None
            },
            None => None,
        },
{
    match listing {
        Some(mut records) => match records.pop() {
            Some(record) => Some(Service::from_record(record)),
            None => None,
        },
        None => None,
    }
}

/// The attribute `name` with the values that a fetch brought. A fetch that
/// failed leaves the attribute without values.
pub fn attribute(name: String, fetched: Option<Vec<Option<String>>>) -> (resolved: Attribute)
    ensures
        resolved@ == (AttributeView { name: name@, values: resolved_values(fetched.deep_view()) }),
{
    let mut values: Vec<String> = Vec::new();
    match fetched {
        Some(entries) => {
            let ghost all = entries.deep_view();
            let ghost raw = entries@;
            let ghost keep = |entry: Option<Seq<char>>| entry;
            assert(values.deep_view() =~= all.take(0).filter_map(keep));
            for entry in it: entries
                invariant
                    it.seq() == raw,
                    all.len() == raw.len(),
                    forall|j: int| 0 <= j < raw.len() ==> all[j] == raw[j].deep_view(),
                    keep == |entry: Option<Seq<char>>| entry,
                    values.deep_view() =~= all.take(it.index() as int).filter_map(keep),
            {
                proof {
                    all.lemma_filter_map_take_succ(keep, it.index() as int);
                }
                match entry {
                    Some(value) => {
                        values.push(value);
                    },
                    None => {},
                }
            }
            assert(all.take(all.len() as int) =~= all);
        },
        None => {
            assert(values.deep_view() =~= Seq::empty());
        },
    }
    Attribute::new(name).with_values(values)
}

/// Adds a parsed document to those kept; a text that did not parse adds
/// nothing.
pub fn keep_document(
    documents: &mut Vec<serde_json::Value>,
    parsed: Result<serde_json::Value, serde_json::Error>,
)
    ensures
        final(documents)@ == match parsed {
            Ok(document) => old(documents)@.push(document),
            Err(_) => old(documents)@,
        },
{
    match parsed {
        Ok(document) => {
            documents.push(document);
        },
        Err(_) => {},
    }
}

/// The product documents among `texts`, in order. A text that is no JSON
/// document is dropped; a fetch that failed gives none.
pub fn products(texts: Option<Vec<String>>) -> (documents: Vec<serde_json::Value>)
    ensures
        documents@ == match texts.deep_view() {
            Some(texts) => texts.filter_map(|text: Seq<char>| parsed_document(text)),
            None => Seq::empty(),
        },
{
    let mut documents: Vec<serde_json::Value> = Vec::new();
    match texts {
        Some(texts) => {
            let ghost all = texts.deep_view();
            let ghost read = |text: Seq<char>| parsed_document(text);
            assert(documents@ =~= all.take(0).filter_map(read));
            let mut i: usize = 0;
            while i < texts.len()
                invariant
                    i <= texts.len(),
                    all == texts.deep_view(),
                    read == |text: Seq<char>| parsed_document(text),
                    documents@ == all.take(i as int).filter_map(read),
                decreases texts.len() - i,
            {
                proof {
                    all.lemma_filter_map_take_succ(read, i as int);
                }
                keep_document(&mut documents, parse_document(texts[i].as_str()));
                i += 1;
            }
            assert(all.take(all.len() as int) =~= all);
        },
        None => {},
    }
    documents
}

} // verus!
