//! The query parameters that select a response rendering.

use vstd::prelude::*;

verus! {

/// The rendering a caller asks for.
#[derive(Clone, Copy, Debug, PartialEq, Eq, Structural)]
pub enum ContentType {
    Html,
    Json,
}

/// The parameters of a request for a rendered page.
#[derive(Clone, Copy, Debug, PartialEq, Eq, Structural)]
pub struct Params {
    pub content: ContentType,
}

impl Default for ContentType {
    fn default() -> (content: Self)
        ensures
            content == ContentType::Html,
    {
        ContentType::Html
    }
}

impl Default for Params {
    fn default() -> (params: Self)
        ensures
            params.content == ContentType::Html,
    {
        Params { content: ContentType::Html }
    }
}

impl ContentType {
    /// The rendering that a lower-case name stands for, if it stands for one.
    pub open spec fn named(name: Seq<char>) -> Option<ContentType> {
        if name == "html"@ {
            Some(ContentType::Html)
        } else if name == "json"@ {
            Some(ContentType::Json)
        } else {
            None
        }
    }

    /// Reads a rendering from its lower-case name: `html` or `json`.
    pub fn from_name(name: &str) -> (content: Option<ContentType>)
        ensures
            content == ContentType::named(name@),
    {
        let name = name.to_owned();
        if name == "html".to_owned() {
            Some(ContentType::Html)
        } else if name == "json".to_owned() {
            Some(ContentType::Json)
        } else {
            None
        }
    }
}

impl Params {
    /// The parameters that a query's `content` value stands for. A query
    /// without that value asks for the default rendering; a value that names
    /// no rendering stands for nothing.
    pub open spec fn queried(content: Option<Seq<char>>) -> Option<Params> {
        match content {
            None => Some(Params { content: ContentType::Html }),
            Some(name) => match ContentType::named(name) {
                Some(content) => Some(Params { content }),
                None => None,
            },
        }
    }

    /// Reads the parameters from the `content` value of a query, if it has one.
    pub fn from_query(content: Option<&str>) -> (params: Option<Params>)
        ensures
            params == Params::queried(
                match content {
                    Some(name) => Some(name@),
                    None => None,
                },
            ),
    {
        match content {
            None => Some(Params { content: ContentType::Html }),
            Some(name) => match ContentType::from_name(name) {
                Some(content) => Some(Params { content }),
                None => None,
            },
        }
    }

    pub fn is_json(&self) -> (json: bool)
        ensures
            json == (self.content == ContentType::Json),
    {
        self.content == ContentType::Json
    }

    pub fn is_html(&self) -> (html: bool)
        ensures
            html == (self.content == ContentType::Html),
    {
        self.content == ContentType::Html
    }
}

} // verus!
