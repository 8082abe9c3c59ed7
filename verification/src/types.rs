//! The records of the catalog: a service and its filterable attributes.

use vstd::prelude::*;

verus! {

/// A named filter dimension of a service and the values it can take.
#[derive(Debug, PartialEq, Eq)]
pub struct Attribute {
    pub name: String,
    pub values: Vec<String>,
}

/// One priceable service, identified by its code.
#[derive(Debug, PartialEq, Eq)]
pub struct Service {
    pub code: String,
    pub attributes: Vec<Attribute>,
}

/// What an attribute is: its name and its values, as text.
pub struct AttributeView {
    pub name: Seq<char>,
    pub values: Seq<Seq<char>>,
}

/// What a service is: its code and its attributes, in order.
pub struct ServiceView {
    pub code: Seq<char>,
    pub attributes: Seq<AttributeView>,
}

impl View for Attribute {
    type V = AttributeView;

    open spec fn view(&self) -> AttributeView {
        AttributeView { name: self.name@, values: self.values.deep_view() }
    }
}

impl DeepView for Attribute {
    type V = AttributeView;

    open spec fn deep_view(&self) -> AttributeView {
        self@
    }
}

impl View for Service {
    type V = ServiceView;

    open spec fn view(&self) -> ServiceView {
        ServiceView { code: self.code@, attributes: self.attributes.deep_view() }
    }
}

impl DeepView for Service {
    type V = ServiceView;

    open spec fn deep_view(&self) -> ServiceView {
        self@
    }
}

impl AttributeView {
    /// The attribute of that name whose values are not known yet.
    pub open spec fn unresolved(name: Seq<char>) -> AttributeView {
        AttributeView { name, values: Seq::empty() }
    }
}

impl ServiceView {
    /// The names of the attributes, in order.
    pub open spec fn attrs(self) -> Seq<Seq<char>> {
        self.attributes.map_values(|attribute: AttributeView| attribute.name)
    }
}

impl Clone for Attribute {
    fn clone(&self) -> (copy: Self)
        ensures
            copy@ == self@,
    {
        let copy = Attribute { name: self.name.clone(), values: self.values.clone() };
        assert(copy.values.deep_view() =~= self.values.deep_view());
        copy
    }
}

impl Clone for Service {
    fn clone(&self) -> (copy: Self)
        ensures
            copy@ == self@,
    {
        let mut attributes: Vec<Attribute> = Vec::with_capacity(self.attributes.len());
        let mut i: usize = 0;
        while i < self.attributes.len()
            invariant
                i <= self.attributes.len(),
                attributes.len() == i,
                forall|j: int| 0 <= j < i ==> attributes[j]@ == self.attributes[j]@,
            decreases self.attributes.len() - i,
        {
            attributes.push(self.attributes[i].clone());
            i += 1;
        }
        let copy = Service { code: self.code.clone(), attributes };
        assert(copy.attributes.deep_view() =~= self.attributes.deep_view());
        copy
    }
}

impl Attribute {
    pub fn new(name: String) -> (attribute: Self)
        ensures
            attribute.name == name,
            attribute@ == AttributeView::unresolved(name@),
    {
        let attribute = Self { name, values: Vec::new() };
        assert(attribute.values.deep_view() =~= Seq::empty());
        attribute
    }

    pub fn with_values(self, values: Vec<String>) -> (attribute: Self)
        ensures
            attribute.name == self.name,
            attribute.values == values,
    {
        Self { name: self.name, values }
    }
}

impl Service {
    /// A fixture: the service `code` without attributes.
    pub fn test() -> (service: Self)
        ensures
            service@ == (ServiceView { code: "code"@, attributes: Seq::empty() }),
    {
        let service = Self { code: "code".to_owned(), attributes: Vec::new() };
        assert(service.attributes.deep_view() =~= Seq::empty());
        service
    }

    pub fn attrs(&self) -> (names: Vec<String>)
        ensures
            names.deep_view() == self@.attrs(),
    {
        let mut names: Vec<String> = Vec::with_capacity(self.attributes.len());
        let mut i: usize = 0;
        while i < self.attributes.len()
            invariant
                i <= self.attributes.len(),
                names.len() == i,
                forall|j: int| 0 <= j < i ==> names[j]@ == self.attributes[j].name@,
            decreases self.attributes.len() - i,
        {
            names.push(self.attributes[i].name.clone());
            i += 1;
        }
        assert(names.deep_view() =~= self@.attrs());
        names
    }
}

} // verus!
