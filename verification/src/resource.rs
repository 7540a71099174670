//! The record handed to a fetch: where to get a body and where to put it.

use vstd::prelude::*;

verus! {

/// One download: the address to request and the path the body is written to.
#[derive(Debug)]
pub struct Resource {
    pub url: String,
    pub fp: String,
}

/// A resource as two texts.
pub struct ResourceView {
    pub url: Seq<char>,
    pub fp: Seq<char>,
}

impl View for Resource {
    type V = ResourceView;

    open spec fn view(&self) -> ResourceView {
        ResourceView { url: self.url@, fp: self.fp@ }
    }
}

impl DeepView for Resource {
    type V = ResourceView;

    open spec fn deep_view(&self) -> ResourceView {
        self@
    }
}

impl Resource {
    /// Pairs an address with its destination path.
    pub fn new(url: String, fp: String) -> (resource: Resource)
        ensures
            resource@ == (ResourceView { url: url@, fp: fp@ }),
    {
        Resource { url, fp }
    }
}

} // verus!
