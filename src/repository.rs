//! A registrable repository of scripts: a name and the URL it is cloned from.
use vstd::prelude::*;

verus! {

/// A git repository, local or remote, that holds script files.
#[derive(Debug, Clone, PartialEq, Eq)]
pub struct Repository {
    name: String,
    url: String,
}

impl Repository {
    pub closed spec fn spec_name(&self) -> Seq<char> {
        self.name@
    }

    pub closed spec fn spec_url(&self) -> Seq<char> {
        self.url@
    }

    pub fn new(name: String, url: String) -> (r: Repository)
        ensures
            r.spec_name() == name@,
            r.spec_url() == url@,
    {
        Repository { name, url }
    }

    pub fn name(&self) -> (r: String)
        ensures
            r@ == self.spec_name(),
    {
        self.name.clone()
    }

    pub fn url(&self) -> (r: String)
        ensures
            r@ == self.spec_url(),
    {
        self.url.clone()
    }
}

} // verus!
