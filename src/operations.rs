use vstd::prelude::*;

verus! {

/// The changes to make to a file; a field left out is left as it is.
#[derive(Clone, Debug)]
pub struct FileUpdates {
    pub description: Option<String>,
    pub name: Option<String>,
}

pub open spec fn opt_view(o: Option<String>) -> Option<Seq<char>> {
    match o {
        Some(s) => Some(s@),
        None => None,
    }
}

impl FileUpdates {
    pub fn new() -> (r: FileUpdates)
        ensures
            r.description is None,
            r.name is None,
    {
        FileUpdates { description: None, name: None }
    }

    pub fn description(self, description: &str) -> (r: Self)
        ensures
            opt_view(r.description) == Some(description@),
            opt_view(r.name) == opt_view(self.name),
    {
        FileUpdates { description: Some(description.to_owned()), name: self.name }
    }

    pub fn name(self, name: &str) -> (r: Self)
        ensures
            opt_view(r.name) == Some(name@),
            opt_view(r.description) == opt_view(self.description),
    {
        FileUpdates { description: self.description, name: Some(name.to_owned()) }
    }
}

} // verus!
