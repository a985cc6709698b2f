//! The canonical package record: the unit of output of every source adapter
//! and the input of the deduplicating merge.

use vstd::prelude::*;

verus! {

/// One discovered package. `name` is the identity used for deduplication;
/// `git` is the repository link, absent when no extraction rule found one;
/// `description` is free text, empty when the source offered none.
pub struct Package {
    pub name: String,
    pub git: Option<String>,
    pub description: String,
}

/// Mathematical image of a `Package`: the same three fields as sequences of
/// characters.
pub struct PackageView {
    pub name: Seq<char>,
    pub git: Option<Seq<char>>,
    pub description: Seq<char>,
}

impl View for Package {
    type V = PackageView;

    open spec fn view(&self) -> PackageView {
        PackageView {
            name: self.name@,
            git: self.git.deep_view(),
            description: self.description@,
        }
    }
}

impl DeepView for Package {
    type V = PackageView;

    open spec fn deep_view(&self) -> PackageView {
        self.view()
    }
}

impl Clone for Package {
    /// An exact copy of the record.
    fn clone(&self) -> (r: Self)
        ensures
            r == *self,
    {
        Package {
            name: self.name.clone(),
            git: match &self.git {
                Some(g) => Some(g.clone()),
                None => None,
            },
            description: self.description.clone(),
        }
    }
}

impl Package {
    /// Builds a record directly from its parts.
    pub fn new(name: String, git: Option<String>, description: String) -> (r: Package)
        ensures
            r@.name == name@,
            r@.git == git.deep_view(),
            r@.description == description@,
    {
        Package { name, git, description }
    }
}

} // verus!
