//! A dependency: a name and the version text that goes with it.

use vstd::prelude::*;
use vstd::std_specs::cmp::PartialEqSpecImpl;
use crate::path::join_path;
use crate::path::path_join;
use crate::text::joined3;

verus! {

/// The version text of a dependency that inherits its version from the workspace.
pub const WORKSPACE_VERSION: &'static str = "workspace";

/// The version text of a dependency that states no version.
pub const ANY_VERSION: &'static str = "*";

/// A dependency as the contracts see it.
pub struct DepView {
    pub name: Seq<char>,
    pub version: Seq<char>,
}

/// A dependency: its name and a free-form version expression.
#[derive(Debug, Hash)]
pub struct Dependency {
    /// The name of the dependency.
    pub name: String,
    /// The version expression of the dependency.
    pub version: String,
}

impl View for Dependency {
    type V = DepView;

    open spec fn view(&self) -> DepView {
        DepView { name: self.name@, version: self.version@ }
    }
}

/// The name of the directory that holds a dependency's sources in the
/// local registry: the name, a hyphen, the version.
pub open spec fn dependency_dir(name: Seq<char>, version: Seq<char>) -> Seq<char> {
    name + seq!['-'] + version
}

/// The directory name of a dependency in the local registry.
pub fn dependency_dir_name(name: &str, version: &str) -> (r: String)
    ensures
        r@ == dependency_dir(name@, version@),
{
    proof {
        reveal_strlit("-");
    }
    assert("-"@ == seq!['-']);
    joined3(name, "-", version)
}

impl Dependency {
    /// Whether this dependency has a name.
    pub open spec fn well_formed(&self) -> bool {
        self.name@.len() > 0
    }

    /// A dependency with the given name and version. It is well formed
    /// where the name is not empty.
    pub fn new(name: &str, version: &str) -> (dep: Dependency)
        ensures
            dep@.name == name@,
            dep@.version == version@,
            dep.well_formed() <==> name@.len() > 0,
    {
        Dependency { name: name.to_owned(), version: version.to_owned() }
    }

    /// Where this dependency's sources lie below the registry's base path.
    pub fn get_registry_path(&self, registry_base_path: &str) -> (r: String)
        ensures
            r@ == path_join(registry_base_path@, dependency_dir(self@.name, self@.version)),
    {
        let dir = dependency_dir_name(self.name.as_str(), self.version.as_str());
        join_path(registry_base_path, dir.as_str())
    }
}

impl Clone for Dependency {
    fn clone(&self) -> (r: Dependency)
        ensures
            r@ == self@,
    {
        Dependency { name: self.name.clone(), version: self.version.clone() }
    }
}

impl PartialEq for Dependency {
    fn eq(&self, other: &Dependency) -> (r: bool) {
        self.name == other.name && self.version == other.version
    }
}

impl PartialEqSpecImpl for Dependency {
    open spec fn obeys_eq_spec() -> bool {
        true
    }

    open spec fn eq_spec(&self, other: &Dependency) -> bool {
        self.name@ == other.name@ && self.version@ == other.version@
    }
}

impl Eq for Dependency {}

} // verus!
