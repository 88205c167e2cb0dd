//! Module packages: a manifest, where it comes from and how far it is trusted.
use vstd::prelude::*;
use vstd::string::*;
use crate::ids::Id128;
use crate::services::{DependencyView, ScopePath, ServiceDependency};
use crate::value;
use crate::value::Value;

verus! {

broadcast use value::group_views;

/// Where a module comes from.
#[derive(Debug, Clone, Copy, PartialEq, Eq, Structural)]
pub enum ModuleOrigin {
    Builtin,
    UserConfig,
    WorkspaceConfig,
    UserInstalled,
    Agent,
}

/// How far a module is trusted.
#[derive(Debug, Clone, Copy, PartialEq, Eq, Structural)]
pub enum TrustClass {
    Builtin,
    User,
    Workspace,
    Agent,
}

/// A module package.
#[derive(Debug, Clone, PartialEq, Eq)]
pub struct PackageManifest {
    pub schema: u32,
    pub module_id: Id128,
    pub origin: ModuleOrigin,
    pub trust_class: TrustClass,
    pub scope: ScopePath,
    pub deps: Vec<ServiceDependency>,
    pub capabilities: Vec<String>,
    pub source: String,
    pub state_schema: Option<u64>,
    pub state_key: Option<String>,
}

pub struct PackageManifestView {
    pub schema: u32,
    pub module_id: Seq<char>,
    pub origin: ModuleOrigin,
    pub trust_class: TrustClass,
    pub scope: Seq<Seq<char>>,
    pub deps: Seq<DependencyView>,
    pub capabilities: Seq<Seq<char>>,
    pub source: Seq<char>,
    pub state_schema: Option<u64>,
    pub state_key: Option<Seq<char>>,
}

impl View for PackageManifest {
    type V = PackageManifestView;

    open spec fn view(&self) -> PackageManifestView {
        PackageManifestView {
            schema: self.schema,
            module_id: self.module_id@,
            origin: self.origin,
            trust_class: self.trust_class,
            scope: self.scope@,
            deps: value::views(self.deps@),
            capabilities: value::views(self.capabilities@),
            source: self.source@,
            state_schema: self.state_schema,
            state_key: value::opt_view(self.state_key),
        }
    }
}

impl Value for PackageManifest {
    fn copy(&self) -> (r: Self) {
        PackageManifest {
            schema: self.schema,
            module_id: self.module_id.copy(),
            origin: self.origin,
            trust_class: self.trust_class,
            scope: self.scope.copy(),
            deps: value::copy_vec(&self.deps),
            capabilities: value::copy_vec(&self.capabilities),
            source: self.source.copy(),
            state_schema: self.state_schema,
            state_key: value::copy_opt(&self.state_key),
        }
    }

    fn same(&self, other: &Self) -> (r: bool) {
        self.schema == other.schema
            && self.module_id.same(&other.module_id)
            && self.origin == other.origin
            && self.trust_class == other.trust_class
            && self.scope.same(&other.scope)
            && value::same_vec(&self.deps, &other.deps)
            && value::same_vec(&self.capabilities, &other.capabilities)
            && self.source.same(&other.source)
            && value::same_opt(&self.state_schema, &other.state_schema)
            && value::same_opt(&self.state_key, &other.state_key)
    }
}

} // verus!
