//! What the project asks of the transform.

use vstd::prelude::*;

use crate::text::views;

verus! {

/// A feature that is on, off, or on for listed names. A partial rollout lists the names it covers.
#[derive(Debug, PartialEq, Eq)]
pub enum FeatureFlag {
    Disabled,
    Enabled,
    Limited { allowlist: Vec<String> },
}

impl FeatureFlag {
    /// Whether the feature is on for `name`.
    pub open spec fn spec_is_enabled_for(self, name: Seq<char>) -> bool {
        match self {
            FeatureFlag::Disabled => false,
            FeatureFlag::Enabled => true,
            FeatureFlag::Limited { allowlist } => views(allowlist@).contains(name),
        }
    }

    /// Whether the feature is on for `name`.
    pub fn is_enabled_for(&self, name: &String) -> (yes: bool)
        ensures
            yes == self.spec_is_enabled_for(name@),
    {
        match self {
            FeatureFlag::Disabled => false,
            FeatureFlag::Enabled => true,
            FeatureFlag::Limited { allowlist } => {
                let mut i: usize = 0;
                while i < allowlist.len()
                    invariant
                        i <= allowlist.len(),
                        forall|j: int| 0 <= j < i ==> views(allowlist@)[j] != name@,
                        *self == (FeatureFlag::Limited { allowlist: *allowlist }),
                    decreases allowlist.len() - i,
                {
                    if allowlist[i] == *name {
                        assert(views(allowlist@)[i as int] == name@);
                        return true;
                    }
                    i = i + 1;
                }
                false
            },
        }
    }
}

/// The features that the transform depends on.
#[derive(Debug, PartialEq, Eq)]
pub struct FeatureFlags {
    /// Whether the fields of a module take the name of the matched type.
    pub enable_3d_branch_arg_generation: bool,
    /// Whether fragments of modules are kept apart from the documents that use them.
    pub no_inline: FeatureFlag,
}

/// How modules are imported.
#[derive(Debug, PartialEq, Eq)]
pub enum ModuleProvider {
    JSResource,
    Custom { statement: String },
}

/// Where dynamic imports apply.
#[derive(Clone, Copy, Debug, PartialEq, Eq, Structural)]
pub enum Surface {
    All,
    Resolvers,
}

/// How the modules of `@module` selections are imported.
#[derive(Debug, PartialEq, Eq)]
pub struct ModuleImportConfig {
    pub dynamic_module_provider: Option<ModuleProvider>,
    pub surface: Option<Surface>,
}

impl ModuleImportConfig {
    /// Whether dynamic imports are for Relay Resolvers alone.
    pub open spec fn spec_for_resolvers(self) -> bool {
        self.surface == Some(Surface::Resolvers)
    }

    /// Whether dynamic imports are for Relay Resolvers alone.
    pub fn for_resolvers(&self) -> (yes: bool)
        ensures
            yes == self.spec_for_resolvers(),
    {
        match self.surface {
            Some(Surface::Resolvers) => true,
            _ => false,
        }
    }
}

/// The names of the directives for incremental delivery.
#[derive(Debug, PartialEq, Eq)]
pub struct DeferStreamInterface {
    pub defer_name: String,
}

} // verus!
