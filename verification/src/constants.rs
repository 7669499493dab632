//! The names that `@match` and `@module` go by in schemas and documents.

use vstd::prelude::*;

verus! {

/// The directive that marks a field whose selections are matched by type.
pub const MATCH_DIRECTIVE_NAME: &'static str = "match";

/// The directive that marks a fragment spread whose component is loaded on demand.
pub const MODULE_DIRECTIVE_NAME: &'static str = "module";

/// The argument of `@match` that names the key of its selections.
pub const KEY_ARG: &'static str = "key";

/// The argument of `@module` that names the module to load.
pub const NAME_ARG: &'static str = "name";

/// The argument of a matched field that lists the supported types.
pub const SUPPORTED_ARG: &'static str = "supported";

/// The scalar type of the field that points to a module.
pub const JS_FIELD_TYPE: &'static str = "JSDependency";

/// The field that points to a module.
pub const JS_FIELD_NAME: &'static str = "js";

/// The argument of the `js` field that takes the module's name.
pub const JS_FIELD_MODULE_ARG: &'static str = "module";

/// The argument of the `js` field that takes the module's identifier.
pub const JS_FIELD_ID_ARG: &'static str = "id";

/// The argument of the `js` field that takes the name of the matched type.
pub const JS_FIELD_BRANCH_ARG: &'static str = "branch";

/// The directive that asks for a fragment's data inline.
pub const INLINE_DIRECTIVE_NAME: &'static str = "inline";

/// The directive that gives a fragment spread or an inline fragment an alias.
pub const FRAGMENT_ALIAS_DIRECTIVE_NAME: &'static str = "alias";

/// The directive on object types that are backed by a Relay Resolver model.
pub const RELAY_RESOLVER_MODEL_DIRECTIVE_NAME: &'static str = "__RelayResolverModel";

/// The directive that carries the metadata of a `@module` selection.
pub const MODULE_METADATA_DIRECTIVE_NAME: &'static str = "__ModuleMetadata";

/// What the alias of the field that loads a normalization file begins with.
pub const MODULE_OPERATION_PREFIX: &'static str = "__module_operation_";

/// What the alias of the field that loads a component begins with.
pub const MODULE_COMPONENT_PREFIX: &'static str = "__module_component_";

/// What the name of a fragment's normalization file ends with.
pub const NORMALIZATION_SUFFIX: &'static str = "$normalization.graphql";

/// What stands between the parts of a key.
pub const KEY_SEPARATOR: &'static str = "_";

/// What stands between the parts of a path.
pub const PATH_SEPARATOR: &'static str = ".";

/// The note on the place of a `@match` directive.
pub const IN_MATCH_DIRECTIVE: &'static str = "in @match directive";

/// The note on a place that an error has to do with.
pub const RELATED_LOCATION: &'static str = "related location";

/// The note on the place of an `@inline` directive.
pub const INLINE_DIRECTIVE_LOCATION: &'static str = "@inline directive location";

} // verus!
