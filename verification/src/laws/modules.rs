//! The modules that documents load.

use vstd::prelude::*;

use crate::constants::{MODULE_DIRECTIVE_NAME, PATH_SEPARATOR};
use crate::diagnostic::DiagnosticView;
use crate::ir::{
    alias_metadata, module_metadata, DirectiveView, DocumentNameView, FragmentSpreadView,
    ModuleMetadataView, SelectionView,
};
use crate::laws::growth::{found_only_grows, grows, matches_grow, within_field};
use crate::model::{
    document_scope, field_step, module_request, module_spread, path_items, register, replaces,
    validated, visit, visit_all, visit_spread, Env, MatchMap, ModuleRequest, Progress, Scope,
    TypeMatchView,
};
use crate::named::{first_named, lemma_first_named};
use crate::schema::{Schema, Type};
use crate::text::extended;

verus! {

/// A module that a document loads: the path and the type for which it does so, and what is known
/// of it.
pub struct LoadedModule {
    pub path: Seq<Seq<char>>,
    pub type_: Option<Type>,
    pub metadata: ModuleMetadataView,
}

/// The path inside of an inline fragment.
pub open spec fn path_within(path: Seq<Seq<char>>, directives: Seq<DirectiveView>) -> Seq<Seq<char>> {
    match alias_metadata(directives) {
        Some(metadata) => path.push(metadata.alias.item),
        None => path,
    }
}

/// Whether a selection at a path loads a module.
pub open spec fn loads(
    schema: Schema,
    path: Seq<Seq<char>>,
    selection: SelectionView,
    module: LoadedModule,
) -> bool
    decreases selection,
{
    match selection {
        SelectionView::FragmentSpread(_) => false,
        SelectionView::ScalarField(_) => false,
        SelectionView::Condition(condition) => any_loads(schema, path, condition.selections, module),
        SelectionView::LinkedField(field) => match schema.spec_field(field.definition.item) {
            None => false,
            Some(definition) => any_loads(
                schema,
                path.push(field_step(field, definition).item),
                field.selections,
                module,
            ),
        },
        SelectionView::InlineFragment(fragment) => {
            let inner = path_within(path, fragment.directives);
            ||| module == (LoadedModule {
                path: inner,
                type_: fragment.type_condition,
                metadata: module.metadata,
            }) && module_metadata(fragment.directives) == Some(module.metadata)
            ||| any_loads(schema, inner, fragment.selections, module)
        },
    }
}

/// Whether one of the selections at a path loads a module.
pub open spec fn any_loads(
    schema: Schema,
    path: Seq<Seq<char>>,
    selections: Seq<SelectionView>,
    module: LoadedModule,
) -> bool
    decreases selections,
{
    if selections.len() == 0 {
        false
    } else {
        ||| loads(schema, path, selections[0], module)
        ||| any_loads(schema, path, selections.drop_first(), module)
    }
}

/// Whether a selection holds no metadata of modules, as is the case before a run.
pub open spec fn is_bare(selection: SelectionView) -> bool
    decreases selection,
{
    match selection {
        SelectionView::FragmentSpread(_) => true,
        SelectionView::ScalarField(_) => true,
        SelectionView::Condition(condition) => are_bare(condition.selections),
        SelectionView::LinkedField(field) => are_bare(field.selections),
        SelectionView::InlineFragment(fragment) => {
            &&& module_metadata(fragment.directives) is None
            &&& are_bare(fragment.selections)
        },
    }
}

/// Whether selections hold no metadata of modules.
pub open spec fn are_bare(selections: Seq<SelectionView>) -> bool
    decreases selections,
{
    if selections.len() == 0 {
        true
    } else {
        &&& is_bare(selections[0])
        &&& are_bare(selections.drop_first())
    }
}

/// Bare selections load no module.
proof fn lemma_bare_load_nothing(
    schema: Schema,
    path: Seq<Seq<char>>,
    selections: Seq<SelectionView>,
    module: LoadedModule,
)
    requires
        are_bare(selections),
    ensures
        !any_loads(schema, path, selections, module),
    decreases selections,
{
    if selections.len() > 0 {
        lemma_bare_loads_nothing(schema, path, selections[0], module);
        lemma_bare_load_nothing(schema, path, selections.drop_first(), module);
    }
}

/// A bare selection loads no module.
proof fn lemma_bare_loads_nothing(
    schema: Schema,
    path: Seq<Seq<char>>,
    selection: SelectionView,
    module: LoadedModule,
)
    requires
        is_bare(selection),
    ensures
        !loads(schema, path, selection, module),
    decreases selection,
{
    match selection {
        SelectionView::FragmentSpread(_) => {},
        SelectionView::ScalarField(_) => {},
        SelectionView::Condition(condition) => {
            lemma_bare_load_nothing(schema, path, condition.selections, module);
        },
        SelectionView::LinkedField(field) => {
            if let Some(definition) = schema.spec_field(field.definition.item) {
                lemma_bare_load_nothing(
                    schema,
                    path.push(field_step(field, definition).item),
                    field.selections,
                    module,
                );
            }
        },
        SelectionView::InlineFragment(fragment) => {
            lemma_bare_load_nothing(
                schema,
                path_within(path, fragment.directives),
                fragment.selections,
                module,
            );
        },
    }
}

/// Whether spreads at different paths have different keys.
pub open spec fn keys_distinct(matches: MatchMap) -> bool {
    forall|first: Seq<Seq<char>>, second: Seq<Seq<char>>|
        {
            &&& #[trigger] matches.contains_key(first)
            &&& #[trigger] matches.contains_key(second)
            &&& matches[first].key == matches[second].key
        } ==> first == second
}

/// Whether what is known of a loaded module is what was found in the document.
pub open spec fn is_recorded(
    env: Env,
    document: DocumentNameView,
    found: Progress,
    module: LoadedModule,
) -> bool {
    let metadata = module.metadata;
    &&& found.matches.contains_key(module.path)
    &&& found.matches[module.path].key == metadata.key
    &&& module.type_ is Some
    &&& found.matches[module.path].types.contains_key(module.type_->0)
    &&& found.matches[module.path].types[module.type_->0].fragment.item == metadata.fragment_name
    &&& found.matches[module.path].types[module.type_->0].module_name == metadata.module_name
    &&& document.text().is_prefix_of(metadata.key)
    &&& metadata.module_id == extended(document.text(), module.path, PATH_SEPARATOR@)
    &&& metadata.source_document_name == document
    &&& metadata.no_inline == env.no_inline_flag.spec_is_enabled_for(metadata.fragment_name)
    &&& metadata.no_inline ==> {
        &&& found.no_inline.contains_key(metadata.fragment_name)
        &&& found.no_inline[metadata.fragment_name].contains(document)
    }
    &&& env.program.fragment(metadata.fragment_name) matches Some(fragment) && {
        &&& module.type_ == Some(fragment.type_condition)
        &&& metadata.fragment_source_location == fragment.name.location
    }
}

/// A module that is recorded stays recorded.
proof fn lemma_stays_recorded(
    env: Env,
    document: DocumentNameView,
    before: Progress,
    after: Progress,
    module: LoadedModule,
)
    requires
        is_recorded(env, document, before, module),
        grows(before, after),
    ensures
        is_recorded(env, document, after, module),
{
    let types = before.matches[module.path].types;
    assert(types.dom().contains(module.type_->0));
    if module.metadata.no_inline {
        let documents = before.no_inline[module.metadata.fragment_name];
        let i = choose|i: int| 0 <= i < documents.len() && documents[i] == document;
        assert(after.no_inline[module.metadata.fragment_name][i] == document);
    }
}

/// Whether a key that stands in a scope begins with the document's name.
pub open spec fn key_fits(scope: Scope) -> bool {
    scope.key matches Some(key) ==> scope.document.text().is_prefix_of(key)
}

/// What a `@module` spread makes is recorded.
proof fn lemma_spread_records(
    env: Env,
    scope: Scope,
    progress: Progress,
    spread: FragmentSpreadView,
    module: LoadedModule,
)
    requires
        key_fits(scope),
        keys_distinct(progress.matches),
    ensures
        visit_spread(env, scope, progress, spread) matches Some((found, next)) ==> {
            &&& keys_distinct(found.matches)
            &&& loads(env.program.schema, path_items(scope.path), next, module) ==> is_recorded(
                env,
                scope.document,
                found,
                module,
            )
        },
{
    let schema = env.program.schema;
    let path = path_items(scope.path);
    if let Some(directive) = first_named(spread.directives, MODULE_DIRECTIVE_NAME@) {
        if let Some((found, next)) = visit_spread(env, scope, progress, spread) {
            if let Some(Ok(request)) = module_request(env, scope.parent_type, spread, directive) {
                let entry = TypeMatchView { fragment: spread.fragment, module_name: request.module_name };
                if let Some(Ok(matches)) = register(
                    schema,
                    scope,
                    progress.matches,
                    request.fragment.type_condition,
                    entry,
                ) {
                    lemma_first_named(env.program.fragments, spread.fragment.item);
                    assert(scope.document.text().is_prefix_of(scope.module_key()));
                    if let SelectionView::InlineFragment(outer) = next {
                        let inner = outer.selections[0]->InlineFragment_0;
                        lemma_flat_load_nothing(schema, path, inner.selections, module);
                        assert(outer.selections.drop_first() =~= Seq::empty());
                        assert(inner.directives.drop_first() =~= Seq::empty());
                        assert(alias_metadata(inner.directives.drop_first()) is None);
                        assert(module_metadata(outer.directives) is None);
                        assert(path_within(path, inner.directives) == path);
                        assert(path_within(path, outer.directives) == path);
                        assert(!any_loads(schema, path, outer.selections.drop_first(), module));
                        if loads(schema, path, next, module) {
                            assert(any_loads(schema, path, outer.selections, module));
                            assert(loads(schema, path, outer.selections[0], module));
                            if request.no_inline {
                                let documents = found.no_inline[request.fragment.name.item];
                                assert(documents.last() == scope.document);
                                assert(documents.contains(scope.document));
                            }
                        }
                    }
                }
            }
        }
    }
}

/// Spreads and fields without selections load no module.
proof fn lemma_flat_load_nothing(
    schema: Schema,
    path: Seq<Seq<char>>,
    selections: Seq<SelectionView>,
    module: LoadedModule,
)
    requires
        forall|i: int|
            0 <= i < selections.len() ==> (#[trigger] selections[i]) is FragmentSpread
                || selections[i] is ScalarField,
    ensures
        !any_loads(schema, path, selections, module),
    decreases selections,
{
    if selections.len() > 0 {
        assert forall|i: int| 0 <= i < selections.drop_first().len() implies (
        #[trigger] selections.drop_first()[i]) is FragmentSpread || selections.drop_first()[i] is ScalarField by {
            assert(selections.drop_first()[i] == selections[i + 1]);
        }
        assert(!loads(schema, path, selections[0], module));
        lemma_flat_load_nothing(schema, path, selections.drop_first(), module);
    }
}

/// What is known of the modules that selections load is what was found in the document, and
/// spreads at different paths have different keys.
pub proof fn modules_are_recorded(
    env: Env,
    scope: Scope,
    progress: Progress,
    selections: Seq<SelectionView>,
    module: LoadedModule,
)
    requires
        key_fits(scope),
        keys_distinct(progress.matches),
        are_bare(selections),
    ensures
        visit_all(env, scope, progress, selections) matches Some((found, next)) ==> {
            &&& keys_distinct(found.matches)
            &&& any_loads(env.program.schema, path_items(scope.path), next, module) ==> is_recorded(
                env,
                scope.document,
                found,
                module,
            )
        },
    decreases selections,
{
    if selections.len() > 0 {
        lemma_module_is_recorded(env, scope, progress, selections[0], module);
        if let Some((found, first)) = visit(env, scope, progress, selections[0]) {
            modules_are_recorded(env, scope, found, selections.drop_first(), module);
            found_only_grows(env, scope, found, selections.drop_first());
            if let Some((all_found, rest)) = visit_all(env, scope, found, selections.drop_first()) {
                let next = seq![first] + rest;
                let path = path_items(scope.path);
                assert(next.drop_first() =~= rest);
                if loads(env.program.schema, path, first, module) {
                    lemma_stays_recorded(env, scope.document, found, all_found, module);
                }
            }
        }
    }
}

/// What is known of a module that a selection loads is what was found in the document.
proof fn lemma_module_is_recorded(
    env: Env,
    scope: Scope,
    progress: Progress,
    selection: SelectionView,
    module: LoadedModule,
)
    requires
        key_fits(scope),
        keys_distinct(progress.matches),
        is_bare(selection),
    ensures
        visit(env, scope, progress, selection) matches Some((found, next)) ==> {
            &&& keys_distinct(found.matches)
            &&& loads(env.program.schema, path_items(scope.path), next, module) ==> is_recorded(
                env,
                scope.document,
                found,
                module,
            )
        },
    decreases selection,
{
    let schema = env.program.schema;
    let path = path_items(scope.path);
    match selection {
        SelectionView::FragmentSpread(spread) => {
            lemma_spread_records(env, scope, progress, spread, module);
        },
        SelectionView::ScalarField(_) => {},
        SelectionView::InlineFragment(fragment) => {
            let inner = scope.in_fragment(fragment);
            modules_are_recorded(env, inner, progress, fragment.selections, module);
            assert(path_items(inner.path) =~= path_within(path, fragment.directives));
        },
        SelectionView::Condition(condition) => {
            modules_are_recorded(env, scope, progress, condition.selections, module);
        },
        SelectionView::LinkedField(field) => {
            lemma_bare_loads_nothing(schema, path, selection, module);
            if let Some(inner) = within_field(env, scope, field) {
                modules_are_recorded(env, inner, progress, field.selections, module);
                let definition = schema.spec_field(field.definition.item)->0;
                assert(path_items(inner.path) =~= path.push(field_step(field, definition).item));
            }
        },
    }
}

/// Whether only records at or below a path differ: every other record of one is that of the other.
pub open spec fn differ_below(before: MatchMap, after: MatchMap, path: Seq<Seq<char>>) -> bool {
    forall|other: Seq<Seq<char>>|
        #![trigger after.contains_key(other)]
        #![trigger before.contains_key(other)]
        !path.is_prefix_of(other) ==> {
            &&& after.contains_key(other) == before.contains_key(other)
            &&& before.contains_key(other) ==> after[other] == before[other]
        }
}

/// A spread keeps the records in order, whether it is accepted or reported: spreads at different
/// paths still have different keys, every record is still there with its key and its types, and
/// only the record at the path of the spread can be new or gain a type.
pub proof fn spread_changes_only_its_path(
    env: Env,
    scope: Scope,
    progress: Progress,
    spread: FragmentSpreadView,
)
    requires
        keys_distinct(progress.matches),
    ensures
        visit_spread(env, scope, progress, spread) matches Some((found, _)) ==> {
            &&& keys_distinct(found.matches)
            &&& matches_grow(progress.matches, found.matches)
            &&& forall|path: Seq<Seq<char>>| #[trigger]
                found.matches.contains_key(path) ==> progress.matches.contains_key(path) || path
                    == path_items(scope.path)
            &&& forall|path: Seq<Seq<char>>| #[trigger]
                progress.matches.contains_key(path) && path != path_items(scope.path)
                    ==> found.matches[path] == progress.matches[path]
        },
{
}

/// Selections change only records at the path that they stand at and below it.
pub proof fn selections_change_only_paths_below(
    env: Env,
    scope: Scope,
    progress: Progress,
    selections: Seq<SelectionView>,
)
    ensures
        visit_all(env, scope, progress, selections) matches Some((found, _)) ==> differ_below(
            progress.matches,
            found.matches,
            path_items(scope.path),
        ),
    decreases selections,
{
    if selections.len() > 0 {
        lemma_selection_changes_only_paths_below(env, scope, progress, selections[0]);
        if let Some((found, _)) = visit(env, scope, progress, selections[0]) {
            selections_change_only_paths_below(env, scope, found, selections.drop_first());
        }
    }
}

/// A selection changes only records at the path that it stands at and below it.
proof fn lemma_selection_changes_only_paths_below(
    env: Env,
    scope: Scope,
    progress: Progress,
    selection: SelectionView,
)
    ensures
        visit(env, scope, progress, selection) matches Some((found, _)) ==> differ_below(
            progress.matches,
            found.matches,
            path_items(scope.path),
        ),
    decreases selection,
{
    let path = path_items(scope.path);
    match selection {
        SelectionView::FragmentSpread(spread) => {
            assert(path.is_prefix_of(path));
            if let Some((found, _)) = visit_spread(env, scope, progress, spread) {
                assert forall|other: Seq<Seq<char>>| !path.is_prefix_of(other) implies {
                    &&& #[trigger] found.matches.contains_key(other) == progress.matches.contains_key(other)
                    &&& progress.matches.contains_key(other) ==> found.matches[other]
                        == progress.matches[other]
                } by {
                    assert(other != path);
                }
            }
        },
        SelectionView::ScalarField(_) => {},
        SelectionView::InlineFragment(fragment) => {
            let inner = scope.in_fragment(fragment);
            selections_change_only_paths_below(env, inner, progress, fragment.selections);
            assert(path_items(inner.path) =~= path_within(path, fragment.directives));
            lemma_below(path, path_items(inner.path));
        },
        SelectionView::Condition(condition) => {
            selections_change_only_paths_below(env, scope, progress, condition.selections);
        },
        SelectionView::LinkedField(field) => {
            if let Some(inner) = within_field(env, scope, field) {
                selections_change_only_paths_below(env, inner, progress, field.selections);
                lemma_below(path, path_items(inner.path));
            }
        },
    }
}

/// What is not below a path is not below a longer one.
proof fn lemma_below(path: Seq<Seq<char>>, longer: Seq<Seq<char>>)
    requires
        path.is_prefix_of(longer),
    ensures
        forall|other: Seq<Seq<char>>|
            longer.is_prefix_of(other) ==> #[trigger] path.is_prefix_of(other),
{
    assert forall|other: Seq<Seq<char>>| longer.is_prefix_of(other) implies
        #[trigger] path.is_prefix_of(other) by {
        assert(path =~= other.subrange(0, path.len() as int));
    }
}

/// All modules of a document with a given key are loaded at a single path, and all modules that
/// are loaded at one path have one key.
pub proof fn one_path_per_key(
    env: Env,
    document: DocumentNameView,
    type_: Type,
    progress: Progress,
    selections: Seq<SelectionView>,
    first: LoadedModule,
    second: LoadedModule,
)
    requires
        are_bare(selections),
        visit_all(env, document_scope(document, type_), progress.fresh(), selections) matches Some((_, next)) && {
            &&& any_loads(env.program.schema, Seq::empty(), next, first)
            &&& any_loads(env.program.schema, Seq::empty(), next, second)
        },
    ensures
        first.metadata.key == second.metadata.key <==> first.path == second.path,
{
    let scope = document_scope(document, type_);
    assert(path_items(scope.path) =~= Seq::empty());
    modules_are_recorded(env, scope, progress.fresh(), selections, first);
    modules_are_recorded(env, scope, progress.fresh(), selections, second);
}

/// The modules that a document loads for one type at one path are the same: they spread the same
/// fragment and name the same module.
pub proof fn one_module_per_type(
    env: Env,
    document: DocumentNameView,
    type_: Type,
    progress: Progress,
    selections: Seq<SelectionView>,
    first: LoadedModule,
    second: LoadedModule,
)
    requires
        are_bare(selections),
        visit_all(env, document_scope(document, type_), progress.fresh(), selections) matches Some((_, next)) && {
            &&& any_loads(env.program.schema, Seq::empty(), next, first)
            &&& any_loads(env.program.schema, Seq::empty(), next, second)
        },
        first.path == second.path,
        first.type_ == second.type_,
    ensures
        first.metadata.fragment_name == second.metadata.fragment_name,
        first.metadata.module_name == second.metadata.module_name,
{
    let scope = document_scope(document, type_);
    assert(path_items(scope.path) =~= Seq::empty());
    modules_are_recorded(env, scope, progress.fresh(), selections, first);
    modules_are_recorded(env, scope, progress.fresh(), selections, second);
}

/// What a `@module` spread asks for, where it carries `@module` and may stand as it does.
pub open spec fn request_of(
    env: Env,
    parent_type: Type,
    spread: FragmentSpreadView,
) -> Option<ModuleRequest> {
    match first_named(spread.directives, MODULE_DIRECTIVE_NAME@) {
        None => None,
        Some(module) => match module_request(env, parent_type, spread, module) {
            Some(Ok(request)) => Some(request),
            _ => None,
        },
    }
}

/// A module may be spread again at its path: once a spread was accepted, a later one of the same
/// fragment and module is accepted too, nothing is reported, and no spread and no model becomes
/// known by it. The same spread gives the same result, and a fragment that is not kept apart leaves
/// everything as it was.
pub proof fn repeated_module_is_accepted(
    env: Env,
    scope: Scope,
    progress: Progress,
    later: Progress,
    first: FragmentSpreadView,
    second: FragmentSpreadView,
)
    requires
        request_of(env, scope.parent_type, first) is Some,
        request_of(env, scope.parent_type, second) is Some,
        first.fragment.item == second.fragment.item,
        request_of(env, scope.parent_type, first)->0.module_name == request_of(
            env,
            scope.parent_type,
            second,
        )->0.module_name,
        replaces(env, scope, progress, SelectionView::FragmentSpread(first)),
        visit_spread(env, scope, progress, first) matches Some((found, _)) && grows(found, later),
    ensures
        replaces(env, scope, later, SelectionView::FragmentSpread(second)),
        visit_spread(env, scope, later, second) matches Some((after, again)) && {
            &&& after.errors == later.errors
            &&& after.matches == later.matches
            &&& after.known_models == later.known_models
            &&& !env.no_inline_flag.spec_is_enabled_for(second.fragment.item) ==> after == later
            &&& second == first ==> again == (visit_spread(env, scope, progress, first)->0).1
        },
{
    let path = path_items(scope.path);
    let module = first_named(second.directives, MODULE_DIRECTIVE_NAME@)->0;
    let request = request_of(env, scope.parent_type, second)->0;
    let (found, _) = visit_spread(env, scope, progress, first)->0;
    let type_ = request.fragment.type_condition;
    assert(found.matches.contains_key(path));
    assert(found.matches[path].types.dom().contains(type_));
    assert(later.matches[path].types[type_] == found.matches[path].types[type_]);
    let entry = TypeMatchView { fragment: second.fragment, module_name: request.module_name };
    assert(register(env.program.schema, scope, later.matches, type_, entry) == Some(
        Ok::<MatchMap, DiagnosticView>(later.matches),
    ));
    assert(validated(env, scope.parent_type, later, second).known_models =~= later.known_models);
    assert(module_spread(env, scope, later, second, module) matches Some((_, Ok(_))));
}

/// A spread of which nothing was reported gives the same when it is met again: the same result, no
/// report, and the same records. So exactly the same `@module` may be repeated at one path.
pub proof fn repeated_spread_gives_the_same(
    env: Env,
    scope: Scope,
    progress: Progress,
    spread: FragmentSpreadView,
)
    requires
        visit_spread(env, scope, progress, spread) matches Some((found, _)) && found.errors
            == progress.errors,
    ensures
        ({
            let (found, next) = visit_spread(env, scope, progress, spread)->0;
            &&& visit_spread(env, scope, found, spread) matches Some((after, again)) && {
                &&& again == next
                &&& after.errors == found.errors
                &&& after.matches == found.matches
                &&& after.known_models == found.known_models
            }
            &&& replaces(env, scope, found, SelectionView::FragmentSpread(spread)) == replaces(
                env,
                scope,
                progress,
                SelectionView::FragmentSpread(spread),
            )
        }),
{
    spread_is_replaced_or_reported(env, scope, progress, spread);
    if first_named(spread.directives, MODULE_DIRECTIVE_NAME@) is Some {
        let (found, _) = visit_spread(env, scope, progress, spread)->0;
        assert(grows(found, found));
        repeated_module_is_accepted(env, scope, progress, found, spread, spread);
    }
}

/// The modules that a document loads carry its name: the key begins with it, and the identifier
/// is made of it and the path. A module is loaded for the type of the fragment that it spreads,
/// and says whether that fragment is kept apart.
pub proof fn modules_carry_the_document(
    env: Env,
    document: DocumentNameView,
    type_: Type,
    progress: Progress,
    selections: Seq<SelectionView>,
    module: LoadedModule,
)
    requires
        are_bare(selections),
        visit_all(env, document_scope(document, type_), progress.fresh(), selections) matches Some((_, next))
            && any_loads(env.program.schema, Seq::empty(), next, module),
    ensures
        document.text().is_prefix_of(module.metadata.key),
        module.metadata.module_id == extended(document.text(), module.path, PATH_SEPARATOR@),
        module.metadata.source_document_name == document,
        env.program.fragment(module.metadata.fragment_name) matches Some(fragment) && {
            &&& module.type_ == Some(fragment.type_condition)
            &&& module.metadata.fragment_source_location == fragment.name.location
        },
        module.metadata.no_inline == env.no_inline_flag.spec_is_enabled_for(
            module.metadata.fragment_name,
        ),
        module.metadata.no_inline ==> {
            let (found, _) = visit_all(env, document_scope(document, type_), progress.fresh(), selections)->0;
            &&& found.no_inline.contains_key(module.metadata.fragment_name)
            &&& found.no_inline[module.metadata.fragment_name].contains(document)
        },
{
    let scope = document_scope(document, type_);
    assert(path_items(scope.path) =~= Seq::empty());
    modules_are_recorded(env, scope, progress.fresh(), selections, module);
}

/// A spread with `@module` is either replaced or reported, never both: where it is replaced,
/// nothing is reported, and what takes its place loads the module; where it is reported, that is
/// by one error, and it stays. A spread without `@module` stays, and nothing is reported.
pub proof fn spread_is_replaced_or_reported(
    env: Env,
    scope: Scope,
    progress: Progress,
    spread: FragmentSpreadView,
)
    ensures
        visit_spread(env, scope, progress, spread) matches Some((found, next)) ==> {
            let replaced = {
                &&& found.errors == progress.errors
                &&& exists|module: LoadedModule| #[trigger]
                    loads(env.program.schema, path_items(scope.path), next, module) && {
                        &&& module.path == path_items(scope.path)
                        &&& module.metadata.key == scope.module_key()
                        &&& module.metadata.fragment_name == spread.fragment.item
                    }
            };
            let reported = {
                &&& found.errors.len() == progress.errors.len() + 1
                &&& next == SelectionView::FragmentSpread(spread)
            };
            if first_named(spread.directives, MODULE_DIRECTIVE_NAME@) is Some {
                replaced != reported
            } else {
                found == progress && next == SelectionView::FragmentSpread(spread)
            }
        },
{
    let schema = env.program.schema;
    let path = path_items(scope.path);
    if let Some((found, next)) = visit_spread(env, scope, progress, spread) {
        if let SelectionView::InlineFragment(outer) = next {
            let inner = outer.selections[0]->InlineFragment_0;
            let module = LoadedModule {
                path,
                type_: inner.type_condition,
                metadata: inner.directives[0].data->0->Module_0,
            };
            assert(inner.directives.drop_first() =~= Seq::empty());
            assert(alias_metadata(inner.directives.drop_first()) is None);
            assert(path_within(path, inner.directives) == path);
            assert(path_within(path, outer.directives) == path);
            assert(loads(schema, path, outer.selections[0], module));
            assert(any_loads(schema, path, outer.selections, module));
            assert(loads(schema, path, next, module));
        } else {
            assert(next is FragmentSpread);
            assert(forall|module: LoadedModule| !loads(schema, path, next, module));
        }
    }
}

} // verus!
