//! Transform and validate `@match` and `@module`.

mod documents;
mod match_field;
mod module_spread;

use std::collections::HashSet;

use vstd::prelude::*;

use crate::config::{DeferStreamInterface, FeatureFlag, FeatureFlags, ModuleImportConfig};
use crate::diagnostic::{Diagnostic, DiagnosticView};
use crate::ir::{
    selections_view, DocumentNameView, ExecutableDefinitionName, Program, ProgramView, Selection,
    SelectionView,
};
use crate::location::WithLocation;
use crate::model::{
    any_document_replaces, document_scope, nothing_found, scope_after_fragments,
    scope_after_operations, visit_program, Env, KnownModels, Progress, Scope,
};
use crate::schema::Type;
use crate::tables::{MatchesForPath, NoInlineFragments};
use crate::text::{opt_view, views};

verus! {

/// What becomes of an item: it stays, or another takes its place.
#[derive(Debug, PartialEq, Eq)]
pub enum Transformed<T> {
    Keep,
    Replace(T),
}

/// The selection that comes of a transformed one.
pub open spec fn outcome(transformed: Transformed<Selection>, selection: SelectionView) -> SelectionView {
    match transformed {
        Transformed::Keep => selection,
        Transformed::Replace(replacement) => replacement@,
    }
}

/// The selections that come of transformed ones.
pub open spec fn outcomes(
    transformed: Transformed<Vec<Selection>>,
    selections: Seq<SelectionView>,
) -> Seq<SelectionView> {
    match transformed {
        Transformed::Keep => selections,
        Transformed::Replace(replacements) => selections_view(replacements@),
    }
}

/// The program that comes of a transformed one.
pub open spec fn program_outcome(transformed: Transformed<Program>, program: ProgramView) -> ProgramView {
    match transformed {
        Transformed::Keep => program,
        Transformed::Replace(replacement) => replacement@,
    }
}

/// A run of the transform over the documents of a program.
pub struct MatchTransform<'program, 'flag> {
    program: &'program Program,
    parent_type: Type,
    document_name: ExecutableDefinitionName,
    match_directive_key_argument: Option<String>,
    errors: Vec<Diagnostic>,
    path: Vec<WithLocation<String>>,
    alias_path: Vec<String>,
    matches_for_path: MatchesForPath,
    enable_3d_branch_arg_generation: bool,
    no_inline_flag: &'flag FeatureFlag,
    /// The fragments that should use `@no_inline`, with the documents that spread them.
    no_inline_fragments: NoInlineFragments,
    module_import_config: ModuleImportConfig,
    defer_stream_interface: DeferStreamInterface,
    /// Interfaces that are known to be implemented by objects with Relay Resolver models alone.
    relay_resolver_model_interfaces: HashSet<u32>,
    /// Unions that are known to consist of objects with Relay Resolver models alone.
    relay_resolver_model_unions: HashSet<u32>,
}

impl<'program, 'flag> MatchTransform<'program, 'flag> {
    /// What stays the same during the run.
    pub closed spec fn env(self) -> Env {
        Env {
            program: self.program@,
            no_inline_flag: *self.no_inline_flag,
            branch_args: self.enable_3d_branch_arg_generation,
            imports: self.module_import_config,
            defer_name: self.defer_stream_interface.defer_name@,
        }
    }

    /// Where in a document the run stands.
    pub closed spec fn scope(self) -> Scope {
        Scope {
            document: self.document_name@,
            parent_type: self.parent_type,
            key: opt_view(self.match_directive_key_argument),
            path: views(self.path@),
            aliases: views(self.alias_path@),
        }
    }

    /// What the run has found so far.
    pub closed spec fn progress(self) -> Progress {
        Progress {
            matches: self.matches_for_path@,
            no_inline: self.no_inline_fragments@,
            known_models: KnownModels {
                interfaces: self.relay_resolver_model_interfaces@,
                unions: self.relay_resolver_model_unions@,
            },
            errors: views(self.errors@),
        }
    }

    /// Whether the tables are sound: in particular, whether the remembered interfaces and unions
    /// are what they are remembered for.
    pub closed spec fn inv(self) -> bool {
        let schema = *self.program.schema;
        &&& self.matches_for_path.inv()
        &&& self.no_inline_fragments.inv()
        &&& forall|id: u32| #[trigger]
            self.relay_resolver_model_interfaces@.contains(id) ==> {
                &&& id < schema.interfaces@.len()
                &&& schema.spec_all_have_model(schema.interfaces@[id as int].implementing_objects@) == Some(
                    true,
                )
            }
        &&& forall|id: u32| #[trigger]
            self.relay_resolver_model_unions@.contains(id) ==> {
                &&& id < schema.unions@.len()
                &&& schema.spec_all_have_model(schema.unions@[id as int].members@) == Some(true)
            }
    }

    /// Reports an error.
    fn push_error(&mut self, error: Diagnostic)
        requires
            old(self).inv(),
        ensures
            final(self).inv(),
            final(self).env() == old(self).env(),
            final(self).scope() == old(self).scope(),
            final(self).progress() == old(self).progress().report(error@),
    {
        let ghost before = views(self.errors@);
        self.errors.push(error);
        assert(views(self.errors@) =~= before.push(error@));
    }
}

/// Whether a run over `program` that found `found` and made `next` of the documents may end with
/// the errors and the program `last`. `replaced` says whether one of the documents was replaced.
///
/// Where fragments are to be kept apart, `validate` is asked about them and `program`. What it
/// objects to is reported. If it objects to nothing, `attach` makes the last program of them and
/// the next one. The program is kept where no document was replaced and `attach` was not asked.
pub open spec fn may_end<V, A>(
    program: Program,
    validate: V,
    attach: A,
    found: Progress,
    next: ProgramView,
    replaced: bool,
    errors: Seq<DiagnosticView>,
    last: Transformed<Program>,
) -> bool where
    V: Fn(&NoInlineFragments, &Program) -> Result<(), Vec<Diagnostic>>,
    A: Fn(NoInlineFragments, Program) -> Program,
 {
    if found.no_inline == Map::<Seq<char>, Seq<DocumentNameView>>::empty() {
        &&& errors == found.errors
        &&& program_outcome(last, program@) == next
        &&& (last is Replace) == replaced
    } else {
        exists|fragments: NoInlineFragments, verdict: Result<(), Vec<Diagnostic>>|
            {
                &&& #[trigger] validate.ensures((&fragments, &program), verdict)
                &&& fragments.inv()
                &&& fragments@ == found.no_inline
                &&& match verdict {
                    Err(objections) => {
                        &&& errors == found.errors + views(objections@)
                        &&& program_outcome(last, program@) == next
                        &&& (last is Replace) == replaced
                    },
                    Ok(_) => {
                        &&& errors == found.errors
                        &&& last is Replace
                        &&& exists|next_program: Program|
                            {
                                &&& #[trigger] attach.ensures((fragments, next_program), last->Replace_0)
                                &&& next_program@ == next
                            }
                    },
                }
            }
    }
}

impl<'program, 'flag> MatchTransform<'program, 'flag> {
    /// Makes a run over a program.
    fn new(
        program: &'program Program,
        feature_flags: &'flag FeatureFlags,
        module_import_config: ModuleImportConfig,
        defer_stream_interface: DeferStreamInterface,
    ) -> (transform: Self)
        ensures
            transform.inv(),
            transform.env() == run_env(
                *program,
                *feature_flags,
                module_import_config,
                defer_stream_interface,
            ),
            transform.scope() == document_scope(
                DocumentNameView::Operation(Seq::empty()),
                Type::Scalar(0),
            ),
            transform.progress() == nothing_found(),
    {
        broadcast use vstd::std_specs::hash::group_hash_axioms;

        let transform = MatchTransform {
            program,
            // Placeholders to make the types non-optional.
            parent_type: Type::Scalar(0),
            document_name: ExecutableDefinitionName::OperationDefinitionName(String::new()),
            match_directive_key_argument: None,
            errors: Vec::new(),
            path: Vec::new(),
            alias_path: Vec::new(),
            matches_for_path: MatchesForPath::new(),
            enable_3d_branch_arg_generation: feature_flags.enable_3d_branch_arg_generation,
            no_inline_flag: &feature_flags.no_inline,
            no_inline_fragments: NoInlineFragments::new(),
            module_import_config,
            defer_stream_interface,
            relay_resolver_model_interfaces: HashSet::new(),
            relay_resolver_model_unions: HashSet::new(),
        };
        assert(views(transform.errors@) =~= Seq::empty());
        assert(views(transform.path@) =~= Seq::empty());
        assert(views(transform.alias_path@) =~= Seq::empty());
        assert(transform.document_name@.text() =~= Seq::empty());
        assert(transform.progress().known_models =~= nothing_found().known_models);
        transform
    }

    /// Transforms a program, and lets `validate` and `attach` deal with the fragments that are to
    /// be kept apart.
    fn transform_program<V, A>(&mut self, program: &Program, validate: V, attach: A) -> (result: Option<
        Transformed<Program>,
    >) where
        V: Fn(&NoInlineFragments, &Program) -> Result<(), Vec<Diagnostic>>,
        A: Fn(NoInlineFragments, Program) -> Program,

        requires
            old(self).inv(),
            old(self).scope().aliases.len() == 0,
            program@ == old(self).env().program,
            forall|fragments: &NoInlineFragments, program: &Program| #[trigger]
                validate.requires((fragments, program)),
            forall|fragments: NoInlineFragments, program: Program| #[trigger]
                attach.requires((fragments, program)),
        ensures
            match visit_program(old(self).env(), old(self).progress()) {
                None => result is None,
                Some((found, next)) => {
                    &&& result is Some
                    &&& may_end(
                        *program,
                        validate,
                        attach,
                        found,
                        next,
                        any_document_replaces(old(self).env(), old(self).progress()),
                        final(self).progress().errors,
                        result->0,
                    )
                    &&& final(self).inv()
                    &&& final(self).scope() == scope_after_fragments(
                        scope_after_operations(old(self).scope(), program@.operations),
                        program@.fragments,
                    )
                    &&& final(self).progress().matches == found.matches
                    &&& final(self).progress().known_models == found.known_models
                },
            },
            final(self).env() == old(self).env(),
    {
        let next_program = match self.transform_documents(program) {
            Some(next_program) => next_program,
            None => {
                return None;
            },
        };
        if self.no_inline_fragments.is_empty() {
            return Some(next_program);
        }
        let verdict = validate(&self.no_inline_fragments, program);
        let ghost fragments = self.no_inline_fragments;
        assert(validate.ensures((&fragments, program), verdict));
        match verdict {
            Err(mut errors) => {
                let ghost before = views(self.errors@);
                let ghost objections = errors@;
                self.errors.append(&mut errors);
                assert(views(self.errors@) =~= before + views(objections));
                Some(next_program)
            },
            Ok(_) => {
                let next_program = match next_program {
                    Transformed::Keep => program.clone(),
                    Transformed::Replace(next_program) => next_program,
                };
                let mut no_inline_fragments = NoInlineFragments::new();
                std::mem::swap(&mut no_inline_fragments, &mut self.no_inline_fragments);
                let last_program = attach(no_inline_fragments, next_program);
                assert(attach.ensures((fragments, next_program), last_program));
                Some(Transformed::Replace(last_program))
            },
        }
    }
}

/// What stays the same during a run over `program`.
pub open spec fn run_env(
    program: Program,
    feature_flags: FeatureFlags,
    module_import_config: ModuleImportConfig,
    defer_stream_interface: DeferStreamInterface,
) -> Env {
    Env {
        program: program@,
        no_inline_flag: feature_flags.no_inline,
        branch_args: feature_flags.enable_3d_branch_arg_generation,
        imports: module_import_config,
        defer_name: defer_stream_interface.defer_name@,
    }
}

/// Whether `result` may come of a run over `program` that found `found` and made `next` of the
/// documents: the errors, if there are any, or else the last program.
pub open spec fn may_return<V, A>(
    env: Env,
    program: Program,
    validate: V,
    attach: A,
    found: Progress,
    next: ProgramView,
    result: Result<Program, Vec<Diagnostic>>,
) -> bool where
    V: Fn(&NoInlineFragments, &Program) -> Result<(), Vec<Diagnostic>>,
    A: Fn(NoInlineFragments, Program) -> Program,
 {
    let replaced = any_document_replaces(env, nothing_found());
    exists|errors: Seq<DiagnosticView>, last: Transformed<Program>|
        {
            &&& #[trigger] may_end(program, validate, attach, found, next, replaced, errors, last)
            &&& match result {
                Ok(returned) => errors.len() == 0 && returned@ == program_outcome(last, program@),
                Err(reported) => errors.len() > 0 && views(reported@) == errors,
            }
        }
}

/// Transforms and validates `@match` and `@module`, or gives `None` where nothing can be made of
/// the documents.
pub fn try_transform_match<V, A>(
    program: &Program,
    feature_flags: &FeatureFlags,
    module_import_config: ModuleImportConfig,
    defer_stream_interface: DeferStreamInterface,
    validate: V,
    attach: A,
) -> (result: Option<Result<Program, Vec<Diagnostic>>>) where
    V: Fn(&NoInlineFragments, &Program) -> Result<(), Vec<Diagnostic>>,
    A: Fn(NoInlineFragments, Program) -> Program,

    requires
        forall|fragments: &NoInlineFragments, program: &Program| #[trigger]
            validate.requires((fragments, program)),
        forall|fragments: NoInlineFragments, program: Program| #[trigger]
            attach.requires((fragments, program)),
    ensures
        match visit_program(
            run_env(*program, *feature_flags, module_import_config, defer_stream_interface),
            nothing_found(),
        ) {
            None => result is None,
            Some((found, next)) => result is Some && may_return(
                run_env(*program, *feature_flags, module_import_config, defer_stream_interface),
                *program,
                validate,
                attach,
                found,
                next,
                result->0,
            ),
        },
{
    let mut transformer = MatchTransform::new(
        program,
        feature_flags,
        module_import_config,
        defer_stream_interface,
    );
    let next_program = transformer.transform_program(program, validate, attach)?;
    if transformer.errors.len() == 0 {
        match next_program {
            Transformed::Keep => Some(Ok(program.clone())),
            Transformed::Replace(next_program) => Some(Ok(next_program)),
        }
    } else {
        Some(Err(transformer.errors))
    }
}

/// Transforms and validates `@match` and `@module`.
///
/// A `@module` spread becomes inline fragments that hold the spread and the fields that load its
/// module. A field with `@match` gets an argument that lists the supported types. `validate` and
/// `attach` deal with the fragments that are to be kept apart from the documents that use them.
pub fn transform_match<V, A>(
    program: &Program,
    feature_flags: &FeatureFlags,
    module_import_config: ModuleImportConfig,
    defer_stream_interface: DeferStreamInterface,
    validate: V,
    attach: A,
) -> (result: Result<Program, Vec<Diagnostic>>) where
    V: Fn(&NoInlineFragments, &Program) -> Result<(), Vec<Diagnostic>>,
    A: Fn(NoInlineFragments, Program) -> Program,

    requires
        visit_program(
            run_env(*program, *feature_flags, module_import_config, defer_stream_interface),
            nothing_found(),
        ) is Some,
        forall|fragments: &NoInlineFragments, program: &Program| #[trigger]
            validate.requires((fragments, program)),
        forall|fragments: NoInlineFragments, program: Program| #[trigger]
            attach.requires((fragments, program)),
    ensures
        ({
            let env = run_env(*program, *feature_flags, module_import_config, defer_stream_interface);
            let (found, next) = visit_program(env, nothing_found())->0;
            may_return(env, *program, validate, attach, found, next, result)
        }),
{
    let result = try_transform_match(
        program,
        feature_flags,
        module_import_config,
        defer_stream_interface,
        validate,
        attach,
    );
    result.unwrap()
}

} // verus!
