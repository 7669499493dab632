//! How a run ends, and what it hands to others.

use vstd::prelude::*;

use crate::config::{DeferStreamInterface, FeatureFlags, ModuleImportConfig};
use crate::diagnostic::{Diagnostic, DiagnosticView};
use crate::ir::{DocumentNameView, Program, ProgramView};
use crate::model::{any_document_replaces, nothing_found, Env, Progress};
use crate::tables::{position_of, NoInlineFragments};
use crate::text::views;
use crate::transform::{may_end, may_return, program_outcome, run_env, Transformed};

verus! {

/// A run goes by the program, the features and the settings that it is given, and begins with nothing
/// found.
pub proof fn settings_are_passed_on(
    program: Program,
    feature_flags: FeatureFlags,
    module_import_config: ModuleImportConfig,
    defer_stream_interface: DeferStreamInterface,
)
    ensures
        ({
            let env = run_env(program, feature_flags, module_import_config, defer_stream_interface);
            &&& env.program == program@
            &&& env.no_inline_flag == feature_flags.no_inline
            &&& env.branch_args == feature_flags.enable_3d_branch_arg_generation
            &&& env.imports == module_import_config
            &&& env.defer_name == defer_stream_interface.defer_name@
            &&& nothing_found().errors.len() == 0
            &&& nothing_found().matches.dom() == Set::<Seq<Seq<char>>>::empty()
            &&& nothing_found().no_inline.dom() == Set::<Seq<char>>::empty()
            &&& nothing_found().known_models.interfaces == Set::<u32>::empty()
            &&& nothing_found().known_models.unions == Set::<u32>::empty()
        }),
{
}

/// What is reported of documents is returned, in order and before all objections, whatever others say.
pub proof fn reports_are_returned<V, A>(
    env: Env,
    program: Program,
    validate: V,
    attach: A,
    found: Progress,
    next: ProgramView,
    result: Result<Program, Vec<Diagnostic>>,
) where
    V: Fn(&NoInlineFragments, &Program) -> Result<(), Vec<Diagnostic>>,
    A: Fn(NoInlineFragments, Program) -> Program,

    requires
        may_return(env, program, validate, attach, found, next, result),
        found.errors.len() > 0,
    ensures
        result matches Err(errors) && found.errors.is_prefix_of(views(errors@)),
{
    let replaced = any_document_replaces(env, nothing_found());
    let (errors, last) = choose|errors: Seq<DiagnosticView>, last: Transformed<Program>|
        {
            &&& #[trigger] may_end(program, validate, attach, found, next, replaced, errors, last)
            &&& match result {
                Ok(returned) => errors.len() == 0 && returned@ == program_outcome(last, program@),
                Err(reported) => errors.len() > 0 && views(reported@) == errors,
            }
        };
    assert(found.errors.is_prefix_of(errors));
}

/// Objections are returned behind the reports: where fragments are kept apart and `validate` always
/// objects to them in the same words, the result is what was reported and these objections.
pub proof fn objections_are_returned<V, A>(
    env: Env,
    program: Program,
    validate: V,
    attach: A,
    found: Progress,
    next: ProgramView,
    result: Result<Program, Vec<Diagnostic>>,
    objections: Seq<DiagnosticView>,
) where
    V: Fn(&NoInlineFragments, &Program) -> Result<(), Vec<Diagnostic>>,
    A: Fn(NoInlineFragments, Program) -> Program,

    requires
        may_return(env, program, validate, attach, found, next, result),
        found.no_inline != Map::<Seq<char>, Seq<DocumentNameView>>::empty(),
        objections.len() > 0,
        forall|fragments: NoInlineFragments, verdict: Result<(), Vec<Diagnostic>>|
            fragments@ == found.no_inline && #[trigger] validate.ensures((&fragments, &program), verdict)
                ==> verdict is Err && views(verdict->Err_0@) == objections,
    ensures
        result matches Err(errors) && views(errors@) == found.errors + objections,
{
}

/// Where nothing is reported, fragments are kept apart and `validate` never objects to them, the
/// result is what `attach` makes of these fragments and of what became of the documents.
pub proof fn attached_program_is_returned<V, A>(
    env: Env,
    program: Program,
    validate: V,
    attach: A,
    found: Progress,
    next: ProgramView,
    result: Result<Program, Vec<Diagnostic>>,
) where
    V: Fn(&NoInlineFragments, &Program) -> Result<(), Vec<Diagnostic>>,
    A: Fn(NoInlineFragments, Program) -> Program,

    requires
        may_return(env, program, validate, attach, found, next, result),
        found.no_inline != Map::<Seq<char>, Seq<DocumentNameView>>::empty(),
        found.errors.len() == 0,
        forall|fragments: NoInlineFragments, verdict: Result<(), Vec<Diagnostic>>|
            fragments@ == found.no_inline && #[trigger] validate.ensures((&fragments, &program), verdict)
                ==> verdict is Ok,
    ensures
        result is Ok,
        exists|fragments: NoInlineFragments, before: Program, after: Program|
            {
                &&& #[trigger] attach.ensures((fragments, before), after)
                &&& fragments.inv()
                &&& fragments@ == found.no_inline
                &&& before@ == next
                &&& after@ == result->Ok_0@
            },
{
    let replaced = any_document_replaces(env, nothing_found());
    let (errors, last) = choose|errors: Seq<DiagnosticView>, last: Transformed<Program>|
        {
            &&& #[trigger] may_end(program, validate, attach, found, next, replaced, errors, last)
            &&& match result {
                Ok(returned) => errors.len() == 0 && returned@ == program_outcome(last, program@),
                Err(reported) => errors.len() > 0 && views(reported@) == errors,
            }
        };
    let (fragments, verdict) = choose|fragments: NoInlineFragments, verdict: Result<(), Vec<Diagnostic>>|
        {
            &&& #[trigger] validate.ensures((&fragments, &program), verdict)
            &&& fragments.inv()
            &&& fragments@ == found.no_inline
            &&& match verdict {
                Err(objections) => {
                    &&& errors == found.errors + views(objections@)
                    &&& program_outcome(last, program@) == next
                    &&& (last is Replace) == replaced
                },
                Ok(_) => {
                    &&& errors == found.errors
                    &&& last is Replace
                    &&& exists|before: Program|
                        {
                            &&& #[trigger] attach.ensures((fragments, before), last->Replace_0)
                            &&& before@ == next
                        }
                },
            }
        };
    assert(verdict is Ok);
}

/// The fragments that are handed over are those that are kept apart: every entry names one of them
/// with the documents that use it, and every one of them has an entry.
pub proof fn entries_are_the_uses(fragments: NoInlineFragments)
    requires
        fragments.inv(),
    ensures
        forall|i: int|
            0 <= i < fragments.entries@.len() ==> {
                let entry = #[trigger] fragments.entries@[i];
                &&& fragments@.contains_key(entry.fragment@)
                &&& fragments@[entry.fragment@] == views(entry.documents@)
            },
        forall|fragment: Seq<char>| #[trigger]
            fragments@.contains_key(fragment) ==> exists|i: int|
                0 <= i < fragments.entries@.len() && (#[trigger] fragments.entries@[i]).fragment@ == fragment,
{
    let entries = fragments.entries@;
    assert forall|i: int| 0 <= i < entries.len() implies {
        let entry = #[trigger] entries[i];
        &&& fragments@.contains_key(entry.fragment@)
        &&& fragments@[entry.fragment@] == views(entry.documents@)
    } by {
        crate::tables::lemma_position_is(entries, entries[i].fragment@, i);
    }
    assert forall|fragment: Seq<char>| #[trigger] fragments@.contains_key(fragment) implies exists|i: int|
        0 <= i < entries.len() && (#[trigger] entries[i]).fragment@ == fragment by {
        crate::tables::lemma_position_of(entries, fragment);
        assert(entries[position_of(entries, fragment)].fragment@ == fragment);
    }
}

} // verus!
