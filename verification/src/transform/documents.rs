//! Operations and fragments.

use std::sync::Arc;

use vstd::prelude::*;

use crate::ir::{
    copy_directives, share, ExecutableDefinitionName, FragmentDefinition, FragmentView,
    OperationDefinition, OperationView, Program,
};
use crate::location::copy_text;
use crate::model::{
    any_document_replaces, any_fragment_replaces, any_operation_replaces, any_replaces,
    document_scope, fragment_scope, operation_scope, scope_after_fragments, scope_after_operations,
    visit_fragment, visit_fragments, visit_operation, visit_operations, visit_program,
};
use crate::schema::Type;
use crate::tables::MatchesForPath;
use crate::text::views;
use crate::transform::{program_outcome, MatchTransform, Transformed};

verus! {

/// The operation that comes of a transformed one.
pub open spec fn operation_outcome(
    transformed: Transformed<OperationDefinition>,
    operation: OperationView,
) -> OperationView {
    match transformed {
        Transformed::Keep => operation,
        Transformed::Replace(replacement) => replacement@,
    }
}

/// The fragment that comes of a transformed one.
pub open spec fn fragment_outcome(
    transformed: Transformed<FragmentDefinition>,
    fragment: FragmentView,
) -> FragmentView {
    match transformed {
        Transformed::Keep => fragment,
        Transformed::Replace(replacement) => replacement@,
    }
}

impl<'program, 'flag> MatchTransform<'program, 'flag> {
    /// Starts on a document.
    fn enter_document(&mut self, document_name: ExecutableDefinitionName, type_: Type)
        requires
            old(self).inv(),
            old(self).scope().aliases.len() == 0,
        ensures
            final(self).inv(),
            final(self).env() == old(self).env(),
            final(self).scope() == document_scope(document_name@, type_),
            final(self).progress() == old(self).progress().fresh(),
    {
        self.document_name = document_name;
        self.matches_for_path = MatchesForPath::new();
        self.match_directive_key_argument = None;
        self.parent_type = type_;
        self.path = Vec::new();
        assert(views(self.path@) =~= Seq::empty());
        assert(views(self.alias_path@) =~= Seq::empty());
    }

    /// Transforms a fragment.
    fn transform_fragment(&mut self, fragment: &FragmentDefinition) -> (result: Option<
        Transformed<FragmentDefinition>,
    >)
        requires
            old(self).inv(),
            old(self).scope().aliases.len() == 0,
        ensures
            final(self).env() == old(self).env(),
            result is Some ==> final(self).inv(),
            result is Some ==> final(self).scope() == fragment_scope(fragment@),
            ({
                let visited = visit_fragment(old(self).env(), old(self).progress(), fragment@);
                match result {
                    None => visited is None,
                    Some(transformed) => {
                        &&& visited == Some((final(self).progress(), fragment_outcome(transformed, fragment@)))
                        &&& (transformed is Replace) == any_replaces(
                            old(self).env(),
                            fragment_scope(fragment@),
                            old(self).progress().fresh(),
                            fragment@.selections,
                        )
                    },
                }
            }),
    {
        self.enter_document(
            ExecutableDefinitionName::FragmentDefinitionName(fragment.name.item.clone()),
            fragment.type_condition,
        );
        match self.transform_selections(&fragment.selections) {
            None => None,
            Some(Transformed::Keep) => Some(Transformed::Keep),
            Some(Transformed::Replace(selections)) => Some(
                Transformed::Replace(
                    FragmentDefinition {
                        name: copy_text(&fragment.name),
                        variable_definitions: share(&fragment.variable_definitions),
                        used_global_variables: share(&fragment.used_global_variables),
                        type_condition: fragment.type_condition,
                        directives: copy_directives(&fragment.directives),
                        selections,
                    },
                ),
            ),
        }
    }

    /// Transforms an operation.
    fn transform_operation(&mut self, operation: &OperationDefinition) -> (result: Option<
        Transformed<OperationDefinition>,
    >)
        requires
            old(self).inv(),
            old(self).scope().aliases.len() == 0,
        ensures
            final(self).env() == old(self).env(),
            result is Some ==> final(self).inv(),
            result is Some ==> final(self).scope() == operation_scope(operation@),
            ({
                let visited = visit_operation(old(self).env(), old(self).progress(), operation@);
                match result {
                    None => visited is None,
                    Some(transformed) => {
                        &&& visited == Some((final(self).progress(), operation_outcome(transformed, operation@)))
                        &&& (transformed is Replace) == any_replaces(
                            old(self).env(),
                            operation_scope(operation@),
                            old(self).progress().fresh(),
                            operation@.selections,
                        )
                    },
                }
            }),
    {
        self.enter_document(
            ExecutableDefinitionName::OperationDefinitionName(operation.name.item.clone()),
            operation.type_,
        );
        match self.transform_selections(&operation.selections) {
            None => None,
            Some(Transformed::Keep) => Some(Transformed::Keep),
            Some(Transformed::Replace(selections)) => Some(
                Transformed::Replace(
                    OperationDefinition {
                        kind: operation.kind,
                        name: copy_text(&operation.name),
                        type_: operation.type_,
                        variable_definitions: share(&operation.variable_definitions),
                        directives: copy_directives(&operation.directives),
                        selections,
                    },
                ),
            ),
        }
    }

    /// Transforms operations, one after the other, and says whether one of them was replaced.
    fn transform_operations(&mut self, operations: &Vec<Arc<OperationDefinition>>) -> (result: Option<
        (Vec<Arc<OperationDefinition>>, bool),
    >)
        requires
            old(self).inv(),
            old(self).scope().aliases.len() == 0,
        ensures
            final(self).env() == old(self).env(),
            result is Some ==> final(self).inv(),
            result is Some ==> final(self).scope() == scope_after_operations(
                old(self).scope(),
                views(operations@),
            ),
            ({
                let visited = visit_operations(old(self).env(), old(self).progress(), views(operations@));
                match result {
                    None => visited is None,
                    Some((next, has_changes)) => {
                        &&& visited == Some((final(self).progress(), views(next@)))
                        &&& !has_changes ==> views(next@) == views(operations@)
                        &&& has_changes == any_operation_replaces(
                            old(self).env(),
                            old(self).progress(),
                            views(operations@),
                        )
                    },
                }
            }),
    {
        let ghost all = views(operations@);
        let ghost env = self.env();
        let ghost visited = visit_operations(env, self.progress(), all);
        let mut result: Vec<Arc<OperationDefinition>> = Vec::new();
        let mut has_changes = false;
        let mut i: usize = 0;
        proof {
            assert(all.skip(0) =~= all);
            assert(all.take(0) =~= views(result@));
            if let Some((found, rest)) = visited {
                assert(views(result@) + rest =~= rest);
            }
        }
        while i < operations.len()
            invariant
                i <= operations.len(),
                self.inv(),
                self.scope().aliases.len() == 0,
                self.scope() == scope_after_operations(old(self).scope(), all.take(i as int)),
                any_operation_replaces(env, old(self).progress(), all) == (has_changes || any_operation_replaces(
                    env,
                    self.progress(),
                    all.skip(i as int),
                )),
                all == views(operations@),
                self.env() == env,
                env == old(self).env(),
                !has_changes ==> views(result@) == all.take(i as int),
                visited == (match visit_operations(env, self.progress(), all.skip(i as int)) {
                    None => None,
                    Some((found, rest)) => Some((found, views(result@) + rest)),
                }),
                visited == visit_operations(env, old(self).progress(), all),
            decreases operations.len() - i,
        {
            let ghost done = views(result@);
            proof {
                assert(all.skip(i as int)[0] == operations@[i as int]@);
                assert(all.skip(i as int).drop_first() =~= all.skip(i + 1));
                assert(all.take(i + 1).last() == all[i as int]);
            }
            let next = match self.transform_operation(&operations[i]) {
                None => {
                    return None;
                },
                Some(Transformed::Keep) => share(&operations[i]),
                Some(Transformed::Replace(replacement)) => {
                    has_changes = true;
                    Arc::new(replacement)
                },
            };
            result.push(next);
            proof {
                assert(views(result@) =~= done.push(next@));
                if let Some((found, rest)) = visit_operations(env, self.progress(), all.skip(i + 1)) {
                    assert(done + (seq![next@] + rest) =~= views(result@) + rest);
                }
                if !has_changes {
                    assert(all.take(i as int).push(next@) =~= all.take(i + 1));
                }
            }
            i = i + 1;
        }
        proof {
            assert(all.skip(i as int) =~= Seq::empty());
            assert(all.take(i as int) =~= all);
            assert(views(result@) + Seq::<OperationView>::empty() =~= views(result@));
        }
        Some((result, has_changes))
    }

    /// Transforms fragments, one after the other, and says whether one of them was replaced.
    fn transform_fragments(&mut self, fragments: &Vec<Arc<FragmentDefinition>>) -> (result: Option<
        (Vec<Arc<FragmentDefinition>>, bool),
    >)
        requires
            old(self).inv(),
            old(self).scope().aliases.len() == 0,
        ensures
            final(self).env() == old(self).env(),
            result is Some ==> final(self).inv(),
            result is Some ==> final(self).scope() == scope_after_fragments(
                old(self).scope(),
                views(fragments@),
            ),
            ({
                let visited = visit_fragments(old(self).env(), old(self).progress(), views(fragments@));
                match result {
                    None => visited is None,
                    Some((next, has_changes)) => {
                        &&& visited == Some((final(self).progress(), views(next@)))
                        &&& !has_changes ==> views(next@) == views(fragments@)
                        &&& has_changes == any_fragment_replaces(
                            old(self).env(),
                            old(self).progress(),
                            views(fragments@),
                        )
                    },
                }
            }),
    {
        let ghost all = views(fragments@);
        let ghost env = self.env();
        let ghost visited = visit_fragments(env, self.progress(), all);
        let mut result: Vec<Arc<FragmentDefinition>> = Vec::new();
        let mut has_changes = false;
        let mut i: usize = 0;
        proof {
            assert(all.skip(0) =~= all);
            assert(all.take(0) =~= views(result@));
            if let Some((found, rest)) = visited {
                assert(views(result@) + rest =~= rest);
            }
        }
        while i < fragments.len()
            invariant
                i <= fragments.len(),
                self.inv(),
                self.scope().aliases.len() == 0,
                self.scope() == scope_after_fragments(old(self).scope(), all.take(i as int)),
                any_fragment_replaces(env, old(self).progress(), all) == (has_changes || any_fragment_replaces(
                    env,
                    self.progress(),
                    all.skip(i as int),
                )),
                all == views(fragments@),
                self.env() == env,
                env == old(self).env(),
                !has_changes ==> views(result@) == all.take(i as int),
                visited == (match visit_fragments(env, self.progress(), all.skip(i as int)) {
                    None => None,
                    Some((found, rest)) => Some((found, views(result@) + rest)),
                }),
                visited == visit_fragments(env, old(self).progress(), all),
            decreases fragments.len() - i,
        {
            let ghost done = views(result@);
            proof {
                assert(all.skip(i as int)[0] == fragments@[i as int]@);
                assert(all.skip(i as int).drop_first() =~= all.skip(i + 1));
                assert(all.take(i + 1).last() == all[i as int]);
            }
            let next = match self.transform_fragment(&fragments[i]) {
                None => {
                    return None;
                },
                Some(Transformed::Keep) => share(&fragments[i]),
                Some(Transformed::Replace(replacement)) => {
                    has_changes = true;
                    Arc::new(replacement)
                },
            };
            result.push(next);
            proof {
                assert(views(result@) =~= done.push(next@));
                if let Some((found, rest)) = visit_fragments(env, self.progress(), all.skip(i + 1)) {
                    assert(done + (seq![next@] + rest) =~= views(result@) + rest);
                }
                if !has_changes {
                    assert(all.take(i as int).push(next@) =~= all.take(i + 1));
                }
            }
            i = i + 1;
        }
        proof {
            assert(all.skip(i as int) =~= Seq::empty());
            assert(all.take(i as int) =~= all);
            assert(views(result@) + Seq::<FragmentView>::empty() =~= views(result@));
        }
        Some((result, has_changes))
    }

    /// Transforms all documents: first the operations, then the fragments.
    pub(super) fn transform_documents(&mut self, program: &Program) -> (result: Option<Transformed<Program>>)
        requires
            old(self).inv(),
            old(self).scope().aliases.len() == 0,
            program@ == old(self).env().program,
        ensures
            final(self).env() == old(self).env(),
            result is Some ==> final(self).inv(),
            result is Some ==> final(self).scope() == scope_after_fragments(
                scope_after_operations(old(self).scope(), program@.operations),
                program@.fragments,
            ),
            ({
                let visited = visit_program(old(self).env(), old(self).progress());
                match result {
                    None => visited is None,
                    Some(transformed) => {
                        &&& visited == Some((final(self).progress(), program_outcome(transformed, program@)))
                        &&& (transformed is Replace) == any_document_replaces(
                            old(self).env(),
                            old(self).progress(),
                        )
                    },
                }
            }),
    {
        let (operations, operations_changed) = match self.transform_operations(&program.operations) {
            Some(operations) => operations,
            None => {
                return None;
            },
        };
        let (fragments, fragments_changed) = match self.transform_fragments(&program.fragments) {
            Some(fragments) => fragments,
            None => {
                return None;
            },
        };
        if operations_changed || fragments_changed {
            Some(Transformed::Replace(Program { schema: share(&program.schema), operations, fragments }))
        } else {
            Some(Transformed::Keep)
        }
    }
}

} // verus!
