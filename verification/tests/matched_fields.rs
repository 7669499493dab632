use std::sync::Arc;

use match_transform::config::{DeferStreamInterface, FeatureFlag, FeatureFlags, ModuleImportConfig};
use match_transform::diagnostic::{Diagnostic, ValidationMessage};
use match_transform::ir::{
    Argument, AssociatedData, Condition, ConditionValue, ConstantValue, Directive,
    ExecutableDefinitionName, FragmentAliasMetadata, FragmentDefinition, FragmentSpread,
    InlineFragment, LinkedField, ModuleMetadata, OperationDefinition, OperationKind, Program,
    ScalarField, Selection, Value,
};
use match_transform::location::{Location, SourceLocationKey, WithLocation};
use match_transform::schema::{
    ArgumentDefinition, Field, Interface, NamedType, Object, Scalar, Schema, Type, TypeReference, Union,
};
use match_transform::tables::NoInlineFragments;
use match_transform::transform::try_transform_match;

const STRING: Type = Type::Scalar(0);
const JS: Type = Type::Scalar(1);
const QUERY: Type = Type::Object(0);

const TYPENAME_FIELD: u32 = 0;
const JS_FIELD: u32 = 1;
const MATCHED_FIELD: u32 = 2;
const PLAIN_FIELD: u32 = 3;
const WRONG_LIST_FIELD: u32 = 4;
const CONCRETE_FIELD: u32 = 5;
const NOT_NULL_FIELD: u32 = 6;

fn at(start: u32) -> Location {
    Location { source: SourceLocationKey::Document(1), start, end: start + 1 }
}

fn text(item: &str) -> WithLocation<String> {
    WithLocation::new(at(0), item.to_string())
}

fn named(type_: Type) -> TypeReference {
    TypeReference::Named(type_)
}

fn list(of: TypeReference) -> TypeReference {
    TypeReference::List(Box::new(of))
}

fn not_null(of: TypeReference) -> TypeReference {
    TypeReference::NonNull(Box::new(of))
}

fn field(name: &str, arguments: Vec<(&str, TypeReference)>, type_: TypeReference) -> Field {
    Field {
        name: text(name),
        arguments: arguments
            .into_iter()
            .map(|(name, type_)| ArgumentDefinition { name: name.to_string(), type_ })
            .collect(),
        type_,
    }
}

fn schema() -> Schema {
    let object = |name: &str, fields: Vec<u32>| Object { name: text(name), fields, directives: vec![] };
    Schema {
        types: vec![
            NamedType { name: "String".to_string(), type_: STRING },
            NamedType { name: "JSDependency".to_string(), type_: JS },
        ],
        fields: vec![
            field("__typename", vec![], named(STRING)),
            field("js", vec![("module", named(STRING))], named(JS)),
            field("matched", vec![("supported", list(named(STRING)))], named(Type::Interface(0))),
            field("plain", vec![], named(Type::Union(0))),
            field("wrongList", vec![("supported", named(STRING))], named(Type::Interface(0))),
            field("concrete", vec![("supported", list(named(STRING)))], named(Type::Object(1))),
            field(
                "notNull",
                vec![("supported", not_null(list(not_null(named(STRING)))))],
                not_null(list(named(Type::Union(0)))),
            ),
        ],
        scalars: vec![
            Scalar { name: text("String"), is_extension: false },
            Scalar { name: text("JSDependency"), is_extension: false },
        ],
        objects: vec![
            object("Query", vec![]),
            object("A", vec![JS_FIELD]),
            object("B", vec![JS_FIELD]),
            object("C", vec![JS_FIELD]),
        ],
        interfaces: vec![Interface { name: text("I"), implementing_objects: vec![1, 2, 3] }],
        unions: vec![Union { name: text("U"), members: vec![1, 2, 3] }],
        enums: vec![],
        input_objects: vec![],
        string_type: STRING,
        typename_field: TYPENAME_FIELD,
    }
}

fn fragment(name: &str, object: u32) -> Arc<FragmentDefinition> {
    Arc::new(FragmentDefinition {
        name: WithLocation::new(at(900), name.to_string()),
        variable_definitions: Arc::new(vec![]),
        used_global_variables: Arc::new(vec![]),
        type_condition: Type::Object(object),
        directives: vec![],
        selections: vec![],
    })
}

fn string_argument(name: &str, value: &str, start: u32) -> Argument {
    Argument {
        name: WithLocation::new(at(start), name.to_string()),
        value: WithLocation::new(
            at(start + 1),
            Value::Constant(ConstantValue::String(value.to_string())),
        ),
    }
}

fn directive(name: &str, arguments: Vec<Argument>, start: u32) -> Directive {
    Directive {
        name: WithLocation::new(at(start + 1), name.to_string()),
        arguments,
        data: None,
        location: at(start),
    }
}

fn matching() -> Directive {
    directive("match", vec![], 100)
}

fn keyed(argument: Argument) -> Directive {
    directive("match", vec![argument], 100)
}

fn module_spread(fragment: &str, start: u32) -> Selection {
    Selection::FragmentSpread(Arc::new(FragmentSpread {
        fragment: WithLocation::new(at(start), fragment.to_string()),
        arguments: vec![],
        directives: vec![directive("module", vec![string_argument("name", "M", start + 3)], start + 1)],
    }))
}

fn plain_spread(fragment: &str, start: u32) -> Selection {
    Selection::FragmentSpread(Arc::new(FragmentSpread {
        fragment: WithLocation::new(at(start), fragment.to_string()),
        arguments: vec![],
        directives: vec![],
    }))
}

fn scalar(definition: u32, start: u32) -> Selection {
    Selection::ScalarField(Arc::new(ScalarField {
        alias: None,
        definition: WithLocation::new(at(start), definition),
        arguments: vec![],
        directives: vec![],
    }))
}

fn linked(
    definition: u32,
    arguments: Vec<Argument>,
    directives: Vec<Directive>,
    selections: Vec<Selection>,
) -> LinkedField {
    LinkedField {
        alias: None,
        definition: WithLocation::new(at(5), definition),
        arguments,
        directives,
        selections,
    }
}

fn inline(data: Option<AssociatedData>, selections: Vec<Selection>, start: u32) -> Selection {
    Selection::InlineFragment(Arc::new(InlineFragment {
        type_condition: None,
        directives: vec![Directive {
            name: text("__Carrier"),
            arguments: vec![],
            data,
            location: at(0),
        }],
        selections,
        spread_location: at(start),
    }))
}

fn program(field: LinkedField) -> Program {
    Program {
        schema: Arc::new(schema()),
        operations: vec![Arc::new(OperationDefinition {
            kind: OperationKind::Mutation,
            name: text("Doc"),
            type_: QUERY,
            variable_definitions: Arc::new(vec![]),
            directives: vec![],
            selections: vec![Selection::LinkedField(Arc::new(field))],
        })],
        fragments: vec![
            fragment("PartA", 1),
            fragment("PartB", 2),
            fragment("MoreB", 2),
            fragment("PartC", 3),
        ],
    }
}

fn attempt(field: LinkedField) -> Option<Result<Program, Vec<Diagnostic>>> {
    let flags = FeatureFlags {
        enable_3d_branch_arg_generation: false,
        no_inline: FeatureFlag::Disabled,
    };
    let imports = ModuleImportConfig { dynamic_module_provider: None, surface: None };
    let defer = DeferStreamInterface { defer_name: "defer".to_string() };
    try_transform_match(
        &program(field),
        &flags,
        imports,
        defer,
        |_: &NoInlineFragments, _: &Program| Ok(()),
        |_: NoInlineFragments, next: Program| next,
    )
}

fn run(field: LinkedField) -> Arc<LinkedField> {
    let next = attempt(field).unwrap().unwrap();
    assert_eq!(next.operations[0].kind, OperationKind::Mutation);
    match &next.operations[0].selections[0] {
        Selection::LinkedField(field) => Arc::clone(field),
        _ => panic!("no field"),
    }
}

fn errors(field: LinkedField) -> Vec<Diagnostic> {
    attempt(field).unwrap().unwrap_err()
}

fn supported(names: &[&str]) -> Argument {
    Argument {
        name: WithLocation::new(at(5), "supported".to_string()),
        value: WithLocation::new(
            at(5),
            Value::Constant(ConstantValue::List(
                names.iter().map(|name| ConstantValue::String(name.to_string())).collect(),
            )),
        ),
    }
}

#[test]
fn supported_types_are_listed() {
    let size = || string_argument("size", "big", 50);
    let other = || directive("other", vec![], 70);
    let next = run(linked(
        MATCHED_FIELD,
        vec![size()],
        vec![other(), matching()],
        vec![module_spread("PartA", 10), module_spread("PartB", 20)],
    ));
    assert_eq!(next.arguments, vec![size(), supported(&["A", "B"])]);
    assert_eq!(next.directives, vec![other()]);
    assert_eq!(next.definition, WithLocation::new(at(5), MATCHED_FIELD));
    assert_eq!(next.selections.len(), 2);
    for selection in &next.selections {
        assert!(matches!(selection, Selection::InlineFragment(_)));
    }
}

#[test]
fn supported_types_are_listed_once_in_the_order_of_the_spreads() {
    let next = run(linked(
        NOT_NULL_FIELD,
        vec![],
        vec![matching()],
        vec![
            scalar(TYPENAME_FIELD, 8),
            module_spread("PartC", 10),
            module_spread("PartB", 20),
            module_spread("PartC", 30),
            module_spread("PartA", 40),
        ],
    ));
    assert_eq!(next.arguments, vec![supported(&["C", "B", "A"])]);
    assert_eq!(next.selections[0], scalar(TYPENAME_FIELD, 8));
}

#[test]
fn key_and_supported_types_go_together() {
    let next = run(linked(
        MATCHED_FIELD,
        vec![],
        vec![keyed(string_argument("key", "Doc_key", 110))],
        vec![module_spread("PartA", 10)],
    ));
    assert_eq!(next.arguments, vec![supported(&["A"])]);
    assert!(next.directives.is_empty());
    match &next.selections[0] {
        Selection::InlineFragment(outer) => match &outer.selections[0] {
            Selection::InlineFragment(inner) => {
                assert_eq!(ModuleMetadata::find(&inner.directives).unwrap().key, "Doc_key");
                match &inner.selections[2] {
                    Selection::ScalarField(component) => assert_eq!(
                        component.alias.as_ref().unwrap().item,
                        "__module_component_Doc_key"
                    ),
                    _ => panic!("no field"),
                }
            }
            _ => panic!("no module"),
        },
        _ => panic!("no module"),
    }
}

fn wrong_key() -> Diagnostic {
    Diagnostic::error(
        ValidationMessage::InvalidMatchKeyArgument {
            document_name: ExecutableDefinitionName::OperationDefinitionName("Doc".to_string()),
        },
        at(111),
    )
}

#[test]
fn key_has_to_begin_with_the_document_name() {
    for key in ["Other", "Do", "", "doc"] {
        assert_eq!(
            errors(linked(
                MATCHED_FIELD,
                vec![],
                vec![keyed(string_argument("key", key, 110))],
                vec![module_spread("PartA", 10), scalar(JS_FIELD, 30)],
            )),
            vec![wrong_key()]
        );
    }
}

#[test]
fn key_may_be_the_document_name() {
    let next = run(linked(
        PLAIN_FIELD,
        vec![],
        vec![keyed(string_argument("key", "Doc", 110))],
        vec![],
    ));
    assert_eq!(
        *next,
        linked(PLAIN_FIELD, vec![], vec![keyed(string_argument("key", "Doc", 110))], vec![])
    );
}

#[test]
fn key_has_to_be_a_literal() {
    let variable = Argument {
        name: WithLocation::new(at(110), "key".to_string()),
        value: WithLocation::new(at(111), Value::Variable("key".to_string())),
    };
    assert_eq!(
        errors(linked(MATCHED_FIELD, vec![], vec![keyed(variable)], vec![module_spread("PartA", 10)])),
        vec![wrong_key()]
    );
}

#[test]
fn match_without_key_needs_the_supported_argument() {
    assert_eq!(
        errors(linked(PLAIN_FIELD, vec![], vec![matching()], vec![module_spread("PartA", 10)])),
        vec![Diagnostic::error(ValidationMessage::InvalidMatchWithNoSupportedArgument, at(100))]
    );
}

#[test]
fn supported_argument_has_to_take_strings() {
    assert_eq!(
        errors(linked(WRONG_LIST_FIELD, vec![], vec![matching()], vec![module_spread("PartA", 10)])),
        vec![Diagnostic::error(
            ValidationMessage::InvalidMatchNotOnNonNullListString {
                field_name: "wrongList".to_string(),
            },
            at(5),
        )]
    );
}

#[test]
fn matched_field_has_to_be_abstract() {
    assert_eq!(
        errors(linked(CONCRETE_FIELD, vec![], vec![matching()], vec![module_spread("PartA", 10)])),
        vec![Diagnostic::error(
            ValidationMessage::InvalidMatchNotOnUnionOrInterface {
                field_name: "concrete".to_string(),
            },
            at(5),
        )]
    );
}

#[test]
fn supported_argument_may_not_be_given() {
    assert_eq!(
        errors(linked(
            MATCHED_FIELD,
            vec![string_argument("supported", "A", 60)],
            vec![matching()],
            vec![module_spread("PartA", 10)],
        )),
        vec![Diagnostic::error(
            ValidationMessage::InvalidMatchNoUserSuppliedSupportedArg {
                supported_arg: "supported".to_string(),
            },
            at(60),
        )]
    );
}

#[test]
fn match_needs_a_module() {
    assert_eq!(
        errors(linked(MATCHED_FIELD, vec![], vec![matching()], vec![scalar(TYPENAME_FIELD, 8)])),
        vec![Diagnostic::error(ValidationMessage::InvalidMatchNoModuleSelection, at(100))]
    );
}

fn no_module(start: u32) -> Diagnostic {
    Diagnostic::error(
        ValidationMessage::InvalidMatchNotAllSelectionsFragmentSpreadWithModule,
        at(start),
    )
    .annotate("in @match directive", at(101))
}

#[test]
fn only_modules_may_stand_under_match() {
    let alias = FragmentAliasMetadata { alias: WithLocation::new(at(45), "alias".to_string()) };
    let reported = errors(linked(
        MATCHED_FIELD,
        vec![],
        vec![matching()],
        vec![
            module_spread("PartA", 10),
            plain_spread("PartB", 20),
            scalar(MATCHED_FIELD, 25),
            Selection::LinkedField(Arc::new(linked(PLAIN_FIELD, vec![], vec![], vec![]))),
            inline(None, vec![], 30),
            inline(Some(AssociatedData::FragmentAlias(alias)), vec![], 40),
            Selection::Condition(Arc::new(Condition {
                value: ConditionValue::Constant(true),
                passing_value: false,
                selections: vec![],
                location: at(50),
            })),
        ],
    ));
    assert_eq!(
        reported,
        vec![
            no_module(20),
            no_module(25),
            no_module(5),
            no_module(30),
            Diagnostic::error(ValidationMessage::InvalidAliasWithinMatch, at(45))
                .annotate("in @match directive", at(101)),
            no_module(50),
        ]
    );
}

#[test]
fn errors_inside_come_before_errors_of_the_field() {
    let reported = errors(linked(
        MATCHED_FIELD,
        vec![],
        vec![matching()],
        vec![scalar(JS_FIELD, 25)],
    ));
    assert_eq!(
        reported,
        vec![
            Diagnostic::error(
                ValidationMessage::InvalidDirectUseOfJSField { field_name: "js".to_string() },
                at(25),
            ),
            no_module(25),
            Diagnostic::error(ValidationMessage::InvalidMatchNoModuleSelection, at(100)),
        ]
    );
}

#[test]
fn unknown_field_has_no_result_under_match_either() {
    assert_eq!(attempt(linked(77, vec![], vec![matching()], vec![])), None);
}
