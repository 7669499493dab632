use std::sync::Arc;

use match_transform::config::{
    DeferStreamInterface, FeatureFlag, FeatureFlags, ModuleImportConfig, ModuleProvider, Surface,
};
use match_transform::diagnostic::{Diagnostic, ValidationMessage};
use match_transform::ir::{
    Argument, AssociatedData, Condition, ConditionValue, ConstantValue, Directive,
    ExecutableDefinitionName, FragmentAliasMetadata, FragmentDefinition, FragmentSpread,
    InlineFragment, LinkedField, ModuleMetadata, OperationDefinition, OperationKind, Program,
    ScalarField, Selection, Value,
};
use match_transform::location::{Location, SourceLocationKey, WithLocation};
use match_transform::schema::{
    ArgumentDefinition, Field, Interface, NamedType, Object, Scalar, Schema, Type, TypeReference, Union,
};
use match_transform::tables::NoInlineFragments;
use match_transform::transform::{transform_match, try_transform_match};

const STRING: Type = Type::Scalar(0);
const JS: Type = Type::Scalar(1);
const QUERY: Type = Type::Object(0);
const PLAIN: Type = Type::Object(1);
const MARKDOWN: Type = Type::Object(2);
const BARE: Type = Type::Object(3);
const RENDERER: Type = Type::Interface(0);

const TYPENAME_FIELD: u32 = 0;
const JS_FIELD: u32 = 1;
const NAME_FIELD: u32 = 2;
const NODE_FIELD: u32 = 3;
const OTHER_FIELD: u32 = 4;
const SHORT_JS_FIELD: u32 = 5;
const LIST_JS_FIELD: u32 = 6;

fn at(start: u32) -> Location {
    Location { source: SourceLocationKey::Document(1), start, end: start + 1 }
}

fn text(item: &str) -> WithLocation<String> {
    WithLocation::new(at(0), item.to_string())
}

fn named(type_: Type) -> TypeReference {
    TypeReference::Named(type_)
}

fn takes(name: &str, type_: TypeReference) -> ArgumentDefinition {
    ArgumentDefinition { name: name.to_string(), type_ }
}

fn field(name: &str, arguments: Vec<ArgumentDefinition>, type_: TypeReference) -> Field {
    Field { name: text(name), arguments, type_ }
}

fn object(name: &str, fields: Vec<u32>, directives: &[&str]) -> Object {
    Object {
        name: text(name),
        fields,
        directives: directives.iter().map(|name| name.to_string()).collect(),
    }
}

fn schema() -> Schema {
    Schema {
        types: vec![
            NamedType { name: "String".to_string(), type_: STRING },
            NamedType { name: "JSDependency".to_string(), type_: JS },
        ],
        fields: vec![
            field("__typename", vec![], named(STRING)),
            field(
                "js",
                vec![
                    takes("module", TypeReference::NonNull(Box::new(named(STRING)))),
                    takes("id", named(STRING)),
                    takes("branch", named(STRING)),
                ],
                named(JS),
            ),
            field("name", vec![], named(STRING)),
            field("node", vec![], named(RENDERER)),
            field("other", vec![], TypeReference::List(Box::new(named(RENDERER)))),
            field("js", vec![takes("module", named(STRING))], named(JS)),
            field(
                "js",
                vec![takes("module", TypeReference::List(Box::new(named(STRING))))],
                named(JS),
            ),
        ],
        scalars: vec![
            Scalar { name: text("String"), is_extension: false },
            Scalar { name: text("JSDependency"), is_extension: false },
        ],
        objects: vec![
            object("Query", vec![NODE_FIELD], &[]),
            object("Plain", vec![TYPENAME_FIELD, JS_FIELD, NAME_FIELD], &["__RelayResolverModel"]),
            object("Markdown", vec![SHORT_JS_FIELD], &[]),
            object("Bare", vec![LIST_JS_FIELD], &["__RelayResolverModel"]),
        ],
        interfaces: vec![
            Interface { name: text("Renderer"), implementing_objects: vec![1, 2] },
            Interface { name: text("Modelled"), implementing_objects: vec![1, 3] },
        ],
        unions: vec![
            Union { name: text("Some"), members: vec![3, 2] },
            Union { name: text("All"), members: vec![3, 1] },
        ],
        enums: vec!["Color".to_string()],
        input_objects: vec!["Input".to_string()],
        string_type: STRING,
        typename_field: TYPENAME_FIELD,
    }
}

fn string_argument(name: &str, value: &str, location: Location) -> Argument {
    Argument {
        name: WithLocation::new(location, name.to_string()),
        value: WithLocation::new(location, Value::Constant(ConstantValue::String(value.to_string()))),
    }
}

fn directive(name: &str, arguments: Vec<Argument>, start: u32) -> Directive {
    Directive {
        name: WithLocation::new(at(start + 1), name.to_string()),
        arguments,
        data: None,
        location: at(start),
    }
}

fn module(name: &str, start: u32) -> Directive {
    directive("module", vec![string_argument("name", name, at(start + 2))], start)
}

fn spread(fragment: &str, directives: Vec<Directive>, start: u32) -> Selection {
    Selection::FragmentSpread(Arc::new(FragmentSpread {
        fragment: WithLocation::new(at(start), fragment.to_string()),
        arguments: vec![],
        directives,
    }))
}

fn linked(
    definition: u32,
    alias: Option<&str>,
    directives: Vec<Directive>,
    selections: Vec<Selection>,
    start: u32,
) -> Selection {
    Selection::LinkedField(Arc::new(LinkedField {
        alias: alias.map(text),
        definition: WithLocation::new(at(start), definition),
        arguments: vec![],
        directives,
        selections,
    }))
}

fn scalar(definition: u32, start: u32) -> Selection {
    Selection::ScalarField(Arc::new(ScalarField {
        alias: None,
        definition: WithLocation::new(at(start), definition),
        arguments: vec![],
        directives: vec![],
    }))
}

fn aliased(alias: &str, selections: Vec<Selection>, start: u32) -> Selection {
    Selection::InlineFragment(Arc::new(InlineFragment {
        type_condition: None,
        directives: vec![Directive {
            name: text("__FragmentAliasMetadata"),
            arguments: vec![],
            data: Some(AssociatedData::FragmentAlias(FragmentAliasMetadata {
                alias: WithLocation::new(at(start), alias.to_string()),
            })),
            location: at(start),
        }],
        selections,
        spread_location: at(start),
    }))
}

fn fragment(name: &str, type_condition: Type, directives: Vec<Directive>) -> Arc<FragmentDefinition> {
    Arc::new(FragmentDefinition {
        name: WithLocation::new(at(900), name.to_string()),
        variable_definitions: Arc::new(vec![]),
        used_global_variables: Arc::new(vec![]),
        type_condition,
        directives,
        selections: vec![],
    })
}

fn operation(name: &str, selections: Vec<Selection>) -> Arc<OperationDefinition> {
    Arc::new(OperationDefinition {
        kind: OperationKind::Query,
        name: text(name),
        type_: QUERY,
        variable_definitions: Arc::new(vec![]),
        directives: vec![],
        selections,
    })
}

fn fragments() -> Vec<Arc<FragmentDefinition>> {
    vec![
        fragment("PlainPart", PLAIN, vec![]),
        fragment("OtherPlainPart", PLAIN, vec![]),
        fragment("MarkdownPart", MARKDOWN, vec![]),
        fragment("BarePart", BARE, vec![]),
        fragment("RendererPart", RENDERER, vec![]),
        fragment("InlinePart", PLAIN, vec![directive("inline", vec![], 910)]),
    ]
}

fn program(selections: Vec<Selection>) -> Program {
    Program {
        schema: Arc::new(schema()),
        operations: vec![operation("Doc", selections)],
        fragments: fragments(),
    }
}

fn flags() -> FeatureFlags {
    FeatureFlags { enable_3d_branch_arg_generation: false, no_inline: FeatureFlag::Disabled }
}

fn imports() -> ModuleImportConfig {
    ModuleImportConfig { dynamic_module_provider: None, surface: None }
}

fn for_resolvers() -> ModuleImportConfig {
    ModuleImportConfig {
        dynamic_module_provider: Some(ModuleProvider::JSResource),
        surface: Some(Surface::Resolvers),
    }
}

fn defer() -> DeferStreamInterface {
    DeferStreamInterface { defer_name: "defer".to_string() }
}

fn nothing_to_object(_: &NoInlineFragments, _: &Program) -> Result<(), Vec<Diagnostic>> {
    Ok(())
}

fn as_it_is(_: NoInlineFragments, program: Program) -> Program {
    program
}

fn run_with(
    program: &Program,
    flags: &FeatureFlags,
    imports: ModuleImportConfig,
) -> Option<Result<Program, Vec<Diagnostic>>> {
    try_transform_match(program, flags, imports, defer(), nothing_to_object, as_it_is)
}

fn run(selections: Vec<Selection>) -> Result<Vec<Selection>, Vec<Diagnostic>> {
    let program = program(selections);
    let next = transform_match(&program, &flags(), imports(), defer(), nothing_to_object, as_it_is)?;
    assert_eq!(next.schema, program.schema);
    assert_eq!(next.fragments, program.fragments);
    assert_eq!(next.operations.len(), 1);
    assert_eq!(next.operations[0].name, program.operations[0].name);
    Ok(next.operations[0].selections.clone())
}

fn errors(selections: Vec<Selection>) -> Vec<Diagnostic> {
    run(selections).unwrap_err()
}

fn js(alias: &str, definition: u32, arguments: Vec<Argument>, start: u32) -> Selection {
    Selection::ScalarField(Arc::new(ScalarField {
        alias: Some(WithLocation::new(at(start), alias.to_string())),
        definition: WithLocation::new(at(start), definition),
        arguments,
        directives: vec![],
    }))
}

fn generated(type_: Type, directives: Vec<Directive>, selections: Vec<Selection>) -> Selection {
    Selection::InlineFragment(Arc::new(InlineFragment {
        type_condition: Some(type_),
        directives,
        selections,
        spread_location: Location::generated(),
    }))
}

fn metadata(key: &str, id: &str, module: &str, fragment: &str, start: u32) -> ModuleMetadata {
    ModuleMetadata {
        location: at(start),
        key: key.to_string(),
        module_id: id.to_string(),
        module_name: module.to_string(),
        source_document_name: ExecutableDefinitionName::OperationDefinitionName("Doc".to_string()),
        read_time_resolvers: false,
        fragment_name: fragment.to_string(),
        fragment_source_location: at(900),
        no_inline: false,
    }
}

fn module_of(selection: &Selection) -> &ModuleMetadata {
    match selection {
        Selection::InlineFragment(outer) => match &outer.selections[0] {
            Selection::InlineFragment(inner) => ModuleMetadata::find(&inner.directives).unwrap(),
            _ => panic!("no module"),
        },
        _ => panic!("no module"),
    }
}

fn held(selection: &Selection) -> &Vec<Selection> {
    match selection {
        Selection::LinkedField(field) => &field.selections,
        Selection::InlineFragment(fragment) => &fragment.selections,
        Selection::Condition(condition) => &condition.selections,
        _ => panic!("holds nothing"),
    }
}

#[test]
fn module_spread_becomes_inline_fragments() {
    let next = run(vec![linked(
        NODE_FIELD,
        None,
        vec![],
        vec![spread("PlainPart", vec![module("Plain.react", 20)], 10)],
        5,
    )])
    .unwrap();
    let id = |location| string_argument("id", "Doc.node", location);
    let expected = generated(
        PLAIN,
        vec![],
        vec![generated(
            PLAIN,
            vec![metadata("Doc", "Doc.node", "Plain.react", "PlainPart", 21).into_directive()],
            vec![
                spread("PlainPart", vec![], 10),
                js(
                    "__module_operation_Doc",
                    JS_FIELD,
                    vec![
                        string_argument("module", "PlainPart$normalization.graphql", at(21)),
                        id(at(21)),
                    ],
                    21,
                ),
                js(
                    "__module_component_Doc",
                    JS_FIELD,
                    vec![string_argument("module", "Plain.react", at(21)), id(at(21))],
                    21,
                ),
            ],
        )],
    );
    assert_eq!(next, vec![linked(NODE_FIELD, None, vec![], vec![expected], 5)]);
}

#[test]
fn fields_take_id_and_branch_only_where_declared() {
    let flags = FeatureFlags {
        enable_3d_branch_arg_generation: true,
        no_inline: FeatureFlag::Disabled,
    };
    let program = program(vec![linked(
        NODE_FIELD,
        None,
        vec![],
        vec![
            spread("PlainPart", vec![module("Plain.react", 20)], 10),
            spread("MarkdownPart", vec![module("Markdown.react", 40)], 30),
        ],
        5,
    )]);
    let next = run_with(&program, &flags, imports()).unwrap().unwrap();
    let modules = held(&next.operations[0].selections[0]);
    let plain = held(&held(&modules[0])[0]);
    assert_eq!(
        plain[2],
        js(
            "__module_component_Doc",
            JS_FIELD,
            vec![
                string_argument("module", "Plain.react", at(21)),
                string_argument("id", "Doc.node", at(21)),
                string_argument("branch", "Plain", at(21)),
            ],
            21,
        )
    );
    let markdown = held(&held(&modules[1])[0]);
    assert_eq!(
        markdown[1],
        js(
            "__module_operation_Doc",
            SHORT_JS_FIELD,
            vec![string_argument("module", "MarkdownPart$normalization.graphql", at(41))],
            41,
        )
    );
}

#[test]
fn module_at_the_root_is_named_after_the_document() {
    let next = run(vec![spread("PlainPart", vec![module("Plain.react", 20)], 10)]).unwrap();
    assert_eq!(*module_of(&next[0]), metadata("Doc", "Doc", "Plain.react", "PlainPart", 21));
}

#[test]
fn aliases_extend_key_and_path() {
    let next = run(vec![linked(
        NODE_FIELD,
        Some("first"),
        vec![],
        vec![aliased(
            "outer",
            vec![aliased("inner", vec![spread("PlainPart", vec![module("Plain.react", 20)], 10)], 7)],
            6,
        )],
        5,
    )])
    .unwrap();
    let outer = &held(&next[0])[0];
    let inner = &held(outer)[0];
    let found = module_of(&held(inner)[0]);
    assert_eq!(found.key, "Doc_outer_inner");
    assert_eq!(found.module_id, "Doc.first.outer.inner");
}

#[test]
fn key_of_match_replaces_the_document_name() {
    let keyed = |key: &str, start: u32| {
        directive("match", vec![string_argument("key", key, at(start + 2))], start)
    };
    let next = run(vec![
        linked(
            NODE_FIELD,
            None,
            vec![keyed("Doc_node", 50)],
            vec![spread("PlainPart", vec![module("Plain.react", 20)], 10)],
            5,
        ),
        linked(
            OTHER_FIELD,
            None,
            vec![keyed("Doc_other", 60)],
            vec![spread("PlainPart", vec![module("Plain.react", 40)], 30)],
            6,
        ),
    ])
    .unwrap();
    assert_eq!(module_of(&held(&next[0])[0]).key, "Doc_node");
    assert_eq!(module_of(&held(&next[1])[0]).key, "Doc_other");
    // The directive stays where it only gives a key.
    match &next[0] {
        Selection::LinkedField(field) => assert_eq!(field.directives, vec![keyed("Doc_node", 50)]),
        _ => panic!("no field"),
    }
}

#[test]
fn key_holds_for_the_closest_field_only() {
    let keyed = directive("match", vec![string_argument("key", "Doc_node", at(52))], 50);
    let next = run(vec![linked(
        NODE_FIELD,
        None,
        vec![keyed],
        vec![linked(
            OTHER_FIELD,
            None,
            vec![],
            vec![spread("PlainPart", vec![module("Plain.react", 20)], 10)],
            6,
        )],
        5,
    )])
    .unwrap();
    let found = module_of(&held(&held(&next[0])[0])[0]);
    assert_eq!(found.key, "Doc");
    assert_eq!(found.module_id, "Doc.node.other");
}

#[test]
fn modules_under_conditions_stand_at_the_path_around() {
    let condition = |selections| {
        Selection::Condition(Arc::new(Condition {
            value: ConditionValue::Variable("flag".to_string()),
            passing_value: true,
            selections,
            location: at(70),
        }))
    };
    let next = run(vec![linked(
        NODE_FIELD,
        None,
        vec![],
        vec![condition(vec![spread("PlainPart", vec![module("Plain.react", 20)], 10)])],
        5,
    )])
    .unwrap();
    let found = module_of(&held(&held(&next[0])[0])[0]);
    assert_eq!(found.module_id, "Doc.node");
}

#[test]
fn plain_documents_stay() {
    let selections = || {
        vec![linked(
            NODE_FIELD,
            Some("first"),
            vec![],
            vec![
                scalar(TYPENAME_FIELD, 8),
                spread("PlainPart", vec![], 10),
                aliased("inner", vec![scalar(NAME_FIELD, 9)], 7),
            ],
            5,
        )]
    };
    assert_eq!(run(selections()).unwrap(), selections());
}

#[test]
fn kept_directives_stay_on_the_spread() {
    let next = run(vec![linked(
        NODE_FIELD,
        None,
        vec![],
        vec![spread(
            "PlainPart",
            vec![
                directive("defer", vec![], 80),
                module("Plain.react", 20),
                directive("alias", vec![], 90),
            ],
            10,
        )],
        5,
    )])
    .unwrap();
    let inner = held(&held(&held(&next[0])[0])[0]);
    assert_eq!(
        inner[0],
        spread(
            "PlainPart",
            vec![directive("defer", vec![], 80), directive("alias", vec![], 90)],
            10
        )
    );
}

#[test]
fn same_module_twice_at_one_path_is_accepted() {
    let next = run(vec![linked(
        NODE_FIELD,
        None,
        vec![],
        vec![
            spread("PlainPart", vec![module("Plain.react", 20)], 10),
            spread("PlainPart", vec![module("Plain.react", 40)], 30),
        ],
        5,
    )])
    .unwrap();
    assert_eq!(module_of(&held(&next[0])[0]).key, module_of(&held(&next[0])[1]).key);
}

#[test]
fn different_fragments_for_one_type_at_one_path_clash() {
    let reported = errors(vec![linked(
        NODE_FIELD,
        None,
        vec![],
        vec![aliased(
            "inner",
            vec![
                spread("PlainPart", vec![module("Plain.react", 20)], 10),
                spread("OtherPlainPart", vec![module("Plain.react", 40)], 30),
            ],
            7,
        )],
        5,
    )]);
    assert_eq!(
        reported,
        vec![Diagnostic::error(
            ValidationMessage::InvalidModuleSelectionMultipleMatches {
                type_string: "Plain".to_string(),
                alias_path: "node.inner".to_string(),
            },
            at(30),
        )
        .annotate("related location", at(10))]
    );
}

#[test]
fn different_modules_for_one_type_at_one_path_clash() {
    let reported = errors(vec![linked(
        NODE_FIELD,
        None,
        vec![],
        vec![
            spread("PlainPart", vec![module("Plain.react", 20)], 10),
            spread("PlainPart", vec![module("Other.react", 40)], 30),
        ],
        5,
    )]);
    assert_eq!(
        reported,
        vec![Diagnostic::error(
            ValidationMessage::InvalidModuleSelectionMultipleMatches {
                type_string: "Plain".to_string(),
                alias_path: "node".to_string(),
            },
            at(30),
        )
        .annotate("related location", at(10))]
    );
}

#[test]
fn one_key_at_two_paths_clashes() {
    let reported = errors(vec![
        linked(NODE_FIELD, None, vec![], vec![spread("PlainPart", vec![module("P", 20)], 10)], 5),
        linked(OTHER_FIELD, None, vec![], vec![spread("PlainPart", vec![module("P", 40)], 30)], 6),
    ]);
    assert_eq!(
        reported,
        vec![Diagnostic::error(
            ValidationMessage::InvalidModuleSelectionWithoutKey {
                document_name: ExecutableDefinitionName::OperationDefinitionName("Doc".to_string()),
                parent_name: "other".to_string(),
            },
            at(6),
        )]
    );
}

#[test]
fn one_key_in_two_documents_is_accepted() {
    let holder = |name: &str, start: u32| FragmentDefinition {
        name: WithLocation::new(at(start), name.to_string()),
        variable_definitions: Arc::new(vec![]),
        used_global_variables: Arc::new(vec![]),
        type_condition: QUERY,
        directives: vec![],
        selections: vec![linked(
            NODE_FIELD,
            None,
            vec![],
            vec![spread("PlainPart", vec![module("P", 20)], 10)],
            5,
        )],
    };
    let mut program = program(vec![linked(
        OTHER_FIELD,
        None,
        vec![],
        vec![spread("PlainPart", vec![module("P", 40)], 30)],
        6,
    )]);
    program.fragments.push(Arc::new(holder("Holder", 100)));
    program.fragments.push(Arc::new(holder("Keeper", 200)));
    let next = run_with(&program, &flags(), imports()).unwrap().unwrap();
    let found = |i: usize| module_of(&held(&next.fragments[i].selections[0])[0]);
    assert_eq!(found(6).key, "Holder");
    assert_eq!(
        found(6).source_document_name,
        ExecutableDefinitionName::FragmentDefinitionName("Holder".to_string())
    );
    assert_eq!(found(7).module_id, "Keeper.node");
    assert_eq!(module_of(&held(&next.operations[0].selections[0])[0]).module_id, "Doc.other");
}

#[test]
fn root_module_after_another_path_has_no_result() {
    let program = program(vec![
        linked(NODE_FIELD, None, vec![], vec![spread("PlainPart", vec![module("P", 20)], 10)], 5),
        spread("PlainPart", vec![module("P", 40)], 30),
    ]);
    assert_eq!(run_with(&program, &flags(), imports()), None);
}

#[test]
fn different_keys_at_one_path_have_no_result() {
    let keyed = |key: &str| directive("match", vec![string_argument("key", key, at(52))], 50);
    let one = |key: &str| {
        linked(NODE_FIELD, None, vec![keyed(key)], vec![spread("PlainPart", vec![module("P", 20)], 10)], 5)
    };
    let program = program(vec![one("Doc_a"), one("Doc_b")]);
    assert_eq!(run_with(&program, &flags(), imports()), None);
}

#[test]
fn unknown_fragment_has_no_result() {
    let program = program(vec![spread("Nowhere", vec![module("P", 20)], 10)]);
    assert_eq!(run_with(&program, &flags(), imports()), None);
}

#[test]
fn unknown_field_has_no_result() {
    let program = program(vec![scalar(77, 10)]);
    assert_eq!(run_with(&program, &flags(), imports()), None);
}

fn only_module_errors(spread: Selection) -> Vec<Diagnostic> {
    errors(vec![linked(NODE_FIELD, None, vec![], vec![spread], 5)])
}

#[test]
fn arguments_need_the_feature() {
    let with_argument = || {
        Selection::FragmentSpread(Arc::new(FragmentSpread {
            fragment: WithLocation::new(at(10), "PlainPart".to_string()),
            arguments: vec![string_argument("size", "big", at(15))],
            directives: vec![module("P", 20)],
        }))
    };
    assert_eq!(
        only_module_errors(with_argument()),
        vec![Diagnostic::error(ValidationMessage::InvalidModuleWithArguments, at(15))]
    );
    let flags = FeatureFlags {
        enable_3d_branch_arg_generation: false,
        no_inline: FeatureFlag::Limited { allowlist: vec!["PlainPart".to_string()] },
    };
    let program = program(vec![linked(NODE_FIELD, None, vec![], vec![with_argument()], 5)]);
    let next = run_with(&program, &flags, imports()).unwrap().unwrap();
    assert!(module_of(&held(&next.operations[0].selections[0])[0]).no_inline);
}

#[test]
fn other_directives_are_reported() {
    assert_eq!(
        only_module_errors(spread(
            "PlainPart",
            vec![module("P", 20), directive("relay", vec![], 70), directive("more", vec![], 80)],
            10,
        )),
        vec![Diagnostic::error(
            ValidationMessage::InvalidModuleWithAdditionalDirectives {
                spread_name: "PlainPart".to_string(),
            },
            at(70),
        )]
    );
}

#[test]
fn inline_fragments_are_reported() {
    assert_eq!(
        only_module_errors(spread("InlinePart", vec![module("P", 20)], 10)),
        vec![Diagnostic::error(ValidationMessage::InvalidModuleWithInline, at(20))
            .annotate("@inline directive location", at(910))]
    );
}

#[test]
fn missing_name_is_reported() {
    assert_eq!(
        only_module_errors(spread("PlainPart", vec![directive("module", vec![], 20)], 10)),
        vec![Diagnostic::error(ValidationMessage::InvalidModuleNoName, at(10))]
    );
}

#[test]
fn name_from_a_variable_is_reported() {
    let argument = Argument {
        name: WithLocation::new(at(22), "name".to_string()),
        value: WithLocation::new(at(23), Value::Variable("which".to_string())),
    };
    assert_eq!(
        only_module_errors(spread("PlainPart", vec![directive("module", vec![argument], 20)], 10)),
        vec![Diagnostic::error(ValidationMessage::InvalidModuleNonLiteralName, at(22))]
    );
}

#[test]
fn abstract_fragments_are_reported() {
    assert_eq!(
        only_module_errors(spread("RendererPart", vec![module("P", 20)], 10)),
        vec![Diagnostic::error(
            ValidationMessage::InvalidModuleNotOnObject {
                spread_name: "RendererPart".to_string(),
                type_string: "Renderer".to_string(),
            },
            at(10),
        )
        .annotate("related location", at(900))]
    );
}

#[test]
fn wrong_arguments_of_the_js_field_are_reported() {
    assert_eq!(
        only_module_errors(spread("BarePart", vec![module("P", 20)], 10)),
        vec![Diagnostic::error(
            ValidationMessage::InvalidModuleInvalidSchemaArguments {
                spread_name: "BarePart".to_string(),
                type_string: "Bare".to_string(),
                js_field_name: "js".to_string(),
                js_field_module_arg: "module".to_string(),
                js_field_id_arg: "id".to_string(),
                js_field_type: "JSDependency".to_string(),
            },
            at(10),
        )
        .annotate("related location", at(900))]
    );
}

#[test]
fn wrong_type_of_the_js_field_is_reported() {
    let one = || vec![spread("PlainPart", vec![module("P", 20)], 10)];
    let wrong = || {
        Diagnostic::error(
            ValidationMessage::InvalidModuleInvalidSchemaArguments {
                spread_name: "PlainPart".to_string(),
                type_string: "Plain".to_string(),
                js_field_name: "js".to_string(),
                js_field_module_arg: "module".to_string(),
                js_field_id_arg: "id".to_string(),
                js_field_type: "JSDependency".to_string(),
            },
            at(10),
        )
        .annotate("related location", at(900))
    };
    assert_eq!(with_schema(|schema| schema.fields[1].type_ = named(STRING), one()), vec![wrong()]);
    assert_eq!(with_schema(|schema| schema.fields[1].type_ = named(QUERY), one()), vec![wrong()]);
}

#[test]
fn js_field_may_be_marked_as_not_null() {
    let mut changed = schema();
    changed.fields[1].type_ = TypeReference::NonNull(Box::new(named(JS)));
    let program = Program {
        schema: Arc::new(changed),
        operations: vec![operation("Doc", vec![spread("PlainPart", vec![module("P", 20)], 10)])],
        fragments: fragments(),
    };
    let next = run_with(&program, &flags(), imports()).unwrap().unwrap();
    assert_eq!(module_of(&next.operations[0].selections[0]).module_name, "P");
}

#[test]
fn repeated_module_gives_the_same_result() {
    let one = || spread("PlainPart", vec![module("Plain.react", 20)], 10);
    let next =
        run(vec![linked(NODE_FIELD, None, vec![], vec![one(), scalar(NAME_FIELD, 8), one()], 5)])
            .unwrap();
    let selections = held(&next[0]);
    assert_eq!(selections[0], selections[2]);
    assert_eq!(selections[1], scalar(NAME_FIELD, 8));
}

fn with_schema(change: fn(&mut Schema), selections: Vec<Selection>) -> Vec<Diagnostic> {
    let mut changed = schema();
    change(&mut changed);
    let program = Program {
        schema: Arc::new(changed),
        operations: vec![operation("Doc", selections)],
        fragments: fragments(),
    };
    run_with(&program, &flags(), imports()).unwrap().unwrap_err()
}

#[test]
fn type_of_the_js_field_has_to_exist() {
    let missing = Diagnostic::error(
        ValidationMessage::MissingServerSchemaDefinition { name: "js".to_string() },
        at(10),
    );
    let one = || vec![spread("PlainPart", vec![module("P", 20)], 10)];
    assert_eq!(with_schema(|schema| { schema.types.pop(); }, one()), vec![missing]);
}

#[test]
fn type_of_the_js_field_has_to_be_known_to_the_server() {
    let missing = Diagnostic::error(
        ValidationMessage::MissingServerSchemaDefinition { name: "js".to_string() },
        at(10),
    );
    let one = || vec![spread("PlainPart", vec![module("P", 20)], 10)];
    assert_eq!(with_schema(|schema| schema.scalars[1].is_extension = true, one()), vec![missing]);
}

#[test]
fn type_of_the_js_field_has_to_be_a_scalar() {
    let wrong = Diagnostic::error(
        ValidationMessage::InvalidModuleNonScalarJSField { js_field_type: "JSDependency".to_string() },
        at(10),
    );
    let one = || vec![spread("PlainPart", vec![module("P", 20)], 10)];
    assert_eq!(with_schema(|schema| schema.types[1].type_ = QUERY, one()), vec![wrong]);
}

#[test]
fn js_field_may_not_be_selected() {
    assert_eq!(
        errors(vec![scalar(JS_FIELD, 10)]),
        vec![Diagnostic::error(
            ValidationMessage::InvalidDirectUseOfJSField { field_name: "js".to_string() },
            at(10),
        )]
    );
}

#[test]
fn selected_js_field_needs_its_type() {
    assert_eq!(
        with_schema(|schema| { schema.types.pop(); }, vec![scalar(JS_FIELD, 10)]),
        vec![Diagnostic::error(
            ValidationMessage::MissingServerSchemaDefinition { name: "js".to_string() },
            at(10),
        )]
    );
}

#[test]
fn a_field_that_is_called_js_may_have_another_type() {
    let mut changed = schema();
    changed.fields[2].name = text("js");
    let program = Program {
        schema: Arc::new(changed),
        operations: vec![operation("Doc", vec![scalar(NAME_FIELD, 10)])],
        fragments: vec![],
    };
    let next = run_with(&program, &flags(), imports()).unwrap().unwrap();
    assert_eq!(next, program);
}

#[test]
fn transforming_twice_reports_the_fields_of_the_first_run() {
    let first = program(vec![linked(
        NODE_FIELD,
        None,
        vec![],
        vec![spread("PlainPart", vec![module("P", 20)], 10)],
        5,
    )]);
    let second = run_with(&first, &flags(), imports()).unwrap().unwrap();
    let direct = Diagnostic::error(
        ValidationMessage::InvalidDirectUseOfJSField { field_name: "js".to_string() },
        at(21),
    );
    let again = Diagnostic::error(
        ValidationMessage::InvalidDirectUseOfJSField { field_name: "js".to_string() },
        at(21),
    );
    assert_eq!(run_with(&second, &flags(), imports()), Some(Err(vec![direct, again])));
}

#[test]
fn errors_of_all_documents_are_reported_in_order() {
    let mut program = program(vec![scalar(JS_FIELD, 10), scalar(JS_FIELD, 11)]);
    program.operations.push(operation("Next", vec![scalar(JS_FIELD, 12)]));
    program.fragments.push(Arc::new(FragmentDefinition {
        name: text("Last"),
        variable_definitions: Arc::new(vec![]),
        used_global_variables: Arc::new(vec![]),
        type_condition: PLAIN,
        directives: vec![],
        selections: vec![scalar(JS_FIELD, 13)],
    }));
    let reported = run_with(&program, &flags(), imports()).unwrap().unwrap_err();
    let places: Vec<Location> = reported.iter().map(|error| error.location).collect();
    assert_eq!(places, vec![at(10), at(11), at(12), at(13)]);
}

fn resolver_run(parent: Type, part: &str) -> Option<Result<Program, Vec<Diagnostic>>> {
    let mut changed = schema();
    changed.fields[3].type_ = named(parent);
    let program = Program {
        schema: Arc::new(changed),
        operations: vec![operation(
            "Doc",
            vec![linked(
                NODE_FIELD,
                None,
                vec![],
                vec![
                    spread(part, vec![module("P", 20)], 10),
                    spread(part, vec![module("P", 40)], 30),
                ],
                5,
            )],
        )],
        fragments: fragments(),
    };
    run_with(&program, &flags(), for_resolvers())
}

#[test]
fn models_are_read_without_js_fields() {
    for parent in [Type::Interface(1), Type::Union(1), PLAIN] {
        let next = resolver_run(parent, "PlainPart").unwrap().unwrap();
        let modules = held(&next.operations[0].selections[0]);
        for module in modules {
            assert!(module_of(module).read_time_resolvers);
            assert_eq!(held(&held(module)[0]).len(), 1);
        }
    }
}

#[test]
fn fragments_without_models_keep_js_fields() {
    let next = resolver_run(RENDERER, "MarkdownPart").unwrap().unwrap();
    let module = &held(&next.operations[0].selections[0])[0];
    assert!(!module_of(module).read_time_resolvers);
    assert_eq!(held(&held(module)[0]).len(), 3);
}

#[test]
fn interfaces_need_models_throughout() {
    let missing = |start: u32| {
        Diagnostic::error(
            ValidationMessage::MissingRelayResolverModelForInterface {
                spread_name: "PlainPart".to_string(),
                parent_interface: "Renderer".to_string(),
            },
            at(start),
        )
    };
    assert_eq!(resolver_run(RENDERER, "PlainPart"), Some(Err(vec![missing(10), missing(30)])));
}

#[test]
fn unions_need_models_throughout() {
    let missing = |start: u32| {
        Diagnostic::error(
            ValidationMessage::MissingRelayResolverModelForUnion {
                spread_name: "PlainPart".to_string(),
                parent_union: "Some".to_string(),
            },
            at(start),
        )
    };
    assert_eq!(resolver_run(Type::Union(0), "PlainPart"), Some(Err(vec![missing(10), missing(30)])));
}

#[test]
fn objects_need_models() {
    let missing = |start: u32| {
        Diagnostic::error(
            ValidationMessage::MissingRelayResolverModelForObject {
                spread_name: "PlainPart".to_string(),
                object: "Markdown".to_string(),
            },
            at(start),
        )
    };
    assert_eq!(resolver_run(MARKDOWN, "PlainPart"), Some(Err(vec![missing(10), missing(30)])));
}

#[test]
fn models_under_other_types_have_no_result() {
    assert_eq!(resolver_run(STRING, "PlainPart"), None);
}

#[test]
fn dynamic_imports_need_no_js_fields() {
    let program = program(vec![spread("RendererPart", vec![module("P", 20)], 10)]);
    let config = ModuleImportConfig {
        dynamic_module_provider: Some(ModuleProvider::Custom { statement: "load".to_string() }),
        surface: Some(Surface::All),
    };
    let next = run_with(&program, &flags(), config).unwrap().unwrap();
    let inner = held(&held(&next.operations[0].selections[0])[0]);
    assert_eq!(*inner, vec![spread("RendererPart", vec![], 10)]);
}

fn kept_apart() -> FeatureFlags {
    FeatureFlags { enable_3d_branch_arg_generation: false, no_inline: FeatureFlag::Enabled }
}

#[test]
fn fragments_to_keep_apart_are_handed_over() {
    let program = program(vec![linked(
        NODE_FIELD,
        None,
        vec![],
        vec![
            spread("PlainPart", vec![module("P", 20)], 10),
            spread("MarkdownPart", vec![module("M", 40)], 30),
            spread("PlainPart", vec![module("P", 60)], 50),
        ],
        5,
    )]);
    let validate = |fragments: &NoInlineFragments, asked: &Program| {
        assert_eq!(asked.operations[0].name.item, "Doc");
        assert_eq!(fragments.entries.len(), 2);
        assert_eq!(fragments.entries[0].fragment, "PlainPart");
        let doc = || ExecutableDefinitionName::OperationDefinitionName("Doc".to_string());
        assert_eq!(fragments.entries[0].documents, vec![doc(), doc()]);
        assert_eq!(fragments.entries[1].fragment, "MarkdownPart");
        assert_eq!(fragments.entries[1].documents, vec![doc()]);
        Ok(())
    };
    let attach = |fragments: NoInlineFragments, next: Program| {
        let mut next = next;
        assert_eq!(fragments.entries.len(), 2);
        next.fragments.truncate(fragments.entries.len());
        next
    };
    let next = transform_match(&program, &kept_apart(), imports(), defer(), validate, attach).unwrap();
    assert_eq!(next.fragments.len(), 2);
    assert!(module_of(&held(&next.operations[0].selections[0])[1]).no_inline);
}

#[test]
fn objections_are_reported_after_the_other_errors() {
    let program = program(vec![
        spread("PlainPart", vec![module("P", 20)], 10),
        scalar(JS_FIELD, 12),
    ]);
    let objection = || {
        Diagnostic::error(ValidationMessage::Other { text: "keep apart".to_string() }, at(300))
    };
    let validate = |_: &NoInlineFragments, _: &Program| Err(vec![objection()]);
    let attach = |_: NoInlineFragments, _: Program| panic!("nothing to attach");
    let reported =
        transform_match(&program, &kept_apart(), imports(), defer(), validate, attach).unwrap_err();
    assert_eq!(
        reported,
        vec![
            Diagnostic::error(
                ValidationMessage::InvalidDirectUseOfJSField { field_name: "js".to_string() },
                at(12),
            ),
            objection(),
        ]
    );
}

#[test]
fn nothing_is_handed_over_where_the_feature_is_off() {
    let program = program(vec![spread("PlainPart", vec![module("P", 20)], 10)]);
    let validate = |_: &NoInlineFragments, _: &Program| panic!("nothing to validate");
    let attach = |_: NoInlineFragments, _: Program| panic!("nothing to attach");
    let next = transform_match(&program, &flags(), imports(), defer(), validate, attach).unwrap();
    assert_eq!(next.operations.len(), 1);
}

#[test]
fn documents_come_to_the_same_in_any_order() {
    let holder = |name: &str, alias: &str| {
        operation(
            name,
            vec![linked(
                NODE_FIELD,
                Some(alias),
                vec![],
                vec![spread("PlainPart", vec![module("P", 20)], 10)],
                5,
            )],
        )
    };
    let both = |first: Arc<OperationDefinition>, second: Arc<OperationDefinition>| {
        let program = Program {
            schema: Arc::new(schema()),
            operations: vec![first, second],
            fragments: fragments(),
        };
        run_with(&program, &flags(), imports()).unwrap().unwrap().operations
    };
    let one = both(holder("Doc", "a"), holder("Doc", "b"));
    let other = both(holder("Doc", "b"), holder("Doc", "a"));
    assert_eq!(one[0], other[1]);
    assert_eq!(one[1], other[0]);
    assert_eq!(module_of(&held(&one[1].selections[0])[0]).module_id, "Doc.b");
}
