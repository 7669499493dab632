use match_transform::config::FeatureFlag;
use match_transform::ir::{
    copy_without, ConstantValue, Directive, ExecutableDefinitionName, FragmentAliasMetadata,
    ModuleMetadata, AssociatedData, Value,
};
use match_transform::location::{Location, SourceLocationKey, WithLocation};
use match_transform::schema::{Type, TypeReference};
use match_transform::tables::{MatchesForPath, NoInlineFragments, SeenTypes, TypeMatch};
use match_transform::text::{begins_with, extend, glued, join, reads};

fn at(start: u32) -> Location {
    Location { source: SourceLocationKey::Document(3), start, end: start + 4 }
}

fn texts(items: &[&str]) -> Vec<String> {
    items.iter().map(|item| item.to_string()).collect()
}

fn entry(fragment: &str, start: u32) -> TypeMatch {
    TypeMatch {
        fragment: WithLocation::new(at(start), fragment.to_string()),
        module_directive_name_argument: "M".to_string(),
    }
}

#[test]
fn types_are_seen_once_and_in_order() {
    let all = [
        Type::Union(1),
        Type::Object(1),
        Type::Object(2),
        Type::Enum(1),
        Type::InputObject(1),
        Type::Interface(1),
        Type::Scalar(1),
    ];
    let mut seen = SeenTypes::new();
    for type_ in all {
        seen.insert(type_);
        seen.insert(Type::Object(2));
        seen.insert(type_);
    }
    assert_eq!(
        seen.into_vec(),
        vec![
            Type::Union(1),
            Type::Object(2),
            Type::Object(1),
            Type::Enum(1),
            Type::InputObject(1),
            Type::Interface(1),
            Type::Scalar(1),
        ]
    );
}

#[test]
fn no_types_are_seen_at_first() {
    assert!(SeenTypes::new().into_vec().is_empty());
}

#[test]
fn matches_are_found_by_path_and_type() {
    let mut matches = MatchesForPath::new();
    assert!(!matches.contains(&texts(&[])));
    assert!(!matches.any_has_key(&"Doc".to_string()));
    matches.add_path(texts(&["a", "b"]), "Doc".to_string());
    matches.add_path(texts(&["a"]), "Doc_a".to_string());
    assert!(matches.contains(&texts(&["a", "b"])));
    assert!(matches.contains(&texts(&["a"])));
    assert!(!matches.contains(&texts(&["b"])));
    assert!(!matches.contains(&texts(&["ab"])));
    assert!(matches.has_key(&texts(&["a"]), &"Doc_a".to_string()));
    assert!(!matches.has_key(&texts(&["a"]), &"Doc".to_string()));
    assert!(matches.any_has_key(&"Doc".to_string()));
    assert!(!matches.any_has_key(&"Do".to_string()));
    matches.add(&texts(&["a"]), Type::Object(7), entry("First", 1));
    matches.add(&texts(&["a"]), Type::Union(7), entry("Second", 2));
    let found = matches.get(&texts(&["a"]), Type::Object(7)).unwrap();
    assert_eq!(found.fragment, WithLocation::new(at(1), "First".to_string()));
    let found = matches.get(&texts(&["a"]), Type::Union(7)).unwrap();
    assert_eq!(found.fragment.item, "Second");
    assert!(matches.get(&texts(&["a"]), Type::Object(8)).is_none());
    assert!(matches.get(&texts(&["a", "b"]), Type::Object(7)).is_none());
}

#[test]
fn documents_are_collected_by_fragment() {
    let doc = |name: &str| ExecutableDefinitionName::OperationDefinitionName(name.to_string());
    let mut fragments = NoInlineFragments::new();
    assert!(fragments.is_empty());
    fragments.add(&"A".to_string(), doc("One"));
    fragments.add(&"B".to_string(), doc("Two"));
    fragments.add(&"A".to_string(), doc("Three"));
    assert!(!fragments.is_empty());
    assert_eq!(fragments.entries.len(), 2);
    assert_eq!(fragments.entries[0].fragment, "A");
    assert_eq!(fragments.entries[0].documents, vec![doc("One"), doc("Three")]);
    assert_eq!(fragments.entries[1].documents, vec![doc("Two")]);
}

#[test]
fn texts_are_put_together() {
    assert_eq!(join(&texts(&["a", "b", "c"]), "_"), "a_b_c");
    assert_eq!(join(&texts(&["a"]), "_"), "a");
    assert_eq!(join(&texts(&[]), "_"), "");
    assert_eq!(extend("head", &texts(&["a", "b"]), "."), "head.a.b");
    assert_eq!(extend("head", &texts(&[]), "."), "head");
    assert_eq!(glued("left", "right"), "leftright");
}

#[test]
fn texts_are_compared() {
    assert!(reads(&"js".to_string(), "js"));
    assert!(!reads(&"js".to_string(), "j"));
    assert!(begins_with(&"Doc_key".to_string(), &"Doc".to_string()));
    assert!(begins_with(&"Doc".to_string(), &"Doc".to_string()));
    assert!(begins_with(&"Doc".to_string(), &"".to_string()));
    assert!(!begins_with(&"Do".to_string(), &"Doc".to_string()));
    assert!(!begins_with(&"doc_key".to_string(), &"Doc".to_string()));
    assert!(begins_with(&"h\u{e9}llo".to_string(), &"h\u{e9}".to_string()));
}

#[test]
fn features_may_be_limited() {
    let limited = FeatureFlag::Limited { allowlist: texts(&["A", "B"]) };
    assert!(limited.is_enabled_for(&"B".to_string()));
    assert!(!limited.is_enabled_for(&"C".to_string()));
    assert!(FeatureFlag::Enabled.is_enabled_for(&"C".to_string()));
    assert!(!FeatureFlag::Disabled.is_enabled_for(&"A".to_string()));
}

#[test]
fn types_are_unwrapped() {
    let named = || Box::new(TypeReference::Named(Type::Object(4)));
    let reference = TypeReference::NonNull(Box::new(TypeReference::List(Box::new(
        TypeReference::NonNull(named()),
    ))));
    assert_eq!(reference.inner(), Type::Object(4));
    assert_eq!(reference.non_list_type(), None);
    assert_eq!(
        *reference.nullable_type(),
        TypeReference::List(Box::new(TypeReference::NonNull(named())))
    );
    assert_eq!(TypeReference::NonNull(named()).non_list_type(), Some(Type::Object(4)));
}

#[test]
fn metadata_is_carried_by_a_directive() {
    let metadata = ModuleMetadata {
        location: at(1),
        key: "Doc".to_string(),
        module_id: "Doc.node".to_string(),
        module_name: "M".to_string(),
        source_document_name: ExecutableDefinitionName::FragmentDefinitionName("Doc".to_string()),
        read_time_resolvers: true,
        fragment_name: "Part".to_string(),
        fragment_source_location: at(2),
        no_inline: true,
    };
    let directives = vec![
        Directive {
            name: WithLocation::new(at(5), "other".to_string()),
            arguments: vec![],
            data: None,
            location: at(5),
        },
        metadata.clone().into_directive(),
    ];
    assert_eq!(ModuleMetadata::find(&directives), Some(&metadata));
    assert_eq!(FragmentAliasMetadata::find(&directives), None);
    assert_eq!(directives[1].name.item, "__ModuleMetadata");
    assert_eq!(directives[1].location, Location::generated());
    assert_eq!(directives[1].data, Some(AssociatedData::Module(metadata)));
    let kept = copy_without(&directives, "other");
    assert_eq!(kept.len(), 1);
    assert_eq!(kept[0], directives[1]);
}

#[test]
fn only_string_literals_have_a_text() {
    let literal = Value::Constant(ConstantValue::String("text".to_string()));
    assert_eq!(literal.get_string_literal(), Some(&"text".to_string()));
    assert_eq!(Value::Constant(ConstantValue::Enum("text".to_string())).get_string_literal(), None);
    assert_eq!(Value::Variable("text".to_string()).get_string_literal(), None);
}
