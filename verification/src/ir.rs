//! Documents: operations, fragments and what they select.

use std::sync::Arc;

use vstd::prelude::*;

use crate::constants::MODULE_METADATA_DIRECTIVE_NAME;
use crate::location::{copy_text, Location, WithLocation};
use crate::named::{first_named, named, NameView, NamedItem};
use crate::schema::{FieldID, Schema, Type, TypeReference};
use crate::text::{opt_view, views};

verus! {

/// Makes another pointer to a shared value.
///
/// Trusted: `Arc::clone` gives a pointer to the same value.
#[verifier::external_body]
pub(crate) fn share<T>(value: &Arc<T>) -> (shared: Arc<T>)
    ensures
        shared == *value,
{
    Arc::clone(value)
}

/// The name of a document: of an operation or of a fragment.
#[derive(Debug, PartialEq, Eq, Hash)]
pub enum ExecutableDefinitionName {
    OperationDefinitionName(String),
    FragmentDefinitionName(String),
}

/// The model of an [`ExecutableDefinitionName`].
pub enum DocumentNameView {
    Operation(Seq<char>),
    Fragment(Seq<char>),
}

impl View for ExecutableDefinitionName {
    type V = DocumentNameView;

    open spec fn view(&self) -> DocumentNameView {
        match self {
            ExecutableDefinitionName::OperationDefinitionName(name) => DocumentNameView::Operation(name@),
            ExecutableDefinitionName::FragmentDefinitionName(name) => DocumentNameView::Fragment(name@),
        }
    }
}

impl DocumentNameView {
    /// The text of the name.
    pub open spec fn text(self) -> Seq<char> {
        match self {
            DocumentNameView::Operation(name) => name,
            DocumentNameView::Fragment(name) => name,
        }
    }
}

impl ExecutableDefinitionName {
    /// The text of the name.
    pub fn lookup(&self) -> (text: &String)
        ensures
            text@ == self@.text(),
    {
        match self {
            ExecutableDefinitionName::OperationDefinitionName(name) => name,
            ExecutableDefinitionName::FragmentDefinitionName(name) => name,
        }
    }
}

impl Clone for ExecutableDefinitionName {
    fn clone(&self) -> (copy: Self)
        ensures
            copy == *self,
    {
        match self {
            ExecutableDefinitionName::OperationDefinitionName(name) => {
                ExecutableDefinitionName::OperationDefinitionName(name.clone())
            },
            ExecutableDefinitionName::FragmentDefinitionName(name) => {
                ExecutableDefinitionName::FragmentDefinitionName(name.clone())
            },
        }
    }
}

/// A value that is written out in a document. `Opaque` stands for a value of another shape, such
/// as an object or a fractional number, by a number that the caller gives it.
#[derive(Debug, PartialEq, Eq)]
pub enum ConstantValue {
    Null,
    Boolean(bool),
    Int(i64),
    String(String),
    Enum(String),
    List(Vec<ConstantValue>),
    Opaque(u64),
}

/// The model of a [`ConstantValue`].
pub enum ConstantValueView {
    Null,
    Boolean(bool),
    Int(i64),
    String(Seq<char>),
    Enum(Seq<char>),
    List(Seq<ConstantValueView>),
    Opaque(u64),
}

/// The model of a constant value.
pub open spec fn constant_view(value: ConstantValue) -> ConstantValueView
    decreases value,
{
    match value {
        ConstantValue::Null => ConstantValueView::Null,
        ConstantValue::Boolean(truth) => ConstantValueView::Boolean(truth),
        ConstantValue::Int(number) => ConstantValueView::Int(number),
        ConstantValue::String(text) => ConstantValueView::String(text@),
        ConstantValue::Enum(text) => ConstantValueView::Enum(text@),
        ConstantValue::List(items) => ConstantValueView::List(
            Seq::new(
                items@.len(),
                |i: int|
                    if 0 <= i < items@.len() {
                        constant_view(items@[i])
                    } else {
                        ConstantValueView::Null
                    },
            ),
        ),
        ConstantValue::Opaque(handle) => ConstantValueView::Opaque(handle),
    }
}

impl View for ConstantValue {
    type V = ConstantValueView;

    open spec fn view(&self) -> ConstantValueView {
        constant_view(*self)
    }
}

impl Clone for ConstantValue {
    fn clone(&self) -> (copy: Self)
        ensures
            copy@ == self@,
        decreases self@,
    {
        match self {
            ConstantValue::Null => ConstantValue::Null,
            ConstantValue::Boolean(truth) => ConstantValue::Boolean(*truth),
            ConstantValue::Int(number) => ConstantValue::Int(*number),
            ConstantValue::String(text) => ConstantValue::String(text.clone()),
            ConstantValue::Enum(text) => ConstantValue::Enum(text.clone()),
            ConstantValue::List(items) => {
                let mut copies: Vec<ConstantValue> = Vec::new();
                let mut i: usize = 0;
                while i < items.len()
                    invariant
                        i <= items.len(),
                        copies.len() == i,
                        forall|j: int| 0 <= j < i ==> copies@[j]@ == #[trigger] items@[j]@,
                        *self == ConstantValue::List(*items),
                    decreases items.len() - i,
                {
                    assert(self@->List_0[i as int] == items@[i as int]@);
                    let copy = items[i].clone();
                    copies.push(copy);
                    i = i + 1;
                }
                let copy = ConstantValue::List(copies);
                assert forall|j: int| 0 <= j < items@.len() implies copy@->List_0[j]
                    == self@->List_0[j] by {
                    assert(copies@[j]@ == items@[j]@);
                }
                assert(copy@->List_0 =~= self@->List_0);
                copy
            },
            ConstantValue::Opaque(handle) => ConstantValue::Opaque(*handle),
        }
    }
}

/// The value of an argument. `Opaque` stands for a list or an object that holds variables, by a
/// number that the caller gives it.
#[derive(Debug, PartialEq, Eq)]
pub enum Value {
    Constant(ConstantValue),
    Variable(String),
    Opaque(u64),
}

/// The model of a [`Value`].
pub enum ValueView {
    Constant(ConstantValueView),
    Variable(Seq<char>),
    Opaque(u64),
}

impl View for Value {
    type V = ValueView;

    open spec fn view(&self) -> ValueView {
        match self {
            Value::Constant(constant) => ValueView::Constant(constant@),
            Value::Variable(name) => ValueView::Variable(name@),
            Value::Opaque(handle) => ValueView::Opaque(*handle),
        }
    }
}

impl ValueView {
    /// The text of a value that is a string literal.
    pub open spec fn string_literal(self) -> Option<Seq<char>> {
        match self {
            ValueView::Constant(ConstantValueView::String(text)) => Some(text),
            _ => None,
        }
    }
}

impl Value {
    /// The text of a value that is a string literal.
    pub fn get_string_literal(&self) -> (text: Option<&String>)
        ensures
            match text {
                Some(text) => self@.string_literal() == Some(text@),
                None => self@.string_literal() is None,
            },
    {
        match self {
            Value::Constant(ConstantValue::String(text)) => Some(text),
            _ => None,
        }
    }
}

impl Clone for Value {
    fn clone(&self) -> (copy: Self)
        ensures
            copy@ == self@,
    {
        match self {
            Value::Constant(constant) => Value::Constant(constant.clone()),
            Value::Variable(name) => Value::Variable(name.clone()),
            Value::Opaque(handle) => Value::Opaque(*handle),
        }
    }
}

/// An argument of a field, a spread or a directive.
#[derive(Debug, PartialEq, Eq)]
pub struct Argument {
    pub name: WithLocation<String>,
    pub value: WithLocation<Value>,
}

/// The model of an [`Argument`].
pub struct ArgumentView {
    pub name: WithLocation<Seq<char>>,
    pub value: WithLocation<ValueView>,
}

impl View for Argument {
    type V = ArgumentView;

    open spec fn view(&self) -> ArgumentView {
        ArgumentView { name: self.name@, value: self.value@ }
    }
}

impl NameView for ArgumentView {
    open spec fn key(self) -> Seq<char> {
        self.name.item
    }
}

impl NamedItem for Argument {
    fn name(&self) -> (name: &String) {
        &self.name.item
    }
}

impl Clone for Argument {
    fn clone(&self) -> (copy: Self)
        ensures
            copy@ == self@,
    {
        Argument {
            name: copy_text(&self.name),
            value: WithLocation { location: self.value.location, item: self.value.item.clone() },
        }
    }
}

/// Copies a list of arguments.
pub fn copy_arguments(arguments: &Vec<Argument>) -> (copies: Vec<Argument>)
    ensures
        views(copies@) == views(arguments@),
{
    let copies = arguments.clone();
    assert(views(copies@) =~= views(arguments@));
    copies
}

/// What is known of a selection that `@module` loads on demand.
#[derive(Debug, PartialEq, Eq, Hash)]
pub struct ModuleMetadata {
    pub location: Location,
    pub key: String,
    pub module_id: String,
    pub module_name: String,
    pub source_document_name: ExecutableDefinitionName,
    pub read_time_resolvers: bool,
    pub fragment_name: String,
    pub fragment_source_location: Location,
    pub no_inline: bool,
}

/// The model of a [`ModuleMetadata`].
pub struct ModuleMetadataView {
    pub location: Location,
    pub key: Seq<char>,
    pub module_id: Seq<char>,
    pub module_name: Seq<char>,
    pub source_document_name: DocumentNameView,
    pub read_time_resolvers: bool,
    pub fragment_name: Seq<char>,
    pub fragment_source_location: Location,
    pub no_inline: bool,
}

impl View for ModuleMetadata {
    type V = ModuleMetadataView;

    open spec fn view(&self) -> ModuleMetadataView {
        ModuleMetadataView {
            location: self.location,
            key: self.key@,
            module_id: self.module_id@,
            module_name: self.module_name@,
            source_document_name: self.source_document_name@,
            read_time_resolvers: self.read_time_resolvers,
            fragment_name: self.fragment_name@,
            fragment_source_location: self.fragment_source_location,
            no_inline: self.no_inline,
        }
    }
}

impl Clone for ModuleMetadata {
    fn clone(&self) -> (copy: Self)
        ensures
            copy == *self,
    {
        ModuleMetadata {
            location: self.location,
            key: self.key.clone(),
            module_id: self.module_id.clone(),
            module_name: self.module_name.clone(),
            source_document_name: self.source_document_name.clone(),
            read_time_resolvers: self.read_time_resolvers,
            fragment_name: self.fragment_name.clone(),
            fragment_source_location: self.fragment_source_location,
            no_inline: self.no_inline,
        }
    }
}

impl ModuleMetadataView {
    /// The directive that carries the metadata.
    pub open spec fn directive(self) -> DirectiveView {
        DirectiveView {
            name: WithLocation {
                location: Location::spec_generated(),
                item: MODULE_METADATA_DIRECTIVE_NAME@,
            },
            arguments: Seq::empty(),
            data: Some(AssociatedDataView::Module(self)),
            location: Location::spec_generated(),
        }
    }
}

impl ModuleMetadata {
    /// The directive that carries the metadata.
    pub fn into_directive(self) -> (directive: Directive)
        ensures
            directive@ == self@.directive(),
    {
        let directive = Directive {
            name: WithLocation::new(Location::generated(), MODULE_METADATA_DIRECTIVE_NAME.to_owned()),
            arguments: Vec::new(),
            data: Some(AssociatedData::Module(self)),
            location: Location::generated(),
        };
        assert(directive@.arguments =~= Seq::empty());
        directive
    }
}

/// What is known of an inline fragment that stands for an aliased fragment.
#[derive(Debug, PartialEq, Eq)]
pub struct FragmentAliasMetadata {
    pub alias: WithLocation<String>,
}

/// The model of a [`FragmentAliasMetadata`].
pub struct FragmentAliasMetadataView {
    pub alias: WithLocation<Seq<char>>,
}

impl View for FragmentAliasMetadata {
    type V = FragmentAliasMetadataView;

    open spec fn view(&self) -> FragmentAliasMetadataView {
        FragmentAliasMetadataView { alias: self.alias@ }
    }
}

/// Metadata that a directive carries for later passes. `Opaque` stands for metadata of another
/// shape, by a number that the caller gives it.
#[derive(Debug, PartialEq, Eq)]
pub enum AssociatedData {
    Module(ModuleMetadata),
    FragmentAlias(FragmentAliasMetadata),
    Opaque(u64),
}

/// The model of an [`AssociatedData`].
pub enum AssociatedDataView {
    Module(ModuleMetadataView),
    FragmentAlias(FragmentAliasMetadataView),
    Opaque(u64),
}

impl View for AssociatedData {
    type V = AssociatedDataView;

    open spec fn view(&self) -> AssociatedDataView {
        match self {
            AssociatedData::Module(metadata) => AssociatedDataView::Module(metadata@),
            AssociatedData::FragmentAlias(metadata) => AssociatedDataView::FragmentAlias(metadata@),
            AssociatedData::Opaque(handle) => AssociatedDataView::Opaque(*handle),
        }
    }
}

impl Clone for AssociatedData {
    fn clone(&self) -> (copy: Self)
        ensures
            copy == *self,
    {
        match self {
            AssociatedData::Module(metadata) => AssociatedData::Module(metadata.clone()),
            AssociatedData::FragmentAlias(metadata) => AssociatedData::FragmentAlias(
                FragmentAliasMetadata { alias: copy_text(&metadata.alias) },
            ),
            AssociatedData::Opaque(handle) => AssociatedData::Opaque(*handle),
        }
    }
}

/// A directive on a selection or a document.
#[derive(Debug, PartialEq, Eq)]
pub struct Directive {
    pub name: WithLocation<String>,
    pub arguments: Vec<Argument>,
    pub data: Option<AssociatedData>,
    pub location: Location,
}

/// The model of a [`Directive`].
pub struct DirectiveView {
    pub name: WithLocation<Seq<char>>,
    pub arguments: Seq<ArgumentView>,
    pub data: Option<AssociatedDataView>,
    pub location: Location,
}

impl View for Directive {
    type V = DirectiveView;

    open spec fn view(&self) -> DirectiveView {
        DirectiveView {
            name: self.name@,
            arguments: views(self.arguments@),
            data: opt_view(self.data),
            location: self.location,
        }
    }
}

impl NameView for DirectiveView {
    open spec fn key(self) -> Seq<char> {
        self.name.item
    }
}

impl NamedItem for Directive {
    fn name(&self) -> (name: &String) {
        &self.name.item
    }
}

impl Clone for Directive {
    fn clone(&self) -> (copy: Self)
        ensures
            copy@ == self@,
    {
        Directive {
            name: copy_text(&self.name),
            arguments: copy_arguments(&self.arguments),
            data: match &self.data {
                Some(data) => Some(data.clone()),
                None => None,
            },
            location: self.location,
        }
    }
}

/// Copies a list of directives.
pub fn copy_directives(directives: &Vec<Directive>) -> (copies: Vec<Directive>)
    ensures
        views(copies@) == views(directives@),
{
    let copies = directives.clone();
    assert(views(copies@) =~= views(directives@));
    copies
}

/// The directives that do not go by `name`, in their order.
pub open spec fn without(directives: Seq<DirectiveView>, name: Seq<char>) -> Seq<DirectiveView> {
    directives.filter(|directive: DirectiveView| directive.name.item != name)
}

/// Copies the directives that do not go by `name`.
pub fn copy_without(directives: &Vec<Directive>, name: &str) -> (copies: Vec<Directive>)
    ensures
        views(copies@) == without(views(directives@), name@),
{
    let mut copies: Vec<Directive> = Vec::new();
    let mut i: usize = 0;
    let ghost keep = |directive: DirectiveView| directive.name.item != name@;
    proof {
        reveal(Seq::filter);
        assert(views(copies@) =~= views(directives@).take(0).filter(keep));
    }
    while i < directives.len()
        invariant
            i <= directives.len(),
            keep == (|directive: DirectiveView| directive.name.item != name@),
            views(copies@) == views(directives@).take(i as int).filter(keep),
        decreases directives.len() - i,
    {
        let ghost before = copies@;
        if !crate::text::reads(&directives[i].name.item, name) {
            let copy = directives[i].clone();
            copies.push(copy);
        }
        proof {
            reveal(Seq::filter);
            let longer = views(directives@).take(i + 1);
            assert(longer.drop_last() =~= views(directives@).take(i as int));
            assert(longer.last() == directives@[i as int]@);
            if keep(longer.last()) {
                assert(views(copies@) =~= views(before).push(longer.last()));
            }
        }
        i = i + 1;
    }
    assert(views(directives@).take(i as int) =~= views(directives@));
    copies
}

/// The alias metadata of the first directive that carries any.
pub open spec fn alias_metadata(directives: Seq<DirectiveView>) -> Option<FragmentAliasMetadataView>
    decreases directives.len(),
{
    if directives.len() == 0 {
        None
    } else {
        match directives[0].data {
            Some(AssociatedDataView::FragmentAlias(metadata)) => Some(metadata),
            _ => alias_metadata(directives.drop_first()),
        }
    }
}

impl FragmentAliasMetadata {
    /// Finds the alias metadata of the first directive that carries any.
    pub fn find(directives: &Vec<Directive>) -> (found: Option<&FragmentAliasMetadata>)
        ensures
            match found {
                Some(metadata) => alias_metadata(views(directives@)) == Some(metadata@),
                None => alias_metadata(views(directives@)) is None,
            },
    {
        let mut i: usize = 0;
        assert(views(directives@).skip(0) =~= views(directives@));
        while i < directives.len()
            invariant
                i <= directives.len(),
                alias_metadata(views(directives@)) == alias_metadata(views(directives@).skip(i as int)),
            decreases directives.len() - i,
        {
            proof {
                let rest = views(directives@).skip(i as int);
                assert(rest[0] == directives@[i as int]@);
                assert(rest.drop_first() =~= views(directives@).skip(i + 1));
            }
            match &directives[i].data {
                Some(AssociatedData::FragmentAlias(metadata)) => {
                    return Some(metadata);
                },
                _ => {},
            }
            i = i + 1;
        }
        None
    }
}

/// The module metadata of the first directive that carries any.
pub open spec fn module_metadata(directives: Seq<DirectiveView>) -> Option<ModuleMetadataView>
    decreases directives.len(),
{
    if directives.len() == 0 {
        None
    } else {
        match directives[0].data {
            Some(AssociatedDataView::Module(metadata)) => Some(metadata),
            _ => module_metadata(directives.drop_first()),
        }
    }
}

impl ModuleMetadata {
    /// Finds the module metadata of the first directive that carries any.
    pub fn find(directives: &Vec<Directive>) -> (found: Option<&ModuleMetadata>)
        ensures
            match found {
                Some(metadata) => module_metadata(views(directives@)) == Some(metadata@),
                None => module_metadata(views(directives@)) is None,
            },
    {
        let mut i: usize = 0;
        assert(views(directives@).skip(0) =~= views(directives@));
        while i < directives.len()
            invariant
                i <= directives.len(),
                module_metadata(views(directives@)) == module_metadata(views(directives@).skip(i as int)),
            decreases directives.len() - i,
        {
            proof {
                let rest = views(directives@).skip(i as int);
                assert(rest[0] == directives@[i as int]@);
                assert(rest.drop_first() =~= views(directives@).skip(i + 1));
            }
            match &directives[i].data {
                Some(AssociatedData::Module(metadata)) => {
                    return Some(metadata);
                },
                _ => {},
            }
            i = i + 1;
        }
        None
    }
}

/// What a condition depends on.
#[derive(Debug, PartialEq, Eq)]
pub enum ConditionValue {
    Constant(bool),
    Variable(String),
}

/// A field without selections of its own.
#[derive(Debug, PartialEq, Eq)]
pub struct ScalarField {
    pub alias: Option<WithLocation<String>>,
    pub definition: WithLocation<FieldID>,
    pub arguments: Vec<Argument>,
    pub directives: Vec<Directive>,
}

/// A field with selections of its own.
#[derive(Debug, PartialEq, Eq)]
pub struct LinkedField {
    pub alias: Option<WithLocation<String>>,
    pub definition: WithLocation<FieldID>,
    pub arguments: Vec<Argument>,
    pub directives: Vec<Directive>,
    pub selections: Vec<Selection>,
}

/// Selections that hold for one type, or under directives.
#[derive(Debug, PartialEq, Eq)]
pub struct InlineFragment {
    pub type_condition: Option<Type>,
    pub directives: Vec<Directive>,
    pub selections: Vec<Selection>,
    pub spread_location: Location,
}

/// The use of a fragment.
#[derive(Debug, PartialEq, Eq)]
pub struct FragmentSpread {
    pub fragment: WithLocation<String>,
    pub arguments: Vec<Argument>,
    pub directives: Vec<Directive>,
}

/// Selections under `@include` or `@skip`.
#[derive(Debug, PartialEq, Eq)]
pub struct Condition {
    pub value: ConditionValue,
    pub passing_value: bool,
    pub selections: Vec<Selection>,
    pub location: Location,
}

/// What a document selects.
#[derive(Debug, PartialEq, Eq)]
pub enum Selection {
    FragmentSpread(Arc<FragmentSpread>),
    InlineFragment(Arc<InlineFragment>),
    LinkedField(Arc<LinkedField>),
    ScalarField(Arc<ScalarField>),
    Condition(Arc<Condition>),
}

/// The model of a [`ScalarField`].
pub struct ScalarFieldView {
    pub alias: Option<WithLocation<Seq<char>>>,
    pub definition: WithLocation<FieldID>,
    pub arguments: Seq<ArgumentView>,
    pub directives: Seq<DirectiveView>,
}

/// The model of a [`LinkedField`].
pub struct LinkedFieldView {
    pub alias: Option<WithLocation<Seq<char>>>,
    pub definition: WithLocation<FieldID>,
    pub arguments: Seq<ArgumentView>,
    pub directives: Seq<DirectiveView>,
    pub selections: Seq<SelectionView>,
}

/// The model of an [`InlineFragment`].
pub struct InlineFragmentView {
    pub type_condition: Option<Type>,
    pub directives: Seq<DirectiveView>,
    pub selections: Seq<SelectionView>,
    pub spread_location: Location,
}

/// The model of a [`FragmentSpread`].
pub struct FragmentSpreadView {
    pub fragment: WithLocation<Seq<char>>,
    pub arguments: Seq<ArgumentView>,
    pub directives: Seq<DirectiveView>,
}

/// The model of a [`Condition`].
pub struct ConditionView {
    pub value: ConditionValue,
    pub passing_value: bool,
    pub selections: Seq<SelectionView>,
    pub location: Location,
}

/// The model of a [`Selection`].
pub enum SelectionView {
    FragmentSpread(FragmentSpreadView),
    InlineFragment(InlineFragmentView),
    LinkedField(LinkedFieldView),
    ScalarField(ScalarFieldView),
    Condition(ConditionView),
}

impl View for ScalarField {
    type V = ScalarFieldView;

    open spec fn view(&self) -> ScalarFieldView {
        ScalarFieldView {
            alias: opt_view(self.alias),
            definition: self.definition,
            arguments: views(self.arguments@),
            directives: views(self.directives@),
        }
    }
}

impl View for FragmentSpread {
    type V = FragmentSpreadView;

    open spec fn view(&self) -> FragmentSpreadView {
        FragmentSpreadView {
            fragment: self.fragment@,
            arguments: views(self.arguments@),
            directives: views(self.directives@),
        }
    }
}

/// The model of a list of selections.
pub open spec fn selections_view(selections: Seq<Selection>) -> Seq<SelectionView>
    decreases selections,
{
    Seq::new(
        selections.len(),
        |i: int|
            if 0 <= i < selections.len() {
                selection_view(selections[i])
            } else {
                arbitrary()
            },
    )
}

/// The model of a selection.
pub open spec fn selection_view(selection: Selection) -> SelectionView
    decreases selection,
{
    match selection {
        Selection::FragmentSpread(spread) => SelectionView::FragmentSpread((*spread)@),
        Selection::InlineFragment(fragment) => SelectionView::InlineFragment(
            InlineFragmentView {
                type_condition: fragment.type_condition,
                directives: views(fragment.directives@),
                selections: selections_view(fragment.selections@),
                spread_location: fragment.spread_location,
            },
        ),
        Selection::LinkedField(field) => SelectionView::LinkedField(
            LinkedFieldView {
                alias: opt_view(field.alias),
                definition: field.definition,
                arguments: views(field.arguments@),
                directives: views(field.directives@),
                selections: selections_view(field.selections@),
            },
        ),
        Selection::ScalarField(field) => SelectionView::ScalarField((*field)@),
        Selection::Condition(condition) => SelectionView::Condition(
            ConditionView {
                value: condition.value,
                passing_value: condition.passing_value,
                selections: selections_view(condition.selections@),
                location: condition.location,
            },
        ),
    }
}

impl View for Selection {
    type V = SelectionView;

    open spec fn view(&self) -> SelectionView {
        selection_view(*self)
    }
}

impl View for LinkedField {
    type V = LinkedFieldView;

    open spec fn view(&self) -> LinkedFieldView {
        LinkedFieldView {
            alias: opt_view(self.alias),
            definition: self.definition,
            arguments: views(self.arguments@),
            directives: views(self.directives@),
            selections: selections_view(self.selections@),
        }
    }
}

impl View for InlineFragment {
    type V = InlineFragmentView;

    open spec fn view(&self) -> InlineFragmentView {
        InlineFragmentView {
            type_condition: self.type_condition,
            directives: views(self.directives@),
            selections: selections_view(self.selections@),
            spread_location: self.spread_location,
        }
    }
}

impl View for Condition {
    type V = ConditionView;

    open spec fn view(&self) -> ConditionView {
        ConditionView {
            value: self.value,
            passing_value: self.passing_value,
            selections: selections_view(self.selections@),
            location: self.location,
        }
    }
}

impl Clone for Selection {
    fn clone(&self) -> (copy: Self)
        ensures
            copy == *self,
    {
        match self {
            Selection::FragmentSpread(spread) => Selection::FragmentSpread(share(spread)),
            Selection::InlineFragment(fragment) => Selection::InlineFragment(share(fragment)),
            Selection::LinkedField(field) => Selection::LinkedField(share(field)),
            Selection::ScalarField(field) => Selection::ScalarField(share(field)),
            Selection::Condition(condition) => Selection::Condition(share(condition)),
        }
    }
}

/// Copies a list of selections.
pub fn copy_selections(selections: &Vec<Selection>) -> (copies: Vec<Selection>)
    ensures
        copies@ == selections@,
{
    let copies = selections.clone();
    assert(copies@ =~= selections@);
    copies
}

/// Copies what a condition depends on.
pub fn copy_condition_value(value: &ConditionValue) -> (copy: ConditionValue)
    ensures
        copy == *value,
{
    match value {
        ConditionValue::Constant(truth) => ConditionValue::Constant(*truth),
        ConditionValue::Variable(name) => ConditionValue::Variable(name.clone()),
    }
}

/// The kind of an operation.
#[derive(Clone, Copy, Debug, PartialEq, Eq, Structural)]
pub enum OperationKind {
    Query,
    Mutation,
    Subscription,
}

/// A variable that a document takes.
#[derive(Debug, PartialEq, Eq)]
pub struct VariableDefinition {
    pub name: WithLocation<String>,
    pub type_: TypeReference,
    pub default_value: Option<WithLocation<ConstantValue>>,
}

/// An operation.
#[derive(Debug, PartialEq, Eq)]
pub struct OperationDefinition {
    pub kind: OperationKind,
    pub name: WithLocation<String>,
    pub type_: Type,
    pub variable_definitions: Arc<Vec<VariableDefinition>>,
    pub directives: Vec<Directive>,
    pub selections: Vec<Selection>,
}

/// The model of an [`OperationDefinition`].
pub struct OperationView {
    pub kind: OperationKind,
    pub name: WithLocation<Seq<char>>,
    pub type_: Type,
    pub variable_definitions: Arc<Vec<VariableDefinition>>,
    pub directives: Seq<DirectiveView>,
    pub selections: Seq<SelectionView>,
}

impl View for OperationDefinition {
    type V = OperationView;

    open spec fn view(&self) -> OperationView {
        OperationView {
            kind: self.kind,
            name: self.name@,
            type_: self.type_,
            variable_definitions: self.variable_definitions,
            directives: views(self.directives@),
            selections: selections_view(self.selections@),
        }
    }
}

/// A fragment.
#[derive(Debug, PartialEq, Eq)]
pub struct FragmentDefinition {
    pub name: WithLocation<String>,
    pub variable_definitions: Arc<Vec<VariableDefinition>>,
    pub used_global_variables: Arc<Vec<VariableDefinition>>,
    pub type_condition: Type,
    pub directives: Vec<Directive>,
    pub selections: Vec<Selection>,
}

/// The model of a [`FragmentDefinition`].
pub struct FragmentView {
    pub name: WithLocation<Seq<char>>,
    pub variable_definitions: Arc<Vec<VariableDefinition>>,
    pub used_global_variables: Arc<Vec<VariableDefinition>>,
    pub type_condition: Type,
    pub directives: Seq<DirectiveView>,
    pub selections: Seq<SelectionView>,
}

impl View for FragmentDefinition {
    type V = FragmentView;

    open spec fn view(&self) -> FragmentView {
        FragmentView {
            name: self.name@,
            variable_definitions: self.variable_definitions,
            used_global_variables: self.used_global_variables,
            type_condition: self.type_condition,
            directives: views(self.directives@),
            selections: selections_view(self.selections@),
        }
    }
}

impl NameView for FragmentView {
    open spec fn key(self) -> Seq<char> {
        self.name.item
    }
}

impl NamedItem for Arc<FragmentDefinition> {
    fn name(&self) -> (name: &String) {
        &self.name.item
    }
}

/// The documents of a project, with the schema that they are written against.
/// Where fragments share a name, the first of them goes by it.
#[derive(Debug, PartialEq, Eq)]
pub struct Program {
    pub schema: Arc<Schema>,
    pub operations: Vec<Arc<OperationDefinition>>,
    pub fragments: Vec<Arc<FragmentDefinition>>,
}

/// The model of a [`Program`].
pub struct ProgramView {
    pub schema: Schema,
    pub operations: Seq<OperationView>,
    pub fragments: Seq<FragmentView>,
}

impl View for Program {
    type V = ProgramView;

    open spec fn view(&self) -> ProgramView {
        ProgramView {
            schema: *self.schema,
            operations: views(self.operations@),
            fragments: views(self.fragments@),
        }
    }
}

impl ProgramView {
    /// The fragment that goes by `name`.
    pub open spec fn fragment(self, name: Seq<char>) -> Option<FragmentView> {
        first_named(self.fragments, name)
    }
}

impl Program {
    /// Finds the fragment that goes by `name`.
    pub fn fragment(&self, name: &str) -> (fragment: Option<&FragmentDefinition>)
        ensures
            match fragment {
                Some(fragment) => self@.fragment(name@) == Some(fragment@),
                None => self@.fragment(name@) is None,
            },
    {
        match named(&self.fragments, name) {
            Some(fragment) => Some(fragment),
            None => None,
        }
    }
}

impl Clone for Program {
    fn clone(&self) -> (copy: Self)
        ensures
            copy@ == self@,
    {
        let mut operations: Vec<Arc<OperationDefinition>> = Vec::new();
        let mut i: usize = 0;
        while i < self.operations.len()
            invariant
                i <= self.operations.len(),
                operations@ =~= self.operations@.take(i as int),
            decreases self.operations.len() - i,
        {
            operations.push(share(&self.operations[i]));
            i = i + 1;
        }
        let mut fragments: Vec<Arc<FragmentDefinition>> = Vec::new();
        let mut j: usize = 0;
        while j < self.fragments.len()
            invariant
                j <= self.fragments.len(),
                fragments@ =~= self.fragments@.take(j as int),
            decreases self.fragments.len() - j,
        {
            fragments.push(share(&self.fragments[j]));
            j = j + 1;
        }
        let copy = Program { schema: share(&self.schema), operations, fragments };
        assert(copy@.operations =~= self@.operations);
        assert(copy@.fragments =~= self@.fragments);
        copy
    }
}

} // verus!
