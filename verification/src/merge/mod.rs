//! Composition: merging subgraph schemas into one supergraph schema.

pub mod content_laws;
pub mod copies;
pub mod core_features;
pub mod definition_laws;
pub mod directives;
pub mod enum_value;
pub mod join_laws;
pub mod keys;
pub mod laws;
pub mod merger;
pub mod record_laws;

use crate::ast::clone_text;
use crate::ast::Argument;
use crate::ast::Directive;
use crate::ast::DirectiveDefinition;
use crate::ast::DirectiveDefinitionView;
use crate::ast::DirectiveLocation;
use crate::ast::DirectiveView;
use crate::ast::FieldDefinition;
use crate::ast::FieldView;
use crate::built_in::built_in_schema;
use crate::built_in::new_schema;
use crate::built_in::parse_schema;
use crate::built_in::parsed_schema;
use crate::collections::clone_keeps_view;
use crate::collections::has_key;
use crate::collections::key_index;
use crate::collections::lemma_key_index;
use crate::collections::lemma_put_same;
use crate::collections::put;
use crate::collections::put_if_absent;
use crate::collections::set_with;
use crate::collections::value_of;
use crate::collections::Entries;
use crate::collections::NameMap;
use crate::collections::NameSet;
use crate::error::ErrorKind;
use crate::error::FederationError;
use crate::link::read::links_metadata;
use crate::link::LinksMetadata;
use crate::link::LinksMetadataView;
use crate::merge::core_features::add_core_feature_inaccessible;
use crate::merge::core_features::add_core_feature_join;
use crate::merge::core_features::add_core_feature_link;
use crate::merge::core_features::with_inaccessible_feature;
use crate::merge::core_features::with_join_feature;
use crate::merge::core_features::with_link_feature;
use crate::merge::directives::directives_named;
use crate::merge::directives::federation_names;
use crate::merge::directives::keys_have_fields;
use crate::merge::directives::DirectiveNames;
use crate::merge::directives::DirectiveNamesView;
use crate::merge::enum_value::enum_value_error;
use crate::merge::enum_value::enum_value_text;
use crate::merge::laws::law_merge_succeeds_for_named_subgraphs;
use crate::merge::merger::after_description;
use crate::merge::merger::merged_description;
use crate::merge::merger::merged_enum_type;
use crate::merge::merger::merged_input_object_type;
use crate::merge::merger::merged_interface_type;
use crate::merge::merger::merged_object_type;
use crate::merge::merger::merged_scalar_type;
use crate::merge::merger::merged_union_type;
use crate::merge::merger::Merger;
use crate::merge::merger::MergerView;
use crate::merge::merger::TypeEntries;
use crate::schema::implementers_of;
use crate::schema::type_is_built_in;
use crate::schema::ExtendedType;
use crate::schema::ExtendedTypeView;
use crate::schema::Implementers;
use crate::schema::ImplementersView;
use crate::schema::ObjectView;
use crate::schema::Schema;
use crate::schema::SchemaDefinitionView;
use crate::schema::SchemaView;
use crate::schema::SourceFile;
use crate::schema::SourceFileView;
use crate::schema::BUILT_IN_FILE;
use crate::text::begins_with;
use crate::text::decimal;
use crate::text::decimal_string;
use crate::text::joined3;
use crate::text::same;
use crate::text::starts_with;
use crate::text::str_lt;
use crate::text::text_lt;
use crate::text::Text;
use vstd::prelude::*;

pub use crate::merge::enum_value::EnumValue;

verus! {

/// A subgraph schema with the links that it makes.
pub struct ValidFederationSchema {
    pub schema: Schema,
    pub metadata: Option<LinksMetadata>,
}

/// The mathematical content of a [`ValidFederationSchema`].
#[verifier::ext_equal]
pub struct FederationSchemaView {
    pub schema: SchemaView,
    pub metadata: Option<LinksMetadataView>,
}

impl DeepView for ValidFederationSchema {
    type V = FederationSchemaView;

    open spec fn deep_view(&self) -> FederationSchemaView {
        FederationSchemaView {
            schema: self.schema.deep_view(),
            metadata: self.metadata.deep_view(),
        }
    }
}

impl Clone for ValidFederationSchema {
    fn clone(&self) -> (r: Self)
        ensures
            r.deep_view() == self.deep_view(),
    {
        let metadata = match &self.metadata {
            Some(x) => Some(x.clone()),
            None => None,
        };
        ValidFederationSchema {
            schema: self.schema.clone(),
            metadata,
        }
    }
}

/// A subgraph: its name, where it is served, and its schema.
pub struct ValidFederationSubgraph {
    pub name: String,
    pub url: String,
    pub schema: ValidFederationSchema,
}

/// The mathematical content of a [`ValidFederationSubgraph`].
#[verifier::ext_equal]
pub struct SubgraphView {
    pub name: Text,
    pub url: Text,
    pub schema: FederationSchemaView,
}

impl DeepView for ValidFederationSubgraph {
    type V = SubgraphView;

    open spec fn deep_view(&self) -> SubgraphView {
        SubgraphView {
            name: self.name@,
            url: self.url@,
            schema: self.schema.deep_view(),
        }
    }
}

/// The subgraph whose schema is read, with its links.
pub open spec fn subgraph_of(name: Text, url: Text, schema: SchemaView) -> SubgraphView {
    SubgraphView {
        name,
        url,
        schema: FederationSchemaView {
            schema,
            metadata: links_metadata(schema.schema_definition.directives),
        },
    }
}

impl ValidFederationSubgraph {
    /// Reads a subgraph from the text of its schema, which is in the file of the given number. A text
    /// that is no schema gives an error that says so.
    pub fn parse(name: &str, url: &str, source_text: &str, file: u64) -> (r: Result<
        Self,
        FederationError,
    >)
        requires
            source_text@.len() < 0x4000_0000,
        ensures
            match parsed_schema(source_text@, url@, BUILT_IN_FILE, file) {
                Some(schema) => r matches Ok(subgraph) && subgraph.deep_view() == subgraph_of(
                    name@,
                    url@,
                    schema,
                ),
                None => r matches Err(error) && error.kind == ErrorKind::InvalidGraphql,
            },
    {
        match parse_schema(source_text, url, BUILT_IN_FILE, file) {
            Ok(schema) => {
                let metadata = LinksMetadata::from_directives(&schema.schema_definition.directives);
                Ok(
                    ValidFederationSubgraph {
                        name: name.to_owned(),
                        url: url.to_owned(),
                        schema: ValidFederationSchema { schema, metadata },
                    },
                )
            },
            Err(error) => Err(error),
        }
    }
}

impl Clone for ValidFederationSubgraph {
    fn clone(&self) -> (r: Self)
        ensures
            r.deep_view() == self.deep_view(),
    {
        ValidFederationSubgraph {
            name: self.name.clone(),
            url: self.url.clone(),
            schema: self.schema.clone(),
        }
    }
}

/// A supergraph schema and what composition has to say about it.
pub struct MergeSuccess {
    pub schema: Schema,
    pub composition_hints: Vec<String>,
}

/// Why subgraphs could not be merged, with the schema as far as there is one.
pub struct MergeFailure {
    pub schema: Option<Box<Schema>>,
    pub errors: Vec<String>,
    pub composition_hints: Vec<String>,
}

/// The mathematical content of the result of a merge.
#[verifier::ext_equal]
pub enum MergeOutcome {
    Success { schema: SchemaView, hints: Seq<Text> },
    Failure { partial: Option<SchemaView>, errors: Seq<Text>, hints: Seq<Text> },
}

/// The content of the result of a merge.
pub open spec fn outcome(result: Result<MergeSuccess, MergeFailure>) -> MergeOutcome {
    match result {
        Ok(success) => MergeOutcome::Success {
            schema: success.schema.deep_view(),
            hints: success.composition_hints.deep_view(),
        },
        Err(failure) => MergeOutcome::Failure {
            partial: match failure.schema {
                Some(schema) => Some(schema.deep_view()),
                None => None,
            },
            errors: failure.errors.deep_view(),
            hints: failure.composition_hints.deep_view(),
        },
    }
}

/// The subgraphs of a federation, each under its name.
pub struct ValidFederationSubgraphs {
    subgraphs: NameMap<ValidFederationSubgraph>,
}

impl DeepView for ValidFederationSubgraphs {
    type V = Entries<SubgraphView>;

    closed spec fn deep_view(&self) -> Entries<SubgraphView> {
        self.subgraphs.deep_view()
    }
}

/// The message for a second subgraph of the same name.
pub open spec fn duplicate_subgraph_error(name: Text) -> Text {
    "A subgraph named \""@ + name + "\" already exists"@
}

impl ValidFederationSubgraphs {
    /// A federation without subgraphs.
    pub fn new() -> (r: Self)
        ensures
            r.deep_view() == Seq::<(Text, SubgraphView)>::empty(),
    {
        ValidFederationSubgraphs { subgraphs: NameMap::new() }
    }

    /// Adds a subgraph, unless there is one of its name.
    pub fn add(&mut self, subgraph: ValidFederationSubgraph) -> (r: Result<(), String>)
        ensures
            match r {
                Ok(_) => !has_key(old(self).deep_view(), subgraph.name@)
                    && final(self).deep_view() == old(self).deep_view().push(
                    (subgraph.name@, subgraph.deep_view()),
                ),
                Err(message) => has_key(old(self).deep_view(), subgraph.name@)
                    && final(self).deep_view() == old(self).deep_view() && message@
                    == duplicate_subgraph_error(subgraph.name@),
            },
    {
        if self.subgraphs.contains_key(&subgraph.name) {
            return Err(joined3("A subgraph named \"", &subgraph.name, "\" already exists"));
        }
        self.subgraphs.insert(subgraph.name.clone(), subgraph);
        Ok(())
    }
}

/// The subgraph, put before the first one whose name comes after its own.
pub open spec fn insert_by_name(sorted: Seq<SubgraphView>, new: SubgraphView) -> Seq<SubgraphView>
    decreases sorted.len(),
{
    if sorted.len() == 0 {
        seq![new]
    } else if text_lt(new.name, sorted[0].name) {
        seq![new] + sorted
    } else {
        seq![sorted[0]] + insert_by_name(sorted.drop_first(), new)
    }
}

/// The subgraphs in the order of their names; those of the same name keep their order.
pub open spec fn sorted_by_name(subgraphs: Seq<SubgraphView>) -> Seq<SubgraphView>
    decreases subgraphs.len(),
{
    if subgraphs.len() == 0 {
        Seq::empty()
    } else {
        insert_by_name(sorted_by_name(subgraphs.drop_last()), subgraphs.last())
    }
}

proof fn lemma_insert_by_name(sorted: Seq<SubgraphView>, new: SubgraphView, i: int)
    requires
        0 <= i <= sorted.len(),
        forall|j: int| 0 <= j < i ==> !text_lt(new.name, (#[trigger] sorted[j]).name),
        i < sorted.len() ==> text_lt(new.name, sorted[i].name),
    ensures
        insert_by_name(sorted, new) == sorted.insert(i, new),
    decreases i,
{
    if i == 0 {
        assert(insert_by_name(sorted, new) =~= sorted.insert(i, new));
    } else {
        let rest = sorted.drop_first();
        assert(!text_lt(new.name, sorted[0].name));
        assert forall|j: int| 0 <= j < i - 1 implies !text_lt(
            new.name,
            (#[trigger] rest[j]).name,
        ) by {
            assert(rest[j] == sorted[j + 1]);
        }
        lemma_insert_by_name(rest, new, i - 1);
        assert(insert_by_name(sorted, new) =~= sorted.insert(i, new));
    }
}

fn sort_by_name(subgraphs: &ValidFederationSubgraphs) -> (r: Vec<ValidFederationSubgraph>)
    ensures
        r.deep_view() == sorted_by_name(entry_values(subgraphs.deep_view())),
{
    let entries = &subgraphs.subgraphs;
    let ghost all = entry_values(subgraphs.deep_view());
    let mut sorted: Vec<ValidFederationSubgraph> = Vec::new();
    let mut n: usize = 0;
    assert(sorted.deep_view() =~= sorted_by_name(all.take(0)));
    while n < entries.len()
        invariant
            n <= all.len(),
            all == entry_values(entries.deep_view()),
            sorted.deep_view() == sorted_by_name(all.take(n as int)),
        decreases all.len() - n,
    {
        let subgraph = entries.value_at(n);
        let ghost before = sorted.deep_view();
        let mut i: usize = 0;
        while i < sorted.len() && !str_lt(&subgraph.name, &sorted[i].name)
            invariant
                i <= sorted.len(),
                before == sorted.deep_view(),
                forall|j: int|
                    0 <= j < i ==> !text_lt(subgraph.name@, (#[trigger] before[j]).name),
            decreases sorted.len() - i,
        {
            assert(before[i as int] == sorted@[i as int].deep_view());
            i += 1;
        }
        proof {
            if i < sorted.len() {
                assert(before[i as int] == sorted@[i as int].deep_view());
            }
            lemma_insert_by_name(before, subgraph.deep_view(), i as int);
            assert(all.take(n + 1).drop_last() =~= all.take(n as int));
        }
        sorted.insert(i, subgraph.clone());
        assert(sorted.deep_view() =~= before.insert(i as int, subgraph.deep_view()));
        n += 1;
    }
    assert(all.take(n as int) =~= all);
    sorted
}

/// The values of a map, in its order.
pub open spec fn entry_values<T>(entries: Entries<T>) -> Seq<T> {
    entries.map_values(|e: (Text, T)| e.1)
}

/// What is known after the enum values of some subgraphs were chosen: the errors, the values that
/// are taken, and the subgraphs with their values.
#[verifier::ext_equal]
pub struct ValuesChosen {
    pub errors: Seq<Text>,
    pub taken: Seq<Text>,
    pub chosen: Seq<(SubgraphView, Text)>,
}

/// The value for the name of a subgraph with a number behind it.
pub open spec fn numbered_value(name: Text, k: nat) -> Text {
    enum_value_text(name + "_"@ + decimal(k))
}

/// The first number from `k` on whose value is free, if it is one of the next `tries`.
pub open spec fn free_number(taken: Seq<Text>, name: Text, k: nat, tries: nat) -> nat
    decreases tries,
{
    if tries == 0 || !taken.contains(numbered_value(name, k)) {
        k
    } else {
        free_number(taken, name, k + 1, (tries - 1) as nat)
    }
}

/// The value for a subgraph: the one for its name, or, where that is taken, the one for its name
/// with the first number that makes it free. Numbers start with that of the values taken, and
/// going on for as many is always enough.
pub open spec fn chosen_value(taken: Seq<Text>, name: Text) -> Text {
    if taken.contains(enum_value_text(name)) {
        numbered_value(name, free_number(taken, name, taken.len(), taken.len()))
    } else {
        enum_value_text(name)
    }
}

/// Choosing the values of the first `n` subgraphs. A subgraph without name has none.
pub open spec fn choose_values(errors: Seq<Text>, subgraphs: Seq<SubgraphView>, n: nat) -> ValuesChosen
    decreases n,
{
    if n == 0 {
        ValuesChosen { errors, taken: Seq::empty(), chosen: Seq::empty() }
    } else {
        let before = choose_values(errors, subgraphs, (n - 1) as nat);
        let subgraph = subgraphs[n - 1];
        if subgraph.name.len() == 0 {
            ValuesChosen { errors: before.errors.push(enum_value_error(subgraph.name)), ..before }
        } else {
            let value = chosen_value(before.taken, subgraph.name);
            ValuesChosen {
                errors: before.errors,
                taken: set_with(before.taken, value),
                chosen: before.chosen.push((subgraph, value)),
            }
        }
    }
}

/// The type names that belong to the federation machinery.
pub open spec fn is_federation_type(name: Text) -> bool {
    name == "_Any"@ || name == "_Entity"@ || name == "_Service"@ || name == "@key"@
}

/// The type names that are merged: neither those of a linked specification nor those of the
/// federation machinery.
pub open spec fn mergeable_type(name: Text) -> bool {
    &&& !begins_with(name, "federation__"@)
    &&& !begins_with(name, "link__"@)
    &&& !is_federation_type(name)
}

/// Whether types of the given name are merged.
pub fn is_mergeable_type(ty_name: &str) -> (r: bool)
    ensures
        r == mergeable_type(ty_name@),
{
    if starts_with(ty_name, "federation__") || starts_with(ty_name, "link__") {
        return false;
    }
    !(same(ty_name, "_Any") || same(ty_name, "_Entity") || same(ty_name, "_Service") || same(
        ty_name,
        "@key",
    ))
}

/// The places in operations where a directive may be applied.
pub open spec fn executable_location(location: DirectiveLocation) -> bool {
    match location {
        DirectiveLocation::Query => true,
        DirectiveLocation::Mutation => true,
        DirectiveLocation::Subscription => true,
        DirectiveLocation::Field => true,
        DirectiveLocation::FragmentDefinition => true,
        DirectiveLocation::FragmentSpread => true,
        DirectiveLocation::InlineFragment => true,
        DirectiveLocation::VariableDefinition => true,
        _ => false,
    }
}

/// Whether a directive may be applied somewhere in an operation.
pub open spec fn executable_definition(directive: DirectiveDefinitionView) -> bool {
    exists|i: int|
        0 <= i < directive.locations.len() && executable_location(
            #[trigger] directive.locations[i],
        )
}

/// Whether a directive may be applied somewhere in an operation.
pub fn is_executable_directive(directive: &DirectiveDefinition) -> (r: bool)
    ensures
        r == executable_definition(directive.deep_view()),
{
    let mut i: usize = 0;
    while i < directive.locations.len()
        invariant
            i <= directive.locations.len(),
            forall|j: int| 0 <= j < i ==> !executable_location(#[trigger] directive.locations@[j]),
        decreases directive.locations.len() - i,
    {
        let executable = match directive.locations[i] {
            DirectiveLocation::Query | DirectiveLocation::Mutation
            | DirectiveLocation::Subscription | DirectiveLocation::Field
            | DirectiveLocation::FragmentDefinition | DirectiveLocation::FragmentSpread
            | DirectiveLocation::InlineFragment | DirectiveLocation::VariableDefinition => true,
            _ => false,
        };
        if executable {
            assert(executable_location(directive.deep_view().locations[i as int]));
            return true;
        }
        i += 1;
    }
    false
}

/// Adds the definition of a directive, unless there is one of its name.
pub fn merge_directive(
    supergraph_directives: &mut NameMap<DirectiveDefinition>,
    directive: &DirectiveDefinition,
)
    ensures
        final(supergraph_directives).deep_view() == put_if_absent(
            old(supergraph_directives).deep_view(),
            directive.deep_view().name,
            directive.deep_view(),
        ),
{
    supergraph_directives.insert_if_absent(directive.name.clone(), directive.clone());
}

/// Merging the first `n` directive definitions of a subgraph.
pub open spec fn merged_definitions(
    merged: Entries<DirectiveDefinitionView>,
    new: Entries<DirectiveDefinitionView>,
    n: nat,
) -> Entries<DirectiveDefinitionView>
    decreases n,
{
    if n == 0 {
        merged
    } else {
        let before = merged_definitions(merged, new, (n - 1) as nat);
        let definition = new[n - 1].1;
        if executable_definition(definition) {
            put_if_absent(before, definition.name, definition)
        } else {
            before
        }
    }
}

/// The name that a later subgraph gives a root type, else the earlier one.
pub open spec fn merged_root(merged: Option<Text>, new: Option<Text>) -> Option<Text> {
    if new is Some {
        new
    } else {
        merged
    }
}

/// Merging the schema definition of a subgraph.
pub open spec fn merged_schema_definition(
    merged: SchemaDefinitionView,
    new: SchemaDefinitionView,
) -> SchemaDefinitionView {
    SchemaDefinitionView {
        description: merged_description(merged.description, new.description),
        directives: merged.directives,
        query: merged_root(merged.query, new.query),
        mutation: merged_root(merged.mutation, new.mutation),
        subscription: merged_root(merged.subscription, new.subscription),
    }
}

/// Merging a type of a subgraph into those of the supergraph.
pub open spec fn merged_type(
    m: MergerView,
    types: TypeEntries,
    names: DirectiveNamesView,
    graph: Text,
    name: Text,
    ty: ExtendedTypeView,
) -> (MergerView, TypeEntries) {
    if type_is_built_in(ty) || !mergeable_type(name) {
        (m, types)
    } else {
        match ty {
            ExtendedTypeView::Enum(value) => merged_enum_type(m, types, names, graph, name, value),
            ExtendedTypeView::InputObject(value) => merged_input_object_type(
                m,
                types,
                names,
                graph,
                name,
                value,
            ),
            ExtendedTypeView::Interface(value) => merged_interface_type(
                m,
                types,
                names,
                graph,
                name,
                value,
            ),
            ExtendedTypeView::Object(value) => merged_object_type(
                m,
                types,
                names,
                graph,
                name,
                value,
            ),
            ExtendedTypeView::Union(value) => merged_union_type(
                m,
                types,
                names,
                graph,
                name,
                value,
            ),
            ExtendedTypeView::Scalar(value) => merged_scalar_type(
                m,
                types,
                names,
                graph,
                name,
                value,
            ),
        }
    }
}

/// Merging the first `n` types of a subgraph.
pub open spec fn merged_types(
    m: MergerView,
    types: TypeEntries,
    names: DirectiveNamesView,
    graph: Text,
    new: TypeEntries,
    n: nat,
) -> (MergerView, TypeEntries)
    decreases n,
{
    if n == 0 {
        (m, types)
    } else {
        let (m1, types1) = merged_types(m, types, names, graph, new, (n - 1) as nat);
        let (name, ty) = new[n - 1];
        merged_type(m1, types1, names, graph, name, ty)
    }
}

/// Whether a file of the given number is among the sources.
pub open spec fn has_source(sources: Seq<SourceFileView>, id: u64) -> bool {
    exists|i: int| 0 <= i < sources.len() && (#[trigger] sources[i]).id == id
}

/// The sources with the first `n` new ones, but for those whose number is taken.
pub open spec fn merged_sources(
    merged: Seq<SourceFileView>,
    new: Seq<SourceFileView>,
    n: nat,
) -> Seq<SourceFileView>
    decreases n,
{
    if n == 0 {
        merged
    } else {
        let before = merged_sources(merged, new, (n - 1) as nat);
        if has_source(before, new[n - 1].id) {
            before
        } else {
            before.push(new[n - 1])
        }
    }
}

/// Merging a subgraph into the supergraph.
pub open spec fn merged_subgraph(
    m: MergerView,
    supergraph: SchemaView,
    subgraph: SubgraphView,
    graph: Text,
) -> (MergerView, SchemaView) {
    let new = subgraph.schema.schema;
    let m1 = after_description(
        m,
        supergraph.schema_definition.description,
        new.schema_definition.description,
    );
    let (m2, types) = merged_types(
        m1,
        supergraph.types,
        federation_names(subgraph.schema.metadata),
        graph,
        new.types,
        new.types.len(),
    );
    (
        m2,
        SchemaView {
            sources: merged_sources(supergraph.sources, new.sources, new.sources.len()),
            schema_definition: merged_schema_definition(
                supergraph.schema_definition,
                new.schema_definition,
            ),
            directive_definitions: merged_definitions(
                supergraph.directive_definitions,
                new.directive_definitions,
                new.directive_definitions.len(),
            ),
            types,
        },
    )
}

/// Merging the first `n` subgraphs into the supergraph.
pub open spec fn merged_subgraphs(
    m: MergerView,
    supergraph: SchemaView,
    graphs: Seq<(SubgraphView, Text)>,
    n: nat,
) -> (MergerView, SchemaView)
    decreases n,
{
    if n == 0 {
        (m, supergraph)
    } else {
        let (m1, s1) = merged_subgraphs(m, supergraph, graphs, (n - 1) as nat);
        merged_subgraph(m1, s1, graphs[n - 1].0, graphs[n - 1].1)
    }
}

/// The key directives of the objects and interfaces of a subgraph that are merged all name their
/// fields.
pub open spec fn valid_keys(subgraph: SubgraphView) -> bool {
    let key = federation_names(subgraph.schema.metadata).key;
    let types = subgraph.schema.schema.types;
    forall|i: int|
        0 <= i < types.len() && !type_is_built_in(types[i].1) && mergeable_type(types[i].0)
            ==> match (#[trigger] types[i]).1 {
            ExtendedTypeView::Object(o) => keys_have_fields(directives_named(o.directives, key)),
            ExtendedTypeView::Interface(o) => keys_have_fields(
                directives_named(o.directives, key),
            ),
            _ => true,
        }
}

fn merge_sources(merged: &mut Vec<SourceFile>, new: &Vec<SourceFile>)
    ensures
        final(merged).deep_view() == merged_sources(
            old(merged).deep_view(),
            new.deep_view(),
            new.deep_view().len(),
        ),
{
    let mut i: usize = 0;
    while i < new.len()
        invariant
            i <= new.len(),
            merged.deep_view() == merged_sources(
                old(merged).deep_view(),
                new.deep_view(),
                i as nat,
            ),
        decreases new.len() - i,
    {
        let ghost before = merged.deep_view();
        let source = &new[i];
        assert(new.deep_view()[i as int] == source.deep_view());
        let mut found = false;
        let mut j: usize = 0;
        while j < merged.len()
            invariant
                j <= merged.len(),
                before == merged.deep_view(),
                found == exists|k: int|
                    0 <= k < j && (#[trigger] merged.deep_view()[k]).id == source.id,
            decreases merged.len() - j,
        {
            assert(merged.deep_view()[j as int] == merged@[j as int].deep_view());
            if merged[j].id == source.id {
                found = true;
            }
            j += 1;
        }
        if !found {
            merged.push(source.clone());
            assert(merged.deep_view() =~= before.push(source.deep_view()));
        }
        i += 1;
    }
}

fn choose_root(merged: &mut Option<String>, new: &Option<String>)
    ensures
        final(merged).deep_view() == merged_root(old(merged).deep_view(), new.deep_view()),
{
    if new.is_some() {
        *merged = clone_text(new);
    }
}

impl Merger {
    /// Merges the schema definition of a subgraph.
    pub fn merge_schema(
        &mut self,
        supergraph_schema: &mut Schema,
        subgraph: &ValidFederationSubgraph,
    )
        ensures
            final(self).deep_view() == after_description(
                old(self).deep_view(),
                old(supergraph_schema).deep_view().schema_definition.description,
                subgraph.deep_view().schema.schema.schema_definition.description,
            ),
            final(supergraph_schema).deep_view() == (SchemaView {
                schema_definition: merged_schema_definition(
                    old(supergraph_schema).deep_view().schema_definition,
                    subgraph.deep_view().schema.schema.schema_definition,
                ),
                ..old(supergraph_schema).deep_view()
            }),
    {
        let subgraph_def = &subgraph.schema.schema.schema_definition;
        self.merge_descriptions(
            &mut supergraph_schema.schema_definition.description,
            &subgraph_def.description,
        );
        choose_root(&mut supergraph_schema.schema_definition.query, &subgraph_def.query);
        choose_root(&mut supergraph_schema.schema_definition.mutation, &subgraph_def.mutation);
        choose_root(
            &mut supergraph_schema.schema_definition.subscription,
            &subgraph_def.subscription,
        );
    }

    fn merge_types(
        &mut self,
        types: &mut NameMap<ExtendedType>,
        relevant_directives: &DirectiveNames,
        subgraph: &ValidFederationSubgraph,
        subgraph_name: &EnumValue,
    )
        requires
            valid_keys(subgraph.deep_view()),
            relevant_directives.deep_view() == federation_names(
                subgraph.deep_view().schema.metadata,
            ),
        ensures
            (final(self).deep_view(), final(types).deep_view()) == merged_types(
                old(self).deep_view(),
                old(types).deep_view(),
                relevant_directives.deep_view(),
                subgraph_name.deep_view(),
                subgraph.deep_view().schema.schema.types,
                subgraph.deep_view().schema.schema.types.len(),
            ),
    {
        let subgraph_types = &subgraph.schema.schema.types;
        let ghost new = subgraph_types.deep_view();
        let mut i: usize = 0;
        while i < subgraph_types.len()
            invariant
                i <= new.len(),
                new == subgraph_types.deep_view(),
                subgraph_types == subgraph.schema.schema.types,
                valid_keys(subgraph.deep_view()),
                relevant_directives.deep_view() == federation_names(
                    subgraph.deep_view().schema.metadata,
                ),
                (self.deep_view(), types.deep_view()) == merged_types(
                    old(self).deep_view(),
                    old(types).deep_view(),
                    relevant_directives.deep_view(),
                    subgraph_name.deep_view(),
                    new,
                    i as nat,
                ),
            decreases new.len() - i,
        {
            let ty_name = subgraph_types.key_at(i);
            let ty = subgraph_types.value_at(i);
            assert(new[i as int] == (ty_name@, ty.deep_view()));
            if !ty.is_built_in() && is_mergeable_type(ty_name) {
                let name = ty_name.clone();
                match ty {
                    ExtendedType::Enum(value) => self.merge_enum_type(
                        types,
                        relevant_directives,
                        subgraph_name,
                        name,
                        value,
                    ),
                    ExtendedType::InputObject(value) => self.merge_input_object_type(
                        types,
                        relevant_directives,
                        subgraph_name,
                        name,
                        value,
                    ),
                    ExtendedType::Interface(value) => self.merge_interface_type(
                        types,
                        relevant_directives,
                        subgraph_name,
                        name,
                        value,
                    ),
                    ExtendedType::Object(value) => self.merge_object_type(
                        types,
                        relevant_directives,
                        subgraph_name,
                        name,
                        value,
                    ),
                    ExtendedType::Union(value) => self.merge_union_type(
                        types,
                        relevant_directives,
                        subgraph_name,
                        name,
                        value,
                    ),
                    ExtendedType::Scalar(value) => self.merge_scalar_type(
                        types,
                        relevant_directives,
                        subgraph_name,
                        name,
                        value,
                    ),
                }
            }
            i += 1;
        }
    }

    fn merge_subgraph(
        &mut self,
        supergraph: &mut Schema,
        subgraph: &ValidFederationSubgraph,
        subgraph_name: &EnumValue,
    )
        requires
            valid_keys(subgraph.deep_view()),
        ensures
            (final(self).deep_view(), final(supergraph).deep_view()) == merged_subgraph(
                old(self).deep_view(),
                old(supergraph).deep_view(),
                subgraph.deep_view(),
                subgraph_name.deep_view(),
            ),
    {
        merge_sources(&mut supergraph.sources, &subgraph.schema.schema.sources);
        self.merge_schema(supergraph, subgraph);
        let relevant_directives = DirectiveNames::for_metadata(&subgraph.schema.metadata);
        self.merge_types(&mut supergraph.types, &relevant_directives, subgraph, subgraph_name);
        let definitions = &subgraph.schema.schema.directive_definitions;
        let ghost new = definitions.deep_view();
        let ghost start = supergraph.deep_view();
        let mut i: usize = 0;
        while i < definitions.len()
            invariant
                i <= new.len(),
                new == definitions.deep_view(),
                supergraph.deep_view() == (SchemaView {
                    directive_definitions: supergraph.deep_view().directive_definitions,
                    ..start
                }),
                supergraph.deep_view().directive_definitions == merged_definitions(
                    start.directive_definitions,
                    new,
                    i as nat,
                ),
            decreases new.len() - i,
        {
            let directive = definitions.value_at(i);
            if is_executable_directive(directive) {
                merge_directive(&mut supergraph.directive_definitions, directive);
            }
            i += 1;
        }
    }
}

/// A field of an interface as an object gets it that lacks it: belonging to no particular subgraph.
pub open spec fn interface_object_field(field: FieldView) -> FieldView {
    FieldView {
        directives: field.directives.filter(|d: DirectiveView| d.name != "join__field"@).push(
            DirectiveView { name: "join__field"@, arguments: Seq::empty() },
        ),
        ..field
    }
}

/// The fields with the first `n` of an interface, but for those that are there already.
pub open spec fn with_interface_fields(
    fields: Entries<FieldView>,
    interface_fields: Entries<FieldView>,
    n: nat,
) -> Entries<FieldView>
    decreases n,
{
    if n == 0 {
        fields
    } else {
        let (name, field) = interface_fields[n - 1];
        put_if_absent(
            with_interface_fields(fields, interface_fields, (n - 1) as nat),
            name,
            interface_object_field(field),
        )
    }
}

/// The types with the fields of an interface added to those of the first `n` implementers that
/// are objects.
pub open spec fn with_implementer_fields(
    types: TypeEntries,
    implementers: Seq<Text>,
    fields: Entries<FieldView>,
    n: nat,
) -> TypeEntries
    decreases n,
{
    if n == 0 {
        types
    } else {
        let before = with_implementer_fields(types, implementers, fields, (n - 1) as nat);
        match value_of(before, implementers[n - 1]) {
            Some(ExtendedTypeView::Object(o)) => put(
                before,
                implementers[n - 1],
                ExtendedTypeView::Object(
                    ObjectView {
                        fields: with_interface_fields(o.fields, fields, fields.len()),
                        ..o
                    },
                ),
            ),
            _ => before,
        }
    }
}

/// The message for an interface that is not there.
pub open spec fn interface_not_found(name: Text) -> Text {
    "Interface "@ + name + " not found"@
}

/// The types after the first `n` interface objects gave their fields to the implementers, and
/// the error where one of them is no interface.
pub open spec fn with_interface_object_fields(
    types: TypeEntries,
    implementers_map: Entries<ImplementersView>,
    interface_objects: Seq<Text>,
    n: nat,
) -> (Option<Text>, TypeEntries)
    decreases n,
{
    if n == 0 {
        (None, types)
    } else {
        let (error, before) = with_interface_object_fields(
            types,
            implementers_map,
            interface_objects,
            (n - 1) as nat,
        );
        let name = interface_objects[n - 1];
        if error is Some {
            (error, before)
        } else {
            match value_of(before, name) {
                Some(ExtendedTypeView::Interface(interface)) => (
                    None,
                    match value_of(implementers_map, name) {
                        Some(implementers) => with_implementer_fields(
                            before,
                            implementers.objects + implementers.interfaces,
                            interface.fields,
                            implementers.objects.len() + implementers.interfaces.len(),
                        ),
                        None => before,
                    },
                ),
                _ => (Some(interface_not_found(name)), before),
            }
        }
    }
}

fn without_join_field(directives: &Vec<Directive>) -> (r: Vec<Directive>)
    ensures
        r.deep_view() == directives.deep_view().filter(
            |d: DirectiveView| d.name != "join__field"@,
        ),
{
    let ghost all = directives.deep_view();
    let ghost kept = |d: DirectiveView| d.name != "join__field"@;
    let mut r: Vec<Directive> = Vec::new();
    let mut i: usize = 0;
    assert(r.deep_view() =~= all.take(0).filter(kept)) by {
        reveal(Seq::filter);
    }
    while i < directives.len()
        invariant
            i <= directives.len(),
            all == directives.deep_view(),
            kept == (|d: DirectiveView| d.name != "join__field"@),
            r.deep_view() == all.take(i as int).filter(kept),
        decreases directives.len() - i,
    {
        let ghost before = r.deep_view();
        assert(all.take(i + 1).drop_last() =~= all.take(i as int));
        assert(all.take(i + 1).last() == directives@[i as int].deep_view());
        assert(all.take(i + 1).filter(kept) == (if kept(all[i as int]) {
            before.push(all[i as int])
        } else {
            before
        })) by {
            reveal(Seq::filter);
        }
        if !same(&directives[i].name, "join__field") {
            r.push(directives[i].clone());
            assert(r.deep_view() =~= before.push(all[i as int]));
        }
        i += 1;
    }
    assert(all.take(i as int) =~= all);
    r
}

fn add_interface_fields(
    fields: &mut NameMap<FieldDefinition>,
    interface_fields: &NameMap<FieldDefinition>,
)
    ensures
        final(fields).deep_view() == with_interface_fields(
            old(fields).deep_view(),
            interface_fields.deep_view(),
            interface_fields.deep_view().len(),
        ),
{
    let ghost all = interface_fields.deep_view();
    let mut i: usize = 0;
    while i < interface_fields.len()
        invariant
            i <= all.len(),
            all == interface_fields.deep_view(),
            fields.deep_view() == with_interface_fields(old(fields).deep_view(), all, i as nat),
        decreases all.len() - i,
    {
        let field_name = interface_fields.key_at(i);
        let mut field_def = interface_fields.value_at(i).clone();
        assert(all[i as int] == (field_name@, field_def.deep_view()));
        let ghost original = field_def.deep_view();
        let mut directives = without_join_field(&field_def.directives);
        let ghost kept = directives.deep_view();
        let arguments: Vec<Argument> = Vec::new();
        assert(arguments.deep_view() =~= Seq::empty());
        directives.push(Directive { name: "join__field".to_owned(), arguments });
        assert(directives.deep_view() =~= kept.push(
            DirectiveView { name: "join__field"@, arguments: Seq::empty() },
        ));
        field_def.directives = directives;
        assert(field_def.deep_view() =~= interface_object_field(original));
        fields.insert_if_absent(field_name.clone(), field_def);
        i += 1;
    }
}

fn add_implementer_fields(
    types: &mut NameMap<ExtendedType>,
    implementer: &str,
    fields: &NameMap<FieldDefinition>,
)
    ensures
        final(types).deep_view() == with_implementer_fields(
            old(types).deep_view(),
            seq![implementer@],
            fields.deep_view(),
            1,
        ),
{
    proof {
        reveal_with_fuel(with_implementer_fields, 2);
        lemma_put_same(types.deep_view(), implementer@);
    }
    if let Some(ty) = types.get_mut(implementer) {
        if let ExtendedType::Object(obj) = ty {
            add_interface_fields(&mut obj.fields, fields);
        }
    }
}

impl Merger {
    /// Gives the fields of each interface that some subgraph has as an object to the objects that
    /// implement the interface and lack them.
    pub fn add_interface_object_fields(
        &mut self,
        types: &mut NameMap<ExtendedType>,
        implementers_map: &NameMap<Implementers>,
    ) -> (r: Result<(), MergeFailure>)
        ensures
            final(self).deep_view() == old(self).deep_view(),
            ({
                let (error, result) = with_interface_object_fields(
                    old(types).deep_view(),
                    implementers_map.deep_view(),
                    old(self).deep_view().interface_objects,
                    old(self).deep_view().interface_objects.len(),
                );
                &&& final(types).deep_view() == result
                &&& match r {
                    Ok(_) => error is None,
                    Err(failure) => {
                        &&& error is Some
                        &&& failure.schema is None
                        &&& failure.errors.deep_view() == seq![error->0]
                        &&& failure.composition_hints.deep_view() == old(
                            self,
                        ).deep_view().composition_hints
                    },
                }
            }),
    {
        let ghost names = self.deep_view().interface_objects;
        let ghost map = implementers_map.deep_view();
        let mut n: usize = 0;
        while n < self.interface_objects.len()
            invariant
                n <= names.len(),
                *self == *old(self),
                names == self.deep_view().interface_objects,
                map == implementers_map.deep_view(),
                with_interface_object_fields(old(types).deep_view(), map, names, n as nat) == (
                    None::<Text>,
                    types.deep_view(),
                ),
            decreases names.len() - n,
        {
            let name = self.interface_objects.at(n);
            let ghost before = types.deep_view();
            let fields = match types.get(name) {
                Some(ExtendedType::Interface(intf_def)) => {
                    assert(clone_keeps_view::<FieldDefinition>());
                    intf_def.fields.clone()
                },
                _ => {
                    let errors: Vec<String> = vec![joined3("Interface ", name, " not found")];
                    assert(errors.deep_view() =~= seq![interface_not_found(name@)]);
                    let composition_hints = self.composition_hints.clone();
                    assert(composition_hints.deep_view() =~= self.composition_hints.deep_view());
                    proof {
                        lemma_error_stays(old(types).deep_view(), map, names, n as nat + 1);
                    }
                    return Err(MergeFailure { schema: None, errors, composition_hints });
                },
            };
            if let Some(implementers) = implementers_map.get(name) {
                let ghost objects = implementers.objects.deep_view();
                let ghost all = objects + implementers.interfaces.deep_view();
                let mut k: usize = 0;
                while k < implementers.objects.len()
                    invariant
                        k <= objects.len(),
                        objects == implementers.objects.deep_view(),
                        all == objects + implementers.interfaces.deep_view(),
                        types.deep_view() == with_implementer_fields(
                            before,
                            all,
                            fields.deep_view(),
                            k as nat,
                        ),
                    decreases objects.len() - k,
                {
                    add_implementer_fields(types, implementers.objects.at(k), &fields);
                    proof {
                        reveal_with_fuel(with_implementer_fields, 2);
                    }
                    k += 1;
                }
                let mut j: usize = 0;
                while j < implementers.interfaces.len()
                    invariant
                        j <= implementers.interfaces.deep_view().len(),
                        objects == implementers.objects.deep_view(),
                        all == objects + implementers.interfaces.deep_view(),
                        types.deep_view() == with_implementer_fields(
                            before,
                            all,
                            fields.deep_view(),
                            (objects.len() + j) as nat,
                        ),
                    decreases implementers.interfaces.deep_view().len() - j,
                {
                    add_implementer_fields(types, implementers.interfaces.at(j), &fields);
                    proof {
                        reveal_with_fuel(with_implementer_fields, 2);
                    }
                    j += 1;
                }
            }
            n += 1;
        }
        Ok(())
    }
}

proof fn lemma_error_stays(
    types: TypeEntries,
    map: Entries<ImplementersView>,
    names: Seq<Text>,
    n: nat,
)
    requires
        n <= names.len(),
        with_interface_object_fields(types, map, names, n).0 is Some,
    ensures
        with_interface_object_fields(types, map, names, names.len())
            == with_interface_object_fields(types, map, names, n),
    decreases names.len() - n,
{
    if n < names.len() {
        lemma_error_stays(types, map, names, n + 1);
    }
}

/// The result of merging subgraphs, in the order of their names, into a supergraph that starts
/// from `base`: what the merger has collected at the end, and the outcome.
pub open spec fn merge_result(
    m: MergerView,
    base: SchemaView,
    subgraphs: Seq<SubgraphView>,
) -> (MergerView, MergeOutcome) {
    let sorted = sorted_by_name(subgraphs);
    let values = choose_values(m.errors, sorted, sorted.len());
    if values.errors.len() > 0 {
        (
            MergerView { errors: values.errors, ..m },
            MergeOutcome::Failure {
                partial: None,
                errors: values.errors,
                hints: m.composition_hints,
            },
        )
    } else {
        let (merged, stubs) = merged_subgraphs(
            MergerView { errors: Seq::empty(), ..m },
            with_join_feature(with_link_feature(base), values.chosen),
            values.chosen,
            values.chosen.len(),
        );
        (merged, completed(merged, stubs))
    }
}

/// The outcome once all subgraphs are merged: the objects get the fields of their interface
/// objects, and the inaccessible feature is added where something is marked.
pub open spec fn completed(merged: MergerView, stubs: SchemaView) -> MergeOutcome {
    let (error, types) = with_interface_object_fields(
        stubs.types,
        implementers_of(stubs.types, stubs.types.len()),
        merged.interface_objects,
        merged.interface_objects.len(),
    );
    let supergraph = SchemaView { types, ..stubs };
    match error {
        Some(message) => MergeOutcome::Failure {
            partial: None,
            errors: seq![message],
            hints: merged.composition_hints,
        },
        None => {
            let schema = if merged.needs_inaccessible {
                with_inaccessible_feature(supergraph)
            } else {
                supergraph
            };
            if merged.errors.len() == 0 {
                MergeOutcome::Success { schema, hints: merged.composition_hints }
            } else {
                MergeOutcome::Failure {
                    partial: Some(schema),
                    errors: merged.errors,
                    hints: merged.composition_hints,
                }
            }
        },
    }
}

fn clone_messages(messages: &Vec<String>) -> (r: Vec<String>)
    ensures
        r.deep_view() == messages.deep_view(),
{
    let r = messages.clone();
    assert(r.deep_view() =~= messages.deep_view());
    r
}

/// The value for a name with the first number behind it that makes it free.
fn numbered_enum_value(enum_values: &NameSet, name: &str) -> (r: EnumValue)
    requires
        name@.len() > 0,
    ensures
        r.deep_view() == numbered_value(
            name@,
            free_number(
                enum_values.deep_view(),
                name@,
                enum_values.deep_view().len(),
                enum_values.deep_view().len(),
            ),
        ),
{
    let ghost taken = enum_values.deep_view();
    proof {
        reveal_strlit("_");
    }
    let mut number: u128 = enum_values.len() as u128;
    let mut tries: usize = enum_values.len();
    loop
        invariant
            name@.len() > 0,
            "_"@.len() == 1,
            taken == enum_values.deep_view(),
            number + tries <= 2 * usize::MAX,
            free_number(taken, name@, taken.len(), taken.len()) == free_number(
                taken,
                name@,
                number as nat,
                tries as nat,
            ),
        decreases tries,
    {
        let value = EnumValue::new(&joined3(name, "_", &decimal_string(number))).unwrap();
        if tries == 0 || !enum_values.contains(value.as_str()) {
            return value;
        }
        number += 1;
        tries -= 1;
    }
}

proof fn lemma_chosen_subgraphs(errors: Seq<Text>, subgraphs: Seq<SubgraphView>, n: nat)
    requires
        n <= subgraphs.len(),
    ensures
        choose_values(errors, subgraphs, n).chosen.len() <= n,
        forall|i: int|
            0 <= i < choose_values(errors, subgraphs, n).chosen.len() ==> subgraphs.contains(
                (#[trigger] choose_values(errors, subgraphs, n).chosen[i]).0,
            ),
    decreases n,
{
    if n > 0 {
        lemma_chosen_subgraphs(errors, subgraphs, (n - 1) as nat);
        let before = choose_values(errors, subgraphs, (n - 1) as nat).chosen;
        let after = choose_values(errors, subgraphs, n).chosen;
        assert(subgraphs[n - 1] == subgraphs[n - 1]);
        assert forall|i: int| 0 <= i < after.len() implies subgraphs.contains(
            (#[trigger] after[i]).0,
        ) by {
            if i < before.len() {
                assert(after[i] == before[i]);
            }
        }
    }
}

proof fn lemma_insert_members(sorted: Seq<SubgraphView>, new: SubgraphView)
    ensures
        insert_by_name(sorted, new).len() == sorted.len() + 1,
        forall|i: int|
            0 <= i < insert_by_name(sorted, new).len() ==> (#[trigger] insert_by_name(
                sorted,
                new,
            )[i]) == new || sorted.contains(insert_by_name(sorted, new)[i]),
    decreases sorted.len(),
{
    let r = insert_by_name(sorted, new);
    if sorted.len() > 0 && !text_lt(new.name, sorted[0].name) {
        let rest = sorted.drop_first();
        lemma_insert_members(rest, new);
        assert forall|i: int| 0 <= i < r.len() implies (#[trigger] r[i]) == new
            || sorted.contains(r[i]) by {
            if i > 0 {
                let inserted = insert_by_name(rest, new);
                assert(r[i] == inserted[i - 1]);
                if inserted[i - 1] != new {
                    let k = choose|k: int| 0 <= k < rest.len() && rest[k] == inserted[i - 1];
                    assert(sorted[k + 1] == r[i]);
                }
            }
        }
    } else if sorted.len() > 0 {
        assert forall|i: int| 0 <= i < r.len() implies (#[trigger] r[i]) == new
            || sorted.contains(r[i]) by {
            if i > 0 {
                assert(sorted[i - 1] == r[i]);
            }
        }
    }
}

proof fn lemma_sorted_members(subgraphs: Seq<SubgraphView>)
    ensures
        sorted_by_name(subgraphs).len() == subgraphs.len(),
        forall|i: int|
            0 <= i < sorted_by_name(subgraphs).len() ==> subgraphs.contains(
                #[trigger] sorted_by_name(subgraphs)[i],
            ),
    decreases subgraphs.len(),
{
    if subgraphs.len() > 0 {
        let rest = subgraphs.drop_last();
        lemma_sorted_members(rest);
        lemma_insert_members(sorted_by_name(rest), subgraphs.last());
        let r = sorted_by_name(subgraphs);
        assert forall|i: int| 0 <= i < r.len() implies subgraphs.contains(#[trigger] r[i]) by {
            if r[i] == subgraphs.last() {
                assert(subgraphs[subgraphs.len() - 1] == r[i]);
            } else {
                let s = sorted_by_name(rest);
                let k = choose|k: int| 0 <= k < s.len() && s[k] == r[i];
                assert(rest.contains(s[k]));
                let j = choose|j: int| 0 <= j < rest.len() && rest[j] == s[k];
                assert(subgraphs[j] == r[i]);
            }
        }
    }
}

impl Merger {
    /// Merges subgraphs into a supergraph that starts from `supergraph`, a schema with nothing but
    /// the definitions that every schema has.
    ///
    /// The key directives of the subgraphs have to name their fields.
    pub fn merge(&mut self, supergraph: Schema, subgraphs: &ValidFederationSubgraphs) -> (r: Result<
        MergeSuccess,
        MergeFailure,
    >)
        requires
            forall|i: int|
                0 <= i < subgraphs.deep_view().len() ==> valid_keys(
                    (#[trigger] subgraphs.deep_view()[i]).1,
                ),
        ensures
            (final(self).deep_view(), outcome(r)) == merge_result(
                old(self).deep_view(),
                supergraph.deep_view(),
                entry_values(subgraphs.deep_view()),
            ),
    {
        let ghost all = entry_values(subgraphs.deep_view());
        let ghost start = self.deep_view();
        let sorted = sort_by_name(subgraphs);
        let ghost order = sorted.deep_view();
        proof {
            lemma_sorted_members(all);
        }
        let mut subgraphs_and_enum_values: Vec<(ValidFederationSubgraph, EnumValue)> = Vec::new();
        let mut enum_values = NameSet::new();
        let mut i: usize = 0;
        assert(subgraphs_and_enum_values.deep_view() =~= Seq::empty());
        while i < sorted.len()
            invariant
                i <= sorted.len(),
                order == sorted.deep_view(),
                ({
                    let values = choose_values(start.errors, order, i as nat);
                    &&& self.deep_view() == (MergerView { errors: values.errors, ..start })
                    &&& enum_values.deep_view() == values.taken
                    &&& subgraphs_and_enum_values.deep_view() == values.chosen
                }),
            decreases sorted.len() - i,
        {
            let subgraph = &sorted[i];
            assert(order[i as int] == subgraph.deep_view());
            let ghost values = choose_values(start.errors, order, i as nat);
            match EnumValue::new(&subgraph.name) {
                Ok(enum_value) => {
                    let enum_value = if enum_values.contains(enum_value.as_str()) {
                        numbered_enum_value(&enum_values, &subgraph.name)
                    } else {
                        enum_value
                    };
                    enum_values.insert(enum_value.to_name());
                    subgraphs_and_enum_values.push((subgraph.clone(), enum_value));
                    assert(subgraphs_and_enum_values.deep_view() =~= values.chosen.push(
                        (subgraph.deep_view(), enum_value.deep_view()),
                    ));
                },
                Err(err) => {
                    self.errors.push(err);
                    assert(self.errors.deep_view() =~= values.errors.push(
                        enum_value_error(subgraph.name@),
                    ));
                },
            }
            i += 1;
        }
        if self.errors.len() != 0 {
            return Err(
                MergeFailure {
                    schema: None,
                    errors: clone_messages(&self.errors),
                    composition_hints: clone_messages(&self.composition_hints),
                },
            );
        }
        assert(self.errors.deep_view() =~= Seq::empty());
        let mut supergraph = supergraph;
        add_core_feature_link(&mut supergraph);
        add_core_feature_join(&mut supergraph, &subgraphs_and_enum_values);
        let ghost m = self.deep_view();
        let ghost stubs = supergraph.deep_view();
        let ghost graphs = subgraphs_and_enum_values.deep_view();
        proof {
            lemma_chosen_subgraphs(start.errors, order, order.len());
            assert forall|k: int| 0 <= k < graphs.len() implies valid_keys(
                (#[trigger] graphs[k]).0,
            ) by {
                assert(order.contains(graphs[k].0));
                let j = choose|j: int| 0 <= j < order.len() && order[j] == graphs[k].0;
                assert(all.contains(order[j]));
                let q = choose|q: int| 0 <= q < all.len() && all[q] == order[j];
                assert(all[q] == subgraphs.deep_view()[q].1);
            }
        }
        let mut n: usize = 0;
        while n < subgraphs_and_enum_values.len()
            invariant
                n <= subgraphs_and_enum_values.len(),
                graphs == subgraphs_and_enum_values.deep_view(),
                forall|k: int| 0 <= k < graphs.len() ==> valid_keys((#[trigger] graphs[k]).0),
                (self.deep_view(), supergraph.deep_view()) == merged_subgraphs(
                    m,
                    stubs,
                    graphs,
                    n as nat,
                ),
            decreases subgraphs_and_enum_values.len() - n,
        {
            let (subgraph, subgraph_name) = &subgraphs_and_enum_values[n];
            assert(graphs[n as int] == (subgraph.deep_view(), subgraph_name.deep_view()));
            self.merge_subgraph(&mut supergraph, subgraph, subgraph_name);
            n += 1;
        }
        let implementers_map = supergraph.implementers_map();
        match self.add_interface_object_fields(&mut supergraph.types, &implementers_map) {
            Ok(_) => {},
            Err(failure) => {
                return Err(failure);
            },
        }
        if self.needs_inaccessible {
            add_core_feature_inaccessible(&mut supergraph);
        }
        if self.errors.len() == 0 {
            Ok(
                MergeSuccess {
                    schema: supergraph,
                    composition_hints: clone_messages(&self.composition_hints),
                },
            )
        } else {
            Err(
                MergeFailure {
                    schema: Some(Box::new(supergraph)),
                    errors: clone_messages(&self.errors),
                    composition_hints: clone_messages(&self.composition_hints),
                },
            )
        }
    }
}

/// A merger that has collected nothing.
pub open spec fn new_merger() -> MergerView {
    MergerView {
        errors: Seq::empty(),
        composition_hints: Seq::empty(),
        needs_inaccessible: false,
        interface_objects: Seq::empty(),
    }
}

/// The outcome of merging subgraphs into a supergraph that starts from what every schema has.
pub open spec fn supergraph_of(subgraphs: Seq<SubgraphView>) -> MergeOutcome {
    merge_result(new_merger(), built_in_schema(BUILT_IN_FILE), subgraphs).1
}

/// Merges the subgraphs of a federation into a supergraph. That succeeds if each of them has a name.
pub fn merge_federation_subgraphs(subgraphs: &ValidFederationSubgraphs) -> (r: Result<
    MergeSuccess,
    MergeFailure,
>)
    requires
        forall|i: int|
            0 <= i < subgraphs.deep_view().len() ==> valid_keys(
                (#[trigger] subgraphs.deep_view()[i]).1,
            ),
    ensures
        outcome(r) == supergraph_of(entry_values(subgraphs.deep_view())),
        r is Ok <==> forall|i: int|
            0 <= i < subgraphs.deep_view().len() ==> (#[trigger] subgraphs.deep_view()[i]).1.name.len()
                > 0,
{
    let base = new_schema(BUILT_IN_FILE);
    proof {
        let schema = base.deep_view();
        let all = entry_values(subgraphs.deep_view());
        assert forall|k: Text| (#[trigger] value_of(schema.types, k)) matches Some(
            ExtendedTypeView::Interface(i),
        ) implies false by {
            lemma_key_index(schema.types, k);
            assert(!(schema.types[key_index(schema.types, k)].1 is Interface));
        }
        law_merge_succeeds_for_named_subgraphs(schema, all);
        assert((forall|i: int| 0 <= i < all.len() ==> (#[trigger] all[i]).name.len() > 0) == (
        forall|i: int|
            0 <= i < subgraphs.deep_view().len() ==> (#[trigger] subgraphs.deep_view()[i]).1.name.len()
                > 0)) by {
            if forall|i: int| 0 <= i < all.len() ==> (#[trigger] all[i]).name.len() > 0 {
                assert forall|i: int|
                    0 <= i < subgraphs.deep_view().len() implies (#[trigger] subgraphs.deep_view()[i]).1.name.len()
                    > 0 by {
                    assert(all[i] == subgraphs.deep_view()[i].1);
                }
            }
        }
    }
    let mut merger = Merger::new();
    merger.merge(base, subgraphs)
}

/// Whether two of the subgraphs have the same name.
pub open spec fn repeats_name(subgraphs: Seq<SubgraphView>, i: int) -> bool {
    exists|j: int| 0 <= j < i && (#[trigger] subgraphs[j]).name == subgraphs[i].name
}

/// Merges subgraphs into a supergraph. Two subgraphs of the same name are an error, and so is one
/// without a name.
pub fn merge_subgraphs(subgraphs: &Vec<ValidFederationSubgraph>) -> (r: Result<
    MergeSuccess,
    MergeFailure,
>)
    requires
        forall|i: int|
            0 <= i < subgraphs.deep_view().len() ==> valid_keys(
                #[trigger] subgraphs.deep_view()[i],
            ),
    ensures
        (forall|i: int|
            0 <= i < subgraphs.deep_view().len() ==> !repeats_name(subgraphs.deep_view(), i))
            ==> outcome(r) == supergraph_of(subgraphs.deep_view()),
        forall|i: int|
            0 <= i < subgraphs.deep_view().len() && #[trigger] repeats_name(
                subgraphs.deep_view(),
                i,
            ) && (forall|j: int| 0 <= j < i ==> !repeats_name(subgraphs.deep_view(), j))
                ==> outcome(r) == (MergeOutcome::Failure {
                partial: None,
                errors: seq![duplicate_subgraph_error(subgraphs.deep_view()[i].name)],
                hints: Seq::empty(),
            }),
        r is Ok <==> forall|i: int|
            0 <= i < subgraphs.deep_view().len() ==> !repeats_name(subgraphs.deep_view(), i) && (
            #[trigger] subgraphs.deep_view()[i]).name.len() > 0,
{
    let ghost all = subgraphs.deep_view();
    let mut federation_subgraphs = ValidFederationSubgraphs::new();
    let mut i: usize = 0;
    assert(federation_subgraphs.deep_view() =~= Seq::new(
        0,
        |k: int| (all[k].name, all[k]),
    ));
    while i < subgraphs.len()
        invariant
            i <= subgraphs.len(),
            all == subgraphs.deep_view(),
            federation_subgraphs.deep_view() == Seq::new(
                i as nat,
                |k: int| (all[k].name, all[k]),
            ),
            forall|j: int| 0 <= j < i ==> !repeats_name(all, j),
        decreases subgraphs.len() - i,
    {
        let ghost before = federation_subgraphs.deep_view();
        assert(all[i as int] == subgraphs@[i as int].deep_view());
        match federation_subgraphs.add(subgraphs[i].clone()) {
            Ok(_) => {
                assert forall|j: int| 0 <= j < i implies (#[trigger] all[j]).name
                    != all[i as int].name by {
                    assert(before[j].0 == all[j].name);
                }
                assert(federation_subgraphs.deep_view() =~= Seq::new(
                    (i + 1) as nat,
                    |k: int| (all[k].name, all[k]),
                ));
            },
            Err(message) => {
                proof {
                    let j = choose|j: int|
                        0 <= j < before.len() && (#[trigger] before[j]).0 == all[i as int].name;
                    assert(all[j].name == all[i as int].name);
                    assert(repeats_name(all, i as int));
                    assert forall|k: int|
                        0 <= k < all.len() && #[trigger] repeats_name(all, k) && (forall|j: int|
                            0 <= j < k ==> !repeats_name(all, j)) implies k == i by {
                        assert(!(k < i));
                        assert(!(i < k));
                    }
                }
                let errors: Vec<String> = vec![message];
                assert(errors.deep_view() =~= seq![message@]);
                let composition_hints: Vec<String> = Vec::new();
                assert(composition_hints.deep_view() =~= Seq::empty());
                return Err(MergeFailure { schema: None, errors, composition_hints });
            },
        }
        i += 1;
    }
    assert(entry_values(federation_subgraphs.deep_view()) =~= all);
    proof {
        let entries = federation_subgraphs.deep_view();
        assert forall|k: int| 0 <= k < all.len() implies #[trigger] entries[k] == (all[k].name, all[k]) by {}
        assert((forall|k: int| 0 <= k < entries.len() ==> (#[trigger] entries[k]).1.name.len() > 0)
            == (forall|k: int| 0 <= k < all.len() ==> (#[trigger] all[k]).name.len() > 0)) by {
            if forall|k: int| 0 <= k < entries.len() ==> (#[trigger] entries[k]).1.name.len() > 0 {
                assert forall|k: int| 0 <= k < all.len() implies (#[trigger] all[k]).name.len()
                    > 0 by {
                    assert(entries[k].1.name.len() > 0);
                }
            }
        }
    }
    merge_federation_subgraphs(&federation_subgraphs)
}

} // verus!
